use infini_jump::level_generator::chunk::ChunkMarker;
use infini_jump::level_generator::perlin_generator::SimplePerlinLevelGenerator;
use infini_jump::level_generator::streaming::{
    focal_chunks, is_in_window, is_kept, is_resident, ChunkRequest, MAX_NEIGHBOR_REACH,
};
use infini_jump::level_generator::{LevelGeneratorPlugin, Seed, DEFAULT_CHUNK_NEIGHBORS};
use noise::{NoiseFn, Perlin};
use std::collections::BTreeSet;

type Plugin = LevelGeneratorPlugin<SimplePerlinLevelGenerator>;

const CELL_WIDTH: i32 = 32;

fn window(center: (i32, i32), radius: i32) -> BTreeSet<(i32, i32)> {
    let mut all = BTreeSet::new();
    for dx in -radius..=radius {
        for dy in -radius..=radius {
            all.insert((center.0 + dx, center.1 + dy));
        }
    }
    all
}

fn coordinates(requests: &Vec<ChunkRequest>) -> BTreeSet<(i32, i32)> {
    requests.iter().map(|request| request.ch_pos).collect()
}

fn markers(coordinates: &BTreeSet<(i32, i32)>) -> Vec<ChunkMarker> {
    coordinates.iter().map(|c| ChunkMarker::new(*c)).collect()
}

/// Carries out a tick on a resident set: removes what the tick removes, adds
/// what it asks for.
fn apply(plugin: &Plugin, seed: &Seed, focal: &Vec<(i32, i32)>, resident: &mut Vec<ChunkMarker>) {
    let plan = plugin.tick(seed, focal, resident);
    for index in plan.despawn.iter().rev() {
        resident.remove(*index);
    }
    for request in &plan.spawn {
        resident.push(ChunkMarker::new(request.ch_pos));
    }
}

fn five_by_five() -> Vec<(i32, i32)> {
    let mut offsets = Vec::new();
    for dx in -2..=2 {
        for dy in -2..=2 {
            offsets.push((dx, dy));
        }
    }
    offsets
}

#[test]
fn default_neighborhood_is_three_by_three() {
    let offsets: BTreeSet<(i32, i32)> = DEFAULT_CHUNK_NEIGHBORS.iter().copied().collect();
    assert_eq!(DEFAULT_CHUNK_NEIGHBORS.len(), 9);
    assert_eq!(offsets, window((0, 0), 1));
    assert_eq!(DEFAULT_CHUNK_NEIGHBORS[0], (-1, 0));
    assert_eq!(DEFAULT_CHUNK_NEIGHBORS[8], (0, 0));
}

#[test]
fn seeded_plugin_holds_seed_and_default_neighborhood() {
    let plugin = Plugin::seeded(42);
    assert_eq!(plugin.seed(), Seed(42));
    assert_eq!(plugin.neighbors().as_slice(), &DEFAULT_CHUNK_NEIGHBORS[..]);
}

#[test]
fn first_pass_fills_the_window() {
    let plugin = Plugin::seeded(42);
    let seed = plugin.seed();
    let requests = plugin.gen_chunks_around_focal_point(&seed, &vec![(0, 0)], &Vec::new());
    assert_eq!(requests.len(), 9);
    assert_eq!(coordinates(&requests), window((0, 0), 1));
    for request in &requests {
        assert_eq!(request.seed, 42);
        assert_eq!(request.start, (request.ch_pos.0 * 16, request.ch_pos.1 * 16));
    }
}

#[test]
fn requests_come_in_the_order_of_the_neighborhood() {
    let plugin = Plugin::seeded(1);
    let requests = plugin.gen_chunks_around_focal_point(&Seed(1), &vec![(0, 0)], &Vec::new());
    let order: Vec<(i32, i32)> = requests.iter().map(|request| request.ch_pos).collect();
    assert_eq!(order, DEFAULT_CHUNK_NEIGHBORS.to_vec());
}

#[test]
fn second_pass_generates_nothing() {
    let plugin = Plugin::seeded(42);
    let seed = plugin.seed();
    let focal = vec![(100, -100)];
    let first = plugin.gen_chunks_around_focal_point(&seed, &focal, &Vec::new());
    let resident = markers(&coordinates(&first));
    for offset in DEFAULT_CHUNK_NEIGHBORS {
        assert!(is_resident(&resident, (offset.0, -1 + offset.1)));
    }
    let second = plugin.gen_chunks_around_focal_point(&seed, &focal, &resident);
    assert!(second.is_empty());
    assert!(plugin.despawn_chunks_around_focal_point(&focal, &resident).is_empty());
}

#[test]
fn resident_chunks_are_not_generated_again() {
    let plugin = Plugin::seeded(42);
    let resident = vec![ChunkMarker::new((0, 0)), ChunkMarker::new((1, 1)), ChunkMarker::new((9, 9))];
    let requests = plugin.gen_chunks_around_focal_point(&Seed(5), &vec![(0, 0)], &resident);
    let mut expected = window((0, 0), 1);
    expected.remove(&(0, 0));
    expected.remove(&(1, 1));
    assert_eq!(requests.len(), 7);
    assert_eq!(coordinates(&requests), expected);
}

#[test]
fn scenario_walk_one_chunk_along_x() {
    let plugin = Plugin::seeded(42);
    let seed = plugin.seed();
    let mut resident: Vec<ChunkMarker> = Vec::new();

    let start = vec![(0, 0)];
    assert_eq!(focal_chunks(&start), vec![(0, 0)]);
    let plan = plugin.tick(&seed, &start, &resident);
    assert_eq!(plan.spawn.len(), 9);
    assert!(plan.despawn.is_empty());
    assert_eq!(coordinates(&plan.spawn), window((0, 0), 1));
    apply(&plugin, &seed, &start, &mut resident);
    assert_eq!(resident.len(), 9);

    let moved = vec![(16 * CELL_WIDTH, 0)];
    assert_eq!(focal_chunks(&moved), vec![(1, 0)]);
    let plan = plugin.tick(&seed, &moved, &resident);
    let expected_new: BTreeSet<(i32, i32)> = [(2, -1), (2, 0), (2, 1)].into_iter().collect();
    assert_eq!(plan.spawn.len(), 3);
    assert_eq!(coordinates(&plan.spawn), expected_new);
    let removed: BTreeSet<(i32, i32)> =
        plan.despawn.iter().map(|index| resident[*index].ch_pos).collect();
    let expected_removed: BTreeSet<(i32, i32)> = [(-1, -1), (-1, 0), (-1, 1)].into_iter().collect();
    assert_eq!(plan.despawn.len(), 3);
    assert_eq!(removed, expected_removed);

    apply(&plugin, &seed, &moved, &mut resident);
    assert_eq!(resident.len(), 9);
    let now: BTreeSet<(i32, i32)> = resident.iter().map(|marker| marker.ch_pos).collect();
    assert_eq!(now, window((1, 0), 1));
    for marker in &resident {
        assert!((0..=2).contains(&marker.ch_pos.0));
        assert!((-1..=1).contains(&marker.ch_pos.1));
    }
}

#[test]
fn scenario_chunks_hold_the_noise_of_the_seed() {
    let plugin = Plugin::seeded(42);
    let seed = plugin.seed();
    let perlin = Perlin::new(seed.0);
    let plan = plugin.tick(&seed, &vec![(0, 0)], &Vec::new());
    let mut tiles = 0;
    for request in &plan.spawn {
        let cells = Plugin::sample_cells(request).unwrap();
        let columns: Vec<Vec<u64>> = cells
            .iter()
            .map(|column| {
                column
                    .iter()
                    .map(|c| perlin.get([c.0 as f64 / 12.5, c.1 as f64 / 12.5]).to_bits())
                    .collect()
            })
            .collect();
        let spawn = Plugin::spawn_chunk(request, columns).unwrap();
        assert_eq!(spawn.marker.ch_pos, request.ch_pos);
        for tile in &spawn.chunk.data {
            let value = perlin.get([tile.pos.0 as f64 / 12.5, tile.pos.1 as f64 / 12.5]);
            assert!(value > [0.2, 0.4, 0.6, 0.8][tile.z_index as usize]);
        }
        tiles += spawn.chunk.data.len();
    }
    assert!(tiles > 0);
}

#[test]
fn eviction_removes_what_is_outside_the_window() {
    let plugin = Plugin::seeded(0);
    let resident = vec![
        ChunkMarker::new((0, 0)),
        ChunkMarker::new((5, 5)),
        ChunkMarker::new((1, -1)),
        ChunkMarker::new((2, 0)),
        ChunkMarker::new((-1, 1)),
        ChunkMarker::new((0, -2)),
    ];
    let evicted = plugin.despawn_chunks_around_focal_point(&vec![(10, 10)], &resident);
    assert_eq!(evicted, vec![1, 3, 5]);
}

#[test]
fn eviction_lists_every_copy_of_a_coordinate() {
    let plugin = Plugin::seeded(0);
    let resident =
        vec![ChunkMarker::new((7, 7)), ChunkMarker::new((0, 0)), ChunkMarker::new((7, 7))];
    let evicted = plugin.despawn_chunks_around_focal_point(&vec![(0, 0)], &resident);
    assert_eq!(evicted, vec![0, 2]);
}

#[test]
fn eviction_after_a_step_along_x_for_every_resident_chunk() {
    let plugin = Plugin::seeded(0);
    let resident = markers(&window((0, 0), 3));
    let evicted = plugin.despawn_chunks_around_focal_point(&vec![(512 + 17, 40)], &resident);
    for (index, marker) in resident.iter().enumerate() {
        let outside = (marker.ch_pos.0 - 1).abs() > 1 || marker.ch_pos.1.abs() > 1;
        assert_eq!(evicted.contains(&index), outside, "chunk {:?}", marker.ch_pos);
    }
    assert_eq!(evicted.len(), 49 - 9);
    assert!(evicted.windows(2).all(|pair| pair[0] < pair[1]));
}

#[test]
fn without_focal_point_both_passes_do_nothing() {
    let plugin = Plugin::seeded(42);
    let resident = vec![ChunkMarker::new((0, 0)), ChunkMarker::new((100, 100))];
    let none: Vec<(i32, i32)> = Vec::new();
    assert!(plugin.gen_chunks_around_focal_point(&Seed(1), &none, &resident).is_empty());
    assert!(plugin.despawn_chunks_around_focal_point(&none, &resident).is_empty());
    let plan = plugin.tick(&Seed(1), &none, &resident);
    assert!(plan.spawn.is_empty());
    assert!(plan.despawn.is_empty());
}

#[test]
fn any_focal_point_keeps_a_chunk() {
    let plugin = Plugin::seeded(42);
    let focal = vec![(0, 0), (512 * 10, 0)];
    let mut resident: Vec<ChunkMarker> = Vec::new();
    apply(&plugin, &Seed(42), &focal, &mut resident);
    let now: BTreeSet<(i32, i32)> = resident.iter().map(|marker| marker.ch_pos).collect();
    let mut expected = window((0, 0), 1);
    expected.extend(window((10, 0), 1));
    assert_eq!(resident.len(), 18);
    assert_eq!(now, expected);
    assert!(plugin.despawn_chunks_around_focal_point(&focal, &resident).is_empty());
    let evicted = plugin.despawn_chunks_around_focal_point(&vec![(512 * 10, 0)], &resident);
    assert_eq!(evicted.len(), 9);
    for index in evicted {
        assert!(resident[index].ch_pos.0 <= 1);
    }
}

#[test]
fn overlapping_windows_ask_for_a_chunk_once() {
    let plugin = Plugin::seeded(42);
    let focal = vec![(0, 0), (512, 0), (0, 0)];
    let requests = plugin.gen_chunks_around_focal_point(&Seed(42), &focal, &Vec::new());
    let mut expected = window((0, 0), 1);
    expected.extend(window((1, 0), 1));
    assert_eq!(requests.len(), 12);
    assert_eq!(coordinates(&requests), expected);
}

#[test]
fn tick_never_spawns_and_despawns_the_same_coordinate() {
    let plugin = Plugin::seeded(42);
    let mut resident: Vec<ChunkMarker> = Vec::new();
    let mut x = -2000;
    let mut y = 700;
    for step in 0..60 {
        let focal = vec![(x, y), (y * 3, x - 100)];
        let plan = plugin.tick(&Seed(step), &focal, &resident);
        for request in &plan.spawn {
            for index in &plan.despawn {
                assert_ne!(request.ch_pos, resident[*index].ch_pos);
            }
            assert_eq!(request.seed, step);
        }
        apply(&plugin, &Seed(step), &focal, &mut resident);
        let plan = plugin.tick(&Seed(step), &focal, &resident);
        assert!(plan.spawn.is_empty());
        assert!(plan.despawn.is_empty());
        x += 301;
        y -= 173;
    }
}

#[test]
fn reseed_does_not_touch_resident_chunks() {
    let plugin = Plugin::seeded(42);
    let mut seed = plugin.seed();
    let focal = vec![(0, 0)];
    let mut resident: Vec<ChunkMarker> = Vec::new();
    apply(&plugin, &seed, &focal, &mut resident);
    seed.reseed(7);
    assert_eq!(seed, Seed(7));
    let plan = plugin.tick(&seed, &focal, &resident);
    assert!(plan.spawn.is_empty());
    assert!(plan.despawn.is_empty());
    let plan = plugin.tick(&seed, &vec![(512, 0)], &resident);
    assert_eq!(plan.spawn.len(), 3);
    for request in &plan.spawn {
        assert_eq!(request.seed, 7);
    }
}

#[test]
fn reset_seed_keeps_the_seed_without_trigger() {
    let mut seed = Seed(1234);
    Plugin::reset_seed(&mut seed, false);
    assert_eq!(seed, Seed(1234));
}

#[test]
fn reset_seed_draws_new_seeds_on_trigger() {
    let mut seen = BTreeSet::new();
    let mut seed = Seed(0);
    for _ in 0..16 {
        Plugin::reset_seed(&mut seed, true);
        seen.insert(seed.0);
    }
    assert!(seen.len() > 1);
}

#[test]
fn default_seed_is_zero() {
    assert_eq!(Seed::default(), Seed(0));
}

#[test]
fn wider_neighborhood_needs_no_other_logic() {
    let plugin = Plugin::seeded(3).with_neighbors(five_by_five()).unwrap();
    assert_eq!(plugin.seed(), Seed(3));
    assert_eq!(plugin.neighbors().len(), 25);
    let mut resident: Vec<ChunkMarker> = Vec::new();
    apply(&plugin, &Seed(3), &vec![(-1, -1)], &mut resident);
    let now: BTreeSet<(i32, i32)> = resident.iter().map(|marker| marker.ch_pos).collect();
    assert_eq!(now, window((-1, -1), 2));
    apply(&plugin, &Seed(3), &vec![(-1, 511)], &mut resident);
    let now: BTreeSet<(i32, i32)> = resident.iter().map(|marker| marker.ch_pos).collect();
    assert_eq!(now, window((-1, 0), 2));
    assert_eq!(resident.len(), 25);
}

#[test]
fn lopsided_neighborhood_is_taken_as_it_is() {
    let plugin = Plugin::seeded(3).with_neighbors(vec![(2, 0), (0, 0), (2, 0)]).unwrap();
    let requests = plugin.gen_chunks_around_focal_point(&Seed(3), &vec![(0, 0)], &Vec::new());
    let order: Vec<(i32, i32)> = requests.iter().map(|request| request.ch_pos).collect();
    assert_eq!(order, vec![(2, 0), (0, 0)]);
    let resident = vec![ChunkMarker::new((2, 0)), ChunkMarker::new((-2, 0)), ChunkMarker::new((1, 0))];
    assert_eq!(plugin.despawn_chunks_around_focal_point(&vec![(0, 0)], &resident), vec![1, 2]);
}

#[test]
fn empty_neighborhood_keeps_nothing() {
    let plugin = Plugin::seeded(3).with_neighbors(Vec::new()).unwrap();
    let resident = vec![ChunkMarker::new((0, 0))];
    assert!(plugin.gen_chunks_around_focal_point(&Seed(3), &vec![(0, 0)], &resident).is_empty());
    assert_eq!(plugin.despawn_chunks_around_focal_point(&vec![(0, 0)], &resident), vec![0]);
}

#[test]
fn neighborhood_out_of_reach_is_refused() {
    assert!(Plugin::seeded(0).with_neighbors(vec![(MAX_NEIGHBOR_REACH, -MAX_NEIGHBOR_REACH)]).is_some());
    assert!(Plugin::seeded(0).with_neighbors(vec![(0, 0), (MAX_NEIGHBOR_REACH + 1, 0)]).is_none());
    assert!(Plugin::seeded(0).with_neighbors(vec![(0, -MAX_NEIGHBOR_REACH - 1)]).is_none());
    assert!(Plugin::seeded(0).with_neighbors(vec![(i32::MIN, i32::MAX)]).is_none());
}

#[test]
fn farthest_neighborhood_at_the_edge_of_the_world() {
    let reach = MAX_NEIGHBOR_REACH;
    let plugin = Plugin::seeded(0).with_neighbors(vec![(reach, reach), (-reach, -reach)]).unwrap();
    let focal = vec![(i32::MAX, i32::MAX), (i32::MIN, i32::MIN)];
    let requests = plugin.gen_chunks_around_focal_point(&Seed(0), &focal, &Vec::new());
    let order: Vec<(i32, i32)> = requests.iter().map(|request| request.ch_pos).collect();
    assert_eq!(
        order,
        vec![
            (4194303 + reach, 4194303 + reach),
            (4194303 - reach, 4194303 - reach),
            (-4194304 + reach, -4194304 + reach),
            (-4194304 - reach, -4194304 - reach),
        ]
    );
    assert_eq!(requests[3].start, ((-4194304 - reach) * 16, (-4194304 - reach) * 16));
}

#[test]
fn window_membership() {
    let offsets = DEFAULT_CHUNK_NEIGHBORS.to_vec();
    assert!(is_in_window((3, 3), &offsets, (4, 2)));
    assert!(is_in_window((3, 3), &offsets, (3, 3)));
    assert!(!is_in_window((3, 3), &offsets, (5, 3)));
    assert!(!is_in_window((i32::MAX, 0), &offsets, (i32::MIN, 0)));
    assert!(is_kept(&vec![(0, 0), (10, 10)], &offsets, (9, 11)));
    assert!(!is_kept(&vec![(0, 0), (10, 10)], &offsets, (5, 5)));
    assert!(!is_kept(&Vec::new(), &offsets, (0, 0)));
    let lopsided = vec![(2, 0)];
    assert!(is_in_window((0, 0), &lopsided, (2, 0)));
    assert!(!is_in_window((0, 0), &lopsided, (-2, 0)));
}

#[test]
fn residency_lookup() {
    let resident = vec![ChunkMarker::new((1, 2)), ChunkMarker::new((-3, 4))];
    assert!(is_resident(&resident, (1, 2)));
    assert!(is_resident(&resident, (-3, 4)));
    assert!(!is_resident(&resident, (2, 1)));
    assert!(!is_resident(&Vec::new(), (0, 0)));
}

#[test]
fn focal_chunks_follow_the_positions() {
    assert_eq!(
        focal_chunks(&vec![(0, 0), (-1, 511), (512, -513), (100000, -100000)]),
        vec![(0, 0), (-1, 0), (1, -2), (195, -196)]
    );
    assert!(focal_chunks(&Vec::new()).is_empty());
}
