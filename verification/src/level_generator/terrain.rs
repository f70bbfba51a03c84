//! Threshold layering: from noise values to stacked tiles.
//!
//! A terrain is a list of layers, each with a threshold. On a grid cell, every
//! layer whose threshold the cell's noise value exceeds contributes one tile of
//! its own, so a cell carries between no tile and as many as there are layers.
use crate::level_generator::region::{CellRect, NoiseSamples};
use crate::level_generator::sample::NoiseValue;
use crate::level_generator::chunk::Chunk;
use crate::level_generator::tile::{ColorTile, Tile};
use vstd::pervasive::unreached;
use vstd::prelude::*;

verus! {

/// One layer of terrain. Its place in the list of layers is its layer index.
#[derive(Clone, Copy, Debug)]
pub struct TerrainLayer {
    /// The noise value that a cell must exceed to carry a tile of this layer.
    pub threshold: NoiseValue,
    /// The color of the layer's tiles, as `#RRGGBB`.
    pub color: &'static str,
}

/// A cell with the noise value `value` carries a tile of layer `z`.
pub open spec fn crosses(value: NoiseValue, layers: Seq<TerrainLayer>, z: int) -> bool {
    0 <= z < layers.len() && value.spec_exceeds(layers[z].threshold)
}

/// The number of layers whose threshold `value` exceeds.
pub open spec fn crossed_count(value: NoiseValue, layers: Seq<TerrainLayer>) -> nat
    decreases layers.len(),
{
    if layers.len() == 0 {
        0
    } else {
        crossed_count(value, layers.drop_last()) + if value.spec_exceeds(layers.last().threshold) {
            1nat
        } else {
            0nat
        }
    }
}

/// The thresholds of the layers strictly ascend, and all of them are numbers.
pub open spec fn ascending(layers: Seq<TerrainLayer>) -> bool {
    &&& forall|z: int| 0 <= z < layers.len() ==> !(#[trigger] layers[z]).threshold.spec_is_nan()
    &&& forall|a: int, b: int|
        0 <= a < b < layers.len() ==> (#[trigger] layers[b]).threshold.spec_exceeds(
            (#[trigger] layers[a]).threshold,
        )
}

/// The number of layers whose threshold `value` exceeds.
pub fn layers_crossed(value: NoiseValue, layers: &Vec<TerrainLayer>) -> (count: usize)
    ensures
        count == crossed_count(value, layers@),
        count <= layers@.len(),
{
    let mut count: usize = 0;
    let mut z: usize = 0;
    while z < layers.len()
        invariant
            z <= layers@.len(),
            count <= z,
            count == crossed_count(value, layers@.take(z as int)),
        decreases layers@.len() - z,
    {
        proof {
            assert(layers@.take(z + 1).drop_last() == layers@.take(z as int));
        }
        if value.exceeds(&layers[z].threshold) {
            count = count + 1;
        }
        z = z + 1;
    }
    proof {
        assert(layers@.take(z as int) == layers@);
    }
    count
}

/// The place of a tile in the order in which tiles are generated: by column,
/// within a column by row, within a cell by layer.
pub open spec fn tile_key(t: ColorTile) -> (int, int, int) {
    (t.pos.0 as int, t.pos.1 as int, t.z_index as int)
}

/// `a` comes strictly before `b` in the order of generation.
pub open spec fn key_before(a: (int, int, int), b: (int, int, int)) -> bool {
    a.0 < b.0 || (a.0 == b.0 && (a.1 < b.1 || (a.1 == b.1 && a.2 < b.2)))
}

/// The terrain has a tile of layer `z` on cell `p`: the cell was sampled and
/// its noise value exceeds the layer's threshold.
pub open spec fn wanted_tile(
    samples: NoiseSamples,
    layers: Seq<TerrainLayer>,
    p: (i32, i32),
    z: int,
) -> bool {
    samples.region().contains(p) && crosses(samples.spec_value_at(p), layers, z)
}

/// The tile `t` is one that the terrain has, in the color of its layer.
pub open spec fn emitted(samples: NoiseSamples, layers: Seq<TerrainLayer>, t: ColorTile) -> bool {
    wanted_tile(samples, layers, t.pos, t.z_index as int) && t.color == layers[t.z_index as int].color
}

/// `data` holds a tile of layer `z` on cell `p`.
pub open spec fn has_tile(data: Seq<ColorTile>, p: (i32, i32), z: int) -> bool {
    exists|i: int| 0 <= i < data.len() && (#[trigger] data[i]).pos == p && data[i].z_index == z
}

/// Every tile of `data` belongs to the terrain.
pub open spec fn all_emitted(
    data: Seq<ColorTile>,
    samples: NoiseSamples,
    layers: Seq<TerrainLayer>,
) -> bool {
    forall|i: int| 0 <= i < data.len() ==> emitted(samples, layers, #[trigger] data[i])
}

/// `data` holds every tile of the terrain that comes before `bound`.
pub open spec fn complete_below(
    data: Seq<ColorTile>,
    samples: NoiseSamples,
    layers: Seq<TerrainLayer>,
    bound: (int, int, int),
) -> bool {
    forall|p: (i32, i32), z: int| #[trigger]
        wanted_tile(samples, layers, p, z) && key_before((p.0 as int, p.1 as int, z), bound)
            ==> has_tile(data, p, z)
}

/// The tiles of `data` stand in the order of generation, none twice, and all
/// come before `bound`.
pub open spec fn sorted_below(data: Seq<ColorTile>, bound: (int, int, int)) -> bool {
    &&& forall|i: int, j: int|
        0 <= i < j < data.len() ==> key_before(tile_key(#[trigger] data[i]), tile_key(#[trigger] data[j]))
    &&& forall|i: int| 0 <= i < data.len() ==> key_before(tile_key(#[trigger] data[i]), bound)
}

/// `data` is the terrain of `layers` over the sampled cells: it holds exactly
/// the tiles that the terrain has, each once and in its layer's color, in the
/// order of generation.
pub open spec fn is_terrain(
    data: Seq<ColorTile>,
    samples: NoiseSamples,
    layers: Seq<TerrainLayer>,
) -> bool {
    &&& all_emitted(data, samples, layers)
    &&& forall|p: (i32, i32), z: int| #[trigger]
        wanted_tile(samples, layers, p, z) ==> has_tile(data, p, z)
    &&& forall|i: int, j: int|
        0 <= i < j < data.len() ==> key_before(tile_key(#[trigger] data[i]), tile_key(#[trigger] data[j]))
}

/// The tiles of the terrain of `layers` over the cells of `samples`. The cells
/// are visited column by column; on each cell, every layer whose threshold the
/// cell's value exceeds adds one tile, with the layer's index and color.
pub fn layered_tiles(samples: &NoiseSamples, layers: &Vec<TerrainLayer>) -> (data: Vec<ColorTile>)
    requires
        layers@.len() <= i32::MAX,
    ensures
        is_terrain(data@, *samples, layers@),
{
    let region: CellRect = samples.sampled_region();
    let mut data: Vec<ColorTile> = Vec::new();
    let mut i: u32 = 0;
    while i < region.width
        invariant
            layers@.len() <= i32::MAX,
            region == samples.region(),
            region.wf(),
            i <= region.width,
            all_emitted(data@, *samples, layers@),
            complete_below(data@, *samples, layers@, (region.x + i, region.y as int, 0int)),
            sorted_below(data@, (region.x + i, region.y as int, 0int)),
        decreases region.width - i,
    {
        let cx: i32 = (region.x as i64 + i as i64) as i32;
        let mut j: u32 = 0;
        while j < region.height
            invariant
                layers@.len() <= i32::MAX,
                region == samples.region(),
                region.wf(),
                i < region.width,
                j <= region.height,
                cx == region.x + i,
                all_emitted(data@, *samples, layers@),
                complete_below(data@, *samples, layers@, (cx as int, region.y + j, 0int)),
                sorted_below(data@, (cx as int, region.y + j, 0int)),
            decreases region.height - j,
        {
            let cy: i32 = (region.y as i64 + j as i64) as i32;
            let value: NoiseValue = match samples.value_at((cx, cy)) {
                Some(v) => v,
                None => unreached(),
            };
            let mut z: usize = 0;
            while z < layers.len()
                invariant
                    layers@.len() <= i32::MAX,
                    region == samples.region(),
                    region.contains((cx, cy)),
                    value == samples.spec_value_at((cx, cy)),
                    z <= layers@.len(),
                    all_emitted(data@, *samples, layers@),
                    complete_below(data@, *samples, layers@, (cx as int, cy as int, z as int)),
                    sorted_below(data@, (cx as int, cy as int, z as int)),
                decreases layers@.len() - z,
            {
                let ghost before = data@;
                if value.exceeds(&layers[z].threshold) {
                    data.push(ColorTile::new((cx, cy), layers[z].color, z as i32));
                    proof {
                        let last = before.len() as int;
                        assert(data@[last].pos == (cx, cy) && data@[last].z_index == z);
                        assert forall|p: (i32, i32), k: int| #[trigger]
                            wanted_tile(*samples, layers@, p, k) && key_before(
                                (p.0 as int, p.1 as int, k),
                                (cx as int, cy as int, z + 1),
                            ) implies has_tile(data@, p, k) by {
                            if key_before((p.0 as int, p.1 as int, k), (cx as int, cy as int, z as int)) {
                                assert(has_tile(before, p, k));
                                let w = choose|w: int|
                                    0 <= w < before.len() && (#[trigger] before[w]).pos == p
                                        && before[w].z_index == k;
                                assert(data@[w] == before[w]);
                            } else {
                                assert(p == (cx, cy) && k == z);
                            }
                        }
                        assert forall|a: int, b: int| 0 <= a < b < data@.len() implies key_before(
                            tile_key(#[trigger] data@[a]),
                            tile_key(#[trigger] data@[b]),
                        ) by {
                            assert(data@[a] == before[a]);
                            if b < last {
                                assert(data@[b] == before[b]);
                            }
                        }
                        assert forall|a: int| 0 <= a < data@.len() implies key_before(
                            tile_key(#[trigger] data@[a]),
                            (cx as int, cy as int, z + 1),
                        ) by {
                            if a < last {
                                assert(data@[a] == before[a]);
                            }
                        }
                        assert forall|a: int| 0 <= a < data@.len() implies emitted(
                            *samples,
                            layers@,
                            #[trigger] data@[a],
                        ) by {
                            if a < last {
                                assert(data@[a] == before[a]);
                            }
                        }
                    }
                } else {
                    proof {
                        assert forall|p: (i32, i32), k: int| #[trigger]
                            wanted_tile(*samples, layers@, p, k) && key_before(
                                (p.0 as int, p.1 as int, k),
                                (cx as int, cy as int, z + 1),
                            ) implies has_tile(data@, p, k) by {
                            assert(key_before((p.0 as int, p.1 as int, k), (cx as int, cy as int, z as int)));
                        }
                    }
                }
                z = z + 1;
            }
            j = j + 1;
        }
        i = i + 1;
    }
    data
}

/// Where the thresholds ascend, the layers that a value crosses are the lowest
/// ones: a value that crosses `n` layers crosses exactly the layers below `n`.
pub proof fn lemma_crossed_layers_are_lowest(value: NoiseValue, layers: Seq<TerrainLayer>, z: int)
    requires
        ascending(layers),
        0 <= z < layers.len(),
    ensures
        crosses(value, layers, z) <==> z < crossed_count(value, layers),
        crossed_count(value, layers) <= layers.len(),
    decreases layers.len(),
{
    let rest = layers.drop_last();
    let top = layers.len() - 1;
    lemma_crossed_count_bounds(value, rest);
    if z < top {
        lemma_crossed_layers_are_lowest(value, rest, z);
        assert(rest[z] == layers[z]);
    }
    if value.spec_exceeds(layers[top].threshold) {
        // The value exceeds the highest threshold, hence every one below it.
        lemma_exceeding_top_counts_all(value, layers);
    } else if rest.len() > 0 && z == top {
        lemma_crossed_layers_are_lowest(value, rest, top - 1);
    }
}

/// A count of crossed layers is at most the number of layers.
pub proof fn lemma_crossed_count_bounds(value: NoiseValue, layers: Seq<TerrainLayer>)
    ensures
        crossed_count(value, layers) <= layers.len(),
    decreases layers.len(),
{
    if layers.len() > 0 {
        lemma_crossed_count_bounds(value, layers.drop_last());
    }
}

/// Where the thresholds ascend, a value that exceeds the last threshold
/// exceeds all of them.
proof fn lemma_exceeding_top_counts_all(value: NoiseValue, layers: Seq<TerrainLayer>)
    requires
        ascending(layers),
        layers.len() > 0,
        value.spec_exceeds(layers.last().threshold),
    ensures
        crossed_count(value, layers) == layers.len(),
    decreases layers.len(),
{
    let rest = layers.drop_last();
    if rest.len() == 0 {
        assert(crossed_count(value, rest) == 0);
    } else {
        assert(rest.last() == layers[layers.len() - 2]);
        assert(layers.last().threshold.spec_exceeds(layers[layers.len() - 2].threshold));
        assert forall|a: int, b: int| 0 <= a < b < rest.len() implies (#[trigger] rest[b]).threshold.spec_exceeds(
            (#[trigger] rest[a]).threshold,
        ) by {
            assert(rest[a] == layers[a] && rest[b] == layers[b]);
        }
        assert forall|a: int| 0 <= a < rest.len() implies !(#[trigger] rest[a]).threshold.spec_is_nan() by {
            assert(rest[a] == layers[a]);
        }
        assert(value.spec_exceeds(rest.last().threshold));
        lemma_exceeding_top_counts_all(value, rest);
    }
}


/// Two terrains of the same layers over the same samples agree on their first
/// `n` tiles.
proof fn lemma_terrains_agree_up_to(
    a: Seq<ColorTile>,
    b: Seq<ColorTile>,
    samples: NoiseSamples,
    layers: Seq<TerrainLayer>,
    n: int,
)
    requires
        is_terrain(a, samples, layers),
        is_terrain(b, samples, layers),
        0 <= n <= a.len(),
    ensures
        n <= b.len(),
        forall|k: int| 0 <= k < n ==> tile_key(#[trigger] a[k]) == tile_key(b[k]),
    decreases n,
{
    if n > 0 {
        lemma_terrains_agree_up_to(a, b, samples, layers, n - 1);
        let t = a[n - 1];
        assert(emitted(samples, layers, t));
        assert(wanted_tile(samples, layers, t.pos, t.z_index as int));
        assert(has_tile(b, t.pos, t.z_index as int));
        let m = choose|m: int|
            0 <= m < b.len() && (#[trigger] b[m]).pos == t.pos && b[m].z_index == t.z_index as int;
        // `t` is not among the first n - 1 tiles of `b`: those are tiles that
        // come before `t` in `a`.
        if m < n - 1 {
            assert(tile_key(a[m]) == tile_key(b[m]));
            assert(key_before(tile_key(a[m]), tile_key(a[n - 1])));
        }
        if m > n - 1 {
            // Then the tile of `b` at n - 1 comes before `t`, and `a` holds it
            // at or after n - 1, where nothing comes before `t`.
            let u = b[n - 1];
            assert(key_before(tile_key(b[n - 1]), tile_key(b[m])));
            assert(emitted(samples, layers, u));
            assert(wanted_tile(samples, layers, u.pos, u.z_index as int));
            assert(has_tile(a, u.pos, u.z_index as int));
            let w = choose|w: int|
                0 <= w < a.len() && (#[trigger] a[w]).pos == u.pos && a[w].z_index == u.z_index as int;
            if w < n - 1 {
                assert(tile_key(a[w]) == tile_key(b[w]));
                assert(key_before(tile_key(b[w]), tile_key(b[n - 1])));
            } else if w > n - 1 {
                assert(key_before(tile_key(a[n - 1]), tile_key(a[w])));
            }
        }
        assert(m == n - 1);
    }
}

/// Generation is a function of its inputs: the layers and the samples fix the
/// terrain, tile by tile. Two sequences that both are the terrain of the same
/// layers over the same samples are one and the same sequence, with the same
/// cells, layers and colors in the same order.
pub proof fn lemma_terrain_is_unique(
    a: Seq<ColorTile>,
    b: Seq<ColorTile>,
    samples: NoiseSamples,
    layers: Seq<TerrainLayer>,
)
    requires
        is_terrain(a, samples, layers),
        is_terrain(b, samples, layers),
    ensures
        a == b,
{
    lemma_terrains_agree_up_to(a, b, samples, layers, a.len() as int);
    lemma_terrains_agree_up_to(b, a, samples, layers, b.len() as int);
    assert forall|k: int| 0 <= k < a.len() implies a[k] == b[k] by {
        assert(tile_key(a[k]) == tile_key(b[k]));
        assert(emitted(samples, layers, a[k]));
        assert(emitted(samples, layers, b[k]));
    }
    assert(a =~= b);
}

/// What a terrain holds on a cell depends on the cell's noise value alone, not
/// on the rectangle that was sampled around it. Where two sample tables cover
/// the cell `p` with the same value, as the tables of two neighboring chunks
/// do on the cells that both reach, the two terrains have the same layers on
/// `p`.
pub proof fn lemma_shared_cell_same_tiles(
    a: Seq<ColorTile>,
    first: NoiseSamples,
    b: Seq<ColorTile>,
    second: NoiseSamples,
    layers: Seq<TerrainLayer>,
    p: (i32, i32),
    z: int,
)
    requires
        is_terrain(a, first, layers),
        is_terrain(b, second, layers),
        first.region().contains(p),
        second.region().contains(p),
        first.spec_value_at(p) == second.spec_value_at(p),
    ensures
        has_tile(a, p, z) <==> has_tile(b, p, z),
{
    if has_tile(a, p, z) {
        let i = choose|i: int| 0 <= i < a.len() && (#[trigger] a[i]).pos == p && a[i].z_index == z;
        assert(emitted(first, layers, a[i]));
        assert(wanted_tile(second, layers, p, z));
    }
    if has_tile(b, p, z) {
        let i = choose|i: int| 0 <= i < b.len() && (#[trigger] b[i]).pos == p && b[i].z_index == z;
        assert(emitted(second, layers, b[i]));
        assert(wanted_tile(first, layers, p, z));
    }
}


/// The number of tiles of `data` on cell `p`.
pub open spec fn tiles_on(data: Seq<ColorTile>, p: (i32, i32)) -> nat
    decreases data.len(),
{
    if data.len() == 0 {
        0
    } else {
        tiles_on(data.drop_last(), p) + if data.last().pos == p {
            1nat
        } else {
            0nat
        }
    }
}

/// The number of tiles of `data` on cell `p` whose layer is below `n`.
spec fn tiles_on_below(data: Seq<ColorTile>, p: (i32, i32), n: int) -> nat
    decreases data.len(),
{
    if data.len() == 0 {
        0
    } else {
        tiles_on_below(data.drop_last(), p, n) + if data.last().pos == p && data.last().z_index < n {
            1nat
        } else {
            0nat
        }
    }
}

/// The tiles of `data` stand in the order of generation, none twice, and none
/// has a negative layer.
spec fn ordered_layers(data: Seq<ColorTile>) -> bool {
    &&& forall|i: int, j: int|
        0 <= i < j < data.len() ==> key_before(tile_key(#[trigger] data[i]), tile_key(#[trigger] data[j]))
    &&& forall|i: int| 0 <= i < data.len() ==> (#[trigger] data[i]).z_index >= 0
}

proof fn lemma_ordered_prefix(data: Seq<ColorTile>)
    requires
        ordered_layers(data),
        data.len() > 0,
    ensures
        ordered_layers(data.drop_last()),
{
    let rest = data.drop_last();
    assert forall|i: int, j: int| 0 <= i < j < rest.len() implies key_before(
        tile_key(#[trigger] rest[i]),
        tile_key(#[trigger] rest[j]),
    ) by {
        assert(rest[i] == data[i] && rest[j] == data[j]);
    }
    assert forall|i: int| 0 <= i < rest.len() implies (#[trigger] rest[i]).z_index >= 0 by {
        assert(rest[i] == data[i]);
    }
}

/// Counting the tiles below layer `n + 1` adds to those below `n` the one tile
/// of layer `n`, if there is one.
proof fn lemma_tiles_on_below_step(data: Seq<ColorTile>, p: (i32, i32), n: int)
    requires
        ordered_layers(data),
        0 <= n,
    ensures
        tiles_on_below(data, p, 0) == 0,
        tiles_on_below(data, p, n + 1) == tiles_on_below(data, p, n) + if has_tile(data, p, n) {
            1nat
        } else {
            0nat
        },
    decreases data.len(),
{
    if data.len() > 0 {
        let rest = data.drop_last();
        let last = data.last();
        lemma_ordered_prefix(data);
        lemma_tiles_on_below_step(rest, p, n);
        assert(last == data[data.len() - 1]);
        if has_tile(rest, p, n) {
            let i = choose|i: int| 0 <= i < rest.len() && (#[trigger] rest[i]).pos == p && rest[i].z_index == n;
            assert(rest[i] == data[i]);
            assert(has_tile(data, p, n));
            assert(key_before(tile_key(data[i]), tile_key(data[data.len() - 1])));
        } else if has_tile(data, p, n) {
            let i = choose|i: int| 0 <= i < data.len() && (#[trigger] data[i]).pos == p && data[i].z_index == n;
            if i < rest.len() {
                assert(rest[i] == data[i]);
            }
        }
    }
}

/// Where every tile on `p` has a layer below `n`, counting below `n` counts
/// all tiles on `p`.
proof fn lemma_tiles_on_below_all(data: Seq<ColorTile>, p: (i32, i32), n: int)
    requires
        forall|i: int| 0 <= i < data.len() && (#[trigger] data[i]).pos == p ==> data[i].z_index < n,
    ensures
        tiles_on_below(data, p, n) == tiles_on(data, p),
    decreases data.len(),
{
    if data.len() > 0 {
        let rest = data.drop_last();
        assert forall|i: int| 0 <= i < rest.len() && (#[trigger] rest[i]).pos == p implies rest[i].z_index
            < n by {
            assert(rest[i] == data[i]);
        }
        lemma_tiles_on_below_all(rest, p, n);
        assert(data.last() == data[data.len() - 1]);
    }
}

proof fn lemma_tiles_below_are_crossed(
    data: Seq<ColorTile>,
    samples: NoiseSamples,
    layers: Seq<TerrainLayer>,
    p: (i32, i32),
    n: int,
)
    requires
        is_terrain(data, samples, layers),
        ordered_layers(data),
        samples.region().contains(p),
        0 <= n <= layers.len(),
    ensures
        tiles_on_below(data, p, n) == crossed_count(samples.spec_value_at(p), layers.take(n)),
    decreases n,
{
    if n == 0 {
        lemma_tiles_on_below_step(data, p, 0);
    } else {
        lemma_tiles_below_are_crossed(data, samples, layers, p, n - 1);
        lemma_tiles_on_below_step(data, p, n - 1);
        assert(layers.take(n).drop_last() == layers.take(n - 1));
        assert(layers.take(n).last() == layers[n - 1]);
        if has_tile(data, p, n - 1) {
            let i = choose|i: int|
                0 <= i < data.len() && (#[trigger] data[i]).pos == p && data[i].z_index == n - 1;
            assert(emitted(samples, layers, data[i]));
        } else if crosses(samples.spec_value_at(p), layers, n - 1) {
            assert(wanted_tile(samples, layers, p, n - 1));
        }
    }
}

/// On every sampled cell, a terrain holds as many tiles as there are layers
/// whose threshold the cell's noise value exceeds: none where the value
/// exceeds no threshold, one for each layer where it exceeds them all.
pub proof fn lemma_tiles_per_cell(
    data: Seq<ColorTile>,
    samples: NoiseSamples,
    layers: Seq<TerrainLayer>,
    p: (i32, i32),
)
    requires
        is_terrain(data, samples, layers),
        samples.region().contains(p),
    ensures
        tiles_on(data, p) == crossed_count(samples.spec_value_at(p), layers),
{
    assert forall|i: int| 0 <= i < data.len() implies (#[trigger] data[i]).z_index >= 0 by {
        assert(emitted(samples, layers, data[i]));
    }
    assert forall|i: int| 0 <= i < data.len() && (#[trigger] data[i]).pos == p implies data[i].z_index
        < layers.len() by {
        assert(emitted(samples, layers, data[i]));
    }
    lemma_tiles_below_are_crossed(data, samples, layers, p, layers.len() as int);
    lemma_tiles_on_below_all(data, p, layers.len() as int);
    assert(layers.take(layers.len() as int) == layers);
}

/// The number of layers whose threshold is a number not above `value`.
pub open spec fn thresholds_not_above(value: NoiseValue, layers: Seq<TerrainLayer>) -> nat
    decreases layers.len(),
{
    if layers.len() == 0 {
        0
    } else {
        thresholds_not_above(value, layers.drop_last()) + if !layers.last().threshold.spec_is_nan()
            && layers.last().threshold.scaled_value() <= value.scaled_value() {
            1nat
        } else {
            0nat
        }
    }
}

/// A value that is a number and meets no threshold exactly crosses as many
/// layers as there are thresholds not above it. A value that equals a
/// threshold does not exceed it, so there the two counts differ by one.
pub proof fn lemma_crossed_is_thresholds_not_above(value: NoiseValue, layers: Seq<TerrainLayer>)
    requires
        !value.spec_is_nan(),
        forall|z: int|
            0 <= z < layers.len() ==> (#[trigger] layers[z]).threshold.scaled_value()
                != value.scaled_value(),
    ensures
        crossed_count(value, layers) == thresholds_not_above(value, layers),
    decreases layers.len(),
{
    if layers.len() > 0 {
        let rest = layers.drop_last();
        assert forall|z: int| 0 <= z < rest.len() implies (#[trigger] rest[z]).threshold.scaled_value()
            != value.scaled_value() by {
            assert(rest[z] == layers[z]);
        }
        lemma_crossed_is_thresholds_not_above(value, rest);
        assert(layers.last() == layers[layers.len() - 1]);
    }
}

/// A terrain over cells that all lie on a chunk or on the border of one cell
/// around it makes the chunk well formed: every tile lies within the chunk's
/// extent, and no cell has two tiles of one layer.
pub proof fn lemma_terrain_fills_chunk(
    chunk: Chunk<ColorTile>,
    samples: NoiseSamples,
    layers: Seq<TerrainLayer>,
)
    requires
        is_terrain(chunk.data@, samples, layers),
        chunk.origin().0 - 1 <= samples.region().x,
        samples.region().x + samples.region().width <= chunk.origin().0 + chunk.width + 1,
        chunk.origin().1 - 1 <= samples.region().y,
        samples.region().y + samples.region().height <= chunk.origin().1 + chunk.height + 1,
    ensures
        chunk.wf(),
{
    let data = chunk.data@;
    assert forall|i: int| 0 <= i < data.len() implies #[trigger] chunk.within_extent(i) by {
        assert(emitted(samples, layers, data[i]));
    }
    assert forall|i: int, j: int| 0 <= i < j < data.len() implies !((#[trigger] data[i]).spec_pos() == (
    #[trigger] data[j]).spec_pos() && data[i].spec_z_index() == data[j].spec_z_index()) by {
        assert(key_before(tile_key(data[i]), tile_key(data[j])));
    }
}

} // verus!
