//! Chunk streaming: which chunks exist, what they hold, and when they go.
pub mod chunk;
pub mod collider;
pub mod perlin;
pub mod perlin_generator;
pub mod region;
pub mod sample;
pub mod streaming;
pub mod terrain;
pub mod tile;

use crate::level_generator::chunk::{cell_box, Chunk, ChunkMarker, CHUNK_HEIGHT, CHUNK_WIDTH};
use crate::level_generator::collider::ColliderMap;
use crate::level_generator::region::{CellRect, NoiseSamples};
use crate::level_generator::streaming::{
    coords, focal_chunks, is_eviction_plan, is_generation_plan, lemma_no_flapping, plan_eviction,
    plan_generation, spec_focal_chunks, within_reach, ChunkRequest, MAX_NEIGHBOR_REACH,
};
use crate::level_generator::tile::Tile;
use rand::Rng;
use std::marker::PhantomData;
use vstd::prelude::*;

verus! {

/// The grid cell `start` can be the corner of a chunk: the chunk's cells and
/// the border of one cell around them have coordinates that the machine can
/// hold.
pub open spec fn valid_start(start: (i32, i32)) -> bool {
    &&& i32::MIN < start.0
    &&& start.0 + CHUNK_WIDTH + 1 <= i32::MAX
    &&& i32::MIN < start.1
    &&& start.1 + CHUNK_HEIGHT + 1 <= i32::MAX
}

/// Whether the grid cell `start` can be the corner of a chunk.
pub fn is_valid_start(start: (i32, i32)) -> (valid: bool)
    ensures
        valid == valid_start(start),
{
    i32::MIN < start.0 && start.0 <= i32::MAX - CHUNK_WIDTH - 1 && i32::MIN < start.1 && start.1
        <= i32::MAX - CHUNK_HEIGHT - 1
}

/// `a` divided by the positive `d`, rounded toward zero.
pub open spec fn truncated_div(a: int, d: int) -> int {
    if a >= 0 {
        a / d
    } else {
        -((-a) / d)
    }
}

/// The coordinate that a chunk starting at grid cell `start` is tagged with:
/// the cell divided by the size of a chunk, rounded toward zero. For the corner
/// of a chunk the division is exact.
pub open spec fn spec_chunk_pos(start: (i32, i32)) -> (int, int) {
    (truncated_div(start.0 as int, CHUNK_WIDTH as int), truncated_div(start.1 as int, CHUNK_HEIGHT as int))
}

/// A way to fill a chunk with tiles from the values of a noise field.
///
/// A generator names the cells whose noise values it reads, and turns those
/// values into the chunk. It reads nothing else, so the chunk is a function of
/// the corner and the values: `spec_tiles` is that function.
pub trait LevelGenerator {
    type Tile: Tile;

    /// The cells whose noise values the generator reads for the chunk that
    /// starts at `start`.
    spec fn spec_sample_region(start: (i32, i32)) -> CellRect;

    /// The tiles of the chunk that starts at `start`, given the noise values.
    spec fn spec_tiles(start: (i32, i32), samples: NoiseSamples) -> Seq<Self::Tile>;

    /// The cells whose noise values the generator reads for the chunk that
    /// starts at `start`.
    fn sample_region(start: (i32, i32)) -> (region: CellRect)
        requires
            valid_start(start),
        ensures
            region == Self::spec_sample_region(start),
            region.wf(),
    ;

    /// The chunk that starts at grid cell `start`, from the values of the
    /// noise field on the cells of `sample_region(start)`. Equal corners and
    /// equal values give equal chunks. The chunk is tagged with the coordinate
    /// of its corner, and a chunk at an aligned corner is well formed.
    fn generate_chunk(start: (i32, i32), samples: &NoiseSamples) -> (chunk: Chunk<Self::Tile>)
        requires
            valid_start(start),
            samples.region() == Self::spec_sample_region(start),
        ensures
            (chunk.ch_pos.0 as int, chunk.ch_pos.1 as int) == spec_chunk_pos(start),
            chunk.width == CHUNK_WIDTH,
            chunk.height == CHUNK_HEIGHT,
            chunk.data@ == Self::spec_tiles(start, *samples),
            start.0 % CHUNK_WIDTH == 0 && start.1 % CHUNK_HEIGHT == 0 ==> chunk.wf(),
    ;
}

/// The window that is kept around a focal point unless another is chosen: the
/// focal point's own chunk and the eight chunks around it.
pub const DEFAULT_CHUNK_NEIGHBORS: [(i32, i32); 9] = [
    (-1, 0),
    (1, 0),
    (0, -1),
    (0, 1),
    (-1, 1),
    (1, 1),
    (-1, -1),
    (1, -1),
    (0, 0),
];

/// The seed of the noise field that new chunks are generated from.
#[derive(Clone, Copy, Debug, PartialEq, Eq)]
pub struct Seed(pub u32);

impl Default for Seed {
    fn default() -> (seed: Seed)
        ensures
            seed.0 == 0,
    {
        Seed(0)
    }
}

impl Seed {
    /// Replaces the seed. Chunks that are resident keep what they were
    /// generated with; chunks that are asked for from now on get `new_value`.
    pub fn reseed(&mut self, new_value: u32)
        ensures
            final(self).0 == new_value,
    {
        self.0 = new_value;
    }
}

/// `thread_rng().gen()` of rand: a number drawn from the thread's random
/// number generator. Nothing is claimed of the number. The call panics if the
/// operating system cannot seed the generator.
#[verifier::external_body]
fn random_seed() -> (seed: u32) {
    rand::thread_rng().gen()
}

/// What one tick does to the world: the chunks to generate and add, and the
/// resident chunks to remove, by their index in the list of resident chunks.
#[derive(Debug)]
pub struct TickPlan {
    pub spawn: Vec<ChunkRequest>,
    pub despawn: Vec<usize>,
}

/// A generated chunk as it is added to the world: the record of its
/// residency, its tiles, and the collision shapes of its occupied cells.
pub struct ChunkSpawn<T: Tile> {
    pub marker: ChunkMarker,
    pub chunk: Chunk<T>,
    pub colliders: ColliderMap,
}

/// The streaming controller. It holds the seed that the world starts with and
/// the neighborhood, and is generic in the generator that fills chunks.
pub struct LevelGeneratorPlugin<L: LevelGenerator> {
    seed: u32,
    neighbors: Vec<(i32, i32)>,
    _phantom_l: PhantomData<L>,
}

impl<L: LevelGenerator> LevelGeneratorPlugin<L> {
    #[verifier::type_invariant]
    spec fn neighbors_within_reach(self) -> bool {
        within_reach(self.neighbors@)
    }

    /// The seed that the world starts with.
    pub closed spec fn spec_seed(self) -> u32 {
        self.seed
    }

    /// The offsets of the neighborhood.
    pub closed spec fn spec_neighbors(self) -> Seq<(i32, i32)> {
        self.neighbors@
    }

    /// A controller that starts the world with `seed` and keeps the default
    /// neighborhood.
    pub fn seeded(seed: u32) -> (plugin: Self)
        ensures
            plugin.spec_seed() == seed,
            plugin.spec_neighbors() == DEFAULT_CHUNK_NEIGHBORS@,
    {
        let mut neighbors: Vec<(i32, i32)> = Vec::new();
        let mut k: usize = 0;
        while k < 9
            invariant
                k <= 9,
                neighbors@.len() == k,
                forall|a: int| 0 <= a < k ==> #[trigger] neighbors@[a] == DEFAULT_CHUNK_NEIGHBORS@[a],
            decreases 9 - k,
        {
            neighbors.push(DEFAULT_CHUNK_NEIGHBORS[k]);
            k = k + 1;
        }
        assert(neighbors@ =~= DEFAULT_CHUNK_NEIGHBORS@);
        Self { seed, neighbors, _phantom_l: PhantomData }
    }

    /// The same controller with another neighborhood. The offsets are taken as
    /// they are if none of them reaches farther than `MAX_NEIGHBOR_REACH`
    /// chunks along an axis; otherwise there is no such controller.
    pub fn with_neighbors(self, neighbors: Vec<(i32, i32)>) -> (plugin: Option<Self>)
        ensures
            plugin is Some <==> within_reach(neighbors@),
            plugin matches Some(p) ==> p.spec_seed() == self.spec_seed() && p.spec_neighbors()
                == neighbors@,
    {
        let mut k: usize = 0;
        while k < neighbors.len()
            invariant
                k <= neighbors@.len(),
                within_reach(neighbors@.take(k as int)),
            decreases neighbors@.len() - k,
        {
            let offset: (i32, i32) = neighbors[k];
            if offset.0 < -MAX_NEIGHBOR_REACH || offset.0 > MAX_NEIGHBOR_REACH || offset.1
                < -MAX_NEIGHBOR_REACH || offset.1 > MAX_NEIGHBOR_REACH {
                return None;
            }
            assert forall|a: int| 0 <= a < k + 1 implies {
                &&& -MAX_NEIGHBOR_REACH <= (#[trigger] neighbors@.take(k + 1)[a]).0 <= MAX_NEIGHBOR_REACH
                &&& -MAX_NEIGHBOR_REACH <= neighbors@.take(k + 1)[a].1 <= MAX_NEIGHBOR_REACH
            } by {
                if a < k {
                    assert(neighbors@.take(k as int)[a] == neighbors@[a]);
                }
            }
            k = k + 1;
        }
        assert(neighbors@.take(k as int) == neighbors@);
        Some(Self { seed: self.seed, neighbors, _phantom_l: PhantomData })
    }

    /// The seed that the world starts with.
    pub fn seed(&self) -> (seed: Seed)
        ensures
            seed.0 == self.spec_seed(),
    {
        Seed(self.seed)
    }

    /// The offsets of the neighborhood.
    pub fn neighbors(&self) -> (neighbors: &Vec<(i32, i32)>)
        ensures
            neighbors@ == self.spec_neighbors(),
            within_reach(neighbors@),
    {
        proof {
            use_type_invariant(self);
        }
        &self.neighbors
    }

    /// The generate pass. `focal` holds the world positions of the focal
    /// points that have one, `existing_chunks` the resident chunks. The pass
    /// asks for every chunk in a focal point's window that is not resident,
    /// once, to be generated from `seed`. Without a focal point it asks for
    /// nothing.
    pub fn gen_chunks_around_focal_point(
        &self,
        seed: &Seed,
        focal: &Vec<(i32, i32)>,
        existing_chunks: &Vec<ChunkMarker>,
    ) -> (requests: Vec<ChunkRequest>)
        ensures
            is_generation_plan(
                requests@,
                seed.0,
                spec_focal_chunks(focal@),
                self.spec_neighbors(),
                existing_chunks@,
            ),
    {
        proof {
            use_type_invariant(self);
        }
        let centers = focal_chunks(focal);
        plan_generation(seed.0, &centers, &self.neighbors, existing_chunks)
    }

    /// The evict pass. It names, by index into `existing_chunks`, the resident
    /// chunks that lie in no focal point's window. Without a focal point it
    /// names none.
    pub fn despawn_chunks_around_focal_point(
        &self,
        focal: &Vec<(i32, i32)>,
        existing_chunks: &Vec<ChunkMarker>,
    ) -> (evicted: Vec<usize>)
        ensures
            is_eviction_plan(
                evicted@,
                spec_focal_chunks(focal@),
                self.spec_neighbors(),
                existing_chunks@,
            ),
    {
        let centers = focal_chunks(focal);
        plan_eviction(&centers, &self.neighbors, existing_chunks)
    }

    /// One tick: both passes on one reading of the focal points and of the
    /// resident chunks. No chunk is asked for and removed in the same tick.
    pub fn tick(
        &self,
        seed: &Seed,
        focal: &Vec<(i32, i32)>,
        existing_chunks: &Vec<ChunkMarker>,
    ) -> (plan: TickPlan)
        ensures
            is_generation_plan(
                plan.spawn@,
                seed.0,
                spec_focal_chunks(focal@),
                self.spec_neighbors(),
                existing_chunks@,
            ),
            is_eviction_plan(
                plan.despawn@,
                spec_focal_chunks(focal@),
                self.spec_neighbors(),
                existing_chunks@,
            ),
            forall|i: int, k: int|
                0 <= i < plan.spawn@.len() && 0 <= k < plan.despawn@.len() ==> (
                #[trigger] plan.spawn@[i]).ch_pos != existing_chunks@[(
                #[trigger] plan.despawn@[k]) as int].ch_pos,
    {
        proof {
            use_type_invariant(self);
        }
        let centers = focal_chunks(focal);
        let spawn = plan_generation(seed.0, &centers, &self.neighbors, existing_chunks);
        let despawn = plan_eviction(&centers, &self.neighbors, existing_chunks);
        proof {
            assert forall|i: int, k: int| 0 <= i < spawn@.len() && 0 <= k < despawn@.len() implies (
            #[trigger] spawn@[i]).ch_pos != existing_chunks@[(#[trigger] despawn@[k]) as int].ch_pos by {
                lemma_no_flapping(
                    spawn@,
                    despawn@,
                    seed.0,
                    coords(centers@),
                    self.neighbors@,
                    existing_chunks@,
                    i,
                    k,
                );
            }
        }
        TickPlan { spawn, despawn }
    }

    /// The grid cells whose noise values the generator needs to fulfil
    /// `request`, column by column: entry `j` of column `i` is the cell `i`
    /// columns right of and `j` rows above the first. There are none if the
    /// request's corner cannot be one.
    pub fn sample_cells(request: &ChunkRequest) -> (cells: Option<Vec<Vec<(i32, i32)>>>)
        ensures
            cells is Some <==> valid_start(request.start),
            cells matches Some(columns) ==> {
                let region = L::spec_sample_region(request.start);
                &&& columns@.len() == region.width
                &&& forall|i: int| 0 <= i < region.width ==> (#[trigger] columns@[i])@.len() == region.height
                &&& forall|i: int, j: int|
                    0 <= i < region.width && 0 <= j < region.height ==> #[trigger] columns@[i]@[j] == (
                        (region.x + i) as i32,
                        (region.y + j) as i32,
                    )
            },
    {
        if !is_valid_start(request.start) {
            return None;
        }
        let region = L::sample_region(request.start);
        Some(region.cells())
    }

    /// Fulfils a request: generates the chunk from the noise values `columns`,
    /// which were sampled with the request's seed on the cells that the
    /// generator reads (`sample_region` of the request's corner, column by
    /// column), and derives the collision shapes. There is no chunk if the
    /// corner cannot be one or `columns` has not the shape of those cells.
    pub fn spawn_chunk(request: &ChunkRequest, columns: Vec<Vec<u64>>) -> (spawn: Option<
        ChunkSpawn<L::Tile>,
    >)
        ensures
            spawn is Some <==> valid_start(request.start) && NoiseSamples::fits(
                L::spec_sample_region(request.start),
                columns,
            ),
            spawn matches Some(s) ==> {
                &&& s.chunk.data@ == L::spec_tiles(
                    request.start,
                    NoiseSamples::table(L::spec_sample_region(request.start), columns),
                )
                &&& (s.chunk.ch_pos.0 as int, s.chunk.ch_pos.1 as int) == spec_chunk_pos(request.start)
                &&& s.chunk.width == CHUNK_WIDTH
                &&& s.chunk.height == CHUNK_HEIGHT
                &&& s.marker.ch_pos == s.chunk.ch_pos
                &&& request.start.0 == request.ch_pos.0 * CHUNK_WIDTH && request.start.1
                    == request.ch_pos.1 * CHUNK_HEIGHT ==> s.marker.ch_pos == request.ch_pos
                    && s.chunk.wf()
                &&& s.colliders@.dom().finite()
                &&& forall|p: (i32, i32)| s.colliders@.contains_key(p) <==> s.chunk.occupied(p)
                &&& forall|p: (i32, i32)| s.colliders@.contains_key(p) ==> s.colliders@[p] == cell_box()
            },
    {
        if !is_valid_start(request.start) {
            return None;
        }
        let region = L::sample_region(request.start);
        match NoiseSamples::new(region, columns) {
            None => None,
            Some(samples) => {
                let chunk = L::generate_chunk(request.start, &samples);
                let colliders = chunk.generate_colliders();
                let marker = ChunkMarker::new(chunk.ch_pos);
                Some(ChunkSpawn { marker, chunk, colliders })
            },
        }
    }

    /// Replaces the seed by a random one if the reseed trigger fired in this
    /// tick, and leaves it as it is if not.
    pub fn reset_seed(seed: &mut Seed, triggered: bool)
        ensures
            !triggered ==> *final(seed) == *old(seed),
    {
        if triggered {
            let fresh: u32 = random_seed();
            seed.reseed(fresh);
        }
    }
}

} // verus!
