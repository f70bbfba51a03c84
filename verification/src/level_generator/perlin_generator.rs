//! The generator of layered terrain with a border.
use crate::level_generator::chunk::{Chunk, CHUNK_HEIGHT, CHUNK_WIDTH};
use crate::level_generator::region::{CellRect, NoiseSamples};
use crate::level_generator::sample::{lemma_exceeds_by_encoding, NoiseValue};
use crate::level_generator::terrain::{
    ascending, is_terrain, layered_tiles, lemma_terrain_fills_chunk, lemma_terrain_is_unique,
    TerrainLayer,
};
use crate::level_generator::tile::ColorTile;
use crate::level_generator::{valid_start, LevelGenerator};
use vstd::prelude::*;

verus! {

/// The encodings of the four thresholds 0.2, 0.4, 0.6 and 0.8, in binary64.
pub const LAYER_THRESHOLDS: [u64; 4] = [
    0x3FC9_9999_9999_999A,
    0x3FD9_9999_9999_999A,
    0x3FE3_3333_3333_3333,
    0x3FE9_9999_9999_999A,
];

/// The colors of the four layers, lowest first.
pub const LAYER_COLORS: [&'static str; 4] = ["#FF5733", "#C70039", "#900C3F", "#581845"];

/// Generates four stacked layers of colored tiles, and one cell more on every
/// side of the chunk, so that neighboring chunks join without a seam.
pub struct SimplePerlinLevelGenerator;

impl SimplePerlinLevelGenerator {
    /// The four layers, lowest first.
    pub open spec fn spec_layers() -> Seq<TerrainLayer> {
        Seq::new(
            4,
            |z: int|
                TerrainLayer {
                    threshold: NoiseValue { bits: LAYER_THRESHOLDS[z] },
                    color: LAYER_COLORS[z],
                },
        )
    }

    /// The four layers, lowest first.
    pub fn layers() -> (layers: Vec<TerrainLayer>)
        ensures
            layers@ == Self::spec_layers(),
    {
        let mut layers: Vec<TerrainLayer> = Vec::new();
        let mut z: usize = 0;
        while z < 4
            invariant
                z <= 4,
                layers@.len() == z,
                forall|k: int| 0 <= k < z ==> #[trigger] layers@[k] == Self::spec_layers()[k],
            decreases 4 - z,
        {
            layers.push(
                TerrainLayer {
                    threshold: NoiseValue::from_bits(LAYER_THRESHOLDS[z]),
                    color: LAYER_COLORS[z],
                },
            );
            z = z + 1;
        }
        assert(layers@ =~= Self::spec_layers());
        layers
    }
}

impl LevelGenerator for SimplePerlinLevelGenerator {
    type Tile = ColorTile;

    /// The cells of the chunk and one cell more on every side.
    open spec fn spec_sample_region(start: (i32, i32)) -> CellRect {
        CellRect {
            x: (start.0 - 1) as i32,
            y: (start.1 - 1) as i32,
            width: (CHUNK_WIDTH + 2) as u32,
            height: (CHUNK_HEIGHT + 2) as u32,
        }
    }

    /// The terrain of the four layers over the sampled cells.
    open spec fn spec_tiles(start: (i32, i32), samples: NoiseSamples) -> Seq<ColorTile> {
        choose|data: Seq<ColorTile>| is_terrain(data, samples, Self::spec_layers())
    }

    fn sample_region(start: (i32, i32)) -> (region: CellRect) {
        CellRect {
            x: start.0 - 1,
            y: start.1 - 1,
            width: (CHUNK_WIDTH + 2) as u32,
            height: (CHUNK_HEIGHT + 2) as u32,
        }
    }

    /// The chunk that starts at grid cell `start`: on every sampled cell, one
    /// tile for each of the four thresholds that the cell's noise value
    /// exceeds, with the rank of the threshold as its layer.
    fn generate_chunk(start: (i32, i32), samples: &NoiseSamples) -> (chunk: Chunk<ColorTile>)
        ensures
            is_terrain(chunk.data@, *samples, Self::spec_layers()),
    {
        let layers = Self::layers();
        let data = layered_tiles(samples, &layers);
        let ch_pos: (i32, i32) = (start.0 / CHUNK_WIDTH, start.1 / CHUNK_HEIGHT);
        let chunk = Chunk { ch_pos, width: CHUNK_WIDTH as u32, height: CHUNK_HEIGHT as u32, data };
        proof {
            lemma_terrain_is_unique(
                chunk.data@,
                Self::spec_tiles(start, *samples),
                *samples,
                Self::spec_layers(),
            );
            if start.0 % CHUNK_WIDTH == 0 && start.1 % CHUNK_HEIGHT == 0 {
                assert(chunk.origin() == (start.0 as int, start.1 as int));
                lemma_terrain_fills_chunk(chunk, *samples, Self::spec_layers());
            }
        }
        chunk
    }
}

/// The thresholds of the four layers are numbers and strictly ascend, so a
/// cell's tiles are always a stack without gaps: layers 0 up to some height.
pub proof fn lemma_layers_ascend()
    ensures
        ascending(SimplePerlinLevelGenerator::spec_layers()),
{
    let layers = SimplePerlinLevelGenerator::spec_layers();
    assert(layers[0].threshold.bits == 0x3FC9_9999_9999_999A);
    assert(layers[1].threshold.bits == 0x3FD9_9999_9999_999A);
    assert(layers[2].threshold.bits == 0x3FE3_3333_3333_3333);
    assert(layers[3].threshold.bits == 0x3FE9_9999_9999_999A);
    assert forall|a: int, b: int| 0 <= a < b < layers.len() implies (#[trigger] layers[b]).threshold.spec_exceeds(
        (#[trigger] layers[a]).threshold,
    ) by {
        lemma_exceeds_by_encoding(layers[b].threshold, layers[a].threshold);
    }
}

/// Chunks that are neighbors along x sample two columns in common: the edge
/// column of each chunk's own cells is the border column of the other. The
/// same holds of rows for neighbors along y. On those cells both chunks read
/// the noise field at the same grid cell, which is what lets their tiles join
/// (see `lemma_shared_cell_same_tiles`).
pub proof fn lemma_neighbors_share_border(start: (i32, i32), next: (i32, i32), p: (i32, i32))
    requires
        valid_start(start),
        valid_start(next),
    ensures
        next.0 == start.0 + CHUNK_WIDTH && next.1 == start.1 && (p.0 == next.0 - 1 || p.0 == next.0)
            && start.1 - 1 <= p.1 <= start.1 + CHUNK_HEIGHT
            ==> SimplePerlinLevelGenerator::spec_sample_region(start).contains(p)
            && SimplePerlinLevelGenerator::spec_sample_region(next).contains(p),
        next.1 == start.1 + CHUNK_HEIGHT && next.0 == start.0 && (p.1 == next.1 - 1 || p.1 == next.1)
            && start.0 - 1 <= p.0 <= start.0 + CHUNK_WIDTH
            ==> SimplePerlinLevelGenerator::spec_sample_region(start).contains(p)
            && SimplePerlinLevelGenerator::spec_sample_region(next).contains(p),
{
}

} // verus!
