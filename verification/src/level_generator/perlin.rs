//! The generator of a single layer of terrain.
use crate::level_generator::chunk::{Chunk, CHUNK_HEIGHT, CHUNK_WIDTH};
use crate::level_generator::region::{CellRect, NoiseSamples};
use crate::level_generator::sample::NoiseValue;
use crate::level_generator::terrain::{
    is_terrain, layered_tiles, lemma_terrain_fills_chunk, lemma_terrain_is_unique, TerrainLayer,
};
use crate::level_generator::tile::ColorTile;
use crate::level_generator::LevelGenerator;
use vstd::prelude::*;

verus! {

/// The encoding of the threshold 0.2, in binary64.
pub const GROUND_THRESHOLD: u64 = 0x3FC9_9999_9999_999A;

/// The color of the one layer.
pub const GROUND_COLOR: &'static str = "#FF5733";

/// Generates one layer of colored tiles: a cell carries a tile where its noise
/// value exceeds 0.2. It reads the chunk's own cells only.
pub struct PerlinLevelGenerator;

impl PerlinLevelGenerator {
    /// The one layer.
    pub open spec fn spec_layers() -> Seq<TerrainLayer> {
        seq![TerrainLayer { threshold: NoiseValue { bits: GROUND_THRESHOLD }, color: GROUND_COLOR }]
    }

    /// The one layer.
    pub fn layers() -> (layers: Vec<TerrainLayer>)
        ensures
            layers@ == Self::spec_layers(),
    {
        let mut layers: Vec<TerrainLayer> = Vec::new();
        layers.push(
            TerrainLayer { threshold: NoiseValue::from_bits(GROUND_THRESHOLD), color: GROUND_COLOR },
        );
        assert(layers@ =~= Self::spec_layers());
        layers
    }

    /// The rectangle of `size.0` by `size.1` cells at the origin of the grid.
    pub open spec fn spec_field(size: (u32, u32)) -> CellRect {
        CellRect { x: 0, y: 0, width: size.0, height: size.1 }
    }

    /// A chunk of `size.0` by `size.1` cells at the origin of the grid, from
    /// the noise values `columns` on its cells, column by column: one tile of
    /// layer 0 on every cell whose value exceeds 0.2. There is no chunk if
    /// `columns` has not the shape of the cells, or the cells reach beyond the
    /// coordinates that the machine can hold.
    pub fn generate(size: (u32, u32), columns: Vec<Vec<u64>>) -> (chunk: Option<Chunk<ColorTile>>)
        ensures
            chunk is Some <==> NoiseSamples::fits(Self::spec_field(size), columns),
            chunk matches Some(c) ==> {
                &&& c.ch_pos == (0i32, 0i32)
                &&& c.width == size.0
                &&& c.height == size.1
                &&& is_terrain(
                    c.data@,
                    NoiseSamples::table(Self::spec_field(size), columns),
                    Self::spec_layers(),
                )
            },
    {
        let field = CellRect { x: 0, y: 0, width: size.0, height: size.1 };
        match NoiseSamples::new(field, columns) {
            None => None,
            Some(samples) => {
                let layers = Self::layers();
                let data = layered_tiles(&samples, &layers);
                Some(Chunk { ch_pos: (0, 0), width: size.0, height: size.1, data })
            },
        }
    }
}

impl LevelGenerator for PerlinLevelGenerator {
    type Tile = ColorTile;

    /// The cells of the chunk.
    open spec fn spec_sample_region(start: (i32, i32)) -> CellRect {
        CellRect { x: start.0, y: start.1, width: CHUNK_WIDTH as u32, height: CHUNK_HEIGHT as u32 }
    }

    /// The terrain of the one layer over the sampled cells.
    open spec fn spec_tiles(start: (i32, i32), samples: NoiseSamples) -> Seq<ColorTile> {
        choose|data: Seq<ColorTile>| is_terrain(data, samples, Self::spec_layers())
    }

    fn sample_region(start: (i32, i32)) -> (region: CellRect) {
        CellRect { x: start.0, y: start.1, width: CHUNK_WIDTH as u32, height: CHUNK_HEIGHT as u32 }
    }

    /// The chunk that starts at grid cell `start`: one tile of layer 0 on
    /// every cell of the chunk whose noise value exceeds 0.2.
    fn generate_chunk(start: (i32, i32), samples: &NoiseSamples) -> (chunk: Chunk<ColorTile>)
        ensures
            is_terrain(chunk.data@, *samples, Self::spec_layers()),
    {
        let layers = Self::layers();
        let data = layered_tiles(samples, &layers);
        let ch_pos: (i32, i32) = (start.0 / CHUNK_WIDTH, start.1 / CHUNK_HEIGHT);
        let chunk = Chunk { ch_pos, width: CHUNK_WIDTH as u32, height: CHUNK_HEIGHT as u32, data };
        proof {
            lemma_terrain_is_unique(
                chunk.data@,
                Self::spec_tiles(start, *samples),
                *samples,
                Self::spec_layers(),
            );
            if start.0 % CHUNK_WIDTH == 0 && start.1 % CHUNK_HEIGHT == 0 {
                assert(chunk.origin() == (start.0 as int, start.1 as int));
                lemma_terrain_fills_chunk(chunk, *samples, Self::spec_layers());
            }
        }
        chunk
    }
}

} // verus!
