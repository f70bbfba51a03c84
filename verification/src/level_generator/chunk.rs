//! Chunks: their place in the world, their tiles, their collision shapes.
use crate::level_generator::collider::{BoxCollider, ColliderMap};
use crate::level_generator::tile::{Tile, TILE_HEIGHT, TILE_WIDTH};
use vstd::prelude::*;

verus! {

/// Width of a chunk, in grid cells.
pub const CHUNK_WIDTH: i32 = 16;

/// Height of a chunk, in grid cells.
pub const CHUNK_HEIGHT: i32 = 16;

/// The sizes of cells and chunks are fixed, and each of them is positive: there
/// is no configuration with a cell or a chunk that has no extent.
pub proof fn lemma_sizes_are_positive()
    ensures
        TILE_WIDTH > 0,
        TILE_HEIGHT > 0,
        CHUNK_WIDTH > 0,
        CHUNK_HEIGHT > 0,
{
}

/// One generated chunk.
#[derive(Debug)]
pub struct Chunk<T: Tile> {
    /// The chunk's coordinate in chunk space.
    pub ch_pos: (i32, i32),
    /// Width in grid cells.
    pub width: u32,
    /// Height in grid cells.
    pub height: u32,
    /// The tiles of the chunk.
    pub data: Vec<T>,
}

/// The collision shape of an occupied grid cell: a box of the size of one cell.
pub open spec fn cell_box() -> BoxCollider {
    BoxCollider { width: TILE_WIDTH, height: TILE_HEIGHT }
}

impl<T: Tile> Chunk<T> {
    /// Some tile of the chunk sits on cell `p`.
    pub open spec fn occupied(&self, p: (i32, i32)) -> bool {
        exists|i: int| 0 <= i < self.data@.len() && (#[trigger] self.data@[i]).spec_pos() == p
    }

    /// No two tiles of the chunk share both cell and layer.
    pub open spec fn layers_distinct(&self) -> bool {
        forall|i: int, j: int|
            0 <= i < j < self.data@.len() ==> !((#[trigger] self.data@[i]).spec_pos() == (
            #[trigger] self.data@[j]).spec_pos() && self.data@[i].spec_z_index()
                == self.data@[j].spec_z_index())
    }

    /// The left and lower edge of the chunk's own cells, in grid cells.
    pub open spec fn origin(&self) -> (int, int) {
        (self.ch_pos.0 * CHUNK_WIDTH, self.ch_pos.1 * CHUNK_HEIGHT)
    }

    /// The tile at `i` sits on a cell of the chunk or on the border of one cell
    /// around it.
    pub open spec fn within_extent(&self, i: int) -> bool {
        let p = self.data@[i].spec_pos();
        &&& self.origin().0 - 1 <= p.0 < self.origin().0 + self.width + 1
        &&& self.origin().1 - 1 <= p.1 < self.origin().1 + self.height + 1
    }

    /// The invariant of a chunk: its tiles lie within its extent, border
    /// included, and no cell has two tiles on one layer.
    pub open spec fn wf(&self) -> bool {
        &&& self.layers_distinct()
        &&& forall|i: int| 0 <= i < self.data@.len() ==> #[trigger] self.within_extent(i)
    }

    /// The collision shapes of the chunk: one box of the size of a cell for
    /// every cell that has a tile, however many tiles are stacked on it.
    pub fn generate_colliders(&self) -> (colliders: ColliderMap)
        ensures
            colliders@.dom().finite(),
            forall|p: (i32, i32)| colliders@.contains_key(p) <==> self.occupied(p),
            forall|p: (i32, i32)| colliders@.contains_key(p) ==> colliders@[p] == cell_box(),
    {
        let mut colliders = ColliderMap::new();
        let mut i: usize = 0;
        while i < self.data.len()
            invariant
                i <= self.data@.len(),
                colliders@.dom().finite(),
                forall|p: (i32, i32)|
                    colliders@.contains_key(p) <==> exists|k: int|
                        0 <= k < i && (#[trigger] self.data@[k]).spec_pos() == p,
                forall|p: (i32, i32)| colliders@.contains_key(p) ==> colliders@[p] == cell_box(),
            decreases self.data@.len() - i,
        {
            let cell = self.data[i].pos();
            colliders.insert(cell, BoxCollider { width: TILE_WIDTH, height: TILE_HEIGHT });
            i = i + 1;
        }
        colliders
    }
}

/// The chunk coordinate of the world position `pos`, as integers.
pub open spec fn spec_to_chunk_space(pos: (i32, i32)) -> (int, int) {
    (pos.0 as int / (CHUNK_WIDTH * TILE_WIDTH), pos.1 as int / (CHUNK_HEIGHT * TILE_HEIGHT))
}

/// The world position `pos` lies in the square of the world that the chunk at
/// `c` covers: the left and lower edge belong to it, the right and upper edge
/// to its neighbors.
pub open spec fn in_chunk_extent(c: (int, int), pos: (i32, i32)) -> bool {
    &&& c.0 * (CHUNK_WIDTH * TILE_WIDTH) <= pos.0 < (c.0 + 1) * (CHUNK_WIDTH * TILE_WIDTH)
    &&& c.1 * (CHUNK_HEIGHT * TILE_HEIGHT) <= pos.1 < (c.1 + 1) * (CHUNK_HEIGHT * TILE_HEIGHT)
}

/// The coordinate of the chunk that holds the world position `pos`, given in
/// whole world units: each component is the position divided by the size of a
/// chunk in world units, rounded toward negative infinity.
pub fn to_chunk_space(pos: (i32, i32)) -> (c: (i32, i32))
    ensures
        (c.0 as int, c.1 as int) == spec_to_chunk_space(pos),
{
    let x: i32 = pos.0 / (CHUNK_WIDTH * TILE_WIDTH);
    let y: i32 = pos.1 / (CHUNK_HEIGHT * TILE_HEIGHT);
    // The machine's division rounds toward zero: below zero, a position that
    // is no multiple of the chunk size belongs to the chunk one further down.
    (
        if pos.0 % (CHUNK_WIDTH * TILE_WIDTH) < 0 {
            x - 1
        } else {
            x
        },
        if pos.1 % (CHUNK_HEIGHT * TILE_HEIGHT) < 0 {
            y - 1
        } else {
            y
        },
    )
}

/// A world position belongs to exactly one chunk, the one that
/// `to_chunk_space` names: it lies in the extent of the chunk at `c` if and
/// only if `c` is its chunk coordinate. So every position inside a chunk's
/// extent maps to that chunk, and a position on the edge between two chunks
/// belongs to one of them only.
pub proof fn lemma_extent_is_chunk_space(c: (int, int), pos: (i32, i32))
    ensures
        in_chunk_extent(c, pos) <==> spec_to_chunk_space(pos) == c,
{
    assert(CHUNK_WIDTH * TILE_WIDTH == 512);
    assert(CHUNK_HEIGHT * TILE_HEIGHT == 512);
    assert(c.0 * 512 <= pos.0 < (c.0 + 1) * 512 <==> pos.0 as int / 512 == c.0);
    assert(c.1 * 512 <= pos.1 < (c.1 + 1) * 512 <==> pos.1 as int / 512 == c.1);
}

/// The record that a chunk is resident, by its coordinate.
#[derive(Clone, Copy, Debug, PartialEq, Eq)]
pub struct ChunkMarker {
    pub ch_pos: (i32, i32),
}

impl ChunkMarker {
    pub fn new(ch_pos: (i32, i32)) -> (marker: Self)
        ensures
            marker.ch_pos == ch_pos,
    {
        Self { ch_pos }
    }
}

/// The chunk at `ch_pos`, with a border of one cell around it, lies on grid
/// cells whose coordinates the machine can hold.
pub open spec fn addressable(ch_pos: (i32, i32)) -> bool {
    &&& i32::MIN <= ch_pos.0 * CHUNK_WIDTH - 1
    &&& ch_pos.0 * CHUNK_WIDTH + CHUNK_WIDTH + 1 <= i32::MAX
    &&& i32::MIN <= ch_pos.1 * CHUNK_HEIGHT - 1
    &&& ch_pos.1 * CHUNK_HEIGHT + CHUNK_HEIGHT + 1 <= i32::MAX
}

/// The grid cell at the left and lower corner of the chunk at `ch_pos`, where
/// the chunk is addressable.
pub fn chunk_origin(ch_pos: (i32, i32)) -> (start: Option<(i32, i32)>)
    ensures
        start is Some <==> addressable(ch_pos),
        start matches Some(s) ==> s.0 == ch_pos.0 * CHUNK_WIDTH && s.1 == ch_pos.1 * CHUNK_HEIGHT,
{
    let x: i64 = ch_pos.0 as i64 * CHUNK_WIDTH as i64;
    let y: i64 = ch_pos.1 as i64 * CHUNK_HEIGHT as i64;
    let low: i64 = i32::MIN as i64 + 1;
    if low <= x && x + CHUNK_WIDTH as i64 + 1 <= i32::MAX as i64 && low <= y && y
        + CHUNK_HEIGHT as i64 + 1 <= i32::MAX as i64 {
        Some((x as i32, y as i32))
    } else {
        None
    }
}

} // verus!
