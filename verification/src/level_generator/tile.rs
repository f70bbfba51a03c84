//! The description of one grid cell's content.
use vstd::prelude::*;

verus! {

/// Height of one grid cell, in world units.
pub const TILE_HEIGHT: i32 = 32;

/// Width of one grid cell, in world units.
pub const TILE_WIDTH: i32 = 32;

/// Factor by which a tile's unit square is scaled when it is drawn.
pub const TILE_SCALE: i32 = 32;

/// What every kind of tile has: a grid cell it sits on and a layer in the
/// stack of tiles on that cell.
pub trait Tile: Sized {
    /// The grid cell of the tile.
    spec fn spec_pos(&self) -> (i32, i32);

    /// The layer of the tile; higher layers are drawn over lower ones.
    spec fn spec_z_index(&self) -> i32;

    fn pos(&self) -> (p: (i32, i32))
        ensures
            p == self.spec_pos(),
    ;

    fn z_index(&self) -> (z: i32)
        ensures
            z == self.spec_z_index(),
    ;
}

/// A tile that is drawn in one flat color.
#[derive(Eq, PartialEq, Debug)]
pub struct ColorTile {
    pub pos: (i32, i32),
    /// The color as `#RRGGBB`.
    pub color: &'static str,
    pub z_index: i32,
}

impl Tile for ColorTile {
    open spec fn spec_pos(&self) -> (i32, i32) {
        self.pos
    }

    open spec fn spec_z_index(&self) -> i32 {
        self.z_index
    }

    fn pos(&self) -> (p: (i32, i32)) {
        self.pos
    }

    fn z_index(&self) -> (z: i32) {
        self.z_index
    }
}

impl ColorTile {
    pub fn new(pos: (i32, i32), color: &'static str, z_index: i32) -> (tile: Self)
        ensures
            tile.pos == pos,
            tile.color == color,
            tile.z_index == z_index,
    {
        Self { pos, color, z_index }
    }
}

/// A tile that is drawn from a texture.
#[derive(Debug)]
pub enum TexturedTile {
    /// One entry of a texture atlas.
    Atlas { pos: (i32, i32), texture_path: &'static str, tex_index: u32, z_index: i32 },
    /// A texture of its own.
    Single { pos: (i32, i32), texture_path: &'static str, z_index: i32 },
}

impl Tile for TexturedTile {
    open spec fn spec_pos(&self) -> (i32, i32) {
        match *self {
            TexturedTile::Atlas { pos, .. } => pos,
            TexturedTile::Single { pos, .. } => pos,
        }
    }

    open spec fn spec_z_index(&self) -> i32 {
        match *self {
            TexturedTile::Atlas { z_index, .. } => z_index,
            TexturedTile::Single { z_index, .. } => z_index,
        }
    }

    fn pos(&self) -> (p: (i32, i32)) {
        match self {
            TexturedTile::Atlas { pos, .. } => *pos,
            TexturedTile::Single { pos, .. } => *pos,
        }
    }

    fn z_index(&self) -> (z: i32) {
        match self {
            TexturedTile::Atlas { z_index, .. } => *z_index,
            TexturedTile::Single { z_index, .. } => *z_index,
        }
    }
}

impl TexturedTile {
    pub fn atlas(
        pos: (i32, i32),
        texture_path: &'static str,
        tex_index: u32,
        z_index: i32,
    ) -> (tile: Self)
        ensures
            tile == (TexturedTile::Atlas { pos, texture_path, tex_index, z_index }),
    {
        Self::Atlas { pos, texture_path, tex_index, z_index }
    }

    pub fn single(pos: (i32, i32), texture_path: &'static str, z_index: i32) -> (tile: Self)
        ensures
            tile == (TexturedTile::Single { pos, texture_path, z_index }),
    {
        Self::Single { pos, texture_path, z_index }
    }

    /// The texture that the tile is drawn from.
    pub fn texture_path(&self) -> (path: &'static str)
        ensures
            path == match *self {
                TexturedTile::Atlas { texture_path, .. } => texture_path,
                TexturedTile::Single { texture_path, .. } => texture_path,
            },
    {
        match self {
            TexturedTile::Atlas { texture_path, .. } => *texture_path,
            TexturedTile::Single { texture_path, .. } => *texture_path,
        }
    }
}

} // verus!
