//! The pastoral tileset: which cell of the tileset image each sprite uses.

use vstd::prelude::*;

use crate::text::str_eq;

verus! {

/// Width of a tile in the tileset image, in pixels.
pub const TILE_SIZE_PIXELS: u32 = 16;

/// Number of tile columns in the tileset image.
pub const TILE_COLUMNS: u32 = 12;

/// Number of tile rows in the tileset image.
pub const TILE_ROWS: u32 = 16;

/// A cell of the tileset image, by column and row.
#[derive(Debug, Clone, Copy, PartialEq, Eq, Structural)]
pub struct PastoralTileSprite {
    col: u32,
    row: u32,
}

impl View for PastoralTileSprite {
    type V = (u32, u32);

    /// The column and row of the cell.
    closed spec fn view(&self) -> (u32, u32) {
        (self.col, self.row)
    }
}

/// The cell index of column `col`, row `row`, counting row by row.
pub open spec fn atlas_cell(col: u32, row: u32) -> int {
    row * TILE_COLUMNS + col
}

impl PastoralTileSprite {
    /// The cell at column `col`, row `row`.
    pub fn from_grid(col: u32, row: u32) -> (s: Self)
        ensures
            s@ == (col, row),
    {
        Self { col, row }
    }

    /// The column of the cell.
    pub fn col(&self) -> (c: u32)
        ensures
            c == self@.0,
    {
        self.col
    }

    /// The row of the cell.
    pub fn row(&self) -> (r: u32)
        ensures
            r == self@.1,
    {
        self.row
    }

    /// The index of the cell in the texture atlas, which numbers the cells
    /// row by row.
    pub fn atlas_index(self) -> (i: usize)
        requires
            atlas_cell(self@.0, self@.1) <= u32::MAX,
        ensures
            i == atlas_cell(self@.0, self@.1),
    {
        (self.row * TILE_COLUMNS + self.col) as usize
    }
}

/// The named sprites of the pastoral tileset.
#[derive(Debug, Clone, Copy, PartialEq, Eq, Structural)]
pub enum PastoralSprite {
    GrassPlain,
    GrassTuftLeft,
    GrassTuftRight,
    GrassTuftLower,
    OpenWater,
    TreeStump,
}

/// The sprite a level file names `name`; any unknown name gives open water.
pub open spec fn sprite_named(name: Seq<char>) -> PastoralSprite {
    if name == "grass_plain"@ {
        PastoralSprite::GrassPlain
    } else if name == "grass_tuft_left"@ {
        PastoralSprite::GrassTuftLeft
    } else if name == "grass_tuft_right"@ {
        PastoralSprite::GrassTuftRight
    } else if name == "grass_tuft_lower"@ {
        PastoralSprite::GrassTuftLower
    } else if name == "open_water"@ {
        PastoralSprite::OpenWater
    } else if name == "tree_stump"@ {
        PastoralSprite::TreeStump
    } else {
        PastoralSprite::OpenWater
    }
}

/// The column and row of the cell that `sprite` uses.
pub open spec fn sprite_cell(sprite: PastoralSprite) -> (u32, u32) {
    match sprite {
        PastoralSprite::GrassPlain => (6, 0),
        PastoralSprite::GrassTuftLeft => (8, 0),
        PastoralSprite::GrassTuftRight => (9, 0),
        PastoralSprite::GrassTuftLower => (9, 1),
        PastoralSprite::OpenWater => (6, 2),
        PastoralSprite::TreeStump => (0, 10),
    }
}

impl PastoralSprite {
    /// The sprite named `name` in level files. An unknown name falls back to
    /// open water, so that a level with a bad tile name still loads; the
    /// result is never `None`.
    pub fn from_name(name: &str) -> (r: Option<Self>)
        ensures
            r == Some(sprite_named(name@)),
    {
        if str_eq(name, "grass_plain") {
            Some(Self::GrassPlain)
        } else if str_eq(name, "grass_tuft_left") {
            Some(Self::GrassTuftLeft)
        } else if str_eq(name, "grass_tuft_right") {
            Some(Self::GrassTuftRight)
        } else if str_eq(name, "grass_tuft_lower") {
            Some(Self::GrassTuftLower)
        } else if str_eq(name, "open_water") {
            Some(Self::OpenWater)
        } else if str_eq(name, "tree_stump") {
            Some(Self::TreeStump)
        } else {
            Some(Self::OpenWater)
        }
    }

    /// The tileset cell of the sprite.
    pub fn tile(self) -> (t: PastoralTileSprite)
        ensures
            t@ == sprite_cell(self),
    {
        match self {
            Self::GrassPlain => PastoralTileSprite::from_grid(6, 0),
            Self::GrassTuftLeft => PastoralTileSprite::from_grid(8, 0),
            Self::GrassTuftRight => PastoralTileSprite::from_grid(9, 0),
            Self::GrassTuftLower => PastoralTileSprite::from_grid(9, 1),
            Self::OpenWater => PastoralTileSprite::from_grid(6, 2),
            Self::TreeStump => PastoralTileSprite::from_grid(0, 10),
        }
    }
}

/// Every named sprite lies inside the tileset image, so its atlas index is
/// one of the image's cells.
pub proof fn law_named_sprites_inside_tileset(sprite: PastoralSprite)
    ensures
        sprite_cell(sprite).0 < TILE_COLUMNS,
        sprite_cell(sprite).1 < TILE_ROWS,
        0 <= atlas_cell(sprite_cell(sprite).0, sprite_cell(sprite).1) < TILE_COLUMNS * TILE_ROWS,
{
}

} // verus!
