//! The tile grid of a scene.

use vstd::prelude::*;

use crate::effects::{TileEffectView, TileEffects, opt_view, clone_opt_string};
use crate::pastoral::PastoralTileSprite;
use crate::text::str_eq;

verus! {

/// A position on the tile grid: column `x`, row `y` (row 0 is the top row).
#[derive(Debug, Clone, Copy, PartialEq, Eq, Structural)]
pub struct GridPos {
    pub x: i32,
    pub y: i32,
}

impl GridPos {
    /// The position at column `x`, row `y`.
    pub fn new(x: i32, y: i32) -> (p: Self)
        ensures
            p == (GridPos { x, y }),
    {
        GridPos { x, y }
    }
}

/// The scenes the game knows by name.
#[derive(Debug, Clone, Copy, PartialEq, Eq, Structural)]
pub enum SceneName {
    Main,
}

/// What a tile shows.
#[derive(Clone, Copy, PartialEq, Eq, Structural)]
pub enum SceneSprite {
    Pastoral(PastoralTileSprite),
}

/// What a tile shows, as plain values: the tileset and the cell's column and row.
pub enum SceneSpriteView {
    Pastoral(u32, u32),
}

impl View for SceneSprite {
    type V = SceneSpriteView;

    open spec fn view(&self) -> SceneSpriteView {
        match self {
            SceneSprite::Pastoral(t) => SceneSpriteView::Pastoral(t@.0, t@.1),
        }
    }
}

/// A tile of a scene. `z_layer_bits` is the IEEE-754 bit pattern of the
/// `f32` depth at which the tile is drawn.
pub struct SceneTile {
    pub sprite: SceneSprite,
    pub walkable: bool,
    pub effects: TileEffects,
    pub z_layer_bits: u32,
    pub tag: Option<String>,
}

/// A tile as plain values.
pub struct SceneTileView {
    pub sprite: SceneSpriteView,
    pub walkable: bool,
    pub effects: Seq<TileEffectView>,
    pub z_layer_bits: u32,
    pub tag: Option<Seq<char>>,
}

impl View for SceneTile {
    type V = SceneTileView;

    open spec fn view(&self) -> SceneTileView {
        SceneTileView {
            sprite: self.sprite@,
            walkable: self.walkable,
            effects: self.effects@,
            z_layer_bits: self.z_layer_bits,
            tag: opt_view(self.tag),
        }
    }
}

impl Clone for SceneTile {
    fn clone(&self) -> (r: Self)
        ensures
            r@ == self@,
    {
        SceneTile {
            sprite: self.sprite,
            walkable: self.walkable,
            effects: self.effects.clone(),
            z_layer_bits: self.z_layer_bits,
            tag: clone_opt_string(&self.tag),
        }
    }
}

impl SceneTile {
    /// A walkable tile showing `sprite`, without effects or tag, at depth 0.0
    /// (whose bit pattern is 0).
    pub fn new(sprite: SceneSprite) -> (t: Self)
        ensures
            t@ == (SceneTileView {
                sprite: sprite@,
                walkable: true,
                effects: Seq::empty(),
                z_layer_bits: 0,
                tag: None,
            }),
    {
        Self { sprite, walkable: true, effects: TileEffects::default(), z_layer_bits: 0, tag: None }
    }

    /// The tile with `walkable` set.
    pub fn with_walkable(self, walkable: bool) -> (t: Self)
        ensures
            t@ == (SceneTileView { walkable, ..self@ }),
    {
        let mut t = self;
        t.walkable = walkable;
        t
    }

    /// The tile at the depth whose `f32` bit pattern is `z_layer_bits`.
    pub fn with_z_layer(self, z_layer_bits: u32) -> (t: Self)
        ensures
            t@ == (SceneTileView { z_layer_bits, ..self@ }),
    {
        let mut t = self;
        t.z_layer_bits = z_layer_bits;
        t
    }

    /// The tile tagged `tag`.
    pub fn with_tag(self, tag: &str) -> (t: Self)
        ensures
            t@ == (SceneTileView { tag: Some(tag@), ..self@ }),
    {
        let mut t = self;
        t.tag = Some(tag.to_owned());
        t
    }
}

/// A scene as plain values: rows of tiles, top row first, and the grid
/// position where the player appears.
pub struct SceneView {
    pub grid: Seq<Seq<SceneTileView>>,
    pub player_spawn: GridPos,
}

/// A scene: a rectangular grid of tiles and where the player appears.
pub struct SceneDefinition {
    tiles: Vec<Vec<SceneTile>>,
    player_spawn: GridPos,
}

/// Whether all rows of a grid have the same length.
pub open spec fn is_rectangular<T>(grid: Seq<Seq<T>>) -> bool {
    forall|i: int| 0 <= i < grid.len() ==> #[trigger] grid[i].len() == grid[0].len()
}

/// The width of a grid as the `i32` the game works with: the length of the
/// first row (0 without rows), truncated to 32 bits as `as i32` does.
pub open spec fn grid_width<T>(grid: Seq<Seq<T>>) -> i32 {
    if grid.len() == 0 {
        0
    } else {
        grid[0].len() as i32
    }
}

/// The height of a grid as the `i32` the game works with: the number of rows,
/// truncated to 32 bits as `as i32` does.
pub open spec fn grid_height<T>(grid: Seq<Seq<T>>) -> i32 {
    grid.len() as i32
}

/// Whether `p` is a cell of the grid.
pub open spec fn in_grid<T>(grid: Seq<Seq<T>>, p: GridPos) -> bool {
    0 <= p.x < grid_width(grid) && 0 <= p.y < grid_height(grid)
}

/// The tile at the cell `p` (meaningful where `in_grid`).
pub open spec fn cell<T>(grid: Seq<Seq<T>>, p: GridPos) -> T {
    grid[p.y as int][p.x as int]
}

/// The grid with the cell `p` replaced by `tile`, where `p` is a cell; else the
/// grid unchanged.
pub open spec fn grid_with_tile<T>(grid: Seq<Seq<T>>, p: GridPos, tile: T) -> Seq<Seq<T>> {
    if in_grid(grid, p) {
        grid.update(p.y as int, grid[p.y as int].update(p.x as int, tile))
    } else {
        grid
    }
}

/// Whether a tile stops the player: it has an effect of kind "blockage".
pub open spec fn tile_blocks(tile: SceneTileView) -> bool {
    exists|i: int| 0 <= i < tile.effects.len() && #[trigger] tile.effects[i].tile_effect_type == "blockage"@
}

/// Whether the cell at column `x`, row `y` stops the player: it lies outside
/// the grid, or its tile blocks.
pub open spec fn cell_blocks(grid: Seq<Seq<SceneTileView>>, x: int, y: int) -> bool {
    let p = GridPos { x: x as i32, y: y as i32 };
    !in_grid(grid, p) || tile_blocks(cell(grid, p))
}

/// A length truncated to `i32` is, when not negative, at most the length.
pub proof fn lemma_truncated_len(n: usize)
    ensures
        0 <= (n as i32) ==> (n as i32) as int <= n as int,
{
    assert(0 <= (n as i32) ==> ((n as i32) as usize) <= n) by (bit_vector);
}

impl View for SceneDefinition {
    type V = SceneView;

    closed spec fn view(&self) -> SceneView {
        SceneView {
            grid: self.tiles@.map_values(|row: Vec<SceneTile>| row@.map_values(|t: SceneTile| t@)),
            player_spawn: self.player_spawn,
        }
    }
}

impl SceneDefinition {
    /// The scene's invariant: its rows all have the same length.
    pub closed spec fn wf(&self) -> bool {
        is_rectangular(self.tiles@.map_values(|row: Vec<SceneTile>| row@))
    }

    /// The scene's grid is rectangular.
    pub proof fn lemma_wf_rectangular(&self)
        requires
            self.wf(),
        ensures
            is_rectangular(self@.grid),
    {
        let rows = self.tiles@.map_values(|row: Vec<SceneTile>| row@);
        assert forall|i: int| 0 <= i < self@.grid.len() implies #[trigger] self@.grid[i].len()
            == self@.grid[0].len() by {
            assert(rows[i].len() == rows[0].len());
        }
    }

    /// A scene made of the rows `tiles`, which all have the same length.
    pub fn from_rows(tiles: Vec<Vec<SceneTile>>, player_spawn: GridPos) -> (s: Self)
        requires
            is_rectangular(tiles@.map_values(|row: Vec<SceneTile>| row@)),
        ensures
            s.wf(),
            s@.grid == tiles@.map_values(|row: Vec<SceneTile>| row@.map_values(|t: SceneTile| t@)),
            s@.player_spawn == player_spawn,
    {
        SceneDefinition { tiles, player_spawn }
    }

    /// A scene of `height` rows of `width` copies of `tile`.
    pub fn filled(width: usize, height: usize, tile: SceneTile, player_spawn: GridPos) -> (s:
        Self)
        ensures
            s.wf(),
            s@.grid == Seq::new(height as nat, |i: int| Seq::new(width as nat, |j: int| tile@)),
            s@.player_spawn == player_spawn,
    {
        let mut row: Vec<SceneTile> = Vec::new();
        let mut j: usize = 0;
        while j < width
            invariant
                j <= width,
                row@.map_values(|t: SceneTile| t@) == Seq::new(j as nat, |k: int| tile@),
            decreases width - j,
        {
            let t = tile.clone();
            let ghost before = row@;
            row.push(t);
            assert(row@.map_values(|t: SceneTile| t@) =~= before.map_values(|t: SceneTile| t@).push(
                t@,
            ));
            assert(Seq::new((j + 1) as nat, |k: int| tile@) =~= Seq::new(j as nat, |k: int| tile@).push(tile@));
            j = j + 1;
        }
        let ghost row_view = row@.map_values(|t: SceneTile| t@);
        let mut tiles: Vec<Vec<SceneTile>> = Vec::new();
        let mut i: usize = 0;
        while i < height
            invariant
                i <= height,
                row@.len() == width,
                row@.map_values(|t: SceneTile| t@) == row_view,
                row_view == Seq::new(width as nat, |k: int| tile@),
                tiles@.len() == i,
                forall|k: int| 0 <= k < i ==> (#[trigger] tiles@[k])@.map_values(|t: SceneTile| t@)
                    == row_view,
                forall|k: int| 0 <= k < i ==> (#[trigger] tiles@[k])@.len() == width,
            decreases height - i,
        {
            let r = clone_row(&row);
            tiles.push(r);
            i = i + 1;
        }
        let s = SceneDefinition { tiles, player_spawn };
        assert(s@.grid =~= Seq::new(height as nat, |i: int| Seq::new(width as nat, |j: int| tile@)));
        assert(is_rectangular(tiles@.map_values(|row: Vec<SceneTile>| row@)));
        s
    }

    /// The width of the scene: the length of its first row, 0 without rows,
    /// truncated to `i32`.
    pub fn width(&self) -> (w: i32)
        ensures
            w == grid_width(self@.grid),
    {
        if self.tiles.len() == 0 {
            0
        } else {
            self.tiles[0].len() as i32
        }
    }

    /// The number of rows of the scene, truncated to `i32`.
    pub fn height(&self) -> (h: i32)
        ensures
            h == grid_height(self@.grid),
    {
        self.tiles.len() as i32
    }

    /// Where the player appears.
    pub fn player_spawn(&self) -> (p: GridPos)
        ensures
            p == self@.player_spawn,
    {
        self.player_spawn
    }

    /// The rows of tiles, top row first.
    pub fn tiles(&self) -> (t: &Vec<Vec<SceneTile>>)
        ensures
            t@.map_values(|row: Vec<SceneTile>| row@.map_values(|t: SceneTile| t@)) == self@.grid,
    {
        &self.tiles
    }

    /// Whether `p` is a cell of the scene.
    pub fn contains(&self, p: GridPos) -> (r: bool)
        requires
            self.wf(),
        ensures
            r == in_grid(self@.grid, p),
            r ==> 0 <= p.y < self@.grid.len() && 0 <= p.x < self@.grid[p.y as int].len(),
    {
        let w = self.width();
        let h = self.height();
        proof {
            lemma_truncated_len(self.tiles@.len() as usize);
            self.lemma_wf_rectangular();
            if self.tiles@.len() > 0 {
                lemma_truncated_len(self.tiles@[0]@.len() as usize);
            }
        }
        p.x >= 0 && p.y >= 0 && p.x < w && p.y < h
    }

    /// Replaces the tile at the cell `grid_position`; a position outside the
    /// scene changes nothing.
    pub fn set_tile(&mut self, grid_position: GridPos, tile: SceneTile)
        requires
            old(self).wf(),
        ensures
            final(self).wf(),
            final(self)@.grid == grid_with_tile(old(self)@.grid, grid_position, tile@),
            final(self)@.player_spawn == old(self)@.player_spawn,
    {
        if !self.contains(grid_position) {
            return;
        }
        let ghost old_tiles = self.tiles@;
        let y = grid_position.y as usize;
        let x = grid_position.x as usize;
        proof {
            self.lemma_wf_rectangular();
        }
        let ghost tv = tile@;
        self.tiles[y][x] = tile;
        proof {
            let g0 = old_tiles.map_values(|row: Vec<SceneTile>| row@.map_values(|t: SceneTile| t@));
            assert(self.tiles@[y as int]@ == old_tiles[y as int]@.update(x as int, self.tiles@[y as int]@[x as int]));
            assert(self.tiles@ =~= old_tiles.update(y as int, self.tiles@[y as int]));
            assert(self@.grid[y as int] =~= g0[y as int].update(x as int, tv));
            assert(self@.grid =~= g0.update(y as int, g0[y as int].update(x as int, tv)));
            let rows = self.tiles@.map_values(|row: Vec<SceneTile>| row@);
            let old_rows = old_tiles.map_values(|row: Vec<SceneTile>| row@);
            assert forall|i: int| 0 <= i < rows.len() implies #[trigger] rows[i].len() == rows[0].len() by {
                assert(old_rows[i].len() == old_rows[0].len());
            }
        }
    }

    /// The tile at the cell `grid_position`, or `None` outside the scene.
    pub fn tile_at(&self, grid_position: GridPos) -> (r: Option<&SceneTile>)
        requires
            self.wf(),
        ensures
            r matches Some(t) ==> in_grid(self@.grid, grid_position) && t@ == cell(
                self@.grid,
                grid_position,
            ),
            r is None ==> !in_grid(self@.grid, grid_position),
    {
        if !self.contains(grid_position) {
            return None;
        }
        let t = &self.tiles[grid_position.y as usize][grid_position.x as usize];
        Some(t)
    }
}

/// Whether some effect of `effects` is of kind "blockage".
pub fn has_blockage(effects: &TileEffects) -> (r: bool)
    ensures
        r == exists|i: int| 0 <= i < effects@.len() && #[trigger] effects@[i].tile_effect_type == "blockage"@,
{
    let mut i: usize = 0;
    while i < effects.effects.len()
        invariant
            i <= effects.effects.len(),
            forall|k: int| 0 <= k < i ==> #[trigger] effects@[k].tile_effect_type != "blockage"@,
        decreases effects.effects.len() - i,
    {
        if str_eq(effects.effects[i].tile_effect_type.as_str(), "blockage") {
            assert(effects@[i as int].tile_effect_type == "blockage"@);
            return true;
        }
        i = i + 1;
    }
    false
}

impl SceneDefinition {
    /// Whether the rectangle of cells from `top_left` to `bottom_right`
    /// (both included) holds a cell that stops the player: one outside the
    /// scene, or one whose tile blocks. An empty rectangle stops nothing.
    pub fn area_blocked(&self, top_left: GridPos, bottom_right: GridPos) -> (r: bool)
        requires
            self.wf(),
        ensures
            r == exists|x: int, y: int|
                top_left.x <= x <= bottom_right.x && top_left.y <= y <= bottom_right.y
                    && #[trigger] cell_blocks(self@.grid, x, y),
    {
        let mut y: i64 = top_left.y as i64;
        while y <= bottom_right.y as i64
            invariant
                self.wf(),
                top_left.y <= y,
                y <= bottom_right.y + 1 || y == top_left.y,
                forall|xx: int, yy: int|
                    top_left.x <= xx <= bottom_right.x && top_left.y <= yy < y ==> !#[trigger] cell_blocks(
                        self@.grid,
                        xx,
                        yy,
                    ),
            decreases bottom_right.y + 1 - y,
        {
            let mut x: i64 = top_left.x as i64;
            while x <= bottom_right.x as i64
                invariant
                    self.wf(),
                    top_left.y <= y <= bottom_right.y,
                    top_left.x <= x,
                    x <= bottom_right.x + 1 || x == top_left.x,
                    forall|xx: int, yy: int|
                        top_left.x <= xx <= bottom_right.x && top_left.y <= yy < y ==> !#[trigger] cell_blocks(
                            self@.grid,
                            xx,
                            yy,
                        ),
                    forall|xx: int| top_left.x <= xx < x ==> !#[trigger] cell_blocks(self@.grid, xx, y as int),
                decreases bottom_right.x + 1 - x,
            {
                let p = GridPos { x: x as i32, y: y as i32 };
                match self.tile_at(p) {
                    None => {
                        assert(cell_blocks(self@.grid, x as int, y as int));
                        return true;
                    },
                    Some(tile) => {
                        if has_blockage(&tile.effects) {
                            assert(tile_blocks(tile@));
                            assert(cell_blocks(self@.grid, x as int, y as int));
                            return true;
                        }
                        assert(!cell_blocks(self@.grid, x as int, y as int));
                    },
                }
                x = x + 1;
            }
            y = y + 1;
        }
        false
    }
}

/// Setting a tile and reading it back: the cell set holds the new tile, every
/// other cell keeps its tile, and the grid keeps its shape. Setting a tile
/// outside the grid changes nothing.
pub proof fn law_set_tile_then_read<T>(grid: Seq<Seq<T>>, p: GridPos, tile: T, q: GridPos)
    requires
        is_rectangular(grid),
    ensures
        is_rectangular(grid_with_tile(grid, p, tile)),
        grid_width(grid_with_tile(grid, p, tile)) == grid_width(grid),
        grid_height(grid_with_tile(grid, p, tile)) == grid_height(grid),
        in_grid(grid, p) ==> cell(grid_with_tile(grid, p, tile), p) == tile,
        in_grid(grid, q) && q != p ==> cell(grid_with_tile(grid, p, tile), q) == cell(grid, q),
        !in_grid(grid, p) ==> grid_with_tile(grid, p, tile) == grid,
{
    let g = grid_with_tile(grid, p, tile);
    if in_grid(grid, p) {
        lemma_truncated_len(grid.len() as usize);
        lemma_truncated_len(grid[0].len() as usize);
        assert(g.len() == grid.len());
        assert(g[p.y as int].len() == grid[p.y as int].len());
        assert forall|i: int| 0 <= i < g.len() implies #[trigger] g[i].len() == g[0].len() by {
            assert(grid[i].len() == grid[0].len());
        }
        if in_grid(grid, q) && q != p {
            if q.y != p.y {
            } else {
                assert(q.x != p.x);
            }
        }
    }
}

/// A copy of a row of tiles.
fn clone_row(row: &Vec<SceneTile>) -> (r: Vec<SceneTile>)
    ensures
        r@.map_values(|t: SceneTile| t@) == row@.map_values(|t: SceneTile| t@),
        r@.len() == row@.len(),
{
    let mut r: Vec<SceneTile> = Vec::new();
    let mut i: usize = 0;
    while i < row.len()
        invariant
            i <= row.len(),
            r@.len() == i,
            r@.map_values(|t: SceneTile| t@) == row@.map_values(|t: SceneTile| t@).take(i as int),
        decreases row.len() - i,
    {
        let t = row[i].clone();
        let ghost before = r@;
        r.push(t);
        assert(r@.map_values(|t: SceneTile| t@) =~= before.map_values(|t: SceneTile| t@).push(t@));
        assert(row@.map_values(|t: SceneTile| t@).take(i as int + 1) =~= row@.map_values(
            |t: SceneTile| t@,
        ).take(i as int).push(row@[i as int]@));
        i = i + 1;
    }
    assert(row@.map_values(|t: SceneTile| t@).take(i as int) =~= row@.map_values(|t: SceneTile| t@));
    r
}

} // verus!
