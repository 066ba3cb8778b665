//! The built-in main scene: a meadow with a pond, trails, trees, houses,
//! fields and mountains.

use vstd::prelude::*;

use crate::pastoral::{PastoralSprite, PastoralTileSprite, sprite_cell};
use crate::scene::{
    GridPos, SceneDefinition, SceneName, SceneSprite, SceneSpriteView, SceneTile, SceneTileView,
    SceneView, cell, grid_height, grid_width, grid_with_tile, in_grid, is_rectangular,
    law_set_tile_then_read,
};

verus! {

/// Number of columns of the main scene.
pub const SCENE_WIDTH: usize = 28;

/// Number of rows of the main scene.
pub const SCENE_HEIGHT: usize = 18;

/// Bit patterns of the `f32` depths at which the scene's layers are drawn.
pub const Z_DETAIL: u32 = 0x3dcc_cccd;

/// 0.2, the depth of water.
pub const Z_WATER: u32 = 0x3e4c_cccd;

/// 0.3, the depth of signs, trails and fields.
pub const Z_GROUND: u32 = 0x3e99_999a;

/// 0.4, the depth of trees, flowers and the campfire.
pub const Z_PLANTS: u32 = 0x3ecc_cccd;

/// 0.5, the depth of houses.
pub const Z_HOUSES: u32 = 0x3f00_0000;

/// 0.6, the depth of mountains.
pub const Z_MOUNTAINS: u32 = 0x3f19_999a;

/// The multi-tile pictures of the pastoral tileset.
#[derive(Debug, Clone, Copy, PartialEq, Eq, Structural)]
pub enum PastoralRegion {
    Pond,
    Sign,
    Parchment,
    TrailClearing,
    PathVertical,
    CurvedTrail,
    Tree,
    FruitTree,
    CottageWhite,
    CottageGray,
    Field,
    Flowers,
    Campfire,
    BigMountain,
    SmallMountainTop,
    SmallMountainBottom,
}

/// A tile of a multi-tile picture: the picture, the tile's offset from the
/// picture's top-left tile, and its cell of the tileset.
#[derive(Clone, Copy)]
pub struct RegionTile {
    pub region: PastoralRegion,
    pub offset: GridPos,
    pub sprite: PastoralTileSprite,
}

/// A change of the grid: a cell and the tile it gets.
pub type Stamp = (GridPos, SceneTileView);

/// The tile that a stamp of a tileset cell puts down.
pub open spec fn stamp_tile(cell: (u32, u32), z_layer_bits: u32, walkable: bool, tag: Seq<char>) -> SceneTileView {
    SceneTileView {
        sprite: SceneSpriteView::Pastoral(cell.0, cell.1),
        walkable,
        effects: Seq::empty(),
        z_layer_bits,
        tag: Some(tag),
    }
}

/// The stamp of the named sprite `sprite` at `p`.
pub open spec fn sprite_stamp(p: GridPos, sprite: PastoralSprite, z_layer_bits: u32, walkable: bool, tag: Seq<char>) -> Stamp {
    (p, stamp_tile(sprite_cell(sprite), z_layer_bits, walkable, tag))
}

/// Whether `origin + offset` fits in `i32` in both coordinates.
pub open spec fn offset_fits(origin: GridPos, offset: GridPos) -> bool {
    &&& i32::MIN <= origin.x + offset.x <= i32::MAX
    &&& i32::MIN <= origin.y + offset.y <= i32::MAX
}

/// The stamps of the picture `region` with its top-left tile at `origin`: one
/// per tile of `table` that belongs to the picture, in table order.
pub open spec fn region_stamps(
    table: Seq<RegionTile>,
    region: PastoralRegion,
    origin: GridPos,
    z_layer_bits: u32,
    walkable: bool,
    tag: Seq<char>,
) -> Seq<Stamp>
    decreases table.len(),
{
    if table.len() == 0 {
        Seq::empty()
    } else {
        let prefix = region_stamps(table.drop_last(), region, origin, z_layer_bits, walkable, tag);
        let t = table.last();
        if t.region == region {
            prefix.push(
                (
                    GridPos { x: (origin.x + t.offset.x) as i32, y: (origin.y + t.offset.y) as i32 },
                    stamp_tile(t.sprite@, z_layer_bits, walkable, tag),
                ),
            )
        } else {
            prefix
        }
    }
}

/// The grid after the stamps, in order.
pub open spec fn apply_stamps(grid: Seq<Seq<SceneTileView>>, stamps: Seq<Stamp>) -> Seq<Seq<SceneTileView>>
    decreases stamps.len(),
{
    if stamps.len() == 0 {
        grid
    } else {
        let g = apply_stamps(grid, stamps.drop_last());
        grid_with_tile(g, stamps.last().0, stamps.last().1)
    }
}

/// Stamping two lists one after the other is stamping their concatenation.
pub proof fn lemma_apply_stamps_concat(grid: Seq<Seq<SceneTileView>>, a: Seq<Stamp>, b: Seq<Stamp>)
    ensures
        apply_stamps(grid, a + b) == apply_stamps(apply_stamps(grid, a), b),
    decreases b.len(),
{
    if b.len() == 0 {
        assert(a + b =~= a);
    } else {
        assert((a + b).drop_last() =~= a + b.drop_last());
        lemma_apply_stamps_concat(grid, a, b.drop_last());
    }
}

/// Where the top-left tile of each picture of the main scene lies.
pub open spec fn region_origin(region: PastoralRegion) -> GridPos {
    match region {
        PastoralRegion::Pond => GridPos { x: 1, y: 1 },
        PastoralRegion::Sign => GridPos { x: 9, y: 1 },
        PastoralRegion::Parchment => GridPos { x: 24, y: 1 },
        PastoralRegion::TrailClearing => GridPos { x: 9, y: 6 },
        PastoralRegion::PathVertical => GridPos { x: 7, y: 6 },
        PastoralRegion::CurvedTrail => GridPos { x: 7, y: 10 },
        PastoralRegion::Tree => GridPos { x: 2, y: 7 },
        PastoralRegion::FruitTree => GridPos { x: 2, y: 10 },
        PastoralRegion::CottageWhite => GridPos { x: 5, y: 8 },
        PastoralRegion::CottageGray => GridPos { x: 5, y: 11 },
        PastoralRegion::Field => GridPos { x: 0, y: 14 },
        PastoralRegion::Flowers => GridPos { x: 8, y: 15 },
        PastoralRegion::Campfire => GridPos { x: 12, y: 15 },
        PastoralRegion::BigMountain => GridPos { x: 18, y: 10 },
        PastoralRegion::SmallMountainTop => GridPos { x: 23, y: 10 },
        PastoralRegion::SmallMountainBottom => GridPos { x: 23, y: 13 },
    }
}

/// Whether every tile of `table` lands, from its picture's origin in the main
/// scene, on a position that fits in `i32`.
pub open spec fn table_fits(table: Seq<RegionTile>) -> bool {
    forall|i: int| 0 <= i < table.len() ==> offset_fits(region_origin(#[trigger] table[i].region), table[i].offset)
}

/// The grass meadow the main scene starts from.
pub open spec fn meadow() -> Seq<Seq<SceneTileView>> {
    Seq::new(
        SCENE_HEIGHT as nat,
        |i: int|
            Seq::new(
                SCENE_WIDTH as nat,
                |j: int|
                    SceneTileView {
                        sprite: SceneSpriteView::Pastoral(
                            sprite_cell(PastoralSprite::GrassPlain).0,
                            sprite_cell(PastoralSprite::GrassPlain).1,
                        ),
                        walkable: true,
                        effects: Seq::empty(),
                        z_layer_bits: 0,
                        tag: None,
                    },
            ),
    )
}

/// A piece of the main scene: a named sprite put at a cell, or a picture put
/// with its top-left tile at the picture's place in the main scene; each with
/// the depth, walkability and tag its tiles get.
#[derive(Clone, Copy)]
pub enum Placement {
    Sprite { at: GridPos, sprite: PastoralSprite, z_layer_bits: u32, walkable: bool, tag: &'static str },
    Region { region: PastoralRegion, z_layer_bits: u32, walkable: bool, tag: &'static str },
}

/// The stamps of one placement, the pictures laid out as `table` describes them.
pub open spec fn placement_stamps(table: Seq<RegionTile>, p: Placement) -> Seq<Stamp> {
    match p {
        Placement::Sprite { at, sprite, z_layer_bits, walkable, tag } => seq![
            sprite_stamp(at, sprite, z_layer_bits, walkable, tag@),
        ],
        Placement::Region { region, z_layer_bits, walkable, tag } => region_stamps(
            table,
            region,
            region_origin(region),
            z_layer_bits,
            walkable,
            tag@,
        ),
    }
}

/// The stamps of the placements, in order.
pub open spec fn placements_stamps(table: Seq<RegionTile>, ps: Seq<Placement>) -> Seq<Stamp>
    decreases ps.len(),
{
    if ps.len() == 0 {
        Seq::empty()
    } else {
        placements_stamps(table, ps.drop_last()) + placement_stamps(table, ps.last())
    }
}

/// The placements of the main scene, in order: grass tufts, the pond and
/// water, the sign and the parchment, trails, trees and a stump, houses, the
/// field, flowers and campfire, and mountains.
pub open spec fn main_scene_placements() -> Seq<Placement> {
    seq![
        Placement::Sprite { at: GridPos { x: 12, y: 1 }, sprite: PastoralSprite::GrassTuftLeft, z_layer_bits: Z_DETAIL, walkable: true, tag: "grass_tuft" },
        Placement::Sprite { at: GridPos { x: 13, y: 1 }, sprite: PastoralSprite::GrassTuftLeft, z_layer_bits: Z_DETAIL, walkable: true, tag: "grass_tuft" },
        Placement::Sprite { at: GridPos { x: 21, y: 2 }, sprite: PastoralSprite::GrassTuftLeft, z_layer_bits: Z_DETAIL, walkable: true, tag: "grass_tuft" },
        Placement::Sprite { at: GridPos { x: 22, y: 1 }, sprite: PastoralSprite::GrassTuftLeft, z_layer_bits: Z_DETAIL, walkable: true, tag: "grass_tuft" },
        Placement::Sprite { at: GridPos { x: 23, y: 2 }, sprite: PastoralSprite::GrassTuftLeft, z_layer_bits: Z_DETAIL, walkable: true, tag: "grass_tuft" },
        Placement::Sprite { at: GridPos { x: 14, y: 2 }, sprite: PastoralSprite::GrassTuftRight, z_layer_bits: Z_DETAIL, walkable: true, tag: "grass_tuft" },
        Placement::Sprite { at: GridPos { x: 24, y: 2 }, sprite: PastoralSprite::GrassTuftRight, z_layer_bits: Z_DETAIL, walkable: true, tag: "grass_tuft" },
        Placement::Sprite { at: GridPos { x: 12, y: 2 }, sprite: PastoralSprite::GrassTuftLower, z_layer_bits: Z_DETAIL, walkable: true, tag: "grass_tuft" },
        Placement::Sprite { at: GridPos { x: 22, y: 3 }, sprite: PastoralSprite::GrassTuftLower, z_layer_bits: Z_DETAIL, walkable: true, tag: "grass_tuft" },
        Placement::Region { region: PastoralRegion::Pond, z_layer_bits: Z_WATER, walkable: false, tag: "pond" },
        Placement::Sprite { at: GridPos { x: 7, y: 3 }, sprite: PastoralSprite::OpenWater, z_layer_bits: Z_WATER, walkable: false, tag: "water" },
        Placement::Sprite { at: GridPos { x: 8, y: 4 }, sprite: PastoralSprite::OpenWater, z_layer_bits: Z_WATER, walkable: false, tag: "water" },
        Placement::Region { region: PastoralRegion::Sign, z_layer_bits: Z_GROUND, walkable: false, tag: "sign" },
        Placement::Region { region: PastoralRegion::Parchment, z_layer_bits: Z_GROUND, walkable: false, tag: "parchment" },
        Placement::Region { region: PastoralRegion::TrailClearing, z_layer_bits: Z_GROUND, walkable: true, tag: "trail" },
        Placement::Region { region: PastoralRegion::PathVertical, z_layer_bits: Z_GROUND, walkable: true, tag: "trail" },
        Placement::Region { region: PastoralRegion::CurvedTrail, z_layer_bits: Z_GROUND, walkable: true, tag: "trail" },
        Placement::Region { region: PastoralRegion::Tree, z_layer_bits: Z_PLANTS, walkable: false, tag: "tree" },
        Placement::Region { region: PastoralRegion::FruitTree, z_layer_bits: Z_PLANTS, walkable: false, tag: "tree" },
        Placement::Sprite { at: GridPos { x: 1, y: 12 }, sprite: PastoralSprite::TreeStump, z_layer_bits: Z_PLANTS, walkable: false, tag: "stump" },
        Placement::Region { region: PastoralRegion::CottageWhite, z_layer_bits: Z_HOUSES, walkable: false, tag: "house" },
        Placement::Region { region: PastoralRegion::CottageGray, z_layer_bits: Z_HOUSES, walkable: false, tag: "house" },
        Placement::Region { region: PastoralRegion::Field, z_layer_bits: Z_GROUND, walkable: true, tag: "field" },
        Placement::Region { region: PastoralRegion::Flowers, z_layer_bits: Z_PLANTS, walkable: true, tag: "flowers" },
        Placement::Region { region: PastoralRegion::Campfire, z_layer_bits: Z_PLANTS, walkable: false, tag: "campfire" },
        Placement::Region { region: PastoralRegion::BigMountain, z_layer_bits: Z_MOUNTAINS, walkable: false, tag: "mountain" },
        Placement::Region { region: PastoralRegion::SmallMountainTop, z_layer_bits: Z_MOUNTAINS, walkable: false, tag: "mountain" },
        Placement::Region { region: PastoralRegion::SmallMountainBottom, z_layer_bits: Z_MOUNTAINS, walkable: false, tag: "mountain" },
    ]
}

/// The stamps of the main scene, in order.
pub open spec fn main_scene_stamps(table: Seq<RegionTile>) -> Seq<Stamp> {
    placements_stamps(table, main_scene_placements())
}

/// The placements of the main scene, in order.
pub fn main_scene_placement_list() -> (v: Vec<Placement>)
    ensures
        v@ == main_scene_placements(),
{
    let v = vec![
        Placement::Sprite { at: GridPos::new(12, 1), sprite: PastoralSprite::GrassTuftLeft, z_layer_bits: Z_DETAIL, walkable: true, tag: "grass_tuft" },
        Placement::Sprite { at: GridPos::new(13, 1), sprite: PastoralSprite::GrassTuftLeft, z_layer_bits: Z_DETAIL, walkable: true, tag: "grass_tuft" },
        Placement::Sprite { at: GridPos::new(21, 2), sprite: PastoralSprite::GrassTuftLeft, z_layer_bits: Z_DETAIL, walkable: true, tag: "grass_tuft" },
        Placement::Sprite { at: GridPos::new(22, 1), sprite: PastoralSprite::GrassTuftLeft, z_layer_bits: Z_DETAIL, walkable: true, tag: "grass_tuft" },
        Placement::Sprite { at: GridPos::new(23, 2), sprite: PastoralSprite::GrassTuftLeft, z_layer_bits: Z_DETAIL, walkable: true, tag: "grass_tuft" },
        Placement::Sprite { at: GridPos::new(14, 2), sprite: PastoralSprite::GrassTuftRight, z_layer_bits: Z_DETAIL, walkable: true, tag: "grass_tuft" },
        Placement::Sprite { at: GridPos::new(24, 2), sprite: PastoralSprite::GrassTuftRight, z_layer_bits: Z_DETAIL, walkable: true, tag: "grass_tuft" },
        Placement::Sprite { at: GridPos::new(12, 2), sprite: PastoralSprite::GrassTuftLower, z_layer_bits: Z_DETAIL, walkable: true, tag: "grass_tuft" },
        Placement::Sprite { at: GridPos::new(22, 3), sprite: PastoralSprite::GrassTuftLower, z_layer_bits: Z_DETAIL, walkable: true, tag: "grass_tuft" },
        Placement::Region { region: PastoralRegion::Pond, z_layer_bits: Z_WATER, walkable: false, tag: "pond" },
        Placement::Sprite { at: GridPos::new(7, 3), sprite: PastoralSprite::OpenWater, z_layer_bits: Z_WATER, walkable: false, tag: "water" },
        Placement::Sprite { at: GridPos::new(8, 4), sprite: PastoralSprite::OpenWater, z_layer_bits: Z_WATER, walkable: false, tag: "water" },
        Placement::Region { region: PastoralRegion::Sign, z_layer_bits: Z_GROUND, walkable: false, tag: "sign" },
        Placement::Region { region: PastoralRegion::Parchment, z_layer_bits: Z_GROUND, walkable: false, tag: "parchment" },
        Placement::Region { region: PastoralRegion::TrailClearing, z_layer_bits: Z_GROUND, walkable: true, tag: "trail" },
        Placement::Region { region: PastoralRegion::PathVertical, z_layer_bits: Z_GROUND, walkable: true, tag: "trail" },
        Placement::Region { region: PastoralRegion::CurvedTrail, z_layer_bits: Z_GROUND, walkable: true, tag: "trail" },
        Placement::Region { region: PastoralRegion::Tree, z_layer_bits: Z_PLANTS, walkable: false, tag: "tree" },
        Placement::Region { region: PastoralRegion::FruitTree, z_layer_bits: Z_PLANTS, walkable: false, tag: "tree" },
        Placement::Sprite { at: GridPos::new(1, 12), sprite: PastoralSprite::TreeStump, z_layer_bits: Z_PLANTS, walkable: false, tag: "stump" },
        Placement::Region { region: PastoralRegion::CottageWhite, z_layer_bits: Z_HOUSES, walkable: false, tag: "house" },
        Placement::Region { region: PastoralRegion::CottageGray, z_layer_bits: Z_HOUSES, walkable: false, tag: "house" },
        Placement::Region { region: PastoralRegion::Field, z_layer_bits: Z_GROUND, walkable: true, tag: "field" },
        Placement::Region { region: PastoralRegion::Flowers, z_layer_bits: Z_PLANTS, walkable: true, tag: "flowers" },
        Placement::Region { region: PastoralRegion::Campfire, z_layer_bits: Z_PLANTS, walkable: false, tag: "campfire" },
        Placement::Region { region: PastoralRegion::BigMountain, z_layer_bits: Z_MOUNTAINS, walkable: false, tag: "mountain" },
        Placement::Region { region: PastoralRegion::SmallMountainTop, z_layer_bits: Z_MOUNTAINS, walkable: false, tag: "mountain" },
        Placement::Region { region: PastoralRegion::SmallMountainBottom, z_layer_bits: Z_MOUNTAINS, walkable: false, tag: "mountain" },
    ];
    assert(v@ =~= main_scene_placements());
    v
}

/// Puts the named sprite `sprite` at `grid_position`.
pub fn stamp_sprite(
    scene: &mut SceneDefinition,
    grid_position: GridPos,
    sprite: PastoralSprite,
    z_layer_bits: u32,
    walkable: bool,
    tag: &str,
)
    requires
        old(scene).wf(),
    ensures
        final(scene).wf(),
        final(scene)@.player_spawn == old(scene)@.player_spawn,
        final(scene)@.grid == apply_stamps(
            old(scene)@.grid,
            seq![sprite_stamp(grid_position, sprite, z_layer_bits, walkable, tag@)],
        ),
{
    let ghost start = scene@.grid;
    let tile = SceneTile::new(SceneSprite::Pastoral(sprite.tile())).with_z_layer(z_layer_bits).with_walkable(
        walkable,
    ).with_tag(tag);
    assert(tile@ == sprite_stamp(grid_position, sprite, z_layer_bits, walkable, tag@).1);
    scene.set_tile(grid_position, tile);
    proof {
        let s = seq![sprite_stamp(grid_position, sprite, z_layer_bits, walkable, tag@)];
        assert(s.drop_last() =~= Seq::<Stamp>::empty());
        assert(apply_stamps(start, Seq::<Stamp>::empty()) == start);
    }
}

/// Puts the picture `region` down with its top-left tile at `origin`, tile by
/// tile in the order of `region_tiles`.
pub fn stamp_region(
    scene: &mut SceneDefinition,
    origin: GridPos,
    region: PastoralRegion,
    region_tiles: &Vec<RegionTile>,
    z_layer_bits: u32,
    walkable: bool,
    tag: &str,
)
    requires
        old(scene).wf(),
        forall|i: int| 0 <= i < region_tiles@.len() && (#[trigger] region_tiles@[i]).region == region
            ==> offset_fits(origin, region_tiles@[i].offset),
    ensures
        final(scene).wf(),
        final(scene)@.player_spawn == old(scene)@.player_spawn,
        final(scene)@.grid == apply_stamps(
            old(scene)@.grid,
            region_stamps(region_tiles@, region, origin, z_layer_bits, walkable, tag@),
        ),
{
    let ghost table = region_tiles@;
    let ghost start = scene@.grid;
    let mut i: usize = 0;
    assert(table.take(0) =~= Seq::<RegionTile>::empty());
    while i < region_tiles.len()
        invariant
            table == region_tiles@,
            i <= table.len(),
            scene.wf(),
            scene@.player_spawn == old(scene)@.player_spawn,
            start == old(scene)@.grid,
            forall|k: int| 0 <= k < table.len() && (#[trigger] table[k]).region == region
                ==> offset_fits(origin, table[k].offset),
            scene@.grid == apply_stamps(
                start,
                region_stamps(table.take(i as int), region, origin, z_layer_bits, walkable, tag@),
            ),
        decreases table.len() - i,
    {
        let t = region_tiles[i];
        assert(table.take(i as int + 1).drop_last() =~= table.take(i as int));
        assert(table.take(i as int + 1).last() == t);
        if t.region == region {
            assert(offset_fits(origin, t.offset));
            let p = GridPos::new(origin.x + t.offset.x, origin.y + t.offset.y);
            let tile = SceneTile::new(SceneSprite::Pastoral(t.sprite)).with_z_layer(z_layer_bits).with_walkable(
                walkable,
            ).with_tag(tag);
            scene.set_tile(p, tile);
            proof {
                let before = region_stamps(table.take(i as int), region, origin, z_layer_bits, walkable, tag@);
                let after = region_stamps(table.take(i as int + 1), region, origin, z_layer_bits, walkable, tag@);
                assert(after.drop_last() =~= before);
            }
        }
        i = i + 1;
    }
    assert(table.take(i as int) =~= table);
}

/// Where the top-left tile of the picture `region` lies in the main scene.
pub fn origin_of(region: PastoralRegion) -> (p: GridPos)
    ensures
        p == region_origin(region),
{
    match region {
        PastoralRegion::Pond => GridPos::new(1, 1),
        PastoralRegion::Sign => GridPos::new(9, 1),
        PastoralRegion::Parchment => GridPos::new(24, 1),
        PastoralRegion::TrailClearing => GridPos::new(9, 6),
        PastoralRegion::PathVertical => GridPos::new(7, 6),
        PastoralRegion::CurvedTrail => GridPos::new(7, 10),
        PastoralRegion::Tree => GridPos::new(2, 7),
        PastoralRegion::FruitTree => GridPos::new(2, 10),
        PastoralRegion::CottageWhite => GridPos::new(5, 8),
        PastoralRegion::CottageGray => GridPos::new(5, 11),
        PastoralRegion::Field => GridPos::new(0, 14),
        PastoralRegion::Flowers => GridPos::new(8, 15),
        PastoralRegion::Campfire => GridPos::new(12, 15),
        PastoralRegion::BigMountain => GridPos::new(18, 10),
        PastoralRegion::SmallMountainTop => GridPos::new(23, 10),
        PastoralRegion::SmallMountainBottom => GridPos::new(23, 13),
    }
}

/// The main scene: the grass meadow, 28 by 18 tiles, with the player at column
/// 12, row 9, and the stamps of `main_scene_stamps` put down in order; the
/// pictures are laid out tile by tile as `region_tiles` describes them.
pub fn build_main_scene(region_tiles: &Vec<RegionTile>) -> (scene: SceneDefinition)
    requires
        table_fits(region_tiles@),
    ensures
        scene.wf(),
        scene@ == (SceneView {
            grid: apply_stamps(meadow(), main_scene_stamps(region_tiles@)),
            player_spawn: GridPos { x: 12, y: 9 },
        }),
{
    let ghost table = region_tiles@;
    let mut scene = SceneDefinition::filled(
        SCENE_WIDTH,
        SCENE_HEIGHT,
        SceneTile::new(SceneSprite::Pastoral(PastoralSprite::GrassPlain.tile())),
        GridPos::new(12, 9),
    );
    assert(scene@.grid =~= meadow());
    let placements = main_scene_placement_list();
    let ghost ps = placements@;
    let mut i: usize = 0;
    assert(ps.take(0) =~= Seq::<Placement>::empty());
    while i < placements.len()
        invariant
            ps == placements@,
            table == region_tiles@,
            table_fits(table),
            i <= ps.len(),
            scene.wf(),
            scene@.player_spawn == (GridPos { x: 12, y: 9 }),
            scene@.grid == apply_stamps(meadow(), placements_stamps(table, ps.take(i as int))),
        decreases ps.len() - i,
    {
        let p = placements[i];
        let ghost done = placements_stamps(table, ps.take(i as int));
        match p {
            Placement::Sprite { at, sprite, z_layer_bits, walkable, tag } => {
                stamp_sprite(&mut scene, at, sprite, z_layer_bits, walkable, tag);
            },
            Placement::Region { region, z_layer_bits, walkable, tag } => {
                stamp_region(&mut scene, origin_of(region), region, region_tiles, z_layer_bits, walkable, tag);
            },
        }
        proof {
            assert(ps.take(i as int + 1).drop_last() =~= ps.take(i as int));
            assert(ps.take(i as int + 1).last() == p);
            lemma_apply_stamps_concat(meadow(), done, placement_stamps(table, p));
        }
        i = i + 1;
    }
    assert(ps.take(i as int) =~= ps);
    scene
}

/// The scene named `scene_name`, its pictures laid out as `region_tiles`
/// describes them.
pub fn scene_definition(scene_name: SceneName, region_tiles: &Vec<RegionTile>) -> (scene: SceneDefinition)
    requires
        table_fits(region_tiles@),
    ensures
        scene.wf(),
        scene_name == SceneName::Main ==> scene@ == (SceneView {
            grid: apply_stamps(meadow(), main_scene_stamps(region_tiles@)),
            player_spawn: GridPos { x: 12, y: 9 },
        }),
{
    match scene_name {
        SceneName::Main => build_main_scene(region_tiles),
    }
}

/// Stamps keep the shape of a grid.
pub proof fn lemma_apply_stamps_shape(grid: Seq<Seq<SceneTileView>>, stamps: Seq<Stamp>)
    requires
        is_rectangular(grid),
    ensures
        is_rectangular(apply_stamps(grid, stamps)),
        grid_width(apply_stamps(grid, stamps)) == grid_width(grid),
        grid_height(apply_stamps(grid, stamps)) == grid_height(grid),
    decreases stamps.len(),
{
    if stamps.len() > 0 {
        lemma_apply_stamps_shape(grid, stamps.drop_last());
        let g = apply_stamps(grid, stamps.drop_last());
        law_set_tile_then_read(g, stamps.last().0, stamps.last().1, stamps.last().0);
    }
}

/// The main scene is a rectangular grid of 28 by 18 tiles, whatever the
/// pictures look like, and the player appears on one of its cells.
pub proof fn law_main_scene_shape(table: Seq<RegionTile>)
    ensures
        is_rectangular(apply_stamps(meadow(), main_scene_stamps(table))),
        grid_width(apply_stamps(meadow(), main_scene_stamps(table))) == 28,
        grid_height(apply_stamps(meadow(), main_scene_stamps(table))) == 18,
        in_grid(apply_stamps(meadow(), main_scene_stamps(table)), GridPos { x: 12, y: 9 }),
{
    assert(is_rectangular(meadow()));
    assert(meadow()[0].len() == 28);
    assert(grid_width(meadow()) == 28) by {
        assert((28usize as i32) == 28);
    }
    assert(grid_height(meadow()) == 18) by {
        assert((18usize as i32) == 18);
    }
    lemma_apply_stamps_shape(meadow(), main_scene_stamps(table));
}


/// Whether no tile of `table`, put down from its picture's place in the main
/// scene, lands on the cell `c`.
pub open spec fn no_picture_tile_at(table: Seq<RegionTile>, c: GridPos) -> bool {
    forall|i: int|
        0 <= i < table.len() ==> !(region_origin(#[trigger] table[i].region).x + table[i].offset.x == c.x
            && region_origin(table[i].region).y + table[i].offset.y == c.y)
}

/// Whether no stamp of `stamps` is for the cell `c`.
pub open spec fn stamps_avoid(stamps: Seq<Stamp>, c: GridPos) -> bool {
    forall|j: int| 0 <= j < stamps.len() ==> #[trigger] stamps[j].0 != c
}

/// Where no tile of the table lands on `c`, no picture stamps `c`.
proof fn lemma_region_stamps_avoid(table: Seq<RegionTile>, c: GridPos)
    requires
        table_fits(table),
        no_picture_tile_at(table, c),
    ensures
        forall|r: PastoralRegion, z: u32, w: bool, tag: Seq<char>|
            stamps_avoid(#[trigger] region_stamps(table, r, region_origin(r), z, w, tag), c),
    decreases table.len(),
{
    if table.len() > 0 {
        let prev = table.drop_last();
        assert forall|i: int| 0 <= i < prev.len() implies offset_fits(
            region_origin(#[trigger] prev[i].region),
            prev[i].offset,
        ) by {
            assert(prev[i] == table[i]);
        }
        assert forall|i: int| 0 <= i < prev.len() implies !(region_origin(#[trigger] prev[i].region).x
            + prev[i].offset.x == c.x && region_origin(prev[i].region).y + prev[i].offset.y == c.y) by {
            assert(prev[i] == table[i]);
        }
        lemma_region_stamps_avoid(prev, c);
        let t = table.last();
        assert(t == table[table.len() - 1]);
        assert(offset_fits(region_origin(t.region), t.offset));
        assert forall|r: PastoralRegion, z: u32, w: bool, tag: Seq<char>|
            stamps_avoid(#[trigger] region_stamps(table, r, region_origin(r), z, w, tag), c) by {
            let pre = region_stamps(prev, r, region_origin(r), z, w, tag);
            assert(stamps_avoid(pre, c));
        }
    }
}

/// Stamps that are not for the cell `c` leave it as it was.
proof fn lemma_stamps_avoid_keep(grid: Seq<Seq<SceneTileView>>, stamps: Seq<Stamp>, c: GridPos)
    requires
        is_rectangular(grid),
        in_grid(grid, c),
        stamps_avoid(stamps, c),
    ensures
        cell(apply_stamps(grid, stamps), c) == cell(grid, c),
    decreases stamps.len(),
{
    if stamps.len() > 0 {
        let prev = stamps.drop_last();
        assert forall|j: int| 0 <= j < prev.len() implies #[trigger] prev[j].0 != c by {
            assert(prev[j] == stamps[j]);
        }
        lemma_stamps_avoid_keep(grid, prev, c);
        lemma_apply_stamps_shape(grid, prev);
        let g = apply_stamps(grid, prev);
        assert(stamps.last() == stamps[stamps.len() - 1]);
        law_set_tile_then_read(g, stamps.last().0, stamps.last().1, c);
    }
}

/// Where the placement `k` is the sprite stamp `(c, t)` and no later
/// placement stamps `c`, the cell `c` of the scene ends up holding `t`.
proof fn lemma_placement_cell(table: Seq<RegionTile>, ps: Seq<Placement>, k: int, c: GridPos, t: SceneTileView)
    requires
        0 <= k < ps.len(),
        placement_stamps(table, ps[k]) == seq![(c, t)],
        forall|j: int| k < j < ps.len() ==> stamps_avoid(#[trigger] placement_stamps(table, ps[j]), c),
        in_grid(meadow(), c),
        is_rectangular(meadow()),
    ensures
        cell(apply_stamps(meadow(), placements_stamps(table, ps)), c) == t,
    decreases ps.len(),
{
    let n = ps.len() - 1;
    let prev = ps.drop_last();
    assert(ps.last() == ps[n]);
    let before = placements_stamps(table, prev);
    let last = placement_stamps(table, ps[n]);
    assert(placements_stamps(table, ps) == before + last);
    lemma_apply_stamps_concat(meadow(), before, last);
    lemma_apply_stamps_shape(meadow(), before);
    let g = apply_stamps(meadow(), before);
    assert(in_grid(g, c));
    if k == n {
        assert(last.drop_last() =~= Seq::<Stamp>::empty());
        assert(last.last() == (c, t));
        assert(apply_stamps(g, last) == grid_with_tile(apply_stamps(g, Seq::<Stamp>::empty()), c, t));
        law_set_tile_then_read(g, c, t, c);
    } else {
        assert forall|j: int| k < j < prev.len() implies stamps_avoid(
            #[trigger] placement_stamps(table, prev[j]),
            c,
        ) by {
            assert(prev[j] == ps[j]);
            assert(stamps_avoid(placement_stamps(table, ps[j]), c));
        }
        assert(prev[k] == ps[k]);
        lemma_placement_cell(table, prev, k, c, t);
        lemma_stamps_avoid_keep(g, last, c);
    }
}

/// Where the placement `k` of the main scene is a sprite at `c`, no other
/// placement of the main scene is a sprite at `c`, and where no picture tile
/// lands on `c`, no placement after `k` stamps `c`.
proof fn lemma_later_placements_avoid(table: Seq<RegionTile>, k: int, c: GridPos)
    requires
        table_fits(table),
        no_picture_tile_at(table, c),
        0 <= k < main_scene_placements().len(),
        main_scene_placements()[k] is Sprite,
        main_scene_placements()[k]->at == c,
    ensures
        forall|j: int|
            k < j < main_scene_placements().len() ==> stamps_avoid(
                #[trigger] placement_stamps(table, main_scene_placements()[j]),
                c,
            ),
{
    lemma_region_stamps_avoid(table, c);
    let ps = main_scene_placements();
    assert forall|j: int| k < j < ps.len() implies stamps_avoid(#[trigger] placement_stamps(table, ps[j]), c) by {
        if j == 0 {
        }
        else if j == 1 {
        }
        else if j == 2 {
        }
        else if j == 3 {
        }
        else if j == 4 {
        }
        else if j == 5 {
        }
        else if j == 6 {
        }
        else if j == 7 {
        }
        else if j == 8 {
        }
        else if j == 9 {
        }
        else if j == 10 {
        }
        else if j == 11 {
        }
        else if j == 12 {
        }
        else if j == 13 {
        }
        else if j == 14 {
        }
        else if j == 15 {
        }
        else if j == 16 {
        }
        else if j == 17 {
        }
        else if j == 18 {
        }
        else if j == 19 {
        }
        else if j == 20 {
        }
        else if j == 21 {
        }
        else if j == 22 {
        }
        else if j == 23 {
        }
        else if j == 24 {
        }
        else if j == 25 {
        }
        else if j == 26 {
        }
        else if j == 27 {
        }
        else if j == 28 {
        }
    }
}

/// A tile of the main scene put down by a named sprite, as plain values.
pub open spec fn placed_tile(col: u32, row: u32, walkable: bool, z_layer_bits: u32, tag: Seq<char>) -> SceneTileView {
    SceneTileView {
        sprite: SceneSpriteView::Pastoral(col, row),
        walkable,
        effects: Seq::empty(),
        z_layer_bits,
        tag: Some(tag),
    }
}

/// Every sprite that the main scene puts down is at its cell in the built
/// scene, wherever no picture tile lands on that cell (none does with the
/// game's empty picture table): walkable grass tufts, pointing left (cell
/// 8, 0) at (12, 1), (13, 1), (21, 2), (22, 1) and (23, 2), right (9, 0) at
/// (14, 2) and (24, 2), and lower (9, 1) at (12, 2) and (22, 3), at depth 0.1;
/// open water (6, 2), not walkable, at (7, 3) and (8, 4), at depth 0.2; and a
/// tree stump (0, 10), not walkable, at (1, 12), at depth 0.4.
pub proof fn law_main_scene_sprites(table: Seq<RegionTile>)
    requires
        table_fits(table),
        no_picture_tile_at(table, GridPos { x: 12, y: 1 }),
        no_picture_tile_at(table, GridPos { x: 13, y: 1 }),
        no_picture_tile_at(table, GridPos { x: 21, y: 2 }),
        no_picture_tile_at(table, GridPos { x: 22, y: 1 }),
        no_picture_tile_at(table, GridPos { x: 23, y: 2 }),
        no_picture_tile_at(table, GridPos { x: 14, y: 2 }),
        no_picture_tile_at(table, GridPos { x: 24, y: 2 }),
        no_picture_tile_at(table, GridPos { x: 12, y: 2 }),
        no_picture_tile_at(table, GridPos { x: 22, y: 3 }),
        no_picture_tile_at(table, GridPos { x: 7, y: 3 }),
        no_picture_tile_at(table, GridPos { x: 8, y: 4 }),
        no_picture_tile_at(table, GridPos { x: 1, y: 12 }),
    ensures
        ({
            let g = apply_stamps(meadow(), main_scene_stamps(table));
            &&& cell(g, GridPos { x: 12, y: 1 }) == placed_tile(8, 0, true, 0x3dcc_cccd, "grass_tuft"@)
            &&& cell(g, GridPos { x: 13, y: 1 }) == placed_tile(8, 0, true, 0x3dcc_cccd, "grass_tuft"@)
            &&& cell(g, GridPos { x: 21, y: 2 }) == placed_tile(8, 0, true, 0x3dcc_cccd, "grass_tuft"@)
            &&& cell(g, GridPos { x: 22, y: 1 }) == placed_tile(8, 0, true, 0x3dcc_cccd, "grass_tuft"@)
            &&& cell(g, GridPos { x: 23, y: 2 }) == placed_tile(8, 0, true, 0x3dcc_cccd, "grass_tuft"@)
            &&& cell(g, GridPos { x: 14, y: 2 }) == placed_tile(9, 0, true, 0x3dcc_cccd, "grass_tuft"@)
            &&& cell(g, GridPos { x: 24, y: 2 }) == placed_tile(9, 0, true, 0x3dcc_cccd, "grass_tuft"@)
            &&& cell(g, GridPos { x: 12, y: 2 }) == placed_tile(9, 1, true, 0x3dcc_cccd, "grass_tuft"@)
            &&& cell(g, GridPos { x: 22, y: 3 }) == placed_tile(9, 1, true, 0x3dcc_cccd, "grass_tuft"@)
            &&& cell(g, GridPos { x: 7, y: 3 }) == placed_tile(6, 2, false, 0x3e4c_cccd, "water"@)
            &&& cell(g, GridPos { x: 8, y: 4 }) == placed_tile(6, 2, false, 0x3e4c_cccd, "water"@)
            &&& cell(g, GridPos { x: 1, y: 12 }) == placed_tile(0, 10, false, 0x3ecc_cccd, "stump"@)
        }),
{
    let ps = main_scene_placements();
    assert(is_rectangular(meadow()));
    assert(grid_width(meadow()) == 28) by {
        assert(meadow()[0].len() == 28);
        assert((28usize as i32) == 28);
    }
    assert(grid_height(meadow()) == 18) by {
        assert((18usize as i32) == 18);
    }
    let sprites: Seq<(int, GridPos)> = seq![
        (0, GridPos { x: 12, y: 1 }),
        (1, GridPos { x: 13, y: 1 }),
        (2, GridPos { x: 21, y: 2 }),
        (3, GridPos { x: 22, y: 1 }),
        (4, GridPos { x: 23, y: 2 }),
        (5, GridPos { x: 14, y: 2 }),
        (6, GridPos { x: 24, y: 2 }),
        (7, GridPos { x: 12, y: 2 }),
        (8, GridPos { x: 22, y: 3 }),
        (10, GridPos { x: 7, y: 3 }),
        (11, GridPos { x: 8, y: 4 }),
        (19, GridPos { x: 1, y: 12 }),
    ];
    assert forall|i: int| 0 <= i < sprites.len() implies cell(
        apply_stamps(meadow(), main_scene_stamps(table)),
        (#[trigger] sprites[i]).1,
    ) == placement_stamps(table, ps[sprites[i].0])[0].1 by {
        let (k, c) = sprites[i];
        lemma_later_placements_avoid(table, k, c);
        lemma_placement_cell(table, ps, k, c, placement_stamps(table, ps[k])[0].1);
    }
    assert(cell(apply_stamps(meadow(), main_scene_stamps(table)), sprites[0].1) == placement_stamps(table, ps[0])[0].1);
    assert(cell(apply_stamps(meadow(), main_scene_stamps(table)), sprites[1].1) == placement_stamps(table, ps[1])[0].1);
    assert(cell(apply_stamps(meadow(), main_scene_stamps(table)), sprites[2].1) == placement_stamps(table, ps[2])[0].1);
    assert(cell(apply_stamps(meadow(), main_scene_stamps(table)), sprites[3].1) == placement_stamps(table, ps[3])[0].1);
    assert(cell(apply_stamps(meadow(), main_scene_stamps(table)), sprites[4].1) == placement_stamps(table, ps[4])[0].1);
    assert(cell(apply_stamps(meadow(), main_scene_stamps(table)), sprites[5].1) == placement_stamps(table, ps[5])[0].1);
    assert(cell(apply_stamps(meadow(), main_scene_stamps(table)), sprites[6].1) == placement_stamps(table, ps[6])[0].1);
    assert(cell(apply_stamps(meadow(), main_scene_stamps(table)), sprites[7].1) == placement_stamps(table, ps[7])[0].1);
    assert(cell(apply_stamps(meadow(), main_scene_stamps(table)), sprites[8].1) == placement_stamps(table, ps[8])[0].1);
    assert(cell(apply_stamps(meadow(), main_scene_stamps(table)), sprites[9].1) == placement_stamps(table, ps[10])[0].1);
    assert(cell(apply_stamps(meadow(), main_scene_stamps(table)), sprites[10].1) == placement_stamps(table, ps[11])[0].1);
    assert(cell(apply_stamps(meadow(), main_scene_stamps(table)), sprites[11].1) == placement_stamps(table, ps[19])[0].1);
}

} // verus!
