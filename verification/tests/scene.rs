use pastoral::effects::{TileEffect, TileEffects};
use pastoral::main_scene::{build_main_scene, origin_of, scene_definition, PastoralRegion, RegionTile};
use pastoral::pastoral::{PastoralSprite, PastoralTileSprite, TILE_COLUMNS};
use pastoral::scene::{has_blockage, GridPos, SceneDefinition, SceneName, SceneSprite, SceneTile};

fn grass() -> SceneTile {
    SceneTile::new(SceneSprite::Pastoral(PastoralSprite::GrassPlain.tile()))
}

fn blocking_tile() -> SceneTile {
    let mut t = grass();
    t.effects = TileEffects {
        effects: vec![
            TileEffect { tile_effect_type: "heal".to_string(), modifier_bits: 1.0f32.to_bits(), extra_data: None },
            TileEffect { tile_effect_type: "blockage".to_string(), modifier_bits: 0, extra_data: None },
        ],
    };
    t
}

fn cell_of(tile: &SceneTile) -> (u32, u32) {
    match tile.sprite {
        SceneSprite::Pastoral(t) => (t.col(), t.row()),
    }
}

#[test]
fn pastoral_sprites_use_their_cells() {
    assert_eq!(PastoralSprite::from_name("grass_plain").map(|s| s.tile()), Some(PastoralTileSprite::from_grid(6, 0)));
    assert_eq!(PastoralSprite::from_name("grass_tuft_left").map(|s| s.tile()), Some(PastoralTileSprite::from_grid(8, 0)));
    assert_eq!(PastoralSprite::from_name("grass_tuft_right").map(|s| s.tile()), Some(PastoralTileSprite::from_grid(9, 0)));
    assert_eq!(PastoralSprite::from_name("grass_tuft_lower").map(|s| s.tile()), Some(PastoralTileSprite::from_grid(9, 1)));
    assert_eq!(PastoralSprite::from_name("open_water").map(|s| s.tile()), Some(PastoralTileSprite::from_grid(6, 2)));
    assert_eq!(PastoralSprite::from_name("tree_stump").map(|s| s.tile()), Some(PastoralTileSprite::from_grid(0, 10)));
    assert_eq!(PastoralSprite::from_name("lava"), Some(PastoralSprite::OpenWater));
}

#[test]
fn atlas_index_counts_row_by_row() {
    assert_eq!(TILE_COLUMNS, 12);
    assert_eq!(PastoralTileSprite::from_grid(0, 10).atlas_index(), 120);
    assert_eq!(PastoralTileSprite::from_grid(9, 1).atlas_index(), 21);
    assert_eq!(PastoralSprite::GrassPlain.tile().atlas_index(), 6);
}

#[test]
fn tile_builders_set_their_field() {
    let t = grass().with_walkable(false).with_z_layer(0.3f32.to_bits()).with_tag("tree");
    assert!(!t.walkable);
    assert_eq!(f32::from_bits(t.z_layer_bits), 0.3);
    assert_eq!(t.tag, Some("tree".to_string()));
    assert!(t.effects.is_empty());
    let fresh = grass();
    assert!(fresh.walkable);
    assert_eq!(fresh.z_layer_bits, 0);
    assert_eq!(fresh.tag, None);
}

#[test]
fn filled_scene_has_its_size() {
    let scene = SceneDefinition::filled(3, 2, grass(), GridPos::new(1, 1));
    assert_eq!(scene.width(), 3);
    assert_eq!(scene.height(), 2);
    assert_eq!(scene.tiles().len(), 2);
    assert!(scene.tiles().iter().all(|row| row.len() == 3));
    assert_eq!(scene.player_spawn(), GridPos::new(1, 1));
    let empty = SceneDefinition::filled(0, 0, grass(), GridPos::new(0, 0));
    assert_eq!(empty.width(), 0);
    assert_eq!(empty.height(), 0);
    assert!(empty.tile_at(GridPos::new(0, 0)).is_none());
}

#[test]
fn set_tile_then_tile_at_reads_it_back() {
    let mut scene = SceneDefinition::filled(3, 2, grass(), GridPos::new(0, 0));
    scene.set_tile(GridPos::new(2, 1), grass().with_tag("marked"));
    assert_eq!(scene.tile_at(GridPos::new(2, 1)).unwrap().tag, Some("marked".to_string()));
    assert_eq!(scene.tile_at(GridPos::new(1, 1)).unwrap().tag, None);
    for outside in [GridPos::new(-1, 0), GridPos::new(3, 0), GridPos::new(0, 2), GridPos::new(0, -1)] {
        scene.set_tile(outside, grass().with_tag("lost"));
        assert!(scene.tile_at(outside).is_none());
    }
    assert_eq!(scene.width(), 3);
    assert_eq!(scene.height(), 2);
}

#[test]
fn blockage_is_found_among_effects() {
    assert!(has_blockage(&blocking_tile().effects));
    assert!(!has_blockage(&grass().effects));
}

#[test]
fn area_blocked_by_edges_and_blockages() {
    let mut scene = SceneDefinition::filled(4, 4, grass(), GridPos::new(0, 0));
    scene.set_tile(GridPos::new(2, 2), blocking_tile());
    assert!(!scene.area_blocked(GridPos::new(0, 0), GridPos::new(1, 1)));
    assert!(scene.area_blocked(GridPos::new(1, 1), GridPos::new(2, 2)));
    assert!(scene.area_blocked(GridPos::new(3, 3), GridPos::new(4, 3)));
    assert!(scene.area_blocked(GridPos::new(-1, 0), GridPos::new(0, 0)));
    assert!(!scene.area_blocked(GridPos::new(3, 0), GridPos::new(2, 0)));
    assert!(!scene.area_blocked(GridPos::new(i32::MAX, 0), GridPos::new(i32::MIN, 0)));
}

#[test]
fn main_scene_without_pictures() {
    let scene = build_main_scene(&Vec::new());
    assert_eq!(scene.width(), 28);
    assert_eq!(scene.height(), 18);
    assert_eq!(scene.player_spawn(), GridPos::new(12, 9));
    let tuft = scene.tile_at(GridPos::new(12, 1)).unwrap();
    assert_eq!(cell_of(tuft), (8, 0));
    assert_eq!(tuft.tag, Some("grass_tuft".to_string()));
    assert_eq!(f32::from_bits(tuft.z_layer_bits), 0.1);
    assert!(tuft.walkable);
    let water = scene.tile_at(GridPos::new(8, 4)).unwrap();
    assert_eq!(cell_of(water), (6, 2));
    assert!(!water.walkable);
    assert_eq!(f32::from_bits(water.z_layer_bits), 0.2);
    let stump = scene.tile_at(GridPos::new(1, 12)).unwrap();
    assert_eq!(cell_of(stump), (0, 10));
    assert_eq!(stump.tag, Some("stump".to_string()));
    let meadow = scene.tile_at(GridPos::new(0, 0)).unwrap();
    assert_eq!(cell_of(meadow), (6, 0));
    assert_eq!(meadow.tag, None);
    assert!(meadow.walkable);
}

#[test]
fn main_scene_lays_out_pictures() {
    let table = vec![
        RegionTile { region: PastoralRegion::Pond, offset: GridPos::new(0, 0), sprite: PastoralTileSprite::from_grid(0, 2) },
        RegionTile { region: PastoralRegion::BigMountain, offset: GridPos::new(1, 1), sprite: PastoralTileSprite::from_grid(5, 12) },
        RegionTile { region: PastoralRegion::Pond, offset: GridPos::new(1, 0), sprite: PastoralTileSprite::from_grid(1, 2) },
        RegionTile { region: PastoralRegion::Field, offset: GridPos::new(40, 0), sprite: PastoralTileSprite::from_grid(3, 3) },
    ];
    let scene = scene_definition(SceneName::Main, &table);
    assert_eq!(origin_of(PastoralRegion::Pond), GridPos::new(1, 1));
    let pond = scene.tile_at(GridPos::new(2, 1)).unwrap();
    assert_eq!(cell_of(pond), (1, 2));
    assert_eq!(pond.tag, Some("pond".to_string()));
    assert!(!pond.walkable);
    let mountain = scene.tile_at(GridPos::new(19, 11)).unwrap();
    assert_eq!(cell_of(mountain), (5, 12));
    assert_eq!(mountain.tag, Some("mountain".to_string()));
    assert_eq!(f32::from_bits(mountain.z_layer_bits), 0.6);
    assert_eq!(scene.width(), 28);
}
