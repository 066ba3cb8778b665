use pastoral::effects::{JsonLevelTileEffect, TileEffects};
use pastoral::level_registry::{
    default_walkable, JsonGridPosition, JsonLevelDefinition, JsonLevelTile, JsonSceneSprite,
    level_name_of, LevelRegistry, LevelScan, ModifiedStamp, LEVELS_DIRECTORY,
};
use pastoral::pastoral::PastoralTileSprite;
use pastoral::scene::{GridPos, SceneDefinition, SceneSprite, SceneTile};

fn effect(kind: &str, modifier: f32, extra: Option<&str>) -> JsonLevelTileEffect {
    JsonLevelTileEffect {
        tile_effect_type: kind.to_string(),
        modifier_bits: modifier.to_bits(),
        extra_data: extra.map(|e| e.to_string()),
    }
}

fn named_sprite(name: &str) -> JsonSceneSprite {
    JsonSceneSprite {
        tileset: "pastoral".to_string(),
        name: Some(name.to_string()),
        col: None,
        row: None,
    }
}

fn tile(name: &str) -> JsonLevelTile {
    JsonLevelTile {
        sprite: named_sprite(name),
        walkable: default_walkable(),
        effects: Vec::new(),
        z_layer_bits: 0.0f32.to_bits(),
        tag: None,
    }
}

fn level(rows: Vec<Vec<JsonLevelTile>>) -> JsonLevelDefinition {
    JsonLevelDefinition {
        player_spawn: JsonGridPosition { x: 1, y: 0 },
        tiles: rows,
    }
}

fn cell_of(sprite: SceneSprite) -> (u32, u32) {
    match sprite {
        SceneSprite::Pastoral(t) => (t.col(), t.row()),
    }
}

fn stamp(secs: u64) -> ModifiedStamp {
    ModifiedStamp { before_epoch: false, secs, nanos: 0 }
}

fn one_tile_scene() -> SceneDefinition {
    let grass = SceneTile::new(SceneSprite::Pastoral(PastoralTileSprite::from_grid(6, 0)));
    SceneDefinition::filled(1, 1, grass, GridPos::new(0, 0))
}

#[test]
fn levels_live_in_the_assets_directory() {
    assert_eq!(LEVELS_DIRECTORY, "assets/levels");
    assert!(default_walkable());
}

#[test]
fn tile_effect_is_trimmed() {
    let e = effect("  damage \t", 3.5, Some("  hello  ")).into_tile_effect().unwrap();
    assert_eq!(e.tile_effect_type, "damage");
    assert_eq!(f32::from_bits(e.modifier_bits), 3.5);
    assert_eq!(e.extra_data, Some("hello".to_string()));
}

#[test]
fn tile_effect_blank_extra_data_is_dropped() {
    let e = effect("message", 0.0, Some(" \n ")).into_tile_effect().unwrap();
    assert_eq!(e.extra_data, None);
    let e = effect("message", 0.0, None).into_tile_effect().unwrap();
    assert_eq!(e.extra_data, None);
}

#[test]
fn tile_effect_type_must_not_be_empty() {
    assert_eq!(
        effect("   ", 1.0, None).into_tile_effect().err(),
        Some("tile effect type must not be empty".to_string())
    );
}

#[test]
fn tile_effect_modifier_must_be_finite() {
    assert_eq!(
        effect(" heal ", f32::INFINITY, None).into_tile_effect().err(),
        Some("tile effect 'heal' modifier must be finite".to_string())
    );
    assert_eq!(
        effect("heal", f32::NAN, None).into_tile_effect().err(),
        Some("tile effect 'heal' modifier must be finite".to_string())
    );
    assert!(effect("heal", f32::MAX, None).into_tile_effect().is_ok());
    assert!(effect("heal", -0.0, None).into_tile_effect().is_ok());
}

#[test]
fn tile_effects_from_json_keeps_order_and_stops_at_the_first_error() {
    let effects = TileEffects::from_json(vec![effect("damage", 1.0, None), effect("heal", 2.0, None)]).unwrap();
    assert!(!effects.is_empty());
    assert_eq!(effects.effects.len(), 2);
    assert_eq!(effects.effects[1].tile_effect_type, "heal");
    let error = TileEffects::from_json(vec![
        effect("damage", 1.0, None),
        effect("", 1.0, None),
        effect("slow", f32::NAN, None),
    ]);
    assert_eq!(error.err(), Some("tile effect type must not be empty".to_string()));
    assert!(TileEffects::from_json(Vec::new()).unwrap().is_empty());
}

#[test]
fn sprite_by_name_by_grid_and_fallback() {
    assert_eq!(cell_of(named_sprite("tree_stump").into_scene_sprite().unwrap()), (0, 10));
    assert_eq!(cell_of(named_sprite("no_such_tile").into_scene_sprite().unwrap()), (6, 2));
    let by_grid = JsonSceneSprite {
        tileset: "pastoral".to_string(),
        name: None,
        col: Some(3),
        row: Some(4),
    };
    assert_eq!(cell_of(by_grid.into_scene_sprite().unwrap()), (3, 4));
}

#[test]
fn sprite_needs_a_name_or_a_cell() {
    let incomplete = JsonSceneSprite {
        tileset: "pastoral".to_string(),
        name: None,
        col: Some(3),
        row: None,
    };
    assert_eq!(
        incomplete.into_scene_sprite().err(),
        Some("pastoral sprites require either 'name' or both 'col' and 'row'".to_string())
    );
}

#[test]
fn sprite_tileset_must_be_known() {
    let other = JsonSceneSprite {
        tileset: "desert".to_string(),
        name: Some("sand".to_string()),
        col: None,
        row: None,
    };
    assert_eq!(other.into_scene_sprite().err(), Some("unsupported tileset 'desert'".to_string()));
}

#[test]
fn level_converts_to_a_scene() {
    let mut rows = vec![vec![tile("grass_plain"), tile("open_water")], vec![tile("tree_stump"), tile("grass_tuft_left")]];
    rows[1][0].walkable = false;
    rows[1][0].tag = Some("stump".to_string());
    rows[1][0].z_layer_bits = 0.4f32.to_bits();
    rows[0][1].effects = vec![effect("blockage", 0.0, None)];
    let scene = level(rows).into_scene_definition().unwrap();
    assert_eq!(scene.width(), 2);
    assert_eq!(scene.height(), 2);
    assert_eq!(scene.player_spawn(), GridPos::new(1, 0));
    let stump = scene.tile_at(GridPos::new(0, 1)).unwrap();
    assert!(!stump.walkable);
    assert_eq!(stump.tag, Some("stump".to_string()));
    assert_eq!(f32::from_bits(stump.z_layer_bits), 0.4);
    assert_eq!(cell_of(stump.sprite), (0, 10));
    assert_eq!(scene.tile_at(GridPos::new(1, 0)).unwrap().effects.effects[0].tile_effect_type, "blockage");
}

#[test]
fn level_needs_rows_and_tiles() {
    assert_eq!(level(Vec::new()).into_scene_definition().err(), Some("tiles must contain at least one row".to_string()));
    assert_eq!(
        level(vec![Vec::new(), vec![tile("grass_plain")]]).into_scene_definition().err(),
        Some("each level row must contain at least one tile".to_string())
    );
}

#[test]
fn level_rows_must_be_as_wide_as_the_first() {
    let mut rows = Vec::new();
    for _ in 0..12 {
        rows.push(vec![tile("grass_plain"), tile("grass_plain")]);
    }
    rows.push(vec![tile("grass_plain"), tile("grass_plain"), tile("grass_plain")]);
    assert_eq!(
        level(rows).into_scene_definition().err(),
        Some("row 12 has width 3, expected 2".to_string())
    );
}

#[test]
fn level_reports_the_first_bad_tile() {
    let mut rows = vec![vec![tile("grass_plain")], vec![tile("grass_plain")]];
    rows[0][0].sprite.tileset = "moon".to_string();
    rows[1][0].effects = vec![effect("", 1.0, None)];
    assert_eq!(level(rows).into_scene_definition().err(), Some("unsupported tileset 'moon'".to_string()));
    let mut rows = vec![vec![tile("grass_plain")], vec![tile("grass_plain")]];
    rows[1][0].effects = vec![effect("heal", f32::NEG_INFINITY, None)];
    assert_eq!(
        level(rows).into_scene_definition().err(),
        Some("tile effect 'heal' modifier must be finite".to_string())
    );
}

#[test]
fn registry_gives_back_a_stored_level() {
    let mut registry = LevelRegistry::new();
    assert!(registry.get("meadow").is_none());
    assert!(registry.first_level_name().is_none());
    assert!(registry.should_reload("meadow", stamp(5)));
    registry.store_level("meadow".to_string(), stamp(5), one_tile_scene());
    assert_eq!(registry.get("meadow").unwrap().width(), 1);
    assert!(!registry.should_reload("meadow", stamp(5)));
    assert!(registry.should_reload("meadow", stamp(6)));
    assert!(registry.should_reload("meadow", ModifiedStamp { before_epoch: true, secs: 5, nanos: 0 }));
    let wide = SceneDefinition::filled(3, 1, SceneTile::new(SceneSprite::Pastoral(PastoralTileSprite::from_grid(6, 0))), GridPos::new(0, 0));
    registry.store_level("meadow".to_string(), stamp(6), wide);
    assert_eq!(registry.get("meadow").unwrap().width(), 3);
    assert!(!registry.should_reload("meadow", stamp(6)));
}

#[test]
fn registry_first_level_name_is_the_least() {
    let mut registry = LevelRegistry::new();
    for name in ["beta", "alphabet", "alpha", "gamma", "Zeta"] {
        registry.store_level(name.to_string(), stamp(1), one_tile_scene());
    }
    assert_eq!(registry.first_level_name(), Some("Zeta"));
    let mut registry = LevelRegistry::new();
    for name in ["beta", "alphabet", "alpha", "gamma"] {
        registry.store_level(name.to_string(), stamp(1), one_tile_scene());
    }
    assert_eq!(registry.first_level_name(), Some("alpha"));
}

#[test]
fn registry_forgets_levels_whose_file_is_gone() {
    let mut registry = LevelRegistry::new();
    for name in ["a", "b", "c"] {
        registry.store_level(name.to_string(), stamp(1), one_tile_scene());
    }
    let mut removed = registry.remove_unseen(&vec!["b".to_string(), "z".to_string()]);
    removed.sort();
    assert_eq!(removed, vec!["a".to_string(), "c".to_string()]);
    assert!(registry.get("a").is_none());
    assert!(registry.get("b").is_some());
    assert!(registry.get("c").is_none());
}

#[test]
fn scan_reports_changes_errors_and_removals() {
    let mut registry = LevelRegistry::new();
    registry.store_level("old".to_string(), stamp(1), one_tile_scene());
    registry.store_level("kept".to_string(), stamp(1), one_tile_scene());
    let mut scan = LevelScan::new(&registry);
    assert!(!scan.needs_read(&registry, "kept", stamp(1)));
    assert!(scan.needs_read(&registry, "new", stamp(2)));
    scan.level_loaded(&mut registry, "new".to_string(), stamp(2), Ok(one_tile_scene()));
    assert!(scan.needs_read(&registry, "broken", stamp(3)));
    scan.level_loaded(&mut registry, "broken".to_string(), stamp(3), Err("Invalid level".to_string()));
    scan.time_unreadable(&registry, "odd".to_string(), "Unable to read metadata".to_string());
    let report = scan.finish(&mut registry);
    assert_eq!(report.changed, vec!["new".to_string()]);
    assert_eq!(report.removed, vec!["old".to_string()]);
    assert_eq!(report.errors, vec!["Invalid level".to_string(), "Unable to read metadata".to_string()]);
    assert!(registry.get("new").is_some());
    assert!(registry.get("kept").is_some());
    assert!(registry.get("old").is_none());
    assert!(registry.get("broken").is_none());
}

#[test]
fn unreadable_time_keeps_a_loaded_level() {
    let mut registry = LevelRegistry::new();
    registry.store_level("kept".to_string(), stamp(1), one_tile_scene());
    let mut scan = LevelScan::new(&registry);
    scan.time_unreadable(&registry, "kept".to_string(), "Unable to read metadata".to_string());
    let report = scan.finish(&mut registry);
    assert!(report.changed.is_empty());
    assert!(report.removed.is_empty());
    assert!(registry.get("kept").is_some());
    assert!(!registry.should_reload("kept", stamp(1)));
}

#[test]
fn level_names_come_from_json_file_names() {
    assert_eq!(level_name_of("meadow.json"), Some("meadow".to_string()));
    assert_eq!(level_name_of("a.b.json"), Some("a.b".to_string()));
    assert_eq!(level_name_of("..json"), Some(".".to_string()));
    assert_eq!(level_name_of(".json"), None);
    assert_eq!(level_name_of("meadow.txt"), None);
    assert_eq!(level_name_of("meadow.JSON"), None);
    assert_eq!(level_name_of("meadow"), None);
    assert_eq!(level_name_of("json"), None);
    assert_eq!(level_name_of("prado\u{e9}.json"), Some("prado\u{e9}".to_string()));
}

#[test]
fn aborted_scan_keeps_the_registry() {
    let mut registry = LevelRegistry::new();
    registry.store_level("old".to_string(), stamp(1), one_tile_scene());
    let scan = LevelScan::new(&registry);
    let report = scan.abort("Unable to read level directory".to_string());
    assert!(report.changed.is_empty());
    assert!(report.removed.is_empty());
    assert_eq!(report.errors, vec!["Unable to read level directory".to_string()]);
    assert!(registry.get("old").is_some());
}

#[test]
fn rescan_of_an_unchanged_directory_changes_nothing() {
    let mut registry = LevelRegistry::new();
    registry.store_level("gone".to_string(), stamp(1), one_tile_scene());
    registry.store_level("kept".to_string(), stamp(1), one_tile_scene());
    let files = [("kept", stamp(1), true), ("new", stamp(2), true), ("broken", stamp(3), false)];
    let mut reports = Vec::new();
    for _ in 0..2 {
        let mut scan = LevelScan::new(&registry);
        for (name, modified, loads) in files.iter() {
            if scan.needs_read(&registry, name, *modified) {
                let loaded = if *loads {
                    Ok(one_tile_scene())
                } else {
                    Err(format!("Invalid level '{name}'"))
                };
                scan.level_loaded(&mut registry, name.to_string(), *modified, loaded);
            }
        }
        reports.push(scan.finish(&mut registry));
    }
    assert_eq!(reports[0].changed, vec!["new".to_string()]);
    assert_eq!(reports[0].removed, vec!["gone".to_string()]);
    assert!(reports[1].changed.is_empty());
    assert!(reports[1].removed.is_empty());
    assert_eq!(reports[1].errors, vec!["Invalid level 'broken'".to_string()]);
    assert!(registry.get("kept").is_some());
    assert!(registry.get("new").is_some());
    assert!(registry.get("gone").is_none());
    assert!(!registry.should_reload("new", stamp(2)));
}
