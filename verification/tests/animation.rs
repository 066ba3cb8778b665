use pastoral::hero::{
    idle_frame, set_hero_animation, walking_frames, HeroAnimation, HeroDirection, HeroFacing,
    HERO_ANIMATION_FPS, HERO_COLUMNS, HERO_PATH, HERO_ROWS,
};
use pastoral::player::{
    movement_for_key, tile_health_changes, tile_speed_changes, HealthChange, MoveKey, SpeedChange,
};
use pastoral::effects::{TileEffect, TileEffects};
use pastoral::scene::{SceneSprite, SceneTile};
use pastoral::pastoral::PastoralTileSprite;

const DIRECTIONS: [HeroDirection; 4] = [HeroDirection::Back, HeroDirection::Front, HeroDirection::Left, HeroDirection::Right];

#[test]
fn hero_sheet_constants() {
    assert_eq!(HERO_PATH, "textures/hero.png");
    assert_eq!(HERO_COLUMNS * HERO_ROWS, 24);
    assert_eq!(HERO_ANIMATION_FPS, 10);
}

#[test]
fn frames_of_each_direction() {
    assert_eq!(walking_frames(HeroDirection::Back), (0, 3));
    assert_eq!(walking_frames(HeroDirection::Front), (4, 7));
    assert_eq!(walking_frames(HeroDirection::Left), (8, 11));
    assert_eq!(walking_frames(HeroDirection::Right), (12, 15));
    assert_eq!(idle_frame(HeroDirection::Back), 1);
    assert_eq!(idle_frame(HeroDirection::Front), 6);
    assert_eq!(idle_frame(HeroDirection::Left), 9);
    assert_eq!(idle_frame(HeroDirection::Right), 13);
    for d in DIRECTIONS {
        let (first, last) = walking_frames(d);
        assert!(first <= idle_frame(d) && idle_frame(d) <= last);
    }
}

#[test]
fn idle_animation_is_still() {
    let a = HeroAnimation::idle(HeroDirection::Left);
    assert_eq!(a.first_sprite_index(), 9);
    assert_eq!(a.last_sprite_index(), 9);
    assert_eq!(a.fps(), 10);
    assert!(a.is_still());
}

#[test]
fn turning_restarts_the_animation_once() {
    let mut atlas = Some(6usize);
    let mut animation = HeroAnimation::idle(HeroDirection::Front);
    let mut facing = HeroFacing(HeroDirection::Front);
    assert!(!set_hero_animation(&mut atlas, &mut animation, &mut facing, HeroDirection::Front, false));
    assert_eq!(atlas, Some(6));
    assert!(set_hero_animation(&mut atlas, &mut animation, &mut facing, HeroDirection::Right, true));
    assert_eq!(facing, HeroFacing(HeroDirection::Right));
    assert_eq!(atlas, Some(12));
    assert_eq!((animation.first_sprite_index(), animation.last_sprite_index()), (12, 15));
    atlas = Some(14);
    assert!(!set_hero_animation(&mut atlas, &mut animation, &mut facing, HeroDirection::Right, true));
    assert_eq!(atlas, Some(14));
    let mut no_atlas = None;
    assert!(set_hero_animation(&mut no_atlas, &mut animation, &mut facing, HeroDirection::Back, false));
    assert_eq!(no_atlas, None);
    assert_eq!((animation.first_sprite_index(), animation.last_sprite_index()), (1, 1));
}

#[test]
fn walk_cycles_through_its_frames() {
    let mut atlas = None;
    let mut animation = HeroAnimation::idle(HeroDirection::Back);
    let mut facing = HeroFacing(HeroDirection::Back);
    set_hero_animation(&mut atlas, &mut animation, &mut facing, HeroDirection::Left, true);
    let mut frame = 8;
    let mut seen = Vec::new();
    for _ in 0..5 {
        frame = animation.next_frame(frame);
        seen.push(frame);
    }
    assert_eq!(seen, vec![9, 10, 11, 8, 9]);
    assert_eq!(animation.next_frame(2), 8);
    assert_eq!(animation.next_frame(20), 8);
}

#[test]
fn keys_move_and_turn_the_hero() {
    assert_eq!(movement_for_key(Some(MoveKey::W), HeroDirection::Left), ((0, 1), HeroDirection::Back));
    assert_eq!(movement_for_key(Some(MoveKey::S), HeroDirection::Left), ((0, -1), HeroDirection::Front));
    assert_eq!(movement_for_key(Some(MoveKey::A), HeroDirection::Back), ((-1, 0), HeroDirection::Left));
    assert_eq!(movement_for_key(Some(MoveKey::D), HeroDirection::Back), ((1, 0), HeroDirection::Right));
    assert_eq!(movement_for_key(None, HeroDirection::Right), ((0, 0), HeroDirection::Right));
}

#[test]
fn only_damage_and_heal_change_health() {
    let mut tile = SceneTile::new(SceneSprite::Pastoral(PastoralTileSprite::from_grid(6, 0)));
    tile.effects = TileEffects {
        effects: ["damage", "slow", "heal", "blockage", "damage"]
            .iter()
            .enumerate()
            .map(|(i, kind)| TileEffect {
                tile_effect_type: kind.to_string(),
                modifier_bits: (i as f32).to_bits(),
                extra_data: None,
            })
            .collect(),
    };
    assert_eq!(
        tile_health_changes(Some(&tile)),
        vec![
            HealthChange::Damage(0.0f32.to_bits()),
            HealthChange::Heal(2.0f32.to_bits()),
            HealthChange::Damage(4.0f32.to_bits()),
        ]
    );
    assert!(tile_health_changes(None).is_empty());
    let plain = SceneTile::new(SceneSprite::Pastoral(PastoralTileSprite::from_grid(6, 0)));
    assert!(tile_health_changes(Some(&plain)).is_empty());
}

#[test]
fn only_slow_and_speed_change_speed() {
    let mut tile = SceneTile::new(SceneSprite::Pastoral(PastoralTileSprite::from_grid(6, 0)));
    tile.effects = TileEffects {
        effects: [("slow", 50.0f32), ("damage", 3.0), ("speed", 20.0), ("heal", 1.0), ("slow", 10.0)]
            .iter()
            .map(|(kind, modifier)| TileEffect {
                tile_effect_type: kind.to_string(),
                modifier_bits: modifier.to_bits(),
                extra_data: None,
            })
            .collect(),
    };
    assert_eq!(
        tile_speed_changes(Some(&tile)),
        vec![
            SpeedChange::Slow(50.0f32.to_bits()),
            SpeedChange::Speed(20.0f32.to_bits()),
            SpeedChange::Slow(10.0f32.to_bits()),
        ]
    );
    assert!(tile_speed_changes(None).is_empty());
    let plain = SceneTile::new(SceneSprite::Pastoral(PastoralTileSprite::from_grid(6, 0)));
    assert!(tile_speed_changes(Some(&plain)).is_empty());
}
