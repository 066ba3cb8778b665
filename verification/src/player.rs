//! What the player's keys and the tiles under the player decide.

use vstd::prelude::*;

use crate::effects::TileEffectView;
use crate::hero::HeroDirection;
use crate::scene::SceneTile;
use crate::text::str_eq;

verus! {

/// The keys that move the player.
#[derive(Debug, Clone, Copy, PartialEq, Eq, Structural)]
pub enum MoveKey {
    W,
    S,
    A,
    D,
}

/// The unit step and facing for the first pressed key: W goes up and shows
/// the hero's back, S down and front, A left, D right; any other key, or none,
/// does not move and keeps the facing.
pub open spec fn movement_of(key: Option<MoveKey>, facing: HeroDirection) -> ((i8, i8), HeroDirection) {
    match key {
        Some(MoveKey::W) => ((0i8, 1i8), HeroDirection::Back),
        Some(MoveKey::S) => ((0i8, -1i8), HeroDirection::Front),
        Some(MoveKey::A) => ((-1i8, 0i8), HeroDirection::Left),
        Some(MoveKey::D) => ((1i8, 0i8), HeroDirection::Right),
        None => ((0i8, 0i8), facing),
    }
}

/// The unit step (x, y; y grows upwards) and the facing for the first
/// pressed key.
pub fn movement_for_key(key: Option<MoveKey>, facing: HeroDirection) -> (r: ((i8, i8), HeroDirection))
    ensures
        r == movement_of(key, facing),
{
    match key {
        Some(MoveKey::W) => ((0, 1), HeroDirection::Back),
        Some(MoveKey::S) => ((0, -1), HeroDirection::Front),
        Some(MoveKey::A) => ((-1, 0), HeroDirection::Left),
        Some(MoveKey::D) => ((1, 0), HeroDirection::Right),
        None => ((0, 0), facing),
    }
}

/// A change of the player's health; the amount is the IEEE-754 bit pattern
/// of the `f32` modifier of the tile effect.
#[derive(Debug, Clone, Copy, PartialEq, Eq, Structural)]
pub enum HealthChange {
    Damage(u32),
    Heal(u32),
}

/// The health changes that stepping on a tile with `effects` makes, in order:
/// "damage" and "heal" effects change health, the other kinds do not.
pub open spec fn health_changes_of(effects: Seq<TileEffectView>) -> Seq<HealthChange>
    decreases effects.len(),
{
    if effects.len() == 0 {
        Seq::empty()
    } else {
        let prefix = health_changes_of(effects.drop_last());
        let e = effects.last();
        if e.tile_effect_type == "damage"@ {
            prefix.push(HealthChange::Damage(e.modifier_bits))
        } else if e.tile_effect_type == "heal"@ {
            prefix.push(HealthChange::Heal(e.modifier_bits))
        } else {
            prefix
        }
    }
}

/// The health changes that stepping on `tile` makes, in order; none where
/// there is no tile.
pub fn tile_health_changes(tile: Option<&SceneTile>) -> (r: Vec<HealthChange>)
    ensures
        r@ == match tile {
            Some(t) => health_changes_of(t@.effects),
            None => Seq::empty(),
        },
{
    let mut changes: Vec<HealthChange> = Vec::new();
    let tile = match tile {
        Some(tile) => tile,
        None => {
            return changes;
        },
    };
    let ghost effects = tile@.effects;
    let mut i: usize = 0;
    assert(effects.take(0) =~= Seq::<TileEffectView>::empty());
    while i < tile.effects.effects.len()
        invariant
            effects == tile@.effects,
            i <= effects.len(),
            changes@ == health_changes_of(effects.take(i as int)),
        decreases effects.len() - i,
    {
        let effect = &tile.effects.effects[i];
        assert(effects.take(i as int + 1).drop_last() =~= effects.take(i as int));
        assert(effects[i as int] == effect@);
        if str_eq(effect.tile_effect_type.as_str(), "damage") {
            changes.push(HealthChange::Damage(effect.modifier_bits));
        } else if str_eq(effect.tile_effect_type.as_str(), "heal") {
            changes.push(HealthChange::Heal(effect.modifier_bits));
        }
        i = i + 1;
    }
    assert(effects.take(i as int) =~= effects);
    changes
}

/// Only "damage" and "heal" effects touch health: a tile whose effects are of
/// other kinds leaves it as it is, and each health change comes from one of
/// the tile's effects.
pub proof fn law_only_damage_and_heal_touch_health(effects: Seq<TileEffectView>)
    ensures
        health_changes_of(effects).len() <= effects.len(),
        (forall|i: int| 0 <= i < effects.len() ==> #[trigger] effects[i].tile_effect_type != "damage"@
            && effects[i].tile_effect_type != "heal"@) ==> health_changes_of(effects).len() == 0,
    decreases effects.len(),
{
    if effects.len() > 0 {
        law_only_damage_and_heal_touch_health(effects.drop_last());
        if forall|i: int| 0 <= i < effects.len() ==> #[trigger] effects[i].tile_effect_type != "damage"@
            && effects[i].tile_effect_type != "heal"@ {
            assert forall|i: int| 0 <= i < effects.drop_last().len() implies #[trigger] effects.drop_last()[i].tile_effect_type
                != "damage"@ && effects.drop_last()[i].tile_effect_type != "heal"@ by {
                assert(effects.drop_last()[i] == effects[i]);
            }
            assert(effects.last() == effects[effects.len() - 1]);
        }
    }
}


/// A change of the player's speed by a percentage; the percentage is the
/// IEEE-754 bit pattern of the `f32` modifier of the tile effect.
#[derive(Debug, Clone, Copy, PartialEq, Eq, Structural)]
pub enum SpeedChange {
    Slow(u32),
    Speed(u32),
}

/// The speed changes that stepping on a tile with `effects` makes, in order:
/// a "slow" effect slows the player and a "speed" effect speeds the player
/// up, each by its modifier in percent; the other kinds do not.
pub open spec fn speed_changes_of(effects: Seq<TileEffectView>) -> Seq<SpeedChange>
    decreases effects.len(),
{
    if effects.len() == 0 {
        Seq::empty()
    } else {
        let prefix = speed_changes_of(effects.drop_last());
        let e = effects.last();
        if e.tile_effect_type == "slow"@ {
            prefix.push(SpeedChange::Slow(e.modifier_bits))
        } else if e.tile_effect_type == "speed"@ {
            prefix.push(SpeedChange::Speed(e.modifier_bits))
        } else {
            prefix
        }
    }
}

/// The speed changes that stepping on `tile` makes, in order; none where
/// there is no tile.
pub fn tile_speed_changes(tile: Option<&SceneTile>) -> (r: Vec<SpeedChange>)
    ensures
        r@ == match tile {
            Some(t) => speed_changes_of(t@.effects),
            None => Seq::empty(),
        },
{
    let mut changes: Vec<SpeedChange> = Vec::new();
    let tile = match tile {
        Some(tile) => tile,
        None => {
            return changes;
        },
    };
    let ghost effects = tile@.effects;
    let mut i: usize = 0;
    assert(effects.take(0) =~= Seq::<TileEffectView>::empty());
    while i < tile.effects.effects.len()
        invariant
            effects == tile@.effects,
            i <= effects.len(),
            changes@ == speed_changes_of(effects.take(i as int)),
        decreases effects.len() - i,
    {
        let effect = &tile.effects.effects[i];
        assert(effects.take(i as int + 1).drop_last() =~= effects.take(i as int));
        assert(effects[i as int] == effect@);
        if str_eq(effect.tile_effect_type.as_str(), "slow") {
            changes.push(SpeedChange::Slow(effect.modifier_bits));
        } else if str_eq(effect.tile_effect_type.as_str(), "speed") {
            changes.push(SpeedChange::Speed(effect.modifier_bits));
        }
        i = i + 1;
    }
    assert(effects.take(i as int) =~= effects);
    changes
}

} // verus!
