//! Effects that tiles of a level have on the player, and their validation.

use vstd::prelude::*;

use crate::text::{concat3, law_trim_idempotent, trim_str, trimmed};

verus! {

/// An effect of a tile. Its kinds:
/// - "damage": damages the player stepping on the tile by `modifier`;
/// - "heal": heals the player stepping on the tile by `modifier`;
/// - "slow": slows the player down by the percentage `modifier`;
/// - "speed": speeds the player up by the percentage `modifier`;
/// - "teleport": moves the player to `extra_data`, "x,y"; `modifier` is ignored;
/// - "voyage": moves the player to the scene named `extra_data`, `modifier` is
///   the fade duration;
/// - "message": shows the player `extra_data`; `modifier` is ignored;
/// - "blockage": the player cannot step on the tile; the rest is ignored.
///
/// `modifier_bits` is the IEEE-754 bit pattern of the `f32` modifier.
pub struct TileEffect {
    pub tile_effect_type: String,
    pub modifier_bits: u32,
    pub extra_data: Option<String>,
}

/// A tile effect as plain values.
pub struct TileEffectView {
    pub tile_effect_type: Seq<char>,
    pub modifier_bits: u32,
    pub extra_data: Option<Seq<char>>,
}

/// An optional string as an optional character sequence.
pub open spec fn opt_view(s: Option<String>) -> Option<Seq<char>> {
    match s {
        Some(s) => Some(s@),
        None => None,
    }
}

impl View for TileEffect {
    type V = TileEffectView;

    open spec fn view(&self) -> TileEffectView {
        TileEffectView {
            tile_effect_type: self.tile_effect_type@,
            modifier_bits: self.modifier_bits,
            extra_data: opt_view(self.extra_data),
        }
    }
}

/// A copy of an optional string.
pub fn clone_opt_string(s: &Option<String>) -> (r: Option<String>)
    ensures
        r == *s,
{
    match s {
        Some(s) => Some(s.clone()),
        None => None,
    }
}

impl Clone for TileEffect {
    fn clone(&self) -> (r: Self)
        ensures
            r == *self,
    {
        TileEffect {
            tile_effect_type: self.tile_effect_type.clone(),
            modifier_bits: self.modifier_bits,
            extra_data: clone_opt_string(&self.extra_data),
        }
    }
}

/// The effects of one tile, in the order the level lists them.
pub struct TileEffects {
    pub effects: Vec<TileEffect>,
}

impl View for TileEffects {
    type V = Seq<TileEffectView>;

    open spec fn view(&self) -> Seq<TileEffectView> {
        self.effects@.map_values(|e: TileEffect| e@)
    }
}

impl Clone for TileEffects {
    fn clone(&self) -> (r: Self)
        ensures
            r@ == self@,
    {
        let mut effects: Vec<TileEffect> = Vec::new();
        let mut i: usize = 0;
        while i < self.effects.len()
            invariant
                i <= self.effects.len(),
                effects@.map_values(|e: TileEffect| e@) == self@.take(i as int),
            decreases self.effects.len() - i,
        {
            let c = self.effects[i].clone();
            assert(c@ == self@[i as int]);
            let ghost before = effects@;
            effects.push(c);
            assert(effects@ == before.push(c));
            assert(effects@.map_values(|e: TileEffect| e@) =~= before.map_values(
                |e: TileEffect| e@,
            ).push(c@));
            assert(self@.take(i as int + 1) =~= self@.take(i as int).push(self@[i as int]));
            i = i + 1;
        }
        assert(self@.take(i as int) =~= self@);
        TileEffects { effects }
    }
}

impl Default for TileEffects {
    fn default() -> (r: Self)
        ensures
            r@ == Seq::<TileEffectView>::empty(),
    {
        let r = TileEffects { effects: Vec::new() };
        assert(r@ =~= Seq::<TileEffectView>::empty());
        r
    }
}

impl TileEffects {
    /// Whether the tile has no effect.
    pub fn is_empty(&self) -> (r: bool)
        ensures
            r == (self@.len() == 0),
    {
        self.effects.is_empty()
    }
}

/// A tile effect as a level file writes it; `modifier_bits` is the IEEE-754
/// bit pattern of the `f32` modifier.
pub struct JsonLevelTileEffect {
    pub tile_effect_type: String,
    pub modifier_bits: u32,
    pub extra_data: Option<String>,
}

/// Whether the `f32` with bit pattern `bits` is finite: by IEEE-754, infinities
/// and NaNs are exactly the patterns whose eight exponent bits are all set.
pub open spec fn is_finite_bits(bits: u32) -> bool {
    (bits >> 23u32) & 0xffu32 != 0xffu32
}

/// Whether the `f32` with bit pattern `bits` is finite.
pub fn finite_bits(bits: u32) -> (r: bool)
    ensures
        r == is_finite_bits(bits),
{
    (bits >> 23u32) & 0xffu32 != 0xffu32
}

/// The extra data of an effect after validation: trimmed, and absent when
/// nothing but white space was given.
pub open spec fn clean_extra_data(extra: Option<Seq<char>>) -> Option<Seq<char>> {
    match extra {
        Some(e) => if trimmed(e).len() > 0 {
            Some(trimmed(e))
        } else {
            None
        },
        None => None,
    }
}

/// The tile effect that a level file's entry stands for, or why it is invalid:
/// the kind is trimmed and must not be empty, the modifier must be finite.
pub open spec fn tile_effect_outcome(
    kind: Seq<char>,
    modifier_bits: u32,
    extra: Option<Seq<char>>,
) -> Result<TileEffectView, Seq<char>> {
    let k = trimmed(kind);
    if k.len() == 0 {
        Err("tile effect type must not be empty"@)
    } else if !is_finite_bits(modifier_bits) {
        Err("tile effect '"@ + k + "' modifier must be finite"@)
    } else {
        Ok(
            TileEffectView {
                tile_effect_type: k,
                modifier_bits,
                extra_data: clean_extra_data(extra),
            },
        )
    }
}

impl JsonLevelTileEffect {
    /// The entry as plain values, converted.
    pub open spec fn outcome(&self) -> Result<TileEffectView, Seq<char>> {
        tile_effect_outcome(self.tile_effect_type@, self.modifier_bits, opt_view(self.extra_data))
    }

    /// Validates the entry and makes the tile effect it stands for.
    pub fn into_tile_effect(self) -> (r: Result<TileEffect, String>)
        ensures
            match r {
                Ok(e) => self.outcome() == Ok::<TileEffectView, Seq<char>>(e@),
                Err(msg) => self.outcome() == Err::<TileEffectView, Seq<char>>(msg@),
            },
    {
        let tile_effect_type = trim_str(self.tile_effect_type.as_str());
        if tile_effect_type.is_empty() {
            return Err("tile effect type must not be empty".to_owned());
        }
        if !finite_bits(self.modifier_bits) {
            return Err(concat3("tile effect '", tile_effect_type, "' modifier must be finite"));
        }
        let extra_data = match &self.extra_data {
            Some(extra_data) => {
                let t = trim_str(extra_data.as_str());
                if t.is_empty() {
                    None
                } else {
                    Some(t.to_owned())
                }
            },
            None => None,
        };
        Ok(
            TileEffect {
                tile_effect_type: tile_effect_type.to_owned(),
                modifier_bits: self.modifier_bits,
                extra_data,
            },
        )
    }
}

/// The effects that a level file's list stands for, or the first entry's
/// reason to be invalid.
pub open spec fn tile_effects_outcome(entries: Seq<JsonLevelTileEffect>) -> Result<
    Seq<TileEffectView>,
    Seq<char>,
>
    decreases entries.len(),
{
    if entries.len() == 0 {
        Ok(Seq::empty())
    } else {
        match tile_effects_outcome(entries.drop_last()) {
            Err(e) => Err(e),
            Ok(prefix) => match entries.last().outcome() {
                Err(e) => Err(e),
                Ok(effect) => Ok(prefix.push(effect)),
            },
        }
    }
}

/// Once a prefix of the list is invalid, the whole list is, for the same reason.
pub proof fn lemma_effects_error_persists(entries: Seq<JsonLevelTileEffect>, k: int)
    requires
        0 <= k <= entries.len(),
        tile_effects_outcome(entries.take(k)) is Err,
    ensures
        tile_effects_outcome(entries) == tile_effects_outcome(entries.take(k)),
    decreases entries.len() - k,
{
    if k == entries.len() {
        assert(entries.take(k) =~= entries);
    } else {
        assert(entries.take(k + 1).drop_last() =~= entries.take(k));
        lemma_effects_error_persists(entries, k + 1);
    }
}

impl TileEffects {
    /// Validates a level file's list of effects; the first invalid entry
    /// decides the error.
    pub fn from_json(effects: Vec<JsonLevelTileEffect>) -> (r: Result<Self, String>)
        ensures
            match r {
                Ok(t) => tile_effects_outcome(effects@) == Ok::<Seq<TileEffectView>, Seq<char>>(
                    t@,
                ),
                Err(msg) => tile_effects_outcome(effects@) == Err::<Seq<TileEffectView>, Seq<char>>(
                    msg@,
                ),
            },
    {
        let ghost entries = effects@;
        let mut converted: Vec<TileEffect> = Vec::new();
        assert(entries.take(0) =~= Seq::<JsonLevelTileEffect>::empty());
        assert(converted@.map_values(|e: TileEffect| e@) =~= Seq::<TileEffectView>::empty());
        for entry in it: effects
            invariant
                it.seq() == entries,
                tile_effects_outcome(entries.take(it.index() as int)) == Ok::<
                    Seq<TileEffectView>,
                    Seq<char>,
                >(converted@.map_values(|e: TileEffect| e@)),
        {
            let ghost i = it.index() as int;
            assert(entries.take(i + 1).drop_last() =~= entries.take(i));
            assert(entries.take(i + 1).last() == entries[i]);
            match entry.into_tile_effect() {
                Ok(effect) => {
                    converted.push(effect);
                    assert(converted@.map_values(|e: TileEffect| e@) =~= tile_effects_outcome(
                        entries.take(i),
                    )->Ok_0.push(effect@));
                },
                Err(msg) => {
                    proof {
                        lemma_effects_error_persists(entries, i + 1);
                    }
                    return Err(msg);
                },
            }
        }
        assert(entries.take(entries.len() as int) =~= entries);
        Ok(TileEffects { effects: converted })
    }
}

/// Validating a validated effect gives it back unchanged: its kind is
/// trimmed and not empty, its modifier finite, its extra data trimmed and not
/// blank.
pub proof fn law_effect_validation_idempotent(kind: Seq<char>, modifier_bits: u32, extra: Option<Seq<char>>)
    requires
        tile_effect_outcome(kind, modifier_bits, extra) is Ok,
    ensures
        ({
            let e = tile_effect_outcome(kind, modifier_bits, extra)->Ok_0;
            &&& e.tile_effect_type.len() > 0
            &&& is_finite_bits(e.modifier_bits)
            &&& tile_effect_outcome(e.tile_effect_type, e.modifier_bits, e.extra_data) == Ok::<
                TileEffectView,
                Seq<char>,
            >(e)
        }),
{
    law_trim_idempotent(kind);
    if let Some(x) = extra {
        law_trim_idempotent(x);
    }
}


/// Validation keeps the extra data of every kind of effect alike: an accepted
/// effect carries its entry's extra data trimmed where that is not blank, and
/// none where it is blank or absent; two entries that differ only in their
/// kind, both accepted, carry the same extra data.
pub proof fn law_extra_data_kept_for_every_kind(
    kind: Seq<char>,
    other_kind: Seq<char>,
    modifier_bits: u32,
    extra: Option<Seq<char>>,
)
    requires
        tile_effect_outcome(kind, modifier_bits, extra) is Ok,
    ensures
        ({
            let kept = tile_effect_outcome(kind, modifier_bits, extra)->Ok_0.extra_data;
            &&& extra is None ==> kept is None
            &&& extra is Some && trimmed(extra->0).len() > 0 ==> kept == Some(trimmed(extra->0))
            &&& extra is Some && trimmed(extra->0).len() == 0 ==> kept is None
            &&& tile_effect_outcome(other_kind, modifier_bits, extra) is Ok ==> tile_effect_outcome(
                other_kind,
                modifier_bits,
                extra,
            )->Ok_0.extra_data == kept
        }),
{
}

} // verus!
