//! Level definitions read from JSON files, and the registry of loaded levels.

use vstd::prelude::*;
use vstd::string::StringExecFns;

use crate::effects::{JsonLevelTileEffect, TileEffects, tile_effects_outcome, opt_view};
use crate::pastoral::{PastoralSprite, PastoralTileSprite, sprite_cell, sprite_named};
use crate::scene::{
    GridPos, SceneDefinition, SceneSprite, SceneSpriteView, SceneTile, SceneTileView, SceneView,
    is_rectangular,
};
use crate::text::{concat3, decimal, str_eq, usize_to_decimal};

verus! {

/// The directory that level files are read from.
pub const LEVELS_DIRECTORY: &'static str = "assets/levels";

/// A grid position as a level file writes it.
pub struct JsonGridPosition {
    pub x: i32,
    pub y: i32,
}

impl JsonGridPosition {
    /// The grid position.
    pub fn as_grid_pos(&self) -> (p: GridPos)
        ensures
            p == (GridPos { x: self.x, y: self.y }),
    {
        GridPos::new(self.x, self.y)
    }
}

/// A tile's sprite as a level file writes it: a tileset, and in it a sprite
/// name or a column and row.
pub struct JsonSceneSprite {
    pub tileset: String,
    pub name: Option<String>,
    pub col: Option<u32>,
    pub row: Option<u32>,
}

/// A tile as a level file writes it; `z_layer_bits` is the IEEE-754 bit
/// pattern of the `f32` depth.
pub struct JsonLevelTile {
    pub sprite: JsonSceneSprite,
    pub walkable: bool,
    pub effects: Vec<JsonLevelTileEffect>,
    pub z_layer_bits: u32,
    pub tag: Option<String>,
}

/// A level as a level file writes it.
pub struct JsonLevelDefinition {
    pub player_spawn: JsonGridPosition,
    pub tiles: Vec<Vec<JsonLevelTile>>,
}

/// Whether a tile that a level file leaves unmarked is walkable: it is.
pub fn default_walkable() -> (r: bool)
    ensures
        r,
{
    true
}

/// The sprite that a level file's sprite entry stands for, or why it is
/// invalid. Only the "pastoral" tileset exists; a name wins over a column and
/// row.
pub open spec fn sprite_outcome(
    tileset: Seq<char>,
    name: Option<Seq<char>>,
    col: Option<u32>,
    row: Option<u32>,
) -> Result<SceneSpriteView, Seq<char>> {
    if tileset == "pastoral"@ {
        match name {
            Some(n) => Ok(
                SceneSpriteView::Pastoral(sprite_cell(sprite_named(n)).0, sprite_cell(sprite_named(n)).1),
            ),
            None => match (col, row) {
                (Some(c), Some(r)) => Ok(SceneSpriteView::Pastoral(c, r)),
                _ => Err("pastoral sprites require either 'name' or both 'col' and 'row'"@),
            },
        }
    } else {
        Err("unsupported tileset '"@ + tileset + "'"@)
    }
}

impl JsonSceneSprite {
    /// The entry as plain values, converted.
    pub open spec fn outcome(&self) -> Result<SceneSpriteView, Seq<char>> {
        sprite_outcome(self.tileset@, opt_view(self.name), self.col, self.row)
    }

    /// The sprite the entry stands for.
    pub fn into_scene_sprite(self) -> (r: Result<SceneSprite, String>)
        ensures
            match r {
                Ok(s) => self.outcome() == Ok::<SceneSpriteView, Seq<char>>(s@),
                Err(msg) => self.outcome() == Err::<SceneSpriteView, Seq<char>>(msg@),
            },
    {
        if str_eq(self.tileset.as_str(), "pastoral") {
            if let Some(name) = &self.name {
                let sprite = match PastoralSprite::from_name(name.as_str()) {
                    Some(sprite) => sprite,
                    None => {
                        return Err(concat3("unknown pastoral sprite name '", name.as_str(), "'"));
                    },
                };
                return Ok(SceneSprite::Pastoral(sprite.tile()));
            }
            if let (Some(col), Some(row)) = (self.col, self.row) {
                return Ok(SceneSprite::Pastoral(PastoralTileSprite::from_grid(col, row)));
            }
            Err("pastoral sprites require either 'name' or both 'col' and 'row'".to_owned())
        } else {
            Err(concat3("unsupported tileset '", self.tileset.as_str(), "'"))
        }
    }
}

/// The tile that a level file's tile entry stands for, or why it is invalid:
/// the sprite is checked first, then the effects.
pub open spec fn tile_outcome(t: JsonLevelTile) -> Result<SceneTileView, Seq<char>> {
    match t.sprite.outcome() {
        Err(e) => Err(e),
        Ok(sprite) => match tile_effects_outcome(t.effects@) {
            Err(e) => Err(e),
            Ok(effects) => Ok(
                SceneTileView {
                    sprite,
                    walkable: t.walkable,
                    effects,
                    z_layer_bits: t.z_layer_bits,
                    tag: opt_view(t.tag),
                },
            ),
        },
    }
}

impl JsonLevelTile {
    /// The tile the entry stands for.
    pub fn into_scene_tile(self) -> (r: Result<SceneTile, String>)
        ensures
            match r {
                Ok(t) => tile_outcome(self) == Ok::<SceneTileView, Seq<char>>(t@),
                Err(msg) => tile_outcome(self) == Err::<SceneTileView, Seq<char>>(msg@),
            },
    {
        let ghost me = self;
        let sprite = match self.sprite.into_scene_sprite() {
            Ok(sprite) => sprite,
            Err(e) => return Err(e),
        };
        let effects = match TileEffects::from_json(self.effects) {
            Ok(effects) => effects,
            Err(e) => return Err(e),
        };
        Ok(
            SceneTile {
                sprite,
                walkable: self.walkable,
                effects,
                z_layer_bits: self.z_layer_bits,
                tag: self.tag,
            },
        )
    }
}

/// The tiles that a row of a level file stands for, or the first tile's
/// reason to be invalid.
pub open spec fn row_outcome(row: Seq<JsonLevelTile>) -> Result<Seq<SceneTileView>, Seq<char>>
    decreases row.len(),
{
    if row.len() == 0 {
        Ok(Seq::empty())
    } else {
        match row_outcome(row.drop_last()) {
            Err(e) => Err(e),
            Ok(prefix) => match tile_outcome(row.last()) {
                Err(e) => Err(e),
                Ok(t) => Ok(prefix.push(t)),
            },
        }
    }
}

/// The message for a row `row_index` of `width` tiles where `expected` were due.
pub open spec fn row_width_message(row_index: nat, width: nat, expected: nat) -> Seq<char> {
    "row "@ + decimal(row_index) + " has width "@ + decimal(width) + ", expected "@ + decimal(
        expected,
    )
}

/// The rows that the rows of a level file stand for, each of which must have
/// `width` tiles, or the first reason to be invalid, taking rows in order and
/// within a row first its width, then its tiles.
pub open spec fn rows_outcome(rows: Seq<Vec<JsonLevelTile>>, width: nat) -> Result<
    Seq<Seq<SceneTileView>>,
    Seq<char>,
>
    decreases rows.len(),
{
    if rows.len() == 0 {
        Ok(Seq::empty())
    } else {
        match rows_outcome(rows.drop_last(), width) {
            Err(e) => Err(e),
            Ok(prefix) => if rows.last()@.len() != width {
                Err(row_width_message((rows.len() - 1) as nat, rows.last()@.len(), width))
            } else {
                match row_outcome(rows.last()@) {
                    Err(e) => Err(e),
                    Ok(r) => Ok(prefix.push(r)),
                }
            },
        }
    }
}

/// The scene that a level file stands for, or why it is invalid: it needs a
/// first row, with a first tile, and every row as wide as the first.
pub open spec fn level_outcome(rows: Seq<Vec<JsonLevelTile>>, spawn: GridPos) -> Result<
    SceneView,
    Seq<char>,
> {
    if rows.len() == 0 {
        Err("tiles must contain at least one row"@)
    } else if rows[0]@.len() == 0 {
        Err("each level row must contain at least one tile"@)
    } else {
        match rows_outcome(rows, rows[0]@.len()) {
            Err(e) => Err(e),
            Ok(grid) => Ok(SceneView { grid, player_spawn: spawn }),
        }
    }
}

/// Once a prefix of a row is invalid, the whole row is, for the same reason.
pub proof fn lemma_row_error_persists(row: Seq<JsonLevelTile>, k: int)
    requires
        0 <= k <= row.len(),
        row_outcome(row.take(k)) is Err,
    ensures
        row_outcome(row) == row_outcome(row.take(k)),
    decreases row.len() - k,
{
    if k == row.len() {
        assert(row.take(k) =~= row);
    } else {
        assert(row.take(k + 1).drop_last() =~= row.take(k));
        lemma_row_error_persists(row, k + 1);
    }
}

/// Once some first rows are invalid, all the rows are, for the same reason.
pub proof fn lemma_rows_error_persists(rows: Seq<Vec<JsonLevelTile>>, width: nat, k: int)
    requires
        0 <= k <= rows.len(),
        rows_outcome(rows.take(k), width) is Err,
    ensures
        rows_outcome(rows, width) == rows_outcome(rows.take(k), width),
    decreases rows.len() - k,
{
    if k == rows.len() {
        assert(rows.take(k) =~= rows);
    } else {
        assert(rows.take(k + 1).drop_last() =~= rows.take(k));
        lemma_rows_error_persists(rows, width, k + 1);
    }
}

/// Converts a row of a level file.
fn convert_row(row: Vec<JsonLevelTile>) -> (r: Result<Vec<SceneTile>, String>)
    ensures
        match r {
            Ok(tiles) => row_outcome(row@) == Ok::<Seq<SceneTileView>, Seq<char>>(
                tiles@.map_values(|t: SceneTile| t@),
            ) && tiles@.len() == row@.len(),
            Err(msg) => row_outcome(row@) == Err::<Seq<SceneTileView>, Seq<char>>(msg@),
        },
{
    let ghost entries = row@;
    let mut parsed_row: Vec<SceneTile> = Vec::new();
    assert(entries.take(0) =~= Seq::<JsonLevelTile>::empty());
    assert(parsed_row@.map_values(|t: SceneTile| t@) =~= Seq::<SceneTileView>::empty());
    for tile in it: row
        invariant
            it.seq() == entries,
            parsed_row@.len() == it.index(),
            row_outcome(entries.take(it.index() as int)) == Ok::<Seq<SceneTileView>, Seq<char>>(
                parsed_row@.map_values(|t: SceneTile| t@),
            ),
    {
        let ghost i = it.index() as int;
        assert(entries.take(i + 1).drop_last() =~= entries.take(i));
        assert(entries.take(i + 1).last() == entries[i]);
        match tile.into_scene_tile() {
            Ok(t) => {
                let ghost before = parsed_row@;
                parsed_row.push(t);
                assert(parsed_row@.map_values(|t: SceneTile| t@) =~= before.map_values(
                    |t: SceneTile| t@,
                ).push(t@));
            },
            Err(e) => {
                proof {
                    lemma_row_error_persists(entries, i + 1);
                }
                return Err(e);
            },
        }
    }
    assert(entries.take(entries.len() as int) =~= entries);
    Ok(parsed_row)
}

/// The message for a row `row_index` of `width` tiles where `expected` were due.
fn row_width_error(row_index: usize, width: usize, expected: usize) -> (msg: String)
    ensures
        msg@ == row_width_message(row_index as nat, width as nat, expected as nat),
{
    let mut msg = String::new();
    msg.append("row ");
    msg.append(usize_to_decimal(row_index).as_str());
    msg.append(" has width ");
    msg.append(usize_to_decimal(width).as_str());
    msg.append(", expected ");
    msg.append(usize_to_decimal(expected).as_str());
    msg
}

impl JsonLevelDefinition {
    /// The scene the level file stands for.
    pub fn into_scene_definition(self) -> (r: Result<SceneDefinition, String>)
        ensures
            match r {
                Ok(scene) => scene.wf() && level_outcome(
                    self.tiles@,
                    self.player_spawn@,
                ) == Ok::<SceneView, Seq<char>>(scene@),
                Err(msg) => level_outcome(self.tiles@, self.player_spawn@) == Err::<
                    SceneView,
                    Seq<char>,
                >(msg@),
            },
    {
        let ghost rows = self.tiles@;
        let spawn = self.player_spawn.as_grid_pos();
        if self.tiles.len() == 0 {
            return Err("tiles must contain at least one row".to_owned());
        }
        let row_width = self.tiles[0].len();
        if row_width == 0 {
            return Err("each level row must contain at least one tile".to_owned());
        }
        let mut tiles: Vec<Vec<SceneTile>> = Vec::with_capacity(self.tiles.len());
        let mut row_index: usize = 0;
        let n = self.tiles.len();
        assert(rows.take(0) =~= Seq::<Vec<JsonLevelTile>>::empty());
        assert(tiles@.map_values(|row: Vec<SceneTile>| row@.map_values(|t: SceneTile| t@))
            =~= Seq::<Seq<SceneTileView>>::empty());
        for row in it: self.tiles
            invariant
                it.seq() == rows,
                row_index == it.index(),
                rows.len() == n,
                row_width > 0,
                rows.len() > 0,
                row_width == rows[0]@.len(),
                tiles@.len() == it.index(),
                forall|k: int| 0 <= k < tiles@.len() ==> (#[trigger] tiles@[k])@.len() == row_width,
                rows_outcome(rows.take(it.index() as int), row_width as nat) == Ok::<
                    Seq<Seq<SceneTileView>>,
                    Seq<char>,
                >(tiles@.map_values(|row: Vec<SceneTile>| row@.map_values(|t: SceneTile| t@))),
        {
            let ghost i = it.index() as int;
            assert(rows.take(i + 1).drop_last() =~= rows.take(i));
            assert(rows.take(i + 1).last() == rows[i]);
            if row.len() != row_width {
                let msg = row_width_error(row_index, row.len(), row_width);
                proof {
                    lemma_rows_error_persists(rows, row_width as nat, i + 1);
                }
                return Err(msg);
            }
            match convert_row(row) {
                Ok(parsed_row) => {
                    let ghost before = tiles@;
                    tiles.push(parsed_row);
                    assert(tiles@.map_values(|row: Vec<SceneTile>| row@.map_values(|t: SceneTile| t@))
                        =~= before.map_values(|row: Vec<SceneTile>| row@.map_values(|t: SceneTile| t@)).push(
                        parsed_row@.map_values(|t: SceneTile| t@),
                    ));
                },
                Err(e) => {
                    proof {
                        lemma_rows_error_persists(rows, row_width as nat, i + 1);
                    }
                    return Err(e);
                },
            }
            row_index = row_index + 1;
        }
        assert(rows.take(rows.len() as int) =~= rows);
        assert(is_rectangular(tiles@.map_values(|row: Vec<SceneTile>| row@)));
        Ok(SceneDefinition::from_rows(tiles, spawn))
    }
}

impl View for JsonGridPosition {
    type V = GridPos;

    open spec fn view(&self) -> GridPos {
        GridPos { x: self.x, y: self.y }
    }
}

// ====== The registry of loaded levels =======

/// When a level file was last modified, as its distance from the Unix epoch:
/// `secs` seconds and `nanos` nanoseconds after it, or before it where
/// `before_epoch` holds.
#[derive(Debug, Clone, Copy, PartialEq, Eq, Structural)]
pub struct ModifiedStamp {
    pub before_epoch: bool,
    pub secs: u64,
    pub nanos: u32,
}

/// A loaded level: its name, when its file was modified and its scene.
struct LevelEntry {
    name: String,
    modified_at: ModifiedStamp,
    definition: SceneDefinition,
}

/// The levels loaded from the level directory, by name.
pub struct LevelRegistry {
    entries: Vec<LevelEntry>,
}

/// Whether `a` comes before `b` in the order of strings: character by
/// character by code point, a proper prefix first. (UTF-8 keeps the order of
/// code points, so this is also the byte order that `String` sorts by.)
pub open spec fn seq_lt(a: Seq<char>, b: Seq<char>) -> bool
    decreases a.len(),
{
    if a.len() == 0 {
        b.len() > 0
    } else if b.len() == 0 {
        false
    } else if a[0] != b[0] {
        (a[0] as u32) < (b[0] as u32)
    } else {
        seq_lt(a.drop_first(), b.drop_first())
    }
}

/// No string comes before itself.
pub proof fn lemma_seq_lt_irreflexive(a: Seq<char>)
    ensures
        !seq_lt(a, a),
    decreases a.len(),
{
    if a.len() > 0 {
        lemma_seq_lt_irreflexive(a.drop_first());
    }
}

/// The order of strings is transitive.
pub proof fn lemma_seq_lt_transitive(a: Seq<char>, b: Seq<char>, c: Seq<char>)
    requires
        seq_lt(a, b),
        seq_lt(b, c),
    ensures
        seq_lt(a, c),
    decreases a.len(),
{
    if a.len() > 0 && b.len() > 0 && c.len() > 0 && a[0] == b[0] && b[0] == c[0] {
        lemma_seq_lt_transitive(a.drop_first(), b.drop_first(), c.drop_first());
    }
}

/// Whether `a` comes before `b` in the order of strings.
pub fn str_lt(a: &str, b: &str) -> (r: bool)
    ensures
        r == seq_lt(a@, b@),
{
    let la = a.unicode_len();
    let lb = b.unicode_len();
    let mut i: usize = 0;
    assert(a@.skip(0) =~= a@);
    assert(b@.skip(0) =~= b@);
    while i < la && i < lb
        invariant
            la == a@.len(),
            lb == b@.len(),
            i <= la,
            i <= lb,
            seq_lt(a@, b@) == seq_lt(a@.skip(i as int), b@.skip(i as int)),
        decreases la - i,
    {
        let ca = a.get_char(i);
        let cb = b.get_char(i);
        assert(a@.skip(i as int)[0] == ca);
        assert(b@.skip(i as int)[0] == cb);
        if ca != cb {
            return (ca as u32) < (cb as u32);
        }
        assert(a@.skip(i as int).drop_first() =~= a@.skip(i as int + 1));
        assert(b@.skip(i as int).drop_first() =~= b@.skip(i as int + 1));
        i = i + 1;
    }
    i == la && i < lb
}

/// The entry of `entries` named `name` (meaningful where one is).
spec fn entry_index(entries: Seq<LevelEntry>, name: Seq<char>) -> int {
    choose|i: int| 0 <= i < entries.len() && entries[i].name@ == name
}

/// Whether no two entries have the same name.
spec fn names_unique(entries: Seq<LevelEntry>) -> bool {
    forall|i: int, j: int|
        0 <= i < entries.len() && 0 <= j < entries.len() && #[trigger] entries[i].name@
            == #[trigger] entries[j].name@ ==> i == j
}

/// What the levels of `entries` are: by name, when the file was modified and
/// the scene.
spec fn entries_levels(entries: Seq<LevelEntry>) -> Map<
    Seq<char>,
    (ModifiedStamp, SceneView),
> {
    Map::new(
        |k: Seq<char>| exists|i: int| 0 <= i < entries.len() && #[trigger] entries[i].name@ == k,
        |k: Seq<char>|
            (
                entries[entry_index(entries, k)].modified_at,
                entries[entry_index(entries, k)].definition@,
            ),
    )
}

/// Whether a level file named `name`, modified at `stamp`, has to be read:
/// the level is not loaded, or was loaded from a file modified at another time.
pub open spec fn reload_needed(
    levels: Map<Seq<char>, (ModifiedStamp, SceneView)>,
    name: Seq<char>,
    stamp: ModifiedStamp,
) -> bool {
    !(levels.dom().contains(name) && levels[name].0 == stamp)
}

impl LevelRegistry {
    /// The loaded levels: by name, when their file was modified and their scene.
    pub closed spec fn levels(&self) -> Map<Seq<char>, (ModifiedStamp, SceneView)> {
        entries_levels(self.entries@)
    }

    /// The registry's invariant: names are unique and every scene is well formed.
    pub closed spec fn wf(&self) -> bool {
        &&& names_unique(self.entries@)
        &&& forall|i: int| 0 <= i < self.entries@.len() ==> (#[trigger] self.entries@[i]).definition.wf()
    }

    /// A registry without levels.
    pub fn new() -> (r: Self)
        ensures
            r.wf(),
            r.levels().dom().is_empty(),
    {
        let r = LevelRegistry { entries: Vec::new() };
        assert(r.levels().dom() =~= Set::empty());
        r
    }

    /// The slot of the level named `name`.
    fn find(&self, name: &str) -> (r: Option<usize>)
        requires
            self.wf(),
        ensures
            r matches Some(i) ==> i < self.entries@.len() && self.entries@[i as int].name@ == name@
                && entry_index(self.entries@, name@) == i,
            r is None ==> !self.levels().dom().contains(name@),
    {
        let mut i: usize = 0;
        while i < self.entries.len()
            invariant
                self.wf(),
                i <= self.entries@.len(),
                forall|j: int| 0 <= j < i ==> #[trigger] self.entries@[j].name@ != name@,
            decreases self.entries@.len() - i,
        {
            if str_eq(self.entries[i].name.as_str(), name) {
                let ghost k = entry_index(self.entries@, name@);
                assert(0 <= k < self.entries@.len() && self.entries@[k].name@ == name@);
                return Some(i);
            }
            i = i + 1;
        }
        None
    }

    /// The scene of the level named `name`, if it is loaded.
    pub fn get(&self, name: &str) -> (r: Option<&SceneDefinition>)
        requires
            self.wf(),
        ensures
            r matches Some(d) ==> self.levels().dom().contains(name@) && d@ == self.levels()[name@].1
                && d.wf(),
            r is None ==> !self.levels().dom().contains(name@),
    {
        match self.find(name) {
            Some(i) => Some(&self.entries[i].definition),
            None => None,
        }
    }

    /// The first name of a loaded level in the order of strings, if any.
    pub fn first_level_name(&self) -> (r: Option<&str>)
        requires
            self.wf(),
        ensures
            r matches Some(n) ==> self.levels().dom().contains(n@) && forall|k: Seq<char>|
                #[trigger] self.levels().dom().contains(k) ==> !seq_lt(k, n@),
            r is None ==> self.levels().dom().is_empty(),
    {
        if self.entries.len() == 0 {
            assert(self.levels().dom() =~= Set::empty());
            return None;
        }
        let mut best: usize = 0;
        let mut i: usize = 1;
        proof {
            lemma_seq_lt_irreflexive(self.entries@[0].name@);
        }
        while i < self.entries.len()
            invariant
                1 <= i <= self.entries@.len(),
                best < i,
                forall|j: int| 0 <= j < i ==> !seq_lt(
                    #[trigger] self.entries@[j].name@,
                    self.entries@[best as int].name@,
                ),
            decreases self.entries@.len() - i,
        {
            if str_lt(self.entries[i].name.as_str(), self.entries[best].name.as_str()) {
                proof {
                    let nb = self.entries@[best as int].name@;
                    let ni = self.entries@[i as int].name@;
                    lemma_seq_lt_irreflexive(ni);
                    assert forall|j: int| 0 <= j < i + 1 implies !seq_lt(
                        #[trigger] self.entries@[j].name@,
                        ni,
                    ) by {
                        if j < i && seq_lt(self.entries@[j].name@, ni) {
                            lemma_seq_lt_transitive(self.entries@[j].name@, ni, nb);
                        }
                    }
                }
                best = i;
            }
            i = i + 1;
        }
        let n = self.entries[best].name.as_str();
        assert(self.entries@[best as int].name@ == n@);
        assert forall|k: Seq<char>| #[trigger] self.levels().dom().contains(k) implies !seq_lt(k, n@) by {
            let j = choose|j: int| 0 <= j < self.entries@.len() && #[trigger] self.entries@[j].name@ == k;
            assert(!seq_lt(self.entries@[j].name@, n@));
        }
        Some(n)
    }

    /// Whether the level file named `name`, modified at `stamp`, has to be
    /// read: it is not loaded, or was loaded from a file modified at another time.
    pub fn should_reload(&self, name: &str, stamp: ModifiedStamp) -> (r: bool)
        requires
            self.wf(),
        ensures
            r == reload_needed(self.levels(), name@, stamp),
    {
        match self.find(name) {
            Some(i) => {
                let known = self.entries[i].modified_at;
                !(known == stamp)
            },
            None => true,
        }
    }

    /// Records the level `name`, read from a file modified at `stamp`, as
    /// `definition`, in place of what was known of it.
    pub fn store_level(&mut self, name: String, stamp: ModifiedStamp, definition: SceneDefinition)
        requires
            old(self).wf(),
            definition.wf(),
        ensures
            final(self).wf(),
            final(self).levels() == old(self).levels().insert(name@, (stamp, definition@)),
    {
        let ghost old_entries = self.entries@;
        let ghost dv = definition@;
        match self.find(name.as_str()) {
            Some(i) => {
                self.entries.set(i, LevelEntry { name, modified_at: stamp, definition });
                proof {
                    let e = self.entries@;
                    assert forall|a: int, b: int|
                        0 <= a < e.len() && 0 <= b < e.len() && #[trigger] e[a].name@
                            == #[trigger] e[b].name@ implies a == b by {
                        assert(old_entries[a].name@ == e[a].name@);
                        assert(old_entries[b].name@ == e[b].name@);
                    }
                    assert forall|k: Seq<char>| #[trigger] self.levels().dom().contains(k)
                        == old(self).levels().insert(name@, (stamp, dv)).dom().contains(k) by {
                        if exists|j: int| 0 <= j < e.len() && #[trigger] e[j].name@ == k {
                            let j = choose|j: int| 0 <= j < e.len() && #[trigger] e[j].name@ == k;
                            assert(old_entries[j].name@ == k);
                        }
                        if exists|j: int| 0 <= j < old_entries.len() && #[trigger] old_entries[j].name@ == k {
                            let j = choose|j: int| 0 <= j < old_entries.len() && #[trigger] old_entries[j].name@ == k;
                            assert(e[j].name@ == k);
                        }
                    }
                    assert forall|k: Seq<char>| #[trigger] self.levels().dom().contains(k) implies self.levels()[k]
                        == old(self).levels().insert(name@, (stamp, dv))[k] by {
                        let j = entry_index(e, k);
                        let j0 = entry_index(old_entries, k);
                        assert(e[j].name@ == k);
                        if k != name@ {
                            assert(old_entries[j].name@ == k);
                            assert(j == j0);
                        } else {
                            assert(j == i);
                        }
                    }
                    assert(self.levels() =~= old(self).levels().insert(name@, (stamp, dv)));
                }
            },
            None => {
                self.entries.push(LevelEntry { name, modified_at: stamp, definition });
                proof {
                    let e = self.entries@;
                    let n = old_entries.len() as int;
                    assert forall|a: int, b: int|
                        0 <= a < e.len() && 0 <= b < e.len() && #[trigger] e[a].name@
                            == #[trigger] e[b].name@ implies a == b by {
                        if a < n && b == n {
                            assert(old_entries[a].name@ == e[a].name@);
                        }
                        if b < n && a == n {
                            assert(old_entries[b].name@ == e[b].name@);
                        }
                        if a < n && b < n {
                            assert(old_entries[a].name@ == e[a].name@);
                            assert(old_entries[b].name@ == e[b].name@);
                        }
                    }
                    assert forall|k: Seq<char>| #[trigger] self.levels().dom().contains(k)
                        == old(self).levels().insert(name@, (stamp, dv)).dom().contains(k) by {
                        if exists|j: int| 0 <= j < e.len() && #[trigger] e[j].name@ == k {
                            let j = choose|j: int| 0 <= j < e.len() && #[trigger] e[j].name@ == k;
                            if j < n {
                                assert(old_entries[j].name@ == k);
                            }
                        }
                        if exists|j: int| 0 <= j < old_entries.len() && #[trigger] old_entries[j].name@ == k {
                            let j = choose|j: int| 0 <= j < old_entries.len() && #[trigger] old_entries[j].name@ == k;
                            assert(e[j].name@ == k);
                        }
                        if k == name@ {
                            assert(e[n].name@ == k);
                        }
                    }
                    assert forall|k: Seq<char>| #[trigger] self.levels().dom().contains(k) implies self.levels()[k]
                        == old(self).levels().insert(name@, (stamp, dv))[k] by {
                        let j = entry_index(e, k);
                        let j0 = entry_index(old_entries, k);
                        assert(e[j].name@ == k);
                        if k != name@ {
                            assert(j != n);
                            assert(old_entries[j].name@ == k);
                            assert(j == j0);
                        } else {
                            assert(e[n].name@ == k);
                            assert(j == n);
                        }
                    }
                    assert(self.levels() =~= old(self).levels().insert(name@, (stamp, dv)));
                }
            },
        }
    }
}

/// The names that a list of strings holds.
pub open spec fn names_of(names: Seq<String>) -> Set<Seq<char>> {
    Set::new(|k: Seq<char>| exists|j: int| 0 <= j < names.len() && #[trigger] names[j]@ == k)
}

/// Whether `names` holds `name`.
pub fn holds_name(names: &Vec<String>, name: &str) -> (r: bool)
    ensures
        r == names_of(names@).contains(name@),
{
    let mut j: usize = 0;
    while j < names.len()
        invariant
            j <= names@.len(),
            forall|k: int| 0 <= k < j ==> #[trigger] names@[k]@ != name@,
        decreases names@.len() - j,
    {
        if str_eq(names[j].as_str(), name) {
            assert(names@[j as int]@ == name@);
            return true;
        }
        j = j + 1;
    }
    false
}

/// Dropping the entry at `i` drops its level and keeps the others.
proof fn lemma_remove_entry(e: Seq<LevelEntry>, i: int)
    requires
        names_unique(e),
        0 <= i < e.len(),
    ensures
        names_unique(e.remove(i)),
        entries_levels(e.remove(i)) == entries_levels(e).remove(e[i].name@),
        entries_levels(e).dom().contains(e[i].name@),
{
    let r = e.remove(i);
    let name = e[i].name@;
    assert(e[i].name@ == name);
    assert forall|a: int, b: int|
        0 <= a < r.len() && 0 <= b < r.len() && #[trigger] r[a].name@ == #[trigger] r[b].name@ implies a == b by {
        let a0 = if a < i { a } else { a + 1 };
        let b0 = if b < i { b } else { b + 1 };
        assert(r[a] == e[a0]);
        assert(r[b] == e[b0]);
    }
    assert forall|k: Seq<char>| #[trigger] entries_levels(r).dom().contains(k)
        == entries_levels(e).remove(name).dom().contains(k) by {
        if exists|j: int| 0 <= j < r.len() && #[trigger] r[j].name@ == k {
            let j = choose|j: int| 0 <= j < r.len() && #[trigger] r[j].name@ == k;
            let j0 = if j < i { j } else { j + 1 };
            assert(r[j] == e[j0]);
            assert(e[j0].name@ == k);
        }
        if k != name && exists|j: int| 0 <= j < e.len() && #[trigger] e[j].name@ == k {
            let j = choose|j: int| 0 <= j < e.len() && #[trigger] e[j].name@ == k;
            assert(j != i);
            let j1 = if j < i { j } else { j - 1 };
            assert(r[j1] == e[j]);
            assert(r[j1].name@ == k);
        }
    }
    assert forall|k: Seq<char>| #[trigger] entries_levels(r).dom().contains(k) implies entries_levels(r)[k]
        == entries_levels(e).remove(name)[k] by {
        let j = entry_index(r, k);
        let j0 = if j < i { j } else { j + 1 };
        assert(r[j] == e[j0]);
        let je = entry_index(e, k);
        assert(e[je].name@ == k);
        assert(je == j0);
    }
    assert(entries_levels(r) =~= entries_levels(e).remove(name));
}

impl LevelRegistry {
    /// Forgets every level whose name `seen` does not hold, and returns the
    /// names of the levels forgotten, each once.
    pub fn remove_unseen(&mut self, seen: &Vec<String>) -> (removed: Vec<String>)
        requires
            old(self).wf(),
        ensures
            final(self).wf(),
            final(self).levels() == old(self).levels().restrict(names_of(seen@)),
            names_of(removed@) == old(self).levels().dom().difference(names_of(seen@)),
            removed@.map_values(|n: String| n@).no_duplicates(),
    {
        let ghost old_levels = self.levels();
        let mut removed: Vec<String> = Vec::new();
        let mut i: usize = 0;
        while i < self.entries.len()
            invariant
                self.wf(),
                i <= self.entries@.len(),
                forall|k: Seq<char>| #[trigger] self.levels().dom().contains(k) ==> old_levels.dom().contains(k)
                    && self.levels()[k] == old_levels[k],
                forall|k: Seq<char>| #[trigger] old_levels.dom().contains(k) && names_of(seen@).contains(k)
                    ==> self.levels().dom().contains(k),
                forall|j: int| 0 <= j < i ==> names_of(seen@).contains(#[trigger] self.entries@[j].name@),
                forall|k: Seq<char>| #[trigger] old_levels.dom().contains(k) && !self.levels().dom().contains(k)
                    ==> names_of(removed@).contains(k),
                forall|b: int| 0 <= b < removed@.len() ==> old_levels.dom().contains(#[trigger] removed@[b]@)
                    && !names_of(seen@).contains(removed@[b]@) && !self.levels().dom().contains(removed@[b]@),
                removed@.map_values(|n: String| n@).no_duplicates(),
            decreases self.entries@.len() - i,
        {
            if holds_name(seen, self.entries[i].name.as_str()) {
                i = i + 1;
            } else {
                let ghost before = self.entries@;
                let ghost before_levels = self.levels();
                let ghost before_removed = removed@;
                proof {
                    lemma_remove_entry(before, i as int);
                }
                let entry = self.entries.remove(i);
                let ghost name = entry.name@;
                assert(self.levels() == before_levels.remove(name));
                removed.push(entry.name);
                proof {
                    assert forall|j: int| 0 <= j < self.entries@.len() implies (#[trigger] self.entries@[j]).definition.wf() by {
                        let j0 = if j < i { j } else { j + 1 };
                        assert(self.entries@[j] == before[j0]);
                    }
                    assert forall|j: int| 0 <= j < i implies names_of(seen@).contains(#[trigger] self.entries@[j].name@) by {
                        assert(self.entries@[j] == before[j]);
                    }
                    assert forall|k: Seq<char>| #[trigger] old_levels.dom().contains(k) && !self.levels().dom().contains(k)
                        implies names_of(removed@).contains(k) by {
                        if k == name {
                            assert(removed@[removed@.len() - 1]@ == k);
                        } else {
                            assert(names_of(before_removed).contains(k));
                            let b = choose|b: int| 0 <= b < before_removed.len() && #[trigger] before_removed[b]@ == k;
                            assert(removed@[b]@ == k);
                        }
                    }
                    assert(removed@.map_values(|n: String| n@) =~= before_removed.map_values(|n: String| n@).push(name));
                    assert forall|b: int| 0 <= b < before_removed.len() implies #[trigger] before_removed[b]@ != name by {
                        assert(!before_levels.dom().contains(before_removed[b]@));
                    }
                }
            }
        }
        proof {
            assert forall|k: Seq<char>| #[trigger] self.levels().dom().contains(k) implies names_of(seen@).contains(k) by {
                let j = choose|j: int| 0 <= j < self.entries@.len() && #[trigger] self.entries@[j].name@ == k;
                assert(names_of(seen@).contains(self.entries@[j].name@));
            }
            assert(self.levels() =~= old_levels.restrict(names_of(seen@)));
            assert(names_of(removed@) =~= old_levels.dom().difference(names_of(seen@)));
        }
        removed
    }
}

/// What a scan of the level directory did: the levels read anew, the levels
/// forgotten because their file is gone, and the errors met.
pub struct LevelReloadReport {
    pub changed: Vec<String>,
    pub removed: Vec<String>,
    pub errors: Vec<String>,
}

impl Default for LevelReloadReport {
    fn default() -> (r: Self)
        ensures
            r.changed@.len() == 0,
            r.removed@.len() == 0,
            r.errors@.len() == 0,
    {
        LevelReloadReport { changed: Vec::new(), removed: Vec::new(), errors: Vec::new() }
    }
}

/// Strings as character sequences.
pub open spec fn texts(v: Seq<String>) -> Seq<Seq<char>> {
    v.map_values(|s: String| s@)
}

/// The level that a file of the level directory holds: a file named
/// `<name>.json`, `name` not empty, holds the level `name`, and other files
/// hold none. This is what the extension and the stem of the file's path
/// are: the text after the file name's last dot, where that dot is not its
/// first character, and the text before it.
pub open spec fn level_file_level(file_name: Seq<char>) -> Option<Seq<char>> {
    if file_name.len() > 5 && file_name.subrange(file_name.len() - 5, file_name.len() as int)
        == ".json"@ {
        Some(file_name.subrange(0, file_name.len() - 5))
    } else {
        None
    }
}

/// The name of the level that the level directory's file `file_name` holds,
/// if it holds one.
pub fn level_name_of(file_name: &str) -> (r: Option<String>)
    ensures
        r matches Some(n) ==> level_file_level(file_name@) == Some(n@),
        r is None ==> level_file_level(file_name@) is None,
{
    proof {
        reveal_strlit(".json");
    }
    let n = file_name.unicode_len();
    if n <= 5 {
        return None;
    }
    let is_json = file_name.get_char(n - 5) == '.' && file_name.get_char(n - 4) == 'j'
        && file_name.get_char(n - 3) == 's' && file_name.get_char(n - 2) == 'o'
        && file_name.get_char(n - 1) == 'n';
    let ghost tail = file_name@.subrange(n - 5, n as int);
    if !is_json {
        assert(tail != ".json"@) by {
            if tail == ".json"@ {
                assert(tail[0] == file_name@[n - 5]);
                assert(tail[1] == file_name@[n - 4]);
                assert(tail[2] == file_name@[n - 3]);
                assert(tail[3] == file_name@[n - 2]);
                assert(tail[4] == file_name@[n - 1]);
            }
        }
        return None;
    }
    assert(tail =~= ".json"@);
    Some(file_name.substring_char(0, n - 5).to_owned())
}

/// What reading a level file gave, as plain values: the scene or the error.
pub open spec fn loaded_view(loaded: Result<SceneDefinition, String>) -> Result<SceneView, Seq<char>> {
    match loaded {
        Ok(d) => Ok(d@),
        Err(e) => Err(e@),
    }
}

/// A scan of the level directory in progress: the caller reads the directory
/// and the files, this decides what becomes of the registry and the report.
/// It records the files it has met, as `LevelFile`s, and the levels the
/// registry held when it began; the registry and the report then follow the
/// scan model (`scan_files`, `scan_changed`, `scan_levels`, `scan_removed`).
pub struct LevelScan {
    changed: Vec<String>,
    errors: Vec<String>,
    seen: Vec<String>,
    start: Ghost<Map<Seq<char>, (ModifiedStamp, SceneView)>>,
    files: Ghost<Seq<LevelFile>>,
}

/// `files` with `file` met last.
proof fn lemma_scan_one_more(
    levels: Map<Seq<char>, (ModifiedStamp, SceneView)>,
    files: Seq<LevelFile>,
    file: LevelFile,
)
    ensures
        scan_files(levels, files.push(file)) == scan_file(scan_files(levels, files), file),
        scan_changed(levels, files.push(file)) == if file_reloaded(scan_files(levels, files), file) {
            scan_changed(levels, files).push(file.0)
        } else {
            scan_changed(levels, files)
        },
        file_names(files.push(file)) == file_names(files).insert(file.0),
{
    let g = files.push(file);
    assert(g.drop_last() =~= files);
    assert(g.last() == file);
    assert forall|k: Seq<char>| #[trigger] file_names(g).contains(k) == file_names(files).insert(file.0).contains(k) by {
        if exists|i: int| 0 <= i < g.len() && #[trigger] g[i].0 == k {
            let i = choose|i: int| 0 <= i < g.len() && #[trigger] g[i].0 == k;
            if i < files.len() {
                assert(files[i] == g[i]);
            }
        }
        if exists|i: int| 0 <= i < files.len() && #[trigger] files[i].0 == k {
            let i = choose|i: int| 0 <= i < files.len() && #[trigger] files[i].0 == k;
            assert(g[i] == files[i]);
        }
        if k == file.0 {
            assert(g[files.len() as int] == file);
        }
    }
    assert(file_names(g) =~= file_names(files).insert(file.0));
}

impl LevelScan {
    /// The names of the levels read anew so far, in order.
    pub closed spec fn changed(&self) -> Seq<Seq<char>> {
        texts(self.changed@)
    }

    /// The errors met so far, in order.
    pub closed spec fn errors(&self) -> Seq<Seq<char>> {
        texts(self.errors@)
    }

    /// The names of the level files found so far.
    pub closed spec fn seen(&self) -> Set<Seq<char>> {
        names_of(self.seen@)
    }

    /// The levels the registry held when the scan began.
    pub closed spec fn start(&self) -> Map<Seq<char>, (ModifiedStamp, SceneView)> {
        self.start@
    }

    /// The level files met so far, in order.
    pub closed spec fn files(&self) -> Seq<LevelFile> {
        self.files@
    }

    /// Whether the scan's record agrees with `registry`: the registry holds
    /// what meeting the scan's files made of the levels it began with, and the
    /// scan's changed levels and found names are those of the scan model.
    pub open spec fn tracks(&self, registry: &LevelRegistry) -> bool {
        &&& registry.wf()
        &&& registry.levels() == scan_files(self.start(), self.files())
        &&& self.changed() == scan_changed(self.start(), self.files())
        &&& self.seen() == file_names(self.files())
    }

    /// A scan of `registry` that has met no file yet.
    pub fn new(registry: &LevelRegistry) -> (scan: Self)
        requires
            registry.wf(),
        ensures
            scan.tracks(registry),
            scan.start() == registry.levels(),
            scan.files() == Seq::<LevelFile>::empty(),
            scan.changed().len() == 0,
            scan.errors().len() == 0,
            scan.seen().is_empty(),
    {
        let scan = LevelScan {
            changed: Vec::new(),
            errors: Vec::new(),
            seen: Vec::new(),
            start: Ghost(registry.levels()),
            files: Ghost(Seq::empty()),
        };
        assert(scan.seen() =~= Set::empty());
        assert(scan.changed() =~= Seq::<Seq<char>>::empty());
        assert(file_names(Seq::<LevelFile>::empty()) =~= Set::empty());
        scan
    }

    /// Records the level file of `level_name`, whose modification time could
    /// not be read: the report lists `message` as an error and the registry
    /// keeps what it knew of the level.
    pub fn time_unreadable(&mut self, registry: &LevelRegistry, level_name: String, message: String)
        requires
            old(self).tracks(registry),
        ensures
            final(self).tracks(registry),
            final(self).start() == old(self).start(),
            final(self).files() == old(self).files().push(
                (level_name@, None::<ModifiedStamp>, Err::<SceneView, Seq<char>>(message@)),
            ),
            final(self).errors() == old(self).errors().push(message@),
            final(self).changed() == old(self).changed(),
            final(self).seen() == old(self).seen().insert(level_name@),
    {
        let ghost file: LevelFile = (level_name@, None::<ModifiedStamp>, Err::<SceneView, Seq<char>>(message@));
        proof {
            lemma_scan_one_more(self.start@, self.files@, file);
        }
        self.seen.push(level_name);
        self.errors.push(message);
        self.files = Ghost(self.files@.push(file));
        proof {
            lemma_names_of_push(old(self).seen@, self.seen@);
        }
        assert(self.errors() =~= old(self).errors().push(message@));
    }

    /// Whether the level file of `level_name`, modified at `stamp`, has to be
    /// read: the registry does not hold the level, or holds it from a file
    /// modified at another time. Where it need not be read, the scan records
    /// the file as giving the scene the registry holds, and is done with it;
    /// otherwise `level_loaded` records it once it has been read.
    pub fn needs_read(&mut self, registry: &LevelRegistry, level_name: &str, stamp: ModifiedStamp) -> (r: bool)
        requires
            old(self).tracks(registry),
        ensures
            r == reload_needed(registry.levels(), level_name@, stamp),
            final(self).tracks(registry),
            final(self).start() == old(self).start(),
            final(self).errors() == old(self).errors(),
            final(self).changed() == old(self).changed(),
            r ==> final(self).files() == old(self).files() && final(self).seen() == old(self).seen(),
            !r ==> final(self).files() == old(self).files().push(
                (level_name@, Some(stamp), Ok::<SceneView, Seq<char>>(registry.levels()[level_name@].1)),
            ) && final(self).seen() == old(self).seen().insert(level_name@),
    {
        let r = registry.should_reload(level_name, stamp);
        if !r {
            let ghost file: LevelFile = (
                level_name@,
                Some(stamp),
                Ok::<SceneView, Seq<char>>(registry.levels()[level_name@].1),
            );
            proof {
                lemma_scan_one_more(self.start@, self.files@, file);
            }
            self.seen.push(level_name.to_owned());
            self.files = Ghost(self.files@.push(file));
            proof {
                lemma_names_of_push(old(self).seen@, self.seen@);
            }
        }
        r
    }

    /// Records what reading the level file of `level_name`, modified at
    /// `stamp`, gave: a scene, which the registry then holds and the report
    /// lists as changed, or an error, which the report lists.
    pub fn level_loaded(
        &mut self,
        registry: &mut LevelRegistry,
        level_name: String,
        stamp: ModifiedStamp,
        loaded: Result<SceneDefinition, String>,
    )
        requires
            old(self).tracks(old(registry)),
            reload_needed(old(registry).levels(), level_name@, stamp),
            loaded matches Ok(d) ==> d.wf(),
        ensures
            final(self).tracks(final(registry)),
            final(self).start() == old(self).start(),
            final(self).files() == old(self).files().push((level_name@, Some(stamp), loaded_view(loaded))),
            final(self).seen() == old(self).seen().insert(level_name@),
            match loaded {
                Ok(d) => {
                    &&& final(registry).levels() == old(registry).levels().insert(
                        level_name@,
                        (stamp, d@),
                    )
                    &&& final(self).changed() == old(self).changed().push(level_name@)
                    &&& final(self).errors() == old(self).errors()
                },
                Err(e) => {
                    &&& final(registry).levels() == old(registry).levels()
                    &&& final(self).changed() == old(self).changed()
                    &&& final(self).errors() == old(self).errors().push(e@)
                },
            },
    {
        let ghost file: LevelFile = (level_name@, Some(stamp), loaded_view(loaded));
        proof {
            lemma_scan_one_more(self.start@, self.files@, file);
        }
        self.seen.push(level_name.clone());
        self.files = Ghost(self.files@.push(file));
        proof {
            lemma_names_of_push(old(self).seen@, self.seen@);
        }
        match loaded {
            Ok(definition) => {
                registry.store_level(level_name.clone(), stamp, definition);
                self.changed.push(level_name);
                assert(self.changed() =~= old(self).changed().push(file.0));
            },
            Err(error) => {
                self.errors.push(error);
                assert(self.errors() =~= old(self).errors().push(error@));
            },
        }
    }

    /// Ends the scan: the registry forgets the levels whose file was not
    /// found, and the report lists them as removed. What the registry then
    /// holds and the report lists is what the scan model gives of the files
    /// the scan met.
    pub fn finish(self, registry: &mut LevelRegistry) -> (report: LevelReloadReport)
        requires
            self.tracks(old(registry)),
        ensures
            final(registry).wf(),
            final(registry).levels() == old(registry).levels().restrict(self.seen()),
            final(registry).levels() == scan_levels(self.start(), self.files()),
            texts(report.changed@) == self.changed(),
            texts(report.changed@) == scan_changed(self.start(), self.files()),
            texts(report.errors@) == self.errors(),
            names_of(report.removed@) == old(registry).levels().dom().difference(self.seen()),
            names_of(report.removed@) == scan_removed(self.start(), self.files()),
            texts(report.removed@).no_duplicates(),
    {
        let removed = registry.remove_unseen(&self.seen);
        LevelReloadReport { changed: self.changed, removed, errors: self.errors }
    }

    /// Ends a scan that could not read the directory: the registry stays as it
    /// is and the report lists `message` as its last error.
    pub fn abort(self, message: String) -> (report: LevelReloadReport)
        ensures
            texts(report.changed@) == self.changed(),
            texts(report.errors@) == self.errors().push(message@),
            report.removed@.len() == 0,
    {
        let mut errors = self.errors;
        errors.push(message);
        let report = LevelReloadReport { changed: self.changed, removed: Vec::new(), errors };
        assert(texts(report.errors@) =~= self.errors().push(message@));
        report
    }
}

/// A list of names with one more name at its end holds that name besides.
proof fn lemma_names_of_push(before: Seq<String>, after: Seq<String>)
    requires
        after.len() == before.len() + 1,
        forall|j: int| 0 <= j < before.len() ==> #[trigger] after[j] == before[j],
    ensures
        names_of(after) == names_of(before).insert(after[before.len() as int]@),
{
    let last = after[before.len() as int]@;
    assert forall|k: Seq<char>| #[trigger] names_of(after).contains(k) == names_of(before).insert(last).contains(k) by {
        if exists|j: int| 0 <= j < before.len() && #[trigger] before[j]@ == k {
            let j = choose|j: int| 0 <= j < before.len() && #[trigger] before[j]@ == k;
            assert(after[j]@ == k);
        }
        if exists|j: int| 0 <= j < after.len() && #[trigger] after[j]@ == k {
            let j = choose|j: int| 0 <= j < after.len() && #[trigger] after[j]@ == k;
            if j < before.len() {
                assert(before[j]@ == k);
            }
        }
    }
    assert(names_of(after) =~= names_of(before).insert(last));
}

// ====== Laws of level loading and of the registry =======

/// The rows that `rows_outcome` accepts are as many as were given, and each
/// is `width` tiles wide.
pub proof fn lemma_rows_shape(rows: Seq<Vec<JsonLevelTile>>, width: nat)
    requires
        rows_outcome(rows, width) is Ok,
    ensures
        rows_outcome(rows, width)->Ok_0.len() == rows.len(),
        forall|i: int| 0 <= i < rows.len() ==> #[trigger] rows_outcome(rows, width)->Ok_0[i].len() == width,
    decreases rows.len(),
{
    if rows.len() > 0 {
        lemma_rows_shape(rows.drop_last(), width);
        lemma_row_shape(rows.last()@);
    }
}

/// The tiles that `row_outcome` accepts are as many as were given.
pub proof fn lemma_row_shape(row: Seq<JsonLevelTile>)
    requires
        row_outcome(row) is Ok,
    ensures
        row_outcome(row)->Ok_0.len() == row.len(),
    decreases row.len(),
{
    if row.len() > 0 {
        lemma_row_shape(row.drop_last());
    }
}

/// A level that loads is a rectangular grid with at least one row and one
/// column, with as many rows as its file and each row as wide as the file's
/// first row, and the player appears where the file says.
pub proof fn law_loaded_level_is_rectangular(rows: Seq<Vec<JsonLevelTile>>, spawn: GridPos)
    requires
        level_outcome(rows, spawn) is Ok,
    ensures
        ({
            let scene = level_outcome(rows, spawn)->Ok_0;
            &&& scene.grid.len() == rows.len() > 0
            &&& rows[0]@.len() > 0
            &&& forall|i: int| 0 <= i < scene.grid.len() ==> #[trigger] scene.grid[i].len() == rows[0]@.len()
            &&& is_rectangular(scene.grid)
            &&& scene.player_spawn == spawn
        }),
{
    lemma_rows_shape(rows, rows[0]@.len());
}

/// A level just read from a file modified at `stamp` is the one the registry
/// gives back under its name, and that file is not read again until it
/// changes; a file modified at another time is read again.
pub proof fn law_loaded_level_is_current(
    levels: Map<Seq<char>, (ModifiedStamp, SceneView)>,
    name: Seq<char>,
    stamp: ModifiedStamp,
    other: ModifiedStamp,
    scene: SceneView,
)
    requires
        other != stamp,
    ensures
        levels.insert(name, (stamp, scene)).dom().contains(name),
        levels.insert(name, (stamp, scene))[name].1 == scene,
        !reload_needed(levels.insert(name, (stamp, scene)), name, stamp),
        reload_needed(levels.insert(name, (stamp, scene)), name, other),
{
}

/// Ending a scan splits what the registry held: the levels whose file was
/// found stay, unchanged, and exactly the others are reported removed.
pub proof fn law_scan_partitions_levels(
    levels: Map<Seq<char>, (ModifiedStamp, SceneView)>,
    seen: Set<Seq<char>>,
)
    ensures
        levels.restrict(seen).dom().union(levels.dom().difference(seen)) == levels.dom(),
        levels.restrict(seen).dom().disjoint(levels.dom().difference(seen)),
        forall|k: Seq<char>| #[trigger] levels.restrict(seen).dom().contains(k) ==> levels.restrict(seen)[k]
            == levels[k],
{
    assert(levels.restrict(seen).dom().union(levels.dom().difference(seen)) =~= levels.dom());
}


/// What a scan learns of one level file: its level's name, when the file was
/// modified (`None` where that could not be read) and what reading the file
/// gives, a scene or an error.
pub type LevelFile = (Seq<char>, Option<ModifiedStamp>, Result<SceneView, Seq<char>>);

/// What the levels `levels` become when a scan meets `file`: a file whose
/// time could not be read, or that has not changed since its level was
/// loaded, leaves them; any other is read, and the scene it gives replaces
/// what was known of its level, while an error leaves them.
pub open spec fn scan_file(
    levels: Map<Seq<char>, (ModifiedStamp, SceneView)>,
    file: LevelFile,
) -> Map<Seq<char>, (ModifiedStamp, SceneView)> {
    match file.1 {
        None => levels,
        Some(stamp) => {
            if reload_needed(levels, file.0, stamp) {
                match file.2 {
                    Ok(scene) => levels.insert(file.0, (stamp, scene)),
                    Err(_) => levels,
                }
            } else {
                levels
            }
        },
    }
}

/// Whether meeting `file` loads its level anew, which the report lists as changed.
pub open spec fn file_reloaded(levels: Map<Seq<char>, (ModifiedStamp, SceneView)>, file: LevelFile) -> bool {
    &&& file.1 is Some
    &&& reload_needed(levels, file.0, file.1->0)
    &&& file.2 is Ok
}

/// What the levels `levels` become when a scan meets `files` in order.
pub open spec fn scan_files(
    levels: Map<Seq<char>, (ModifiedStamp, SceneView)>,
    files: Seq<LevelFile>,
) -> Map<Seq<char>, (ModifiedStamp, SceneView)>
    decreases files.len(),
{
    if files.len() == 0 {
        levels
    } else {
        scan_file(scan_files(levels, files.drop_last()), files.last())
    }
}

/// The names that a scan of `files`, starting from `levels`, reports changed, in order.
pub open spec fn scan_changed(
    levels: Map<Seq<char>, (ModifiedStamp, SceneView)>,
    files: Seq<LevelFile>,
) -> Seq<Seq<char>>
    decreases files.len(),
{
    if files.len() == 0 {
        Seq::empty()
    } else {
        let before = scan_changed(levels, files.drop_last());
        if file_reloaded(scan_files(levels, files.drop_last()), files.last()) {
            before.push(files.last().0)
        } else {
            before
        }
    }
}

/// The names of the level files in `files`.
pub open spec fn file_names(files: Seq<LevelFile>) -> Set<Seq<char>> {
    Set::new(|k: Seq<char>| exists|i: int| 0 <= i < files.len() && #[trigger] files[i].0 == k)
}

/// Whether no two files are of the same level, as in a directory listing.
pub open spec fn file_names_distinct(files: Seq<LevelFile>) -> bool {
    forall|i: int, j: int|
        #![trigger files[i], files[j]]
        0 <= i < files.len() && 0 <= j < files.len() && i != j ==> files[i].0 != files[j].0
}

/// The levels a whole scan of `files` leaves: what meeting the files made of
/// `levels`, without the levels whose file was not found.
pub open spec fn scan_levels(
    levels: Map<Seq<char>, (ModifiedStamp, SceneView)>,
    files: Seq<LevelFile>,
) -> Map<Seq<char>, (ModifiedStamp, SceneView)> {
    scan_files(levels, files).restrict(file_names(files))
}

/// The names a whole scan of `files` reports removed.
pub open spec fn scan_removed(
    levels: Map<Seq<char>, (ModifiedStamp, SceneView)>,
    files: Seq<LevelFile>,
) -> Set<Seq<char>> {
    scan_files(levels, files).dom().difference(file_names(files))
}

/// After a scan, each file that had a time and gave a scene has its level
/// loaded at that time.
proof fn lemma_scan_records_stamps(
    levels: Map<Seq<char>, (ModifiedStamp, SceneView)>,
    files: Seq<LevelFile>,
    k: int,
)
    requires
        file_names_distinct(files),
        0 <= k < files.len(),
        files[k].1 is Some,
        files[k].2 is Ok,
    ensures
        scan_files(levels, files).dom().contains(files[k].0),
        scan_files(levels, files)[files[k].0].0 == files[k].1->0,
    decreases files.len(),
{
    let n = files.len() - 1;
    let prev = files.drop_last();
    assert(files.last() == files[n]);
    if k < n {
        assert(file_names_distinct(prev)) by {
            assert forall|i: int, j: int|
                #![trigger prev[i], prev[j]]
                0 <= i < prev.len() && 0 <= j < prev.len() && i != j implies prev[i].0 != prev[j].0 by {
                assert(prev[i] == files[i] && prev[j] == files[j]);
            }
        }
        assert(prev[k] == files[k]);
        lemma_scan_records_stamps(levels, prev, k);
        assert(files[k].0 != files[n].0);
    }
}

/// A scan changes nothing where every file that has a time and gives a scene
/// has its level loaded at that time.
proof fn lemma_scan_of_current_levels(
    levels: Map<Seq<char>, (ModifiedStamp, SceneView)>,
    files: Seq<LevelFile>,
)
    requires
        forall|k: int|
            0 <= k < files.len() && (#[trigger] files[k]).1 is Some && files[k].2 is Ok
                ==> levels.dom().contains(files[k].0) && levels[files[k].0].0 == files[k].1->0,
    ensures
        scan_files(levels, files) == levels,
        scan_changed(levels, files).len() == 0,
    decreases files.len(),
{
    if files.len() > 0 {
        let prev = files.drop_last();
        assert forall|k: int|
            0 <= k < prev.len() && (#[trigger] prev[k]).1 is Some && prev[k].2 is Ok
                implies levels.dom().contains(prev[k].0) && levels[prev[k].0].0 == prev[k].1->0 by {
            assert(prev[k] == files[k]);
        }
        lemma_scan_of_current_levels(levels, prev);
        assert(files.last() == files[files.len() - 1]);
    }
}

/// Scanning the level directory again when nothing in it has changed changes
/// nothing: no level is read anew or forgotten, and the registry keeps the
/// levels that the first scan left. (`LevelScan::finish` leaves the registry
/// with `scan_levels` of the files its scan met; see `law_second_scan_changes_nothing`.)
pub proof fn law_rescan_changes_nothing(
    levels: Map<Seq<char>, (ModifiedStamp, SceneView)>,
    files: Seq<LevelFile>,
)
    requires
        file_names_distinct(files),
    ensures
        scan_levels(scan_levels(levels, files), files) == scan_levels(levels, files),
        scan_changed(scan_levels(levels, files), files).len() == 0,
        scan_removed(scan_levels(levels, files), files).is_empty(),
{
    let names = file_names(files);
    let l1 = scan_levels(levels, files);
    assert forall|k: int|
        0 <= k < files.len() && (#[trigger] files[k]).1 is Some && files[k].2 is Ok
            implies l1.dom().contains(files[k].0) && l1[files[k].0].0 == files[k].1->0 by {
        lemma_scan_records_stamps(levels, files, k);
        assert(names.contains(files[k].0));
    }
    lemma_scan_of_current_levels(l1, files);
    assert(l1.restrict(names) =~= l1);
    assert(l1.dom().difference(names) =~= Set::empty());
}


/// Two scans of a directory in which nothing changed: where the second scan
/// began from the levels that the first one left and met the same files, the
/// second one's `finish` leaves the registry as the first left it, and
/// reports no level changed and none removed.
pub proof fn law_second_scan_changes_nothing(first: &LevelScan, second: &LevelScan)
    requires
        file_names_distinct(first.files()),
        second.start() == scan_levels(first.start(), first.files()),
        second.files() == first.files(),
    ensures
        scan_levels(second.start(), second.files()) == second.start(),
        scan_changed(second.start(), second.files()).len() == 0,
        scan_removed(second.start(), second.files()).is_empty(),
{
    law_rescan_changes_nothing(first.start(), first.files());
}

} // verus!
