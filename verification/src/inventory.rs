//! The player's inventory, the item definitions and the item catalog.

use vstd::prelude::*;

use crate::text::{concat3, str_eq};

verus! {

// ===== Items and effects that can be used by the player =====

/// The definition of an item kind.
pub struct Item {
    pub id: String,
    pub name: String,
    pub description: String,
    pub effect_id: String,
    pub sprite_path: String,
}

/// What using an item does. Amounts are `f32` values held as their IEEE-754
/// bit patterns (`f32::to_bits`); this library never computes with them.
pub enum Effect {
    /// Damage and range in tiles (1 to 9, always square).
    DamageToEnemies(u32, u32),
    /// Amount of healing; cannot exceed the player's maximum health.
    Heal(u32),
    /// Percentage to slow and duration in seconds.
    Slow(u32, u32),
    /// Percentage to speed up and duration in seconds.
    Speed(u32, u32),
    /// Destination in the format "x,y".
    Teleport(String),
    /// Scene name and fade duration.
    Voyage(String, u32),
}

impl Clone for Effect {
    fn clone(&self) -> (r: Self)
        ensures
            r == *self,
    {
        match self {
            Effect::DamageToEnemies(d, r) => Effect::DamageToEnemies(*d, *r),
            Effect::Heal(h) => Effect::Heal(*h),
            Effect::Slow(p, d) => Effect::Slow(*p, *d),
            Effect::Speed(p, d) => Effect::Speed(*p, *d),
            Effect::Teleport(dest) => Effect::Teleport(dest.clone()),
            Effect::Voyage(scene, fade) => Effect::Voyage(scene.clone(), *fade),
        }
    }
}

// ====== Specific for each inventory =======

/// A stack of one item kind in an inventory.
pub struct InventoryItem {
    pub item_id: String,
    pub quantity: u32,
}

/// A stack as a plain value: the item id and the quantity.
pub type Stack = (Seq<char>, u32);

impl View for InventoryItem {
    type V = Stack;

    open spec fn view(&self) -> Stack {
        (self.item_id@, self.quantity)
    }
}

impl Clone for InventoryItem {
    fn clone(&self) -> (r: Self)
        ensures
            r == *self,
    {
        InventoryItem { item_id: self.item_id.clone(), quantity: self.quantity }
    }
}

/// The player's inventory: at most `max_inventory_size` stacks, in slot order.
pub struct Inventory {
    pub max_inventory_size: usize,
    pub items: Vec<InventoryItem>,
}

impl Inventory {
    /// The stacks of the inventory as plain values, in slot order.
    pub open spec fn stacks(&self) -> Seq<Stack> {
        self.items@.map_values(|it: InventoryItem| it@)
    }
}

// ====== The item catalog =======

/// What an item table holds: item definitions by key.
pub uninterp spec fn item_table_entries(table: ItemTable) -> Map<Seq<char>, Item>;

/// What an effect table holds: effects by key.
pub uninterp spec fn effect_table_entries(table: EffectTable) -> Map<Seq<char>, Effect>;

/// Item definitions keyed by a string, kept in a `bevy::utils::HashMap`.
/// That map is hashbrown's `HashMap`, whose allocator parameter is bounded by a
/// trait hashbrown does not export, so the map is held in this opaque struct
/// and reached only through the functions below.
#[verifier::external_body]
pub struct ItemTable {
    map: bevy::utils::HashMap<String, Item>,
}

/// Effects keyed by a string, kept in a `bevy::utils::HashMap`, held opaque
/// for the same reason as `ItemTable`.
#[verifier::external_body]
pub struct EffectTable {
    map: bevy::utils::HashMap<String, Effect>,
}

impl ItemTable {
    /// Calls `bevy::utils::HashMap::default` (hashbrown's `HashMap::default`),
    /// which makes an empty map.
    #[verifier::external_body]
    fn empty() -> (table: Self)
        ensures
            item_table_entries(table).dom().is_empty(),
    {
        ItemTable { map: bevy::utils::HashMap::default() }
    }

    /// Calls hashbrown's `HashMap::insert`, which maps `key` to `item` and
    /// leaves every other key as it was.
    #[verifier::external_body]
    fn insert(&mut self, key: String, item: Item)
        ensures
            item_table_entries(*final(self)) == item_table_entries(*old(self)).insert(key@, item),
    {
        self.map.insert(key, item);
    }

    /// Calls hashbrown's `HashMap::contains_key`, which tells whether `key` is mapped.
    #[verifier::external_body]
    fn contains_key(&self, key: &str) -> (r: bool)
        ensures
            r == item_table_entries(*self).dom().contains(key@),
    {
        self.map.contains_key(key)
    }

    /// Calls hashbrown's `HashMap::get`, which returns what `key` is mapped to.
    #[verifier::external_body]
    fn get(&self, key: &str) -> (r: Option<&Item>)
        ensures
            r matches Some(item) ==> item_table_entries(*self).dom().contains(key@)
                && *item == item_table_entries(*self)[key@],
            r is None ==> !item_table_entries(*self).dom().contains(key@),
    {
        self.map.get(key)
    }
}

impl EffectTable {
    /// Calls `bevy::utils::HashMap::default` (hashbrown's `HashMap::default`),
    /// which makes an empty map.
    #[verifier::external_body]
    fn empty() -> (table: Self)
        ensures
            effect_table_entries(table).dom().is_empty(),
    {
        EffectTable { map: bevy::utils::HashMap::default() }
    }

    /// Calls hashbrown's `HashMap::insert`, which maps `key` to `effect` and
    /// leaves every other key as it was.
    #[verifier::external_body]
    fn insert(&mut self, key: String, effect: Effect)
        ensures
            effect_table_entries(*final(self)) == effect_table_entries(*old(self)).insert(
                key@,
                effect,
            ),
    {
        self.map.insert(key, effect);
    }

    /// Calls hashbrown's `HashMap::get`, which returns what `key` is mapped to.
    #[verifier::external_body]
    fn get(&self, key: &str) -> (r: Option<&Effect>)
        ensures
            r matches Some(effect) ==> effect_table_entries(*self).dom().contains(key@)
                && *effect == effect_table_entries(*self)[key@],
            r is None ==> !effect_table_entries(*self).dom().contains(key@),
    {
        self.map.get(key)
    }
}

/// The catalog of item definitions and of the effects they refer to.
pub struct ItemCatalog {
    items: ItemTable,
    effects: EffectTable,
}

impl Default for ItemCatalog {
    fn default() -> (c: Self)
        ensures
            c.item_entries().dom().is_empty(),
            c.effect_entries().dom().is_empty(),
    {
        ItemCatalog { items: ItemTable::empty(), effects: EffectTable::empty() }
    }
}

impl ItemCatalog {
    /// The item definitions of the catalog, by key.
    pub closed spec fn item_entries(&self) -> Map<Seq<char>, Item> {
        item_table_entries(self.items)
    }

    /// The effects of the catalog, by key.
    pub closed spec fn effect_entries(&self) -> Map<Seq<char>, Effect> {
        effect_table_entries(self.effects)
    }

    /// Maps `key` to the item definition `item`.
    pub fn insert_item(&mut self, key: String, item: Item)
        ensures
            final(self).item_entries() == old(self).item_entries().insert(key@, item),
            final(self).effect_entries() == old(self).effect_entries(),
    {
        self.items.insert(key, item);
    }

    /// Maps `key` to the effect `effect`.
    pub fn insert_effect(&mut self, key: String, effect: Effect)
        ensures
            final(self).effect_entries() == old(self).effect_entries().insert(key@, effect),
            final(self).item_entries() == old(self).item_entries(),
    {
        self.effects.insert(key, effect);
    }

    /// Whether an item definition is registered under `key`.
    pub fn has_item(&self, key: &str) -> (r: bool)
        ensures
            r == self.item_entries().dom().contains(key@),
    {
        self.items.contains_key(key)
    }

    /// The item definition registered under `key`, if any.
    pub fn get_item(&self, key: &str) -> (r: Option<&Item>)
        ensures
            r matches Some(item) ==> self.item_entries().dom().contains(key@)
                && *item == self.item_entries()[key@],
            r is None ==> !self.item_entries().dom().contains(key@),
    {
        self.items.get(key)
    }

    /// The effect registered under `key`, if any.
    pub fn get_effect(&self, key: &str) -> (r: Option<&Effect>)
        ensures
            r matches Some(effect) ==> self.effect_entries().dom().contains(key@)
                && *effect == self.effect_entries()[key@],
            r is None ==> !self.effect_entries().dom().contains(key@),
    {
        self.effects.get(key)
    }
}

// ====== Inventory operations as functions on plain values =======

/// Whether some stack holds the item `id`.
pub open spec fn holds_id(s: Seq<Stack>, id: Seq<char>) -> bool {
    exists|i: int| 0 <= i < s.len() && #[trigger] s[i].0 == id
}

/// Whether `i` is the first slot that holds the item `id`.
pub open spec fn is_first_slot(s: Seq<Stack>, id: Seq<char>, i: int) -> bool {
    &&& 0 <= i < s.len()
    &&& s[i].0 == id
    &&& forall|j: int| 0 <= j < i ==> #[trigger] s[j].0 != id
}

/// The first slot that holds the item `id` (meaningful where `holds_id`).
pub open spec fn first_slot(s: Seq<Stack>, id: Seq<char>) -> int {
    choose|i: int| is_first_slot(s, id, i)
}

/// The message of `add_item` for an item that the catalog does not know.
pub open spec fn unknown_item_message(id: Seq<char>) -> Seq<char> {
    "Item '"@ + id + "' does not exist in the item catalog"@
}

/// What `add_item` returns and leaves in the stacks `s` of an inventory of
/// capacity `max`, where `known` tells whether the catalog defines `id`.
pub open spec fn add_item_outcome(
    s: Seq<Stack>,
    max: usize,
    known: bool,
    id: Seq<char>,
    quantity: u32,
) -> (Result<(), Seq<char>>, Seq<Stack>) {
    if !known {
        (Err(unknown_item_message(id)), s)
    } else if s.len() >= max {
        (Err("Inventory is full"@), s)
    } else if holds_id(s, id) {
        let p = first_slot(s, id);
        (Ok(()), s.update(p, (s[p].0, (s[p].1 + quantity) as u32)))
    } else {
        (Ok(()), s.push((id, quantity)))
    }
}

/// The test that keeps every stack of another item than `id`.
pub open spec fn other_item(id: Seq<char>) -> spec_fn(Stack) -> bool {
    |e: Stack| e.0 != id
}

/// What `remove_item` returns and leaves in the stacks `s`.
pub open spec fn remove_item_outcome(s: Seq<Stack>, id: Seq<char>, quantity: u32) -> (
    Result<(), Seq<char>>,
    Seq<Stack>,
) {
    if !holds_id(s, id) {
        (Err("Item not found in inventory"@), s)
    } else {
        let p = first_slot(s, id);
        if s[p].1 < quantity {
            (Err("Not enough quantity to remove"@), s)
        } else if s[p].1 == quantity {
            (Ok(()), s.filter(other_item(id)))
        } else {
            (Ok(()), s.update(p, (s[p].0, (s[p].1 - quantity) as u32)))
        }
    }
}

/// What `change_items_position` returns and leaves in the stacks `s`.
pub open spec fn move_item_outcome(s: Seq<Stack>, id: Seq<char>, new_position: usize) -> (
    Result<(), Seq<char>>,
    Seq<Stack>,
) {
    if new_position >= s.len() {
        (Err("New position is out of bounds"@), s)
    } else if !holds_id(s, id) {
        (Err("Item not found in inventory"@), s)
    } else {
        let p = first_slot(s, id);
        (Ok(()), s.remove(p).insert(new_position as int, s[p]))
    }
}

/// A `Result` whose error is a `String`, with the error as plain text.
pub open spec fn result_view(r: Result<(), String>) -> Result<(), Seq<char>> {
    match r {
        Ok(()) => Ok(()),
        Err(e) => Err(e@),
    }
}

/// Setting slot `p` to a stack of the same item does not change which
/// stacks survive a filter that drops that item.
pub proof fn lemma_filter_same_when_dropped(
    s: Seq<Stack>,
    t: Seq<Stack>,
    pred: spec_fn(Stack) -> bool,
    p: int,
)
    requires
        0 <= p < s.len(),
        t == s.update(p, (s[p].0, 0u32)),
        !pred(s[p]),
        !pred(t[p]),
    ensures
        t.filter(pred) == s.filter(pred),
    decreases s.len(),
{
    reveal_with_fuel(Seq::<_>::filter, 1);
    if p == s.len() - 1 {
        assert(t.drop_last() =~= s.drop_last());
    } else {
        assert(t.drop_last() =~= s.drop_last().update(p, (s[p].0, 0u32)));
        lemma_filter_same_when_dropped(s.drop_last(), t.drop_last(), pred, p);
        assert(t.last() == s.last());
    }
}

/// An empty inventory of capacity `max_inventory_size`.
pub fn create_inventory(max_inventory_size: usize) -> (inv: Inventory)
    ensures
        inv.max_inventory_size == max_inventory_size,
        inv.stacks() == Seq::<Stack>::empty(),
{
    let inv = Inventory { max_inventory_size, items: Vec::new() };
    assert(inv.stacks() =~= Seq::<Stack>::empty());
    inv
}

/// An item definition made of the given parts.
pub fn create_item(
    id: String,
    name: String,
    description: String,
    effect_id: String,
    sprite_path: String,
) -> (item: Item)
    ensures
        item == (Item { id, name, description, effect_id, sprite_path }),
{
    Item { id, name, description, effect_id, sprite_path }
}

impl Inventory {
    /// The first slot whose item id is `item_id`.
    fn find_slot(&self, item_id: &str) -> (r: Option<usize>)
        ensures
            r matches Some(p) ==> is_first_slot(self.stacks(), item_id@, p as int),
            r is None ==> !holds_id(self.stacks(), item_id@),
    {
        let ghost s = self.stacks();
        let mut i: usize = 0;
        while i < self.items.len()
            invariant
                s == self.stacks(),
                i <= self.items.len(),
                forall|j: int| 0 <= j < i ==> #[trigger] s[j].0 != item_id@,
            decreases self.items.len() - i,
        {
            if str_eq(self.items[i].item_id.as_str(), item_id) {
                return Some(i);
            }
            i = i + 1;
        }
        None
    }

    /// Adds `quantity` of the item `item_id`: to its first stack where one
    /// exists, else as a new stack at the end. Fails when the catalog does not
    /// define the item, or when the inventory already holds
    /// `max_inventory_size` stacks (also when the item has a stack there).
    pub fn add_item(&mut self, item_catalog: &ItemCatalog, item_id: String, quantity: u32) -> (r:
        Result<(), String>)
        requires
            item_catalog.item_entries().dom().contains(item_id@) && old(self).stacks().len()
                < old(self).max_inventory_size && holds_id(old(self).stacks(), item_id@)
                ==> old(self).stacks()[first_slot(old(self).stacks(), item_id@)].1 + quantity
                <= u32::MAX,
        ensures
            ({
                let (res, s) = add_item_outcome(
                    old(self).stacks(),
                    old(self).max_inventory_size,
                    item_catalog.item_entries().dom().contains(item_id@),
                    item_id@,
                    quantity,
                );
                result_view(r) == res && final(self).stacks() == s
            }),
            final(self).max_inventory_size == old(self).max_inventory_size,
    {
        let ghost s = self.stacks();
        if !item_catalog.has_item(item_id.as_str()) {
            return Err(concat3("Item '", item_id.as_str(), "' does not exist in the item catalog"));
        }
        if self.items.len() >= self.max_inventory_size {
            return Err("Inventory is full".to_owned());
        }
        match self.find_slot(item_id.as_str()) {
            Some(p) => {
                proof {
                    assert(is_first_slot(s, item_id@, first_slot(s, item_id@)));
                }
                let q = self.items[p].quantity + quantity;
                self.items[p].quantity = q;
                assert(self.stacks() =~= s.update(p as int, (s[p as int].0, q)));
            },
            None => {
                self.items.push(InventoryItem { item_id, quantity });
                assert(self.stacks() =~= s.push((item_id@, quantity)));
            },
        }
        Ok(())
    }

    /// Takes `quantity` of the item `item_id` from its first stack. When that
    /// stack runs out, every stack of the item leaves the inventory. Fails when
    /// no stack holds the item or its first stack holds less than `quantity`.
    pub fn remove_item(&mut self, item_id: &str, quantity: u32) -> (r: Result<(), String>)
        ensures
            ({
                let (res, s) = remove_item_outcome(old(self).stacks(), item_id@, quantity);
                result_view(r) == res && final(self).stacks() == s
            }),
            final(self).max_inventory_size == old(self).max_inventory_size,
    {
        let ghost s = self.stacks();
        match self.find_slot(item_id) {
            Some(p) => {
                proof {
                    assert(is_first_slot(s, item_id@, first_slot(s, item_id@)));
                }
                if self.items[p].quantity < quantity {
                    return Err("Not enough quantity to remove".to_owned());
                }
                let q = self.items[p].quantity - quantity;
                self.items[p].quantity = q;
                if q == 0 {
                    let ghost s1 = s.update(p as int, (s[p as int].0, 0u32));
                    assert(self.stacks() =~= s1);
                    self.retain_other_items(item_id);
                    proof {
                        lemma_filter_same_when_dropped(s, s1, other_item(item_id@), p as int);
                    }
                } else {
                    assert(self.stacks() =~= s.update(p as int, (s[p as int].0, q)));
                }
                Ok(())
            },
            None => Err("Item not found in inventory".to_owned()),
        }
    }

    /// Keeps only the stacks whose item id is not `item_id`, in order.
    fn retain_other_items(&mut self, item_id: &str)
        ensures
            final(self).stacks() == old(self).stacks().filter(other_item(item_id@)),
            final(self).max_inventory_size == old(self).max_inventory_size,
    {
        let ghost s = self.stacks();
        let ghost pred = other_item(item_id@);
        let mut kept: Vec<InventoryItem> = Vec::new();
        let mut i: usize = 0;
        while i < self.items.len()
            invariant
                s == self.stacks(),
                pred == other_item(item_id@),
                i <= self.items.len(),
                kept@.map_values(|it: InventoryItem| it@) == s.take(i as int).filter(pred),
            decreases self.items.len() - i,
        {
            proof {
                reveal_with_fuel(Seq::<_>::filter, 1);
                assert(s.take(i as int + 1).drop_last() =~= s.take(i as int));
            }
            if !str_eq(self.items[i].item_id.as_str(), item_id) {
                let it = self.items[i].clone();
                kept.push(it);
                assert(kept@.map_values(|it: InventoryItem| it@) =~= s.take(i as int).filter(
                    pred,
                ).push(s[i as int]));
            } else {
                assert(kept@.map_values(|it: InventoryItem| it@) =~= s.take(i as int + 1).filter(
                    pred,
                ));
            }
            i = i + 1;
        }
        assert(s.take(i as int) =~= s);
        self.items = kept;
    }

    /// Moves the first stack of the item `item_id` to slot `new_position`,
    /// shifting the stacks between. Fails when `new_position` is not a slot of
    /// the inventory or no stack holds the item.
    pub fn change_items_position(&mut self, item_id: &str, new_position: usize) -> (r: Result<
        (),
        String,
    >)
        ensures
            ({
                let (res, s) = move_item_outcome(old(self).stacks(), item_id@, new_position);
                result_view(r) == res && final(self).stacks() == s
            }),
            final(self).max_inventory_size == old(self).max_inventory_size,
    {
        let ghost s = self.stacks();
        if new_position >= self.items.len() {
            return Err("New position is out of bounds".to_owned());
        }
        match self.find_slot(item_id) {
            Some(index) => {
                proof {
                    assert(is_first_slot(s, item_id@, first_slot(s, item_id@)));
                }
                let item = self.items.remove(index);
                self.items.insert(new_position, item);
                assert(self.stacks() =~= s.remove(index as int).insert(
                    new_position as int,
                    s[index as int],
                ));
                Ok(())
            },
            None => Err("Item not found in inventory".to_owned()),
        }
    }
}

// ====== Laws of the inventory =======

/// Adding an item that the inventory does not hold and then removing the same
/// quantity of it leaves the inventory as it was, whether the addition was
/// accepted or refused.
pub proof fn law_add_then_remove_restores(
    s: Seq<Stack>,
    max: usize,
    known: bool,
    id: Seq<char>,
    quantity: u32,
)
    requires
        !holds_id(s, id),
    ensures
        remove_item_outcome(add_item_outcome(s, max, known, id, quantity).1, id, quantity).1 == s,
{
    let t = add_item_outcome(s, max, known, id, quantity).1;
    if t == s {
    } else {
        assert(t == s.push((id, quantity)));
        assert(t[s.len() as int].0 == id);
        assert(is_first_slot(t, id, s.len() as int));
        assert(is_first_slot(t, id, first_slot(t, id)));
        assert(first_slot(t, id) == s.len());
        let pred = other_item(id);
        reveal_with_fuel(Seq::<_>::filter, 1);
        assert(t.drop_last() =~= s);
        assert(!pred(t.last()));
        assert(t.filter(pred) == s.filter(pred));
        lemma_filter_keeps_all(s, pred);
    }
}

/// A filter that every element passes keeps the sequence whole.
pub proof fn lemma_filter_keeps_all(s: Seq<Stack>, pred: spec_fn(Stack) -> bool)
    requires
        forall|i: int| 0 <= i < s.len() ==> pred(#[trigger] s[i]),
    ensures
        s.filter(pred) == s,
    decreases s.len(),
{
    reveal_with_fuel(Seq::<_>::filter, 1);
    if s.len() > 0 {
        lemma_filter_keeps_all(s.drop_last(), pred);
        assert(s.drop_last().push(s.last()) =~= s);
    }
}

/// A refused addition, removal or move leaves the inventory unchanged.
pub proof fn law_refusal_leaves_inventory(
    s: Seq<Stack>,
    max: usize,
    known: bool,
    id: Seq<char>,
    quantity: u32,
    new_position: usize,
)
    ensures
        add_item_outcome(s, max, known, id, quantity).0 is Err ==> add_item_outcome(
            s,
            max,
            known,
            id,
            quantity,
        ).1 == s,
        remove_item_outcome(s, id, quantity).0 is Err ==> remove_item_outcome(s, id, quantity).1
            == s,
        move_item_outcome(s, id, new_position).0 is Err ==> move_item_outcome(
            s,
            id,
            new_position,
        ).1 == s,
{
}

/// No operation makes an inventory hold more stacks than its capacity allows:
/// an addition stays within `max` stacks, a removal never adds a stack and a
/// move keeps the number of stacks.
pub proof fn law_capacity_is_kept(
    s: Seq<Stack>,
    max: usize,
    known: bool,
    id: Seq<char>,
    quantity: u32,
    new_position: usize,
)
    requires
        s.len() <= max,
    ensures
        add_item_outcome(s, max, known, id, quantity).1.len() <= max,
        remove_item_outcome(s, id, quantity).1.len() <= s.len(),
        move_item_outcome(s, id, new_position).1.len() == s.len(),
{
    s.lemma_filter_len(other_item(id));
    if holds_id(s, id) {
        let i: int = choose|i: int| 0 <= i < s.len() && #[trigger] s[i].0 == id;
        lemma_first_slot_exists(s, id, i);
    }
}

/// Moving an item reorders the stacks and nothing else: the same stacks remain,
/// and an accepted move puts the item's first stack at `new_position`.
pub proof fn law_move_reorders(s: Seq<Stack>, id: Seq<char>, new_position: usize)
    ensures
        move_item_outcome(s, id, new_position).1.to_multiset() == s.to_multiset(),
        move_item_outcome(s, id, new_position).0 is Ok ==> move_item_outcome(
            s,
            id,
            new_position,
        ).1[new_position as int] == s[first_slot(s, id)],
{
    if new_position < s.len() && holds_id(s, id) {
        let p = first_slot(s, id);
        let i: int = choose|i: int| 0 <= i < s.len() && #[trigger] s[i].0 == id;
        assert(is_first_slot(s, id, p)) by {
            lemma_first_slot_exists(s, id, i);
        }
        let r = s.remove(p);
        s.remove_ensures(p);
        r.insert_ensures(new_position as int, s[p]);
        broadcast use vstd::seq_lib::group_to_multiset_ensures;
        assert(r.insert(new_position as int, s[p]).to_multiset() =~= r.to_multiset().insert(s[p]));
        assert(s.to_multiset() =~= r.to_multiset().insert(s[p]));
    }
}

/// Where some slot holds `id`, `first_slot` is the first of them.
pub proof fn lemma_first_slot_exists(s: Seq<Stack>, id: Seq<char>, i: int)
    requires
        0 <= i < s.len(),
        s[i].0 == id,
    ensures
        is_first_slot(s, id, first_slot(s, id)),
    decreases i,
{
    if forall|j: int| 0 <= j < i ==> #[trigger] s[j].0 != id {
        assert(is_first_slot(s, id, i));
    } else {
        let j = choose|j: int| 0 <= j < i && #[trigger] s[j].0 == id;
        lemma_first_slot_exists(s, id, j);
    }
}


/// Where `a` is the first slot of the item `id`, `first_slot` names it.
pub proof fn lemma_first_slot_unique(s: Seq<Stack>, id: Seq<char>, a: int)
    requires
        is_first_slot(s, id, a),
    ensures
        first_slot(s, id) == a,
{
    let b = first_slot(s, id);
    assert(is_first_slot(s, id, b));
    if b < a {
        assert(s[b].0 != id);
    } else if a < b {
        assert(s[a].0 != id);
    }
}

/// Whether no two stacks hold the same item.
pub open spec fn ids_distinct(s: Seq<Stack>) -> bool {
    forall|i: int, j: int|
        #![trigger s[i], s[j]]
        0 <= i < s.len() && 0 <= j < s.len() && i != j ==> s[i].0 != s[j].0
}

/// Keeping some of the stacks keeps their items distinct.
pub proof fn lemma_filter_keeps_ids_distinct(s: Seq<Stack>, pred: spec_fn(Stack) -> bool)
    requires
        ids_distinct(s),
    ensures
        ids_distinct(s.filter(pred)),
    decreases s.len(),
{
    reveal_with_fuel(Seq::<_>::filter, 1);
    if s.len() > 0 {
        let r = s.drop_last();
        assert(ids_distinct(r)) by {
            assert forall|i: int, j: int|
                #![trigger r[i], r[j]]
                0 <= i < r.len() && 0 <= j < r.len() && i != j implies r[i].0 != r[j].0 by {
                assert(r[i] == s[i] && r[j] == s[j]);
            }
        }
        lemma_filter_keeps_ids_distinct(r, pred);
        let f = r.filter(pred);
        if pred(s.last()) {
            assert forall|k: int| 0 <= k < f.len() implies #[trigger] f[k].0 != s.last().0 by {
                assert(f.contains(f[k]));
                r.lemma_filter_contains_rev(pred, f[k]);
                let m = choose|m: int| 0 <= m < r.len() && r[m] == f[k];
                assert(s[m] == r[m]);
                assert(s[s.len() - 1] == s.last());
            }
            let g = f.push(s.last());
            assert forall|i: int, j: int|
                #![trigger g[i], g[j]]
                0 <= i < g.len() && 0 <= j < g.len() && i != j implies g[i].0 != g[j].0 by {
                if i < f.len() && j < f.len() {
                    assert(g[i] == f[i] && g[j] == f[j]);
                } else if i < f.len() {
                    assert(g[i] == f[i]);
                } else {
                    assert(g[j] == f[j]);
                }
            }
        }
    }
}

/// No operation gives two stacks the same item: where the stacks of an
/// inventory hold distinct items and fit its capacity of `max` stacks, they
/// still do after an addition, a removal or a move.
pub proof fn law_items_stay_distinct(
    s: Seq<Stack>,
    max: usize,
    known: bool,
    id: Seq<char>,
    quantity: u32,
    new_position: usize,
)
    requires
        ids_distinct(s),
        s.len() <= max,
    ensures
        ids_distinct(add_item_outcome(s, max, known, id, quantity).1),
        add_item_outcome(s, max, known, id, quantity).1.len() <= max,
        ids_distinct(remove_item_outcome(s, id, quantity).1),
        ids_distinct(move_item_outcome(s, id, new_position).1),
{
    law_capacity_is_kept(s, max, known, id, quantity, new_position);
    if holds_id(s, id) {
        let w: int = choose|i: int| 0 <= i < s.len() && #[trigger] s[i].0 == id;
        lemma_first_slot_exists(s, id, w);
        let p = first_slot(s, id);
        // an addition or removal that keeps the stack changes only its quantity
        assert forall|q: u32| ids_distinct(#[trigger] s.update(p, (s[p].0, q))) by {
            let t = s.update(p, (s[p].0, q));
            assert forall|i: int, j: int|
                #![trigger t[i], t[j]]
                0 <= i < t.len() && 0 <= j < t.len() && i != j implies t[i].0 != t[j].0 by {
                assert(t[i].0 == s[i].0 && t[j].0 == s[j].0);
            }
        }
        lemma_filter_keeps_ids_distinct(s, other_item(id));
        if new_position < s.len() {
            let r = s.remove(p);
            let t = r.insert(new_position as int, s[p]);
            s.remove_ensures(p);
            r.insert_ensures(new_position as int, s[p]);
            let np = new_position as int;
            assert forall|i: int, j: int|
                #![trigger t[i], t[j]]
                0 <= i < t.len() && 0 <= j < t.len() && i != j implies t[i].0 != t[j].0 by {
                let ri = if i < np { i } else { i - 1 };
                let rj = if j < np { j } else { j - 1 };
                let si = if ri < p { ri } else { ri + 1 };
                let sj = if rj < p { rj } else { rj + 1 };
                if i == np {
                    assert(t[j] == r[rj]);
                    assert(r[rj] == s[sj]);
                } else if j == np {
                    assert(t[i] == r[ri]);
                    assert(r[ri] == s[si]);
                } else {
                    assert(t[i] == r[ri] && t[j] == r[rj]);
                    assert(r[ri] == s[si] && r[rj] == s[sj]);
                }
            }
        }
    } else if known && s.len() < max {
        let t = s.push((id, quantity));
        assert forall|i: int, j: int|
            #![trigger t[i], t[j]]
            0 <= i < t.len() && 0 <= j < t.len() && i != j implies t[i].0 != t[j].0 by {
            if i < s.len() && j < s.len() {
                assert(t[i] == s[i] && t[j] == s[j]);
            } else if i < s.len() {
                assert(t[i] == s[i]);
            } else {
                assert(t[j] == s[j]);
            }
        }
    }
}

/// Adding to an item that the inventory holds, in a stack of at least one,
/// and then removing the same quantity of it leaves the inventory as it was;
/// both calls succeed.
pub proof fn law_add_then_remove_restores_held(
    s: Seq<Stack>,
    max: usize,
    id: Seq<char>,
    quantity: u32,
)
    requires
        holds_id(s, id),
        s.len() < max,
        s[first_slot(s, id)].1 >= 1,
        s[first_slot(s, id)].1 + quantity <= u32::MAX,
    ensures
        add_item_outcome(s, max, true, id, quantity).0 == Ok::<(), Seq<char>>(()),
        remove_item_outcome(add_item_outcome(s, max, true, id, quantity).1, id, quantity) == (
            Ok::<(), Seq<char>>(()),
            s,
        ),
{
    let w: int = choose|i: int| 0 <= i < s.len() && #[trigger] s[i].0 == id;
    lemma_first_slot_exists(s, id, w);
    let p = first_slot(s, id);
    let t = add_item_outcome(s, max, true, id, quantity).1;
    assert(t == s.update(p, (s[p].0, (s[p].1 + quantity) as u32)));
    assert(is_first_slot(t, id, p));
    lemma_first_slot_unique(t, id, p);
    assert(t[p].1 == s[p].1 + quantity);
    assert(t.update(p, (t[p].0, (t[p].1 - quantity) as u32)) =~= s);
}

/// Where the stacks hold distinct items, moving an item back to the slot it
/// came from undoes a move, and moving it again to the slot it was moved to
/// changes nothing; both calls succeed.
pub proof fn law_move_back_undoes(s: Seq<Stack>, id: Seq<char>, new_position: usize, back: usize)
    requires
        ids_distinct(s),
        back == first_slot(s, id),
        move_item_outcome(s, id, new_position).0 is Ok,
    ensures
        move_item_outcome(move_item_outcome(s, id, new_position).1, id, back) == (
            Ok::<(), Seq<char>>(()),
            s,
        ),
        move_item_outcome(move_item_outcome(s, id, new_position).1, id, new_position) == (
            Ok::<(), Seq<char>>(()),
            move_item_outcome(s, id, new_position).1,
        ),
{
    let w: int = choose|i: int| 0 <= i < s.len() && #[trigger] s[i].0 == id;
    lemma_first_slot_exists(s, id, w);
    let p = first_slot(s, id);
    let np = new_position as int;
    let r = s.remove(p);
    let t = r.insert(np, s[p]);
    s.remove_ensures(p);
    r.insert_ensures(np, s[p]);
    assert(move_item_outcome(s, id, new_position).1 == t);
    assert forall|j: int| 0 <= j < np implies #[trigger] t[j].0 != id by {
        let sj = if j < p { j } else { j + 1 };
        assert(t[j] == r[j]);
        assert(r[j] == s[sj]);
        assert(s[sj].0 != s[p].0);
    }
    assert(is_first_slot(t, id, np));
    lemma_first_slot_unique(t, id, np);
    let u = t.remove(np);
    t.remove_ensures(np);
    assert(u =~= r);
    r.insert_ensures(p, s[p]);
    assert(r.insert(p, s[p]) =~= s);
    assert(t[np] == s[p]);
}

} // verus!
