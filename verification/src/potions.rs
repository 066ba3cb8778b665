//! Choosing an inventory item and throwing the selected potion.

use vstd::prelude::*;

use crate::inventory::{Effect, Inventory, ItemCatalog, remove_item_outcome};
use crate::text::str_eq;

verus! {

/// The energy that throwing a potion costs the player.
pub const ITEM_USE_ENERGY_COST: u32 = 10;

/// The inventory slot the player has chosen, if any.
pub struct SelectedInventorySlot {
    pub slot_index: Option<usize>,
}

impl Default for SelectedInventorySlot {
    fn default() -> (s: Self)
        ensures
            s.slot_index is None,
    {
        SelectedInventorySlot { slot_index: None }
    }
}

/// The first index whose key was just pressed, among the keys of slots 1 to 4.
pub open spec fn first_pressed(just_pressed: Seq<bool>) -> Option<usize>
    decreases just_pressed.len(),
{
    if just_pressed.len() == 0 {
        None
    } else {
        match first_pressed(just_pressed.drop_last()) {
            Some(i) => Some(i),
            None => if just_pressed.last() {
                Some((just_pressed.len() - 1) as usize)
            } else {
                None
            },
        }
    }
}

/// The slot whose number key (1 to 4) was just pressed, the first one where
/// several were; `just_pressed[k]` tells whether the key of slot `k + 1` was.
pub fn pressed_inventory_slot(just_pressed: [bool; 4]) -> (r: Option<usize>)
    ensures
        r == first_pressed(just_pressed@),
{
    let ghost keys = just_pressed@;
    let mut i: usize = 0;
    assert(keys.take(0) =~= Seq::<bool>::empty());
    while i < 4
        invariant
            keys == just_pressed@,
            keys.len() == 4,
            i <= 4,
            first_pressed(keys.take(i as int)) is None,
        decreases 4 - i,
    {
        assert(keys.take(i as int + 1).drop_last() =~= keys.take(i as int));
        if just_pressed[i] {
            proof {
                lemma_first_pressed_persists(keys, i as int + 1);
            }
            return Some(i);
        }
        i = i + 1;
    }
    assert(keys.take(4) =~= keys);
    None
}

/// Once some first keys hold a pressed one, the first pressed key of all of
/// them is that one.
pub proof fn lemma_first_pressed_persists(keys: Seq<bool>, k: int)
    requires
        0 <= k <= keys.len(),
        first_pressed(keys.take(k)) is Some,
    ensures
        first_pressed(keys) == first_pressed(keys.take(k)),
    decreases keys.len() - k,
{
    if k == keys.len() {
        assert(keys.take(k) =~= keys);
    } else {
        assert(keys.take(k + 1).drop_last() =~= keys.take(k));
        lemma_first_pressed_persists(keys, k + 1);
    }
}

/// The selection after the key of slot `pressed` was pressed, where the
/// inventory holds `stacks` stacks: that slot where it holds an item, else
/// none; with no key pressed, the selection stays.
pub open spec fn selection_after(selected: Option<usize>, pressed: Option<usize>, stacks: nat) -> Option<usize> {
    match pressed {
        None => selected,
        Some(slot) => if slot < stacks {
            Some(slot)
        } else {
            None
        },
    }
}

/// Selects the inventory slot whose key was pressed.
pub fn select_inventory_item(
    pressed_slot: Option<usize>,
    inventory: &Inventory,
    selected_slot: &mut SelectedInventorySlot,
)
    ensures
        final(selected_slot).slot_index == selection_after(
            old(selected_slot).slot_index,
            pressed_slot,
            inventory.stacks().len(),
        ),
{
    let slot_index = match pressed_slot {
        Some(slot_index) => slot_index,
        None => {
            return;
        },
    };
    selected_slot.slot_index = if slot_index < inventory.items.len() {
        Some(slot_index)
    } else {
        None
    };
}

/// What a left click with an item selected leads to.
pub enum DropPlan {
    /// Nothing happens.
    Nothing,
    /// The selection is cleared: the slot is empty, or its item is not a
    /// potion that damages enemies.
    Cleared,
    /// The potion is thrown, where the cursor points and the player has the
    /// energy: the inventory's item id, the catalog's item id, and the damage
    /// and range in tiles as `f32` bit patterns.
    Launch { inventory_item_id: String, item_id: String, damage_bits: u32, range_tiles_bits: u32 },
}

/// A drop plan as plain values.
pub enum DropPlanView {
    Nothing,
    Cleared,
    Launch(Seq<char>, Seq<char>, u32, u32),
}

impl View for DropPlan {
    type V = DropPlanView;

    open spec fn view(&self) -> DropPlanView {
        match self {
            DropPlan::Nothing => DropPlanView::Nothing,
            DropPlan::Cleared => DropPlanView::Cleared,
            DropPlan::Launch { inventory_item_id, item_id, damage_bits, range_tiles_bits } => DropPlanView::Launch(
                inventory_item_id@,
                item_id@,
                *damage_bits,
                *range_tiles_bits,
            ),
        }
    }
}

/// What a click leads to: nothing without a left click or a selection; else
/// the selected slot's item, looked up in the catalog, is thrown where its
/// effect damages enemies, and otherwise the selection is cleared.
pub open spec fn drop_plan_of(
    clicked: bool,
    selected: Option<usize>,
    inventory: &Inventory,
    catalog: &ItemCatalog,
) -> DropPlanView {
    if !clicked {
        DropPlanView::Nothing
    } else {
        match selected {
            None => DropPlanView::Nothing,
            Some(slot) => if slot >= inventory.stacks().len() {
                DropPlanView::Cleared
            } else {
                let id = inventory.stacks()[slot as int].0;
                if !catalog.item_entries().dom().contains(id) {
                    DropPlanView::Cleared
                } else {
                    let item = catalog.item_entries()[id];
                    if catalog.effect_entries().dom().contains(item.effect_id@) {
                        match catalog.effect_entries()[item.effect_id@] {
                            Effect::DamageToEnemies(damage, range) => DropPlanView::Launch(
                                id,
                                item.id@,
                                damage,
                                range,
                            ),
                            _ => DropPlanView::Cleared,
                        }
                    } else {
                        DropPlanView::Cleared
                    }
                }
            },
        }
    }
}

/// Decides what a click does with the selected item; clears the selection
/// where the plan says so.
pub fn plan_item_drop(
    left_just_pressed: bool,
    item_catalog: &ItemCatalog,
    inventory: &Inventory,
    selected_slot: &mut SelectedInventorySlot,
) -> (plan: DropPlan)
    ensures
        plan@ == drop_plan_of(left_just_pressed, old(selected_slot).slot_index, inventory, item_catalog),
        plan@ is Cleared ==> final(selected_slot).slot_index is None,
        !(plan@ is Cleared) ==> final(selected_slot).slot_index == old(selected_slot).slot_index,
{
    if !left_just_pressed {
        return DropPlan::Nothing;
    }
    let slot_index = match selected_slot.slot_index {
        Some(slot_index) => slot_index,
        None => {
            return DropPlan::Nothing;
        },
    };
    if slot_index >= inventory.items.len() {
        selected_slot.slot_index = None;
        return DropPlan::Cleared;
    }
    let item_id = inventory.items[slot_index].item_id.clone();
    assert(item_id@ == inventory.stacks()[slot_index as int].0);
    let item = match item_catalog.get_item(item_id.as_str()) {
        Some(item) => item,
        None => {
            selected_slot.slot_index = None;
            return DropPlan::Cleared;
        },
    };
    match item_catalog.get_effect(item.effect_id.as_str()) {
        Some(Effect::DamageToEnemies(damage, range_tiles)) => DropPlan::Launch {
            inventory_item_id: item_id,
            item_id: item.id.clone(),
            damage_bits: *damage,
            range_tiles_bits: *range_tiles,
        },
        _ => {
            selected_slot.slot_index = None;
            DropPlan::Cleared
        },
    }
}

/// After a potion was thrown: one of the item leaves the inventory (a refused
/// removal is ignored) and the selection is cleared.
pub fn finish_item_drop(
    inventory: &mut Inventory,
    selected_slot: &mut SelectedInventorySlot,
    inventory_item_id: &str,
)
    ensures
        final(inventory).stacks() == remove_item_outcome(old(inventory).stacks(), inventory_item_id@, 1).1,
        final(inventory).max_inventory_size == old(inventory).max_inventory_size,
        final(selected_slot).slot_index is None,
{
    let _ = inventory.remove_item(inventory_item_id, 1);
    selected_slot.slot_index = None;
}

/// The colours of a potion, by its item id.
#[derive(Debug, Clone, Copy, PartialEq, Eq, Structural)]
pub enum PotionKind {
    Red,
    Green,
    Blue,
    Black,
    Other,
}

/// The potion colours of the item `item_id`.
pub open spec fn potion_kind_of(item_id: Seq<char>) -> PotionKind {
    if item_id == "potion_red"@ {
        PotionKind::Red
    } else if item_id == "potion_green"@ {
        PotionKind::Green
    } else if item_id == "potion_blue"@ {
        PotionKind::Blue
    } else if item_id == "potion_black"@ {
        PotionKind::Black
    } else {
        PotionKind::Other
    }
}

/// The potion colours of the item `item_id`.
pub fn potion_kind(item_id: &str) -> (k: PotionKind)
    ensures
        k == potion_kind_of(item_id@),
{
    if str_eq(item_id, "potion_red") {
        PotionKind::Red
    } else if str_eq(item_id, "potion_green") {
        PotionKind::Green
    } else if str_eq(item_id, "potion_blue") {
        PotionKind::Blue
    } else if str_eq(item_id, "potion_black") {
        PotionKind::Black
    } else {
        PotionKind::Other
    }
}

/// A key press never selects an empty slot: after it, the selection is none or
/// a slot that holds an item, and without a key press it stays.
pub proof fn law_selection_holds_an_item(selected: Option<usize>, pressed: Option<usize>, stacks: nat)
    ensures
        pressed is Some ==> match selection_after(selected, pressed, stacks) {
            Some(slot) => slot < stacks,
            None => true,
        },
        pressed is None ==> selection_after(selected, pressed, stacks) == selected,
{
}


/// Pressing the key of a slot selects that slot exactly where the inventory
/// holds a stack there, and nothing otherwise, whatever was selected before:
/// two selections before the press give the same selection after it.
pub proof fn law_key_press_selects_its_slot(
    before: Option<usize>,
    other_before: Option<usize>,
    slot: usize,
    stacks: nat,
)
    ensures
        selection_after(before, Some(slot), stacks) == selection_after(other_before, Some(slot), stacks),
        (selection_after(before, Some(slot), stacks) == Some(slot)) <==> slot < stacks,
        selection_after(before, Some(slot), stacks) is None <==> slot >= stacks,
{
}

/// A click throws only a potion whose effect damages enemies: a launch names
/// the selected slot's item, its catalog entry, and the damage and range of
/// that entry's effect, which is `DamageToEnemies`; where the selected slot's
/// item has an effect of any other kind, the click clears the selection.
pub proof fn law_only_damaging_potions_are_thrown(
    clicked: bool,
    selected: Option<usize>,
    inventory: &Inventory,
    catalog: &ItemCatalog,
)
    ensures
        drop_plan_of(clicked, selected, inventory, catalog) matches DropPlanView::Launch(
            inventory_id,
            item_id,
            damage,
            range,
        ) ==> {
            &&& clicked
            &&& selected matches Some(slot)
            &&& slot < inventory.stacks().len()
            &&& inventory.stacks()[slot as int].0 == inventory_id
            &&& catalog.item_entries().dom().contains(inventory_id)
            &&& catalog.item_entries()[inventory_id].id@ == item_id
            &&& catalog.effect_entries().dom().contains(catalog.item_entries()[inventory_id].effect_id@)
            &&& catalog.effect_entries()[catalog.item_entries()[inventory_id].effect_id@]
                == Effect::DamageToEnemies(damage, range)
        },
        ({
            &&& clicked
            &&& selected is Some
            &&& selected->0 < inventory.stacks().len()
            &&& catalog.item_entries().dom().contains(inventory.stacks()[selected->0 as int].0)
            &&& catalog.effect_entries().dom().contains(
                catalog.item_entries()[inventory.stacks()[selected->0 as int].0].effect_id@,
            )
            &&& !(catalog.effect_entries()[catalog.item_entries()[inventory.stacks()[selected->0 as int].0].effect_id@] is DamageToEnemies)
        }) ==> drop_plan_of(clicked, selected, inventory, catalog) is Cleared,
{
}

} // verus!
