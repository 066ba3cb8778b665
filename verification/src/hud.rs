//! What the heads-up display shows: the player's bars and the inventory slots.

use vstd::prelude::*;

use crate::inventory::{Inventory, ItemCatalog};
use crate::text::{decimal, usize_to_decimal};

verus! {

/// The values the player's bars start from.
pub struct HudData {
    pub health: u32,
    pub energy: u32,
}

/// The largest value a bar shows in full.
pub const PLAYER_BAR_MAX_VALUE: u32 = 100;

/// What an inventory slot of the HUD shows.
pub struct SlotView {
    /// Whether the slot is the selected one.
    pub selected: bool,
    /// The slot's item, where it holds one: its quantity, and the sprite of
    /// its definition where the catalog has one.
    pub stack: Option<SlotStack>,
}

/// The item an inventory slot of the HUD shows.
pub struct SlotStack {
    pub quantity: u32,
    pub sprite_path: Option<String>,
}

/// What the slot `slot` of the HUD shows, as plain values: whether it is
/// selected, and for the stack there, its quantity and sprite path.
pub open spec fn slot_shows(
    inventory: &Inventory,
    catalog: &ItemCatalog,
    selected: Option<usize>,
    slot: int,
) -> (bool, Option<(u32, Option<Seq<char>>)>) {
    (
        selected == Some(slot as usize),
        if slot < inventory.stacks().len() {
            let (id, quantity) = inventory.stacks()[slot];
            Some(
                (
                    quantity,
                    if catalog.item_entries().dom().contains(id) {
                        Some(catalog.item_entries()[id].sprite_path@)
                    } else {
                        None
                    },
                ),
            )
        } else {
            None
        },
    )
}

impl SlotView {
    /// The slot as plain values.
    pub open spec fn shows(&self) -> (bool, Option<(u32, Option<Seq<char>>)>) {
        (
            self.selected,
            match &self.stack {
                Some(s) => Some(
                    (
                        s.quantity,
                        match &s.sprite_path {
                            Some(p) => Some(p@),
                            None => None,
                        },
                    ),
                ),
                None => None,
            },
        )
    }
}

/// What each of the inventory's `max_inventory_size` slots shows, in order.
pub fn inventory_slot_views(
    inventory: &Inventory,
    item_catalog: &ItemCatalog,
    selected_slot: Option<usize>,
) -> (slots: Vec<SlotView>)
    ensures
        slots@.len() == inventory.max_inventory_size,
        forall|i: int| 0 <= i < slots@.len() ==> (#[trigger] slots@[i]).shows() == slot_shows(
            inventory,
            item_catalog,
            selected_slot,
            i,
        ),
{
    let mut slots: Vec<SlotView> = Vec::new();
    let mut slot_index: usize = 0;
    while slot_index < inventory.max_inventory_size
        invariant
            slot_index <= inventory.max_inventory_size,
            slots@.len() == slot_index,
            forall|i: int| 0 <= i < slots@.len() ==> (#[trigger] slots@[i]).shows() == slot_shows(
                inventory,
                item_catalog,
                selected_slot,
                i,
            ),
        decreases inventory.max_inventory_size - slot_index,
    {
        let is_selected = match selected_slot {
            Some(s) => s == slot_index,
            None => false,
        };
        let stack = if slot_index < inventory.items.len() {
            let item = &inventory.items[slot_index];
            assert(item@ == inventory.stacks()[slot_index as int]);
            let sprite_path = match item_catalog.get_item(item.item_id.as_str()) {
                Some(definition) => Some(definition.sprite_path.clone()),
                None => None,
            };
            Some(SlotStack { quantity: item.quantity, sprite_path })
        } else {
            None
        };
        let view = SlotView { selected: is_selected, stack };
        assert(view.shows() == slot_shows(inventory, item_catalog, selected_slot, slot_index as int));
        slots.push(view);
        slot_index = slot_index + 1;
    }
    slots
}

/// The HUD shows one slot per place in the inventory; at most one of them is
/// selected, and a slot shows an item exactly where the inventory holds one.
pub proof fn law_hud_mirrors_inventory(
    inventory: &Inventory,
    catalog: &ItemCatalog,
    selected: Option<usize>,
    i: int,
    j: int,
)
    ensures
        slot_shows(inventory, catalog, selected, i).0 && slot_shows(inventory, catalog, selected, j).0
            && 0 <= i && 0 <= j && i <= usize::MAX && j <= usize::MAX ==> i == j,
        (slot_shows(inventory, catalog, selected, i).1 is Some) == (i < inventory.stacks().len()),
{
}


/// The text of a slot's quantity badge: the quantity in decimal.
pub fn quantity_badge(quantity: u32) -> (text: String)
    ensures
        text@ == decimal(quantity as nat),
{
    usize_to_decimal(quantity as usize)
}

} // verus!
