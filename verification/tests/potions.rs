use pastoral::hud::{inventory_slot_views, quantity_badge, HudData, PLAYER_BAR_MAX_VALUE};
use pastoral::inventory::{create_inventory, create_item, Effect, Inventory, InventoryItem, ItemCatalog};
use pastoral::potions::{
    finish_item_drop, plan_item_drop, potion_kind, pressed_inventory_slot, select_inventory_item,
    DropPlan, PotionKind, SelectedInventorySlot, ITEM_USE_ENERGY_COST,
};

fn catalog() -> ItemCatalog {
    let mut catalog = ItemCatalog::default();
    for (id, effect_id) in [("potion_red", "fire"), ("potion_green", "cure"), ("potion_blue", "frost")] {
        catalog.insert_item(
            format!("{id}_key"),
            create_item(
                id.to_string(),
                id.to_string(),
                String::new(),
                effect_id.to_string(),
                format!("potions/{id}.png"),
            ),
        );
    }
    catalog.insert_effect("fire".to_string(), Effect::DamageToEnemies(30.0f32.to_bits(), 2.0f32.to_bits()));
    catalog.insert_effect("cure".to_string(), Effect::Heal(10.0f32.to_bits()));
    catalog
}

fn inventory() -> Inventory {
    let mut inventory = create_inventory(4);
    for (id, quantity) in [("potion_red_key", 2), ("potion_green_key", 1), ("potion_blue_key", 1), ("mystery", 1)] {
        inventory.items.push(InventoryItem { item_id: id.to_string(), quantity });
    }
    inventory
}

#[test]
fn first_pressed_number_key_wins() {
    assert_eq!(pressed_inventory_slot([false, false, false, false]), None);
    assert_eq!(pressed_inventory_slot([false, true, false, true]), Some(1));
    assert_eq!(pressed_inventory_slot([false, false, false, true]), Some(3));
    assert_eq!(pressed_inventory_slot([true, true, true, true]), Some(0));
}

#[test]
fn selecting_needs_an_item_in_the_slot() {
    let mut inventory = create_inventory(4);
    inventory.items.push(InventoryItem { item_id: "a".to_string(), quantity: 1 });
    let mut selected = SelectedInventorySlot::default();
    assert_eq!(selected.slot_index, None);
    select_inventory_item(Some(0), &inventory, &mut selected);
    assert_eq!(selected.slot_index, Some(0));
    select_inventory_item(None, &inventory, &mut selected);
    assert_eq!(selected.slot_index, Some(0));
    select_inventory_item(Some(2), &inventory, &mut selected);
    assert_eq!(selected.slot_index, None);
}

#[test]
fn drop_plans() {
    let catalog = catalog();
    let inventory = inventory();
    let mut selected = SelectedInventorySlot { slot_index: Some(0) };
    assert!(matches!(plan_item_drop(false, &catalog, &inventory, &mut selected), DropPlan::Nothing));
    assert_eq!(selected.slot_index, Some(0));
    match plan_item_drop(true, &catalog, &inventory, &mut selected) {
        DropPlan::Launch { inventory_item_id, item_id, damage_bits, range_tiles_bits } => {
            assert_eq!(inventory_item_id, "potion_red_key");
            assert_eq!(item_id, "potion_red");
            assert_eq!(f32::from_bits(damage_bits), 30.0);
            assert_eq!(f32::from_bits(range_tiles_bits), 2.0);
        }
        _ => panic!("the red potion should be thrown"),
    }
    assert_eq!(selected.slot_index, Some(0));
    for slot in [1usize, 2, 3, 9] {
        let mut selected = SelectedInventorySlot { slot_index: Some(slot) };
        assert!(matches!(plan_item_drop(true, &catalog, &inventory, &mut selected), DropPlan::Cleared));
        assert_eq!(selected.slot_index, None);
    }
    let mut none = SelectedInventorySlot { slot_index: None };
    assert!(matches!(plan_item_drop(true, &catalog, &inventory, &mut none), DropPlan::Nothing));
}

#[test]
fn a_thrown_potion_uses_one_item() {
    let mut inventory = inventory();
    let mut selected = SelectedInventorySlot { slot_index: Some(0) };
    finish_item_drop(&mut inventory, &mut selected, "potion_red_key");
    assert_eq!(inventory.items[0].quantity, 1);
    assert_eq!(selected.slot_index, None);
    finish_item_drop(&mut inventory, &mut selected, "potion_red_key");
    assert_eq!(inventory.items.len(), 3);
    assert_eq!(inventory.items[0].item_id, "potion_green_key");
    finish_item_drop(&mut inventory, &mut selected, "potion_red_key");
    assert_eq!(inventory.items.len(), 3);
    assert_eq!(ITEM_USE_ENERGY_COST, 10);
}

#[test]
fn potion_colours_by_id() {
    assert_eq!(potion_kind("potion_red"), PotionKind::Red);
    assert_eq!(potion_kind("potion_green"), PotionKind::Green);
    assert_eq!(potion_kind("potion_blue"), PotionKind::Blue);
    assert_eq!(potion_kind("potion_black"), PotionKind::Black);
    assert_eq!(potion_kind("potion_gold"), PotionKind::Other);
}

#[test]
fn hud_slots_mirror_the_inventory() {
    let catalog = catalog();
    let mut inventory = inventory();
    inventory.max_inventory_size = 6;
    let slots = inventory_slot_views(&inventory, &catalog, Some(1));
    assert_eq!(slots.len(), 6);
    assert!(slots[1].selected);
    assert_eq!(slots.iter().filter(|s| s.selected).count(), 1);
    let red = slots[0].stack.as_ref().unwrap();
    assert_eq!(red.quantity, 2);
    assert_eq!(red.sprite_path, Some("potions/potion_red.png".to_string()));
    assert_eq!(slots[3].stack.as_ref().unwrap().sprite_path, None);
    assert!(slots[4].stack.is_none());
    assert!(slots[5].stack.is_none());
    assert!(inventory_slot_views(&inventory, &catalog, None).iter().all(|s| !s.selected));
    let hud = HudData { health: 100, energy: 50 };
    assert!(hud.health <= PLAYER_BAR_MAX_VALUE && hud.energy <= PLAYER_BAR_MAX_VALUE);
}

#[test]
fn quantity_badge_is_the_decimal_quantity() {
    assert_eq!(quantity_badge(0), "0");
    assert_eq!(quantity_badge(7), "7");
    assert_eq!(quantity_badge(42), "42");
    assert_eq!(quantity_badge(u32::MAX), "4294967295");
}
