use pastoral::inventory::{
    create_inventory, create_item, Effect, Inventory, InventoryItem, ItemCatalog,
};

fn catalog_with(ids: &[&str]) -> ItemCatalog {
    let mut catalog = ItemCatalog::default();
    for id in ids {
        catalog.insert_item(
            id.to_string(),
            create_item(
                id.to_string(),
                format!("{id} name"),
                format!("{id} description"),
                format!("{id}_effect"),
                format!("sprites/{id}.png"),
            ),
        );
    }
    catalog
}

fn stacks(inventory: &Inventory) -> Vec<(String, u32)> {
    inventory
        .items
        .iter()
        .map(|item| (item.item_id.clone(), item.quantity))
        .collect()
}

fn inventory_of(max: usize, items: &[(&str, u32)]) -> Inventory {
    let mut inventory = create_inventory(max);
    for (id, quantity) in items {
        inventory.items.push(InventoryItem {
            item_id: id.to_string(),
            quantity: *quantity,
        });
    }
    inventory
}

fn owned(items: &[(&str, u32)]) -> Vec<(String, u32)> {
    items.iter().map(|(id, q)| (id.to_string(), *q)).collect()
}

#[test]
fn create_inventory_is_empty() {
    let inventory = create_inventory(4);
    assert_eq!(inventory.max_inventory_size, 4);
    assert!(inventory.items.is_empty());
}

#[test]
fn create_item_keeps_its_parts() {
    let item = create_item(
        "potion_red".to_string(),
        "Red potion".to_string(),
        "Burns".to_string(),
        "fire".to_string(),
        "potions/red.png".to_string(),
    );
    assert_eq!(item.id, "potion_red");
    assert_eq!(item.name, "Red potion");
    assert_eq!(item.description, "Burns");
    assert_eq!(item.effect_id, "fire");
    assert_eq!(item.sprite_path, "potions/red.png");
}

#[test]
fn catalog_maps_items_and_effects() {
    let mut catalog = catalog_with(&["potion_red"]);
    catalog.insert_effect("fire".to_string(), Effect::DamageToEnemies(25.0f32.to_bits(), 3.0f32.to_bits()));
    assert!(catalog.has_item("potion_red"));
    assert!(!catalog.has_item("potion_blue"));
    assert_eq!(catalog.get_item("potion_red").unwrap().sprite_path, "sprites/potion_red.png");
    assert!(catalog.get_item("potion_blue").is_none());
    match catalog.get_effect("fire") {
        Some(Effect::DamageToEnemies(damage, range)) => {
            assert_eq!(f32::from_bits(*damage), 25.0);
            assert_eq!(f32::from_bits(*range), 3.0);
        }
        _ => panic!("fire should damage enemies"),
    }
    assert!(catalog.get_effect("ice").is_none());
    catalog.insert_effect("fire".to_string(), Effect::Heal(5.0f32.to_bits()));
    assert!(matches!(catalog.get_effect("fire"), Some(Effect::Heal(_))));
}

#[test]
fn effect_clone_is_equal() {
    let effect = Effect::Voyage("cave".to_string(), 1.5f32.to_bits());
    match effect.clone() {
        Effect::Voyage(scene, fade) => {
            assert_eq!(scene, "cave");
            assert_eq!(f32::from_bits(fade), 1.5);
        }
        _ => panic!("clone changed the variant"),
    }
}

#[test]
fn add_item_refuses_an_item_the_catalog_lacks() {
    let catalog = catalog_with(&["potion_red"]);
    let mut inventory = create_inventory(4);
    let result = inventory.add_item(&catalog, "potion_blue".to_string(), 2);
    assert_eq!(
        result,
        Err("Item 'potion_blue' does not exist in the item catalog".to_string())
    );
    assert!(inventory.items.is_empty());
}

#[test]
fn add_item_puts_a_new_item_last() {
    let catalog = catalog_with(&["potion_red", "potion_blue"]);
    let mut inventory = create_inventory(4);
    assert_eq!(inventory.add_item(&catalog, "potion_red".to_string(), 2), Ok(()));
    assert_eq!(inventory.add_item(&catalog, "potion_blue".to_string(), 1), Ok(()));
    assert_eq!(stacks(&inventory), owned(&[("potion_red", 2), ("potion_blue", 1)]));
}

#[test]
fn add_item_grows_the_existing_stack() {
    let catalog = catalog_with(&["potion_red", "potion_blue"]);
    let mut inventory = inventory_of(4, &[("potion_blue", 1), ("potion_red", 2)]);
    assert_eq!(inventory.add_item(&catalog, "potion_red".to_string(), 5), Ok(()));
    assert_eq!(stacks(&inventory), owned(&[("potion_blue", 1), ("potion_red", 7)]));
}

#[test]
fn add_item_refuses_when_full_even_for_a_held_item() {
    let catalog = catalog_with(&["potion_red", "potion_blue"]);
    let mut inventory = inventory_of(2, &[("potion_red", 1), ("potion_blue", 1)]);
    assert_eq!(
        inventory.add_item(&catalog, "potion_red".to_string(), 1),
        Err("Inventory is full".to_string())
    );
    assert_eq!(stacks(&inventory), owned(&[("potion_red", 1), ("potion_blue", 1)]));
}

#[test]
fn add_item_on_zero_capacity_is_full() {
    let catalog = catalog_with(&["potion_red"]);
    let mut inventory = create_inventory(0);
    assert_eq!(
        inventory.add_item(&catalog, "potion_red".to_string(), 1),
        Err("Inventory is full".to_string())
    );
}

#[test]
fn remove_item_refuses_an_absent_item() {
    let mut inventory = inventory_of(4, &[("potion_red", 1)]);
    assert_eq!(
        inventory.remove_item("potion_blue", 1),
        Err("Item not found in inventory".to_string())
    );
    assert_eq!(stacks(&inventory), owned(&[("potion_red", 1)]));
}

#[test]
fn remove_item_refuses_more_than_the_stack() {
    let mut inventory = inventory_of(4, &[("potion_red", 2)]);
    assert_eq!(
        inventory.remove_item("potion_red", 3),
        Err("Not enough quantity to remove".to_string())
    );
    assert_eq!(stacks(&inventory), owned(&[("potion_red", 2)]));
}

#[test]
fn remove_item_takes_from_the_first_stack() {
    let mut inventory = inventory_of(4, &[("potion_blue", 1), ("potion_red", 5)]);
    assert_eq!(inventory.remove_item("potion_red", 2), Ok(()));
    assert_eq!(stacks(&inventory), owned(&[("potion_blue", 1), ("potion_red", 3)]));
}

#[test]
fn remove_item_emptying_a_stack_drops_every_stack_of_the_item() {
    let mut inventory = inventory_of(
        4,
        &[("potion_red", 2), ("potion_blue", 1), ("potion_red", 9)],
    );
    assert_eq!(inventory.remove_item("potion_red", 2), Ok(()));
    assert_eq!(stacks(&inventory), owned(&[("potion_blue", 1)]));
}

#[test]
fn change_items_position_refuses_a_position_out_of_bounds() {
    let mut inventory = inventory_of(4, &[("a", 1), ("b", 1)]);
    assert_eq!(
        inventory.change_items_position("a", 2),
        Err("New position is out of bounds".to_string())
    );
    assert_eq!(stacks(&inventory), owned(&[("a", 1), ("b", 1)]));
}

#[test]
fn change_items_position_refuses_an_absent_item() {
    let mut inventory = inventory_of(4, &[("a", 1), ("b", 1)]);
    assert_eq!(
        inventory.change_items_position("c", 0),
        Err("Item not found in inventory".to_string())
    );
}

#[test]
fn change_items_position_moves_the_stack() {
    let mut inventory = inventory_of(4, &[("a", 1), ("b", 2), ("c", 3)]);
    assert_eq!(inventory.change_items_position("c", 0), Ok(()));
    assert_eq!(stacks(&inventory), owned(&[("c", 3), ("a", 1), ("b", 2)]));
    assert_eq!(inventory.change_items_position("c", 2), Ok(()));
    assert_eq!(stacks(&inventory), owned(&[("a", 1), ("b", 2), ("c", 3)]));
}

#[test]
fn adding_then_removing_restores_the_inventory() {
    let catalog = catalog_with(&["potion_red", "potion_green"]);
    let mut inventory = inventory_of(3, &[("potion_red", 4)]);
    assert_eq!(inventory.add_item(&catalog, "potion_green".to_string(), 3), Ok(()));
    assert_eq!(inventory.remove_item("potion_green", 3), Ok(()));
    assert_eq!(stacks(&inventory), owned(&[("potion_red", 4)]));
}

#[test]
fn refused_requests_leave_the_inventory_and_capacity_holds() {
    let catalog = catalog_with(&["a", "b", "c"]);
    let mut inventory = create_inventory(2);
    assert_eq!(inventory.add_item(&catalog, "a".to_string(), 1), Ok(()));
    assert_eq!(inventory.add_item(&catalog, "b".to_string(), 1), Ok(()));
    assert!(inventory.add_item(&catalog, "c".to_string(), 1).is_err());
    assert!(inventory.items.len() <= inventory.max_inventory_size);
    assert_eq!(stacks(&inventory), owned(&[("a", 1), ("b", 1)]));
}

#[test]
fn full_inventory_refuses_a_held_item_at_its_limit() {
    let catalog = catalog_with(&["potion"]);
    let mut inventory = inventory_of(1, &[("potion", u32::MAX)]);
    assert_eq!(
        inventory.add_item(&catalog, "potion".to_string(), 1),
        Err("Inventory is full".to_string())
    );
    assert_eq!(stacks(&inventory), owned(&[("potion", u32::MAX)]));
}

#[test]
fn unknown_item_is_refused_before_its_quantity_counts() {
    let catalog = catalog_with(&["potion"]);
    let mut inventory = inventory_of(4, &[("ghost", u32::MAX)]);
    assert_eq!(
        inventory.add_item(&catalog, "ghost".to_string(), 1),
        Err("Item 'ghost' does not exist in the item catalog".to_string())
    );
    assert_eq!(stacks(&inventory), owned(&[("ghost", u32::MAX)]));
}

#[test]
fn adding_a_held_item_keeps_one_stack_per_item() {
    let catalog = catalog_with(&["potion", "herb"]);
    let mut inventory = inventory_of(3, &[("potion", 1), ("herb", 2)]);
    assert_eq!(inventory.add_item(&catalog, "herb".to_string(), 3), Ok(()));
    assert_eq!(inventory.add_item(&catalog, "potion".to_string(), 1), Ok(()));
    assert_eq!(stacks(&inventory), owned(&[("potion", 2), ("herb", 5)]));
}

#[test]
fn add_then_remove_of_a_held_item_restores_the_inventory() {
    let catalog = catalog_with(&["potion", "herb"]);
    let mut inventory = inventory_of(3, &[("potion", 2), ("herb", 1)]);
    assert_eq!(inventory.add_item(&catalog, "potion".to_string(), 3), Ok(()));
    assert_eq!(stacks(&inventory), owned(&[("potion", 5), ("herb", 1)]));
    assert_eq!(inventory.remove_item("potion", 3), Ok(()));
    assert_eq!(stacks(&inventory), owned(&[("potion", 2), ("herb", 1)]));
}

#[test]
fn moving_an_item_back_undoes_the_move() {
    let mut inventory = inventory_of(4, &[("a", 1), ("b", 2), ("c", 3)]);
    assert_eq!(inventory.change_items_position("a", 2), Ok(()));
    assert_eq!(stacks(&inventory), owned(&[("b", 2), ("c", 3), ("a", 1)]));
    assert_eq!(inventory.change_items_position("a", 2), Ok(()));
    assert_eq!(stacks(&inventory), owned(&[("b", 2), ("c", 3), ("a", 1)]));
    assert_eq!(inventory.change_items_position("a", 0), Ok(()));
    assert_eq!(stacks(&inventory), owned(&[("a", 1), ("b", 2), ("c", 3)]));
}
