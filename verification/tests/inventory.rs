use physics_rendering_engine::game::inventory::{Inventory, INVENTORY_SIZE};
use physics_rendering_engine::game::items::{
    ITEM_HEALTH_POTION, ITEM_IRON_SWORD, ITEM_MANA_POTION, ITEM_STONE, ITEM_WOOD,
};

#[test]
fn add_and_count() {
    let mut inv = Inventory::default();
    let left = inv.add(ITEM_HEALTH_POTION, 5);
    assert_eq!(left, 0);
    assert_eq!(inv.count(ITEM_HEALTH_POTION), 5);
}

#[test]
fn stacking() {
    let mut inv = Inventory::default();
    inv.add(ITEM_HEALTH_POTION, 15);
    inv.add(ITEM_HEALTH_POTION, 10);
    // max_stack is 20, so 15+10=25 -> one slot of 20 + one of 5
    assert_eq!(inv.count(ITEM_HEALTH_POTION), 25);
}

#[test]
fn non_stackable() {
    let mut inv = Inventory::default();
    inv.add(ITEM_IRON_SWORD, 1);
    inv.add(ITEM_IRON_SWORD, 1);
    assert_eq!(inv.count(ITEM_IRON_SWORD), 2);
    // Should occupy 2 separate slots
    let occupied: usize = inv.slots().iter().filter(|s| s.is_some()).count();
    assert_eq!(occupied, 2);
}

#[test]
fn remove_items() {
    let mut inv = Inventory::default();
    inv.add(ITEM_HEALTH_POTION, 10);
    let removed = inv.remove(ITEM_HEALTH_POTION, 3);
    assert_eq!(removed, 3);
    assert_eq!(inv.count(ITEM_HEALTH_POTION), 7);
}

#[test]
fn full_inventory() {
    let mut inv = Inventory::default();
    // Fill all 24 slots with swords (non-stackable)
    for _ in 0..24 {
        inv.add(ITEM_IRON_SWORD, 1);
    }
    assert!(!inv.has_space());
    let left = inv.add(ITEM_IRON_SWORD, 1);
    assert_eq!(left, 1);
}

#[test]
fn stacks_fill_in_slot_order() {
    let mut inv = Inventory::default();
    assert_eq!(inv.add(ITEM_HEALTH_POTION, 45), 0);
    assert_eq!(inv.slot(0).unwrap().count, 20);
    assert_eq!(inv.slot(1).unwrap().count, 20);
    assert_eq!(inv.slot(2).unwrap().count, 5);
    assert!(inv.slot(3).is_none());
    // Topping up fills the partial stack first.
    assert_eq!(inv.add(ITEM_HEALTH_POTION, 10), 0);
    assert_eq!(inv.slot(2).unwrap().count, 15);
    assert!(inv.slot(3).is_none());
}

#[test]
fn unknown_item_does_not_stack() {
    let mut inv = Inventory::default();
    assert_eq!(inv.add(999, 3), 0);
    assert_eq!(inv.count(999), 3);
    let occupied: usize = inv.slots().iter().filter(|s| s.is_some()).count();
    assert_eq!(occupied, 3);
}

#[test]
fn add_reports_leftover_when_full() {
    let mut inv = Inventory::default();
    // 24 slots of 99 stone.
    let left = inv.add(ITEM_STONE, 3000);
    assert_eq!(left, 3000 - 24 * 99);
    assert_eq!(inv.count(ITEM_STONE), 24 * 99);
    assert!(!inv.has_space());
}

#[test]
fn remove_more_than_held() {
    let mut inv = Inventory::default();
    inv.add(ITEM_WOOD, 4);
    inv.add(ITEM_MANA_POTION, 2);
    let removed = inv.remove(ITEM_WOOD, 10);
    assert_eq!(removed, 4);
    assert_eq!(inv.count(ITEM_WOOD), 0);
    assert_eq!(inv.count(ITEM_MANA_POTION), 2);
    // The emptied slot is free again.
    assert!(inv.slot(0).is_none());
}

#[test]
fn remove_takes_from_first_stacks() {
    let mut inv = Inventory::default();
    inv.add(ITEM_HEALTH_POTION, 30);
    assert_eq!(inv.remove(ITEM_HEALTH_POTION, 25), 25);
    assert!(inv.slot(0).is_none());
    assert_eq!(inv.slot(1).unwrap().count, 5);
}

#[test]
fn add_then_remove_restores_count() {
    let mut inv = Inventory::default();
    inv.add(ITEM_WOOD, 7);
    let before = inv.count(ITEM_WOOD);
    let left = inv.add(ITEM_WOOD, 50);
    assert_eq!(left, 0);
    assert_eq!(inv.remove(ITEM_WOOD, 50), 50);
    assert_eq!(inv.count(ITEM_WOOD), before);
}

#[test]
fn slot_access_out_of_range() {
    let mut inv = Inventory::default();
    assert!(inv.slot(INVENTORY_SIZE).is_none());
    assert!(inv.slot_mut(INVENTORY_SIZE).is_none());
    assert!(inv.has_space());
    if let Some(slot) = inv.slot_mut(4) {
        *slot = None;
    }
    assert!(inv.slot(4).is_none());
}
