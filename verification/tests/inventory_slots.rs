use physics_rendering_engine::game::inventory::{Inventory, ItemStack, INVENTORY_SIZE};
use physics_rendering_engine::game::items::{ITEM_HEALTH_POTION, ITEM_IRON_SWORD, ITEM_STONE};

fn stack(item_id: u16, count: u16) -> Option<ItemStack> {
    Some(ItemStack { item_id, count })
}

#[test]
fn add_tops_up_before_using_empty_slots() {
    let mut slots = [None; INVENTORY_SIZE];
    slots[0] = stack(ITEM_IRON_SWORD, 1);
    slots[2] = stack(ITEM_HEALTH_POTION, 18);
    slots[5] = stack(ITEM_HEALTH_POTION, 19);
    let mut inv = Inventory::from_slots(slots);
    assert_eq!(inv.add(ITEM_HEALTH_POTION, 5), 0);
    let s = inv.slots();
    // The sword is untouched; both potion stacks are topped up to 20 first,
    // and the rest starts a stack in the first empty slot.
    assert_eq!(s[0], stack(ITEM_IRON_SWORD, 1));
    assert_eq!(s[2], stack(ITEM_HEALTH_POTION, 20));
    assert_eq!(s[5], stack(ITEM_HEALTH_POTION, 20));
    assert_eq!(s[1], stack(ITEM_HEALTH_POTION, 2));
}

#[test]
fn leftover_only_when_full() {
    let mut inv = Inventory::default();
    for _ in 0..INVENTORY_SIZE - 1 {
        assert_eq!(inv.add(ITEM_IRON_SWORD, 1), 0);
    }
    // One empty slot left: a stone stack of at most 99 fits there.
    assert_eq!(inv.add(ITEM_STONE, 150), 51);
    let s = inv.slots();
    assert!(s.iter().all(|slot| slot.is_some()));
    assert_eq!(s[INVENTORY_SIZE - 1], stack(ITEM_STONE, 99));
}

#[test]
fn remove_empties_and_leaves_others() {
    let mut slots = [None; INVENTORY_SIZE];
    slots[0] = stack(ITEM_STONE, 3);
    slots[1] = stack(ITEM_IRON_SWORD, 1);
    slots[2] = stack(ITEM_STONE, 5);
    let mut inv = Inventory::from_slots(slots);
    assert_eq!(inv.remove(ITEM_STONE, 4), 4);
    let s = inv.slots();
    assert_eq!(s[0], None);
    assert_eq!(s[1], stack(ITEM_IRON_SWORD, 1));
    assert_eq!(s[2], stack(ITEM_STONE, 4));
    // Nothing asked for, or none held: nothing changes.
    let before = *inv.slots();
    assert_eq!(inv.remove(ITEM_STONE, 0), 0);
    assert_eq!(inv.remove(ITEM_HEALTH_POTION, 7), 0);
    assert_eq!(*inv.slots(), before);
}
