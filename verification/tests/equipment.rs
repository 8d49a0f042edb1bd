use physics_rendering_engine::game::equipment::EquipmentSlots;
use physics_rendering_engine::game::items::{
    item_by_id, item_db, EquipSlotKind, ItemKind, WeaponType, ITEM_COUNT, ITEM_HEALTH_POTION,
    ITEM_IRON_AXE, ITEM_IRON_SWORD, ITEM_LEATHER_BOOTS, ITEM_LEATHER_CAP, ITEM_LEATHER_VEST,
    ITEM_OAK_STAFF, ITEM_STONE,
};

#[test]
fn equip_weapon() {
    let mut eq = EquipmentSlots::default();
    let prev = eq.equip(ITEM_IRON_SWORD).unwrap();
    assert!(prev.is_none());
    assert_eq!(eq.weapon, Some(ITEM_IRON_SWORD));
}

#[test]
fn swap_weapon() {
    let mut eq = EquipmentSlots::default();
    eq.equip(ITEM_IRON_SWORD).unwrap();
    let prev = eq.equip(ITEM_IRON_AXE).unwrap();
    assert_eq!(prev, Some(ITEM_IRON_SWORD));
    assert_eq!(eq.weapon, Some(ITEM_IRON_AXE));
}

#[test]
fn armor_bonuses() {
    let mut eq = EquipmentSlots::default();
    eq.equip(ITEM_LEATHER_VEST).unwrap();
    eq.equip(ITEM_LEATHER_BOOTS).unwrap();
    let bonuses = eq.total_bonuses();
    assert!(bonuses.vitality > 0);
    assert!(eq.total_armor() as f32 > 0.0);
}

#[test]
fn armor_totals_exact() {
    let mut eq = EquipmentSlots::default();
    eq.equip(ITEM_LEATHER_VEST).unwrap();
    eq.equip(ITEM_LEATHER_BOOTS).unwrap();
    eq.equip(ITEM_LEATHER_CAP).unwrap();
    assert_eq!(eq.total_armor(), 8 + 3 + 3);
    let b = eq.total_bonuses();
    assert_eq!(b.vitality, 3 + 0 + 1);
    assert_eq!(b.endurance, 1 + 1 + 0);
    assert_eq!(b.dexterity, 0 + 2 + 1);
    assert_eq!(b.strength, 0);
    // Cached value is handed back unchanged.
    assert_eq!(eq.total_bonuses(), b);
}

#[test]
fn equip_errors() {
    let mut eq = EquipmentSlots::default();
    assert_eq!(eq.equip(999), Err("Unknown item"));
    assert_eq!(eq.equip(ITEM_HEALTH_POTION), Err("Item is not equippable"));
    assert_eq!(eq.equip(ITEM_STONE), Err("Item is not equippable"));
    assert_eq!(eq.weapon, None);
    assert_eq!(eq.total_armor(), 0);
}

#[test]
fn equip_armor_swaps_slot() {
    let mut eq = EquipmentSlots::default();
    assert_eq!(eq.equip(ITEM_LEATHER_CAP), Ok(None));
    assert_eq!(eq.head, Some(ITEM_LEATHER_CAP));
    assert_eq!(eq.equip(ITEM_LEATHER_CAP), Ok(Some(ITEM_LEATHER_CAP)));
}

#[test]
fn unequip_invalidates_cache() {
    let mut eq = EquipmentSlots::default();
    eq.equip(ITEM_LEATHER_VEST).unwrap();
    assert_eq!(eq.total_bonuses().vitality, 3);
    assert_eq!(eq.unequip_slot(EquipSlotKind::Chest), Some(ITEM_LEATHER_VEST));
    assert_eq!(eq.chest, None);
    assert_eq!(eq.total_bonuses().vitality, 0);
    assert_eq!(eq.unequip_slot(EquipSlotKind::Chest), None);
}

#[test]
fn weapon_data_follows_weapon() {
    let mut eq = EquipmentSlots::default();
    assert!(eq.weapon_data().is_none());
    eq.equip(ITEM_OAK_STAFF).unwrap();
    assert_eq!(eq.weapon_data().unwrap().weapon_type, WeaponType::Staff);
}

#[test]
fn item_database_matches_lookup() {
    let db = item_db();
    assert_eq!(db.len(), ITEM_COUNT as usize);
    for def in &db {
        let found = item_by_id(def.id).unwrap();
        assert_eq!(found.name, def.name);
        assert_eq!(found.max_stack, def.max_stack);
    }
    assert!(item_by_id(0).is_none());
    assert_eq!(item_by_id(ITEM_HEALTH_POTION).unwrap().max_stack, 20);
    assert_eq!(item_by_id(ITEM_STONE).unwrap().kind, ItemKind::Material);
}
