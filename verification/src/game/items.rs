//! Item definitions and the item database.

use vstd::prelude::*;
use crate::game::stats::StatBonuses;

verus! {

pub type ItemId = u16;

#[derive(Debug, Clone, Copy, PartialEq, Eq, Structural)]
pub enum ItemKind {
    Weapon,
    Armor,
    Consumable,
    Material,
}

#[derive(Debug, Clone, Copy, PartialEq, Eq, Structural)]
pub enum EquipSlotKind {
    Weapon,
    Head,
    Chest,
    Legs,
    Boots,
    Accessory,
}

#[derive(Debug, Clone, Copy, PartialEq, Eq, Structural)]
pub enum WeaponType {
    Sword,
    Axe,
    Hammer,
    Staff,
}

/// What the game logic reads of a weapon.
#[derive(Debug, Clone, Copy)]
pub struct WeaponData {
    pub weapon_type: WeaponType,
}

/// What the game logic reads of a piece of armor: its slot, its armor rating in
/// whole points, and the attribute bonuses it grants.
#[derive(Debug, Clone, Copy)]
pub struct ArmorData {
    pub slot: EquipSlotKind,
    pub armor: u32,
    pub bonuses: StatBonuses,
}

#[derive(Debug, Clone, Copy)]
pub struct ItemDef {
    pub id: ItemId,
    pub name: &'static str,
    pub kind: ItemKind,
    pub max_stack: u16,
    pub weapon: Option<WeaponData>,
    pub armor: Option<ArmorData>,
}
pub const ITEM_IRON_SWORD: ItemId = 1;
pub const ITEM_IRON_AXE: ItemId = 2;
pub const ITEM_WARHAMMER: ItemId = 3;
pub const ITEM_OAK_STAFF: ItemId = 4;
pub const ITEM_LEATHER_CAP: ItemId = 5;
pub const ITEM_LEATHER_VEST: ItemId = 6;
pub const ITEM_LEATHER_PANTS: ItemId = 7;
pub const ITEM_LEATHER_BOOTS: ItemId = 8;
pub const ITEM_HEALTH_POTION: ItemId = 9;
pub const ITEM_MANA_POTION: ItemId = 10;
pub const ITEM_STONE: ItemId = 11;
pub const ITEM_WOOD: ItemId = 12;

/// Number of items in the database; item IDs run from 1 to this.
pub const ITEM_COUNT: u16 = 12;

/// The item database.
pub open spec fn item_spec(id: ItemId) -> Option<ItemDef> {
    if id == ITEM_IRON_SWORD {
        Some(ItemDef {
            id: ITEM_IRON_SWORD,
            name: "Iron Sword",
            kind: ItemKind::Weapon,
            max_stack: 1,
            weapon: Some(WeaponData { weapon_type: WeaponType::Sword }),
            armor: None,
        })
    } else if id == ITEM_IRON_AXE {
        Some(ItemDef {
            id: ITEM_IRON_AXE,
            name: "Iron Axe",
            kind: ItemKind::Weapon,
            max_stack: 1,
            weapon: Some(WeaponData { weapon_type: WeaponType::Axe }),
            armor: None,
        })
    } else if id == ITEM_WARHAMMER {
        Some(ItemDef {
            id: ITEM_WARHAMMER,
            name: "Warhammer",
            kind: ItemKind::Weapon,
            max_stack: 1,
            weapon: Some(WeaponData { weapon_type: WeaponType::Hammer }),
            armor: None,
        })
    } else if id == ITEM_OAK_STAFF {
        Some(ItemDef {
            id: ITEM_OAK_STAFF,
            name: "Oak Staff",
            kind: ItemKind::Weapon,
            max_stack: 1,
            weapon: Some(WeaponData { weapon_type: WeaponType::Staff }),
            armor: None,
        })
    } else if id == ITEM_LEATHER_CAP {
        Some(ItemDef {
            id: ITEM_LEATHER_CAP,
            name: "Leather Cap",
            kind: ItemKind::Armor,
            max_stack: 1,
            weapon: None,
            armor: Some(ArmorData {
            slot: EquipSlotKind::Head,
            armor: 3,
            bonuses: StatBonuses { strength: 0, intelligence: 0, dexterity: 1, vitality: 1, endurance: 0 },
        }),
        })
    } else if id == ITEM_LEATHER_VEST {
        Some(ItemDef {
            id: ITEM_LEATHER_VEST,
            name: "Leather Vest",
            kind: ItemKind::Armor,
            max_stack: 1,
            weapon: None,
            armor: Some(ArmorData {
            slot: EquipSlotKind::Chest,
            armor: 8,
            bonuses: StatBonuses { strength: 0, intelligence: 0, dexterity: 0, vitality: 3, endurance: 1 },
        }),
        })
    } else if id == ITEM_LEATHER_PANTS {
        Some(ItemDef {
            id: ITEM_LEATHER_PANTS,
            name: "Leather Pants",
            kind: ItemKind::Armor,
            max_stack: 1,
            weapon: None,
            armor: Some(ArmorData {
            slot: EquipSlotKind::Legs,
            armor: 5,
            bonuses: StatBonuses { strength: 0, intelligence: 0, dexterity: 1, vitality: 2, endurance: 0 },
        }),
        })
    } else if id == ITEM_LEATHER_BOOTS {
        Some(ItemDef {
            id: ITEM_LEATHER_BOOTS,
            name: "Leather Boots",
            kind: ItemKind::Armor,
            max_stack: 1,
            weapon: None,
            armor: Some(ArmorData {
            slot: EquipSlotKind::Boots,
            armor: 3,
            bonuses: StatBonuses { strength: 0, intelligence: 0, dexterity: 2, vitality: 0, endurance: 1 },
        }),
        })
    } else if id == ITEM_HEALTH_POTION {
        Some(ItemDef {
            id: ITEM_HEALTH_POTION,
            name: "Health Potion",
            kind: ItemKind::Consumable,
            max_stack: 20,
            weapon: None,
            armor: None,
        })
    } else if id == ITEM_MANA_POTION {
        Some(ItemDef {
            id: ITEM_MANA_POTION,
            name: "Mana Potion",
            kind: ItemKind::Consumable,
            max_stack: 20,
            weapon: None,
            armor: None,
        })
    } else if id == ITEM_STONE {
        Some(ItemDef {
            id: ITEM_STONE,
            name: "Stone",
            kind: ItemKind::Material,
            max_stack: 99,
            weapon: None,
            armor: None,
        })
    } else if id == ITEM_WOOD {
        Some(ItemDef {
            id: ITEM_WOOD,
            name: "Wood",
            kind: ItemKind::Material,
            max_stack: 99,
            weapon: None,
            armor: None,
        })
    } else {
        None
    }
}

/// Stack limit used for an item: its own limit when the database knows it, 1 otherwise.
pub open spec fn max_stack_of(id: ItemId) -> u16 {
    match item_spec(id) {
        Some(d) => d.max_stack,
        None => 1,
    }
}

pub fn item_by_id(id: ItemId) -> (r: Option<ItemDef>)
    ensures
        r == item_spec(id),
{
    if id == ITEM_IRON_SWORD {
        Some(ItemDef {
            id: ITEM_IRON_SWORD,
            name: "Iron Sword",
            kind: ItemKind::Weapon,
            max_stack: 1,
            weapon: Some(WeaponData { weapon_type: WeaponType::Sword }),
            armor: None,
        })
    } else if id == ITEM_IRON_AXE {
        Some(ItemDef {
            id: ITEM_IRON_AXE,
            name: "Iron Axe",
            kind: ItemKind::Weapon,
            max_stack: 1,
            weapon: Some(WeaponData { weapon_type: WeaponType::Axe }),
            armor: None,
        })
    } else if id == ITEM_WARHAMMER {
        Some(ItemDef {
            id: ITEM_WARHAMMER,
            name: "Warhammer",
            kind: ItemKind::Weapon,
            max_stack: 1,
            weapon: Some(WeaponData { weapon_type: WeaponType::Hammer }),
            armor: None,
        })
    } else if id == ITEM_OAK_STAFF {
        Some(ItemDef {
            id: ITEM_OAK_STAFF,
            name: "Oak Staff",
            kind: ItemKind::Weapon,
            max_stack: 1,
            weapon: Some(WeaponData { weapon_type: WeaponType::Staff }),
            armor: None,
        })
    } else if id == ITEM_LEATHER_CAP {
        Some(ItemDef {
            id: ITEM_LEATHER_CAP,
            name: "Leather Cap",
            kind: ItemKind::Armor,
            max_stack: 1,
            weapon: None,
            armor: Some(ArmorData {
            slot: EquipSlotKind::Head,
            armor: 3,
            bonuses: StatBonuses { strength: 0, intelligence: 0, dexterity: 1, vitality: 1, endurance: 0 },
        }),
        })
    } else if id == ITEM_LEATHER_VEST {
        Some(ItemDef {
            id: ITEM_LEATHER_VEST,
            name: "Leather Vest",
            kind: ItemKind::Armor,
            max_stack: 1,
            weapon: None,
            armor: Some(ArmorData {
            slot: EquipSlotKind::Chest,
            armor: 8,
            bonuses: StatBonuses { strength: 0, intelligence: 0, dexterity: 0, vitality: 3, endurance: 1 },
        }),
        })
    } else if id == ITEM_LEATHER_PANTS {
        Some(ItemDef {
            id: ITEM_LEATHER_PANTS,
            name: "Leather Pants",
            kind: ItemKind::Armor,
            max_stack: 1,
            weapon: None,
            armor: Some(ArmorData {
            slot: EquipSlotKind::Legs,
            armor: 5,
            bonuses: StatBonuses { strength: 0, intelligence: 0, dexterity: 1, vitality: 2, endurance: 0 },
        }),
        })
    } else if id == ITEM_LEATHER_BOOTS {
        Some(ItemDef {
            id: ITEM_LEATHER_BOOTS,
            name: "Leather Boots",
            kind: ItemKind::Armor,
            max_stack: 1,
            weapon: None,
            armor: Some(ArmorData {
            slot: EquipSlotKind::Boots,
            armor: 3,
            bonuses: StatBonuses { strength: 0, intelligence: 0, dexterity: 2, vitality: 0, endurance: 1 },
        }),
        })
    } else if id == ITEM_HEALTH_POTION {
        Some(ItemDef {
            id: ITEM_HEALTH_POTION,
            name: "Health Potion",
            kind: ItemKind::Consumable,
            max_stack: 20,
            weapon: None,
            armor: None,
        })
    } else if id == ITEM_MANA_POTION {
        Some(ItemDef {
            id: ITEM_MANA_POTION,
            name: "Mana Potion",
            kind: ItemKind::Consumable,
            max_stack: 20,
            weapon: None,
            armor: None,
        })
    } else if id == ITEM_STONE {
        Some(ItemDef {
            id: ITEM_STONE,
            name: "Stone",
            kind: ItemKind::Material,
            max_stack: 99,
            weapon: None,
            armor: None,
        })
    } else if id == ITEM_WOOD {
        Some(ItemDef {
            id: ITEM_WOOD,
            name: "Wood",
            kind: ItemKind::Material,
            max_stack: 99,
            weapon: None,
            armor: None,
        })
    } else {
        None
    }
}

/// All item definitions, in ID order.
pub fn item_db() -> (r: Vec<ItemDef>)
    ensures
        r@.len() == ITEM_COUNT,
        forall|i: int| 0 <= i < r@.len() ==> item_spec((i + 1) as ItemId) == Some(#[trigger] r@[i]),
{
    let mut db: Vec<ItemDef> = Vec::new();
    let mut id: u16 = 1;
    while id <= ITEM_COUNT
        invariant
            1 <= id <= ITEM_COUNT + 1,
            db@.len() == id - 1,
            forall|i: int| 0 <= i < db@.len() ==> item_spec((i + 1) as ItemId) == Some(#[trigger] db@[i]),
        decreases ITEM_COUNT + 1 - id,
    {
        let d = item_by_id(id);
        match d {
            Some(def) => db.push(def),
            None => {},
        }
        id = id + 1;
    }
    db
}

} // verus!
