//! Equipment slots and stat bonus aggregation.

use vstd::prelude::*;
use crate::game::items::{ArmorData, EquipSlotKind, ItemDef, ItemId, ItemKind, WeaponData, item_by_id, item_spec};
use crate::game::stats::StatBonuses;

verus! {

#[derive(Debug, Clone, Copy)]
pub struct EquipmentSlots {
    pub weapon: Option<ItemId>,
    pub head: Option<ItemId>,
    pub chest: Option<ItemId>,
    pub legs: Option<ItemId>,
    pub boots: Option<ItemId>,
    pub accessory1: Option<ItemId>,
    pub accessory2: Option<ItemId>,
    /// Cached stat bonuses, invalidated on equip/unequip. Code that changes
    /// the slots directly must clear it.
    pub cached_bonuses: Option<StatBonuses>,
}

/// The armor data of the item in a slot, if the slot holds a piece of armor.
pub open spec fn armor_in(slot: Option<ItemId>) -> Option<ArmorData> {
    match slot {
        Some(id) => match item_spec(id) {
            Some(d) => d.armor,
            None => None,
        },
        None => None,
    }
}

pub open spec fn bonuses_in(slot: Option<ItemId>) -> StatBonuses {
    match armor_in(slot) {
        Some(a) => a.bonuses,
        None => StatBonuses { strength: 0, intelligence: 0, dexterity: 0, vitality: 0, endurance: 0 },
    }
}

pub open spec fn armor_points_in(slot: Option<ItemId>) -> int {
    match armor_in(slot) {
        Some(a) => a.armor as int,
        None => 0,
    }
}

pub open spec fn sum_bonuses(a: StatBonuses, b: StatBonuses) -> StatBonuses {
    StatBonuses {
        strength: (a.strength + b.strength) as i32,
        intelligence: (a.intelligence + b.intelligence) as i32,
        dexterity: (a.dexterity + b.dexterity) as i32,
        vitality: (a.vitality + b.vitality) as i32,
        endurance: (a.endurance + b.endurance) as i32,
    }
}

/// Bonuses of all the armor worn: head, chest, legs, boots and both accessories.
pub open spec fn worn_bonuses(e: EquipmentSlots) -> StatBonuses {
    sum_bonuses(
        sum_bonuses(
            sum_bonuses(
                sum_bonuses(sum_bonuses(bonuses_in(e.head), bonuses_in(e.chest)), bonuses_in(e.legs)),
                bonuses_in(e.boots),
            ),
            bonuses_in(e.accessory1),
        ),
        bonuses_in(e.accessory2),
    )
}

/// Armor points of all the armor worn.
pub open spec fn worn_armor(e: EquipmentSlots) -> int {
    armor_points_in(e.head) + armor_points_in(e.chest) + armor_points_in(e.legs) + armor_points_in(e.boots)
        + armor_points_in(e.accessory1) + armor_points_in(e.accessory2)
}

/// The same items in the same slots.
pub open spec fn same_slots(a: EquipmentSlots, b: EquipmentSlots) -> bool {
    &&& a.weapon == b.weapon
    &&& a.head == b.head
    &&& a.chest == b.chest
    &&& a.legs == b.legs
    &&& a.boots == b.boots
    &&& a.accessory1 == b.accessory1
    &&& a.accessory2 == b.accessory2
}

pub open spec fn small_bonuses(b: StatBonuses, bound: int) -> bool {
    &&& 0 <= b.strength <= bound
    &&& 0 <= b.intelligence <= bound
    &&& 0 <= b.dexterity <= bound
    &&& 0 <= b.vitality <= bound
    &&& 0 <= b.endurance <= bound
}

proof fn lemma_armor_small(slot: Option<ItemId>)
    ensures
        small_bonuses(bonuses_in(slot), 3),
        0 <= armor_points_in(slot) <= 8,
{
}

proof fn lemma_sum_small(a: StatBonuses, b: StatBonuses, ba: int, bb: int)
    requires
        small_bonuses(a, ba),
        small_bonuses(b, bb),
        ba + bb <= 100,
    ensures
        small_bonuses(sum_bonuses(a, b), ba + bb),
{
}

/// The result of equipping `item_id` on `e`, and the item it displaced.
pub open spec fn equip_spec(e: EquipmentSlots, item_id: ItemId) -> Result<(EquipmentSlots, Option<ItemId>), Seq<char>> {
    match item_spec(item_id) {
        None => Err("Unknown item"@),
        Some(d) => match d.kind {
            ItemKind::Weapon => Ok((EquipmentSlots { weapon: Some(item_id), cached_bonuses: None, ..e }, e.weapon)),
            ItemKind::Armor => match d.armor {
                None => Err("Armor data missing"@),
                Some(a) => match a.slot {
                    EquipSlotKind::Head => Ok((EquipmentSlots { head: Some(item_id), cached_bonuses: None, ..e }, e.head)),
                    EquipSlotKind::Chest => Ok((EquipmentSlots { chest: Some(item_id), cached_bonuses: None, ..e }, e.chest)),
                    EquipSlotKind::Legs => Ok((EquipmentSlots { legs: Some(item_id), cached_bonuses: None, ..e }, e.legs)),
                    EquipSlotKind::Boots => Ok((EquipmentSlots { boots: Some(item_id), cached_bonuses: None, ..e }, e.boots)),
                    EquipSlotKind::Accessory => Ok((EquipmentSlots { accessory1: Some(item_id), cached_bonuses: None, ..e }, e.accessory1)),
                    EquipSlotKind::Weapon => Err("Armor cannot go in weapon slot"@),
                },
            },
            _ => Err("Item is not equippable"@),
        },
    }
}

/// The item in the slot of kind `slot` (the first accessory slot for
/// accessories).
pub open spec fn slot_item(e: EquipmentSlots, slot: EquipSlotKind) -> Option<ItemId> {
    match slot {
        EquipSlotKind::Weapon => e.weapon,
        EquipSlotKind::Head => e.head,
        EquipSlotKind::Chest => e.chest,
        EquipSlotKind::Legs => e.legs,
        EquipSlotKind::Boots => e.boots,
        EquipSlotKind::Accessory => e.accessory1,
    }
}

/// Equipping puts an item into its own slot: a weapon into the weapon slot, a
/// piece of armor into the slot its armor data names. The item that was there
/// comes back, and every other slot keeps its item.
pub proof fn law_equip_fills_own_slot(e: EquipmentSlots, item_id: ItemId, d: ItemDef, slot: EquipSlotKind)
    requires
        item_spec(item_id) == Some(d),
        (d.kind == ItemKind::Weapon && slot == EquipSlotKind::Weapon) || (d.kind == ItemKind::Armor && d.armor is Some
            && d.armor->Some_0.slot == slot && slot != EquipSlotKind::Weapon),
    ensures
        equip_spec(e, item_id) is Ok,
        ({
            let (e2, prev) = equip_spec(e, item_id)->Ok_0;
            &&& slot_item(e2, slot) == Some(item_id)
            &&& prev == slot_item(e, slot)
            &&& forall|other: EquipSlotKind| other != slot ==> #[trigger] slot_item(e2, other) == slot_item(e, other)
            &&& e2.accessory2 == e.accessory2
        }),
{
}

impl Default for EquipmentSlots {
    fn default() -> (r: Self)
        ensures
            r.weapon is None && r.head is None && r.chest is None && r.legs is None && r.boots is None
                && r.accessory1 is None && r.accessory2 is None,
            r.cache() is None,
    {
        EquipmentSlots {
            weapon: None,
            head: None,
            chest: None,
            legs: None,
            boots: None,
            accessory1: None,
            accessory2: None,
            cached_bonuses: None,
        }
    }
}

impl EquipmentSlots {
    /// The cached bonuses, if any.
    pub open spec fn cache(self) -> Option<StatBonuses> {
        self.cached_bonuses
    }

    /// The cache is empty or matches the armor worn.
    pub open spec fn cache_valid(self) -> bool {
        self.cache() is None || self.cache() == Some(worn_bonuses(self))
    }

    /// Try to equip an item. Returns the previously equipped item (if any) to put back in inventory.
    pub fn equip(&mut self, item_id: ItemId) -> (r: Result<Option<ItemId>, &'static str>)
        ensures
            match equip_spec(*old(self), item_id) {
                Ok((e, prev)) => r == Ok::<Option<ItemId>, &'static str>(prev) && same_slots(*final(self), e) && final(self).cache() is None,
                Err(msg) => r is Err && r->Err_0@ == msg && *final(self) == *old(self),
            },
    {
        let def = match item_by_id(item_id) {
            Some(d) => d,
            None => return Err("Unknown item"),
        };
        match def.kind {
            ItemKind::Weapon => {
                let prev = self.weapon;
                self.weapon = Some(item_id);
                self.cached_bonuses = None;
                Ok(prev)
            },
            ItemKind::Armor => {
                let armor = match def.armor {
                    Some(a) => a,
                    None => return Err("Armor data missing"),
                };
                let prev = match armor.slot {
                    EquipSlotKind::Head => {
                        let p = self.head;
                        self.head = Some(item_id);
                        p
                    },
                    EquipSlotKind::Chest => {
                        let p = self.chest;
                        self.chest = Some(item_id);
                        p
                    },
                    EquipSlotKind::Legs => {
                        let p = self.legs;
                        self.legs = Some(item_id);
                        p
                    },
                    EquipSlotKind::Boots => {
                        let p = self.boots;
                        self.boots = Some(item_id);
                        p
                    },
                    EquipSlotKind::Accessory => {
                        let p = self.accessory1;
                        self.accessory1 = Some(item_id);
                        p
                    },
                    EquipSlotKind::Weapon => return Err("Armor cannot go in weapon slot"),
                };
                self.cached_bonuses = None;
                Ok(prev)
            },
            _ => Err("Item is not equippable"),
        }
    }

    /// Unequip from a specific slot. Returns the item that was there.
    pub fn unequip_slot(&mut self, slot: EquipSlotKind) -> (r: Option<ItemId>)
        ensures
            r == (match slot {
                EquipSlotKind::Weapon => old(self).weapon,
                EquipSlotKind::Head => old(self).head,
                EquipSlotKind::Chest => old(self).chest,
                EquipSlotKind::Legs => old(self).legs,
                EquipSlotKind::Boots => old(self).boots,
                EquipSlotKind::Accessory => old(self).accessory1,
            }),
            same_slots(*final(self), match slot {
                EquipSlotKind::Weapon => EquipmentSlots { weapon: None, ..*old(self) },
                EquipSlotKind::Head => EquipmentSlots { head: None, ..*old(self) },
                EquipSlotKind::Chest => EquipmentSlots { chest: None, ..*old(self) },
                EquipSlotKind::Legs => EquipmentSlots { legs: None, ..*old(self) },
                EquipSlotKind::Boots => EquipmentSlots { boots: None, ..*old(self) },
                EquipSlotKind::Accessory => EquipmentSlots { accessory1: None, ..*old(self) },
            }),
            r is Some ==> final(self).cache() is None,
            r is None ==> final(self).cache() == old(self).cache(),
    {
        let item = match slot {
            EquipSlotKind::Weapon => {
                let p = self.weapon;
                self.weapon = None;
                p
            },
            EquipSlotKind::Head => {
                let p = self.head;
                self.head = None;
                p
            },
            EquipSlotKind::Chest => {
                let p = self.chest;
                self.chest = None;
                p
            },
            EquipSlotKind::Legs => {
                let p = self.legs;
                self.legs = None;
                p
            },
            EquipSlotKind::Boots => {
                let p = self.boots;
                self.boots = None;
                p
            },
            EquipSlotKind::Accessory => {
                let p = self.accessory1;
                self.accessory1 = None;
                p
            },
        };
        if item.is_some() {
            self.cached_bonuses = None;
        }
        item
    }

    /// Sum all stat bonuses from equipped armor. Returns cached value if equipment hasn't changed.
    pub fn total_bonuses(&mut self) -> (r: StatBonuses)
        ensures
            r == (match old(self).cache() {
                Some(c) => c,
                None => worn_bonuses(*old(self)),
            }),
            same_slots(*final(self), *old(self)),
            final(self).cache() == Some(r),
            old(self).cache_valid() ==> r == worn_bonuses(*old(self)) && final(self).cache_valid(),
    {
        match self.cached_bonuses {
            Some(cached) => {
                return cached;
            },
            None => {},
        }
        let mut total = StatBonuses { strength: 0, intelligence: 0, dexterity: 0, vitality: 0, endurance: 0 };
        proof {
            lemma_armor_small(self.head);
            lemma_armor_small(self.chest);
            lemma_armor_small(self.legs);
            lemma_armor_small(self.boots);
            lemma_armor_small(self.accessory1);
            lemma_armor_small(self.accessory2);
        }
        add_armor_bonuses(&mut total, self.head, 0);
        add_armor_bonuses(&mut total, self.chest, 3);
        add_armor_bonuses(&mut total, self.legs, 6);
        add_armor_bonuses(&mut total, self.boots, 9);
        add_armor_bonuses(&mut total, self.accessory1, 12);
        add_armor_bonuses(&mut total, self.accessory2, 15);
        self.cached_bonuses = Some(total);
        total
    }

    /// Get total armor value from all equipped pieces, in whole armor points.
    pub fn total_armor(&self) -> (r: u32)
        ensures
            r == worn_armor(*self),
    {
        proof {
            lemma_armor_small(self.head);
            lemma_armor_small(self.chest);
            lemma_armor_small(self.legs);
            lemma_armor_small(self.boots);
            lemma_armor_small(self.accessory1);
            lemma_armor_small(self.accessory2);
        }
        armor_points(self.head) + armor_points(self.chest) + armor_points(self.legs) + armor_points(self.boots)
            + armor_points(self.accessory1) + armor_points(self.accessory2)
    }

    /// Get the equipped weapon's data, if any.
    pub fn weapon_data(&self) -> (r: Option<WeaponData>)
        ensures
            r == (match self.weapon {
                Some(id) => match item_spec(id) {
                    Some(d) => d.weapon,
                    None => None,
                },
                None => None,
            }),
    {
        match self.weapon {
            Some(id) => match item_by_id(id) {
                Some(d) => d.weapon,
                None => None,
            },
            None => None,
        }
    }
}

fn armor_of(slot: Option<ItemId>) -> (r: Option<ArmorData>)
    ensures
        r == armor_in(slot),
{
    match slot {
        Some(id) => match item_by_id(id) {
            Some(d) => d.armor,
            None => None,
        },
        None => None,
    }
}

fn armor_points(slot: Option<ItemId>) -> (r: u32)
    ensures
        r == armor_points_in(slot),
{
    match armor_of(slot) {
        Some(a) => a.armor,
        None => 0,
    }
}

fn add_armor_bonuses(total: &mut StatBonuses, slot: Option<ItemId>, bound: i32)
    requires
        0 <= bound <= 15,
        small_bonuses(*old(total), bound as int),
    ensures
        *final(total) == sum_bonuses(*old(total), bonuses_in(slot)),
        small_bonuses(*final(total), bound + 3),
{
    proof {
        lemma_armor_small(slot);
        lemma_sum_small(*total, bonuses_in(slot), bound as int, 3);
    }
    match armor_of(slot) {
        Some(armor) => {
            total.strength = total.strength + armor.bonuses.strength;
            total.intelligence = total.intelligence + armor.bonuses.intelligence;
            total.dexterity = total.dexterity + armor.bonuses.dexterity;
            total.vitality = total.vitality + armor.bonuses.vitality;
            total.endurance = total.endurance + armor.bonuses.endurance;
        },
        None => {},
    }
}

} // verus!
