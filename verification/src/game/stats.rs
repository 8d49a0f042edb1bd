//! Core RPG attributes and the bonuses that equipment grants.

use vstd::prelude::*;

verus! {

/// The whole-number part of a character's stat block: primary attributes,
/// level, experience and gold.
#[derive(Debug, Clone, Copy, PartialEq, Eq, Structural)]
pub struct StatBlock {
    pub strength: u32,
    pub intelligence: u32,
    pub dexterity: u32,
    pub vitality: u32,
    pub endurance: u32,
    pub level: u32,
    pub xp: u32,
    pub gold: u32,
}

/// Additive attribute bonuses from equipment, buffs, etc.
#[derive(Debug, Clone, Copy, PartialEq, Eq, Structural)]
pub struct StatBonuses {
    pub strength: i32,
    pub intelligence: i32,
    pub dexterity: i32,
    pub vitality: i32,
    pub endurance: i32,
}

impl Default for StatBonuses {
    fn default() -> (r: Self)
        ensures
            r == (StatBonuses { strength: 0, intelligence: 0, dexterity: 0, vitality: 0, endurance: 0 }),
    {
        StatBonuses { strength: 0, intelligence: 0, dexterity: 0, vitality: 0, endurance: 0 }
    }
}

/// The stats a new player starts with.
pub open spec fn player_start_stats() -> StatBlock {
    StatBlock {
        strength: 10,
        intelligence: 10,
        dexterity: 10,
        vitality: 10,
        endurance: 10,
        level: 1,
        xp: 0,
        gold: 0,
    }
}

impl StatBlock {
    pub fn new_player() -> (r: Self)
        ensures
            r == player_start_stats(),
    {
        StatBlock {
            strength: 10,
            intelligence: 10,
            dexterity: 10,
            vitality: 10,
            endurance: 10,
            level: 1,
            xp: 0,
            gold: 0,
        }
    }

    pub fn new_enemy(level: u32, str_: u32, int_: u32, dex: u32, vit: u32, end: u32) -> (r: Self)
        ensures
            r == (StatBlock {
                strength: str_,
                intelligence: int_,
                dexterity: dex,
                vitality: vit,
                endurance: end,
                level,
                xp: 0,
                gold: 0,
            }),
    {
        StatBlock {
            strength: str_,
            intelligence: int_,
            dexterity: dex,
            vitality: vit,
            endurance: end,
            level,
            xp: 0,
            gold: 0,
        }
    }
}

/// An attribute with a bonus added, at least 1: what the derived stats are
/// computed from.
pub fn effective_attribute(base: u32, bonus: i32) -> (r: i32)
    requires
        i32::MIN <= (base as i32) + bonus <= i32::MAX,
    ensures
        r == (if (base as i32) + bonus >= 1 {
            (base as i32) + bonus
        } else {
            1
        }),
{
    let total = (base as i32) + bonus;
    if total >= 1 {
        total
    } else {
        1
    }
}

} // verus!
