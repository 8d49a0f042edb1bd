//! Spell identities and the order in which the player cycles through them.

use vstd::prelude::*;

verus! {

#[derive(Debug, Clone, Copy, PartialEq, Eq, Structural)]
pub enum SpellId {
    Fireball,
    IceShard,
    Heal,
}

pub open spec fn spell_index(s: SpellId) -> usize {
    match s {
        SpellId::Fireball => 0,
        SpellId::IceShard => 1,
        SpellId::Heal => 2,
    }
}

pub open spec fn spell_after(s: SpellId) -> SpellId {
    match s {
        SpellId::Fireball => SpellId::IceShard,
        SpellId::IceShard => SpellId::Heal,
        SpellId::Heal => SpellId::Fireball,
    }
}

pub open spec fn spell_name(s: SpellId) -> Seq<char> {
    match s {
        SpellId::Fireball => "Fireball"@,
        SpellId::IceShard => "Ice Shard"@,
        SpellId::Heal => "Heal"@,
    }
}

/// Every spell, in cycle order.
pub fn all_spells() -> (r: [SpellId; 3])
    ensures
        r@ == seq![SpellId::Fireball, SpellId::IceShard, SpellId::Heal],
{
    let r = [SpellId::Fireball, SpellId::IceShard, SpellId::Heal];
    assert(r@ =~= seq![SpellId::Fireball, SpellId::IceShard, SpellId::Heal]);
    r
}

impl SpellId {
    pub fn index(self) -> (r: usize)
        ensures
            r == spell_index(self),
    {
        match self {
            SpellId::Fireball => 0,
            SpellId::IceShard => 1,
            SpellId::Heal => 2,
        }
    }

    pub fn next(self) -> (r: Self)
        ensures
            r == spell_after(self),
    {
        match self {
            SpellId::Fireball => SpellId::IceShard,
            SpellId::IceShard => SpellId::Heal,
            SpellId::Heal => SpellId::Fireball,
        }
    }

    pub fn name(self) -> (r: &'static str)
        ensures
            r@ == spell_name(self),
    {
        match self {
            SpellId::Fireball => "Fireball",
            SpellId::IceShard => "Ice Shard",
            SpellId::Heal => "Heal",
        }
    }
}

/// Cycling three times returns to the same spell, and each index names one spell.
pub proof fn law_spell_cycle(s: SpellId)
    ensures
        spell_after(spell_after(spell_after(s))) == s,
        spell_index(spell_after(s)) == (spell_index(s) + 1) % 3,
{
}

/// Which spell is active, and the cycle key's state on the previous frame.
#[derive(Debug, Clone, Copy)]
pub struct SpellCycle {
    pub active_spell: SpellId,
    pub cycle_prev: bool,
}

impl SpellCycle {
    pub fn new() -> (r: Self)
        ensures
            r.active_spell == SpellId::Fireball,
            !r.cycle_prev,
    {
        SpellCycle { active_spell: SpellId::Fireball, cycle_prev: false }
    }

    /// Cycle to the next spell on the frame the key goes down. Returns true
    /// if the spell changed.
    pub fn cycle_spell(&mut self, pressed: bool) -> (r: bool)
        ensures
            r == (pressed && !old(self).cycle_prev),
            final(self).cycle_prev == pressed,
            final(self).active_spell == if r {
                spell_after(old(self).active_spell)
            } else {
                old(self).active_spell
            },
    {
        let edge = pressed && !self.cycle_prev;
        self.cycle_prev = pressed;
        if edge {
            self.active_spell = self.active_spell.next();
            true
        } else {
            false
        }
    }
}

} // verus!
