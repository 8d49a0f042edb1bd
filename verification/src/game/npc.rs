//! NPC kinds and the dialogue that is shown while talking to one.

use vstd::prelude::*;

verus! {

#[derive(Debug, Clone, Copy, PartialEq, Eq, Structural)]
pub enum NpcKind {
    Garrison,
    Merchant,
    Hermit,
    Smith,
    Oracle,
}

/// The index of an NPC kind, as quests refer to it.
pub open spec fn npc_index(k: NpcKind) -> u8 {
    match k {
        NpcKind::Garrison => 0,
        NpcKind::Merchant => 1,
        NpcKind::Hermit => 2,
        NpcKind::Smith => 3,
        NpcKind::Oracle => 4,
    }
}

impl NpcKind {
    /// The index of this NPC kind, as quests refer to it.
    pub fn index(self) -> (r: u8)
        ensures
            r == npc_index(self),
    {
        match self {
            NpcKind::Garrison => 0,
            NpcKind::Merchant => 1,
            NpcKind::Hermit => 2,
            NpcKind::Smith => 3,
            NpcKind::Oracle => 4,
        }
    }
}

/// The name an NPC kind is shown with.
pub open spec fn npc_name_spec(k: NpcKind) -> Seq<char> {
    match k {
        NpcKind::Garrison => "Old Garrison"@,
        NpcKind::Merchant => "Mira"@,
        NpcKind::Hermit => "Brother Aldric"@,
        NpcKind::Smith => "Dura Stonesong"@,
        NpcKind::Oracle => "The Hollow Voice"@,
    }
}

/// The dialogue lines of an NPC kind, in order.
pub open spec fn npc_dialogue_spec(k: NpcKind) -> Seq<Seq<char>> {
    match k {
        NpcKind::Garrison => seq![
            "You look freshly woken. Careful --"@,
            "slimes nest in the low grass east."@,
            "The forest north hides a broken shrine."@,
            "Bring me proof of goblins and I'll"@,
            "make it worth your while."@,
        ],
        NpcKind::Merchant => seq![
            "Trade routes? Ha. I go where the"@,
            "coin goes. Today, that's here."@,
            "Desert sand plays havoc with my stock,"@,
            "but the relics fetch a good price."@,
        ],
        NpcKind::Hermit => seq![
            "The forest keeps its own time."@,
            "I stopped counting years ago."@,
            "That staff was carved from the oldest"@,
            "oak I could find. It hums when you cast."@,
        ],
        NpcKind::Smith => seq![
            "You want quality iron? Earn it."@,
            "Golems drop chunks worth smelting."@,
            "Bring me stone and wood and I'll"@,
            "make something that won't bend."@,
        ],
        NpcKind::Oracle => seq![
            "The rock remembers everything."@,
            "Skeletons do not guard treasure."@,
            "They guard what was once theirs."@,
            "Find the vault where the golem was"@,
            "first made. Your answer is there."@,
        ],
    }
}

/// The name an NPC kind is shown with.
pub fn npc_name(k: NpcKind) -> (r: &'static str)
    ensures
        r@ == npc_name_spec(k),
{
    match k {
        NpcKind::Garrison => "Old Garrison",
        NpcKind::Merchant => "Mira",
        NpcKind::Hermit => "Brother Aldric",
        NpcKind::Smith => "Dura Stonesong",
        NpcKind::Oracle => "The Hollow Voice",
    }
}

/// The dialogue lines of an NPC kind, in order.
pub fn npc_dialogue(k: NpcKind) -> (r: &'static [&'static str])
    ensures
        r@.map_values(|s: &str| s@) == npc_dialogue_spec(k),
{
    let d: &'static [&'static str] = match k {
        NpcKind::Garrison => &[
            "You look freshly woken. Careful --",
            "slimes nest in the low grass east.",
            "The forest north hides a broken shrine.",
            "Bring me proof of goblins and I'll",
            "make it worth your while.",
        ],
        NpcKind::Merchant => &[
            "Trade routes? Ha. I go where the",
            "coin goes. Today, that's here.",
            "Desert sand plays havoc with my stock,",
            "but the relics fetch a good price.",
        ],
        NpcKind::Hermit => &[
            "The forest keeps its own time.",
            "I stopped counting years ago.",
            "That staff was carved from the oldest",
            "oak I could find. It hums when you cast.",
        ],
        NpcKind::Smith => &[
            "You want quality iron? Earn it.",
            "Golems drop chunks worth smelting.",
            "Bring me stone and wood and I'll",
            "make something that won't bend.",
        ],
        NpcKind::Oracle => &[
            "The rock remembers everything.",
            "Skeletons do not guard treasure.",
            "They guard what was once theirs.",
            "Find the vault where the golem was",
            "first made. Your answer is there.",
        ],
    };
    proof {
        assert(d@.map_values(|s: &str| s@) =~= npc_dialogue_spec(k));
    }
    d
}

/// Lines of dialogue shown at once.
pub const PAGE_LINES: usize = 3;

/// Active dialogue state when the player is talking to an NPC.
pub struct ActiveDialogue {
    pub npc_entity_id: u32,
    pub npc_kind: NpcKind,
    pub npc_name: &'static str,
    pub lines: &'static [&'static str],
    pub current_line: usize,
}

impl ActiveDialogue {
    /// The page being shown: up to 3 lines starting at `current_line`.
    pub fn current_text(&self) -> (r: &[&str])
        requires
            self.current_line <= self.lines@.len(),
            self.current_line + PAGE_LINES <= usize::MAX,
        ensures
            r@ == self.lines@.subrange(
                self.current_line as int,
                if self.current_line + PAGE_LINES < self.lines@.len() {
                    self.current_line + PAGE_LINES
                } else {
                    self.lines@.len() as int
                },
            ),
    {
        let len = self.lines.len();
        let end = if self.current_line + PAGE_LINES < len {
            self.current_line + PAGE_LINES
        } else {
            len
        };
        vstd::slice::slice_subrange(self.lines, self.current_line, end)
    }

    /// Advance to the next page of lines. Returns true if dialogue is finished.
    pub fn advance(&mut self) -> (r: bool)
        requires
            old(self).current_line + PAGE_LINES <= usize::MAX,
        ensures
            final(self).current_line == old(self).current_line + PAGE_LINES,
            r == (final(self).current_line >= old(self).lines@.len()),
            final(self).lines == old(self).lines,
            final(self).npc_entity_id == old(self).npc_entity_id,
            final(self).npc_kind == old(self).npc_kind,
            final(self).npc_name == old(self).npc_name,
    {
        self.current_line += PAGE_LINES;
        self.current_line >= self.lines.len()
    }
}

} // verus!
