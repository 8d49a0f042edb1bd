//! Quest system: kill/collect/reach objectives with XP and item rewards.

use vstd::prelude::*;
use crate::game::inventory::{add_result, Inventory, ItemStack, total_of};
use crate::game::progression::{award_fits, award_xp, awarded};
use crate::game::stats::StatBlock;
use crate::game::items::{
    ItemId, ITEM_HEALTH_POTION, ITEM_IRON_AXE, ITEM_IRON_SWORD, ITEM_LEATHER_VEST, ITEM_MANA_POTION,
    ITEM_OAK_STAFF, ITEM_STONE, ITEM_WARHAMMER, ITEM_WOOD,
};

verus! {

pub type QuestId = u8;

#[allow(inconsistent_fields)]
#[derive(Debug, Clone, Copy, PartialEq, Eq, Structural)]
pub enum QuestObjective {
    /// Kill N enemies of a specific type.  `enemy_kind` matches the enemy type's discriminant.
    Kill { enemy_kind: u8, needed: u32, done: u32 },
    /// Have N of an item in inventory (not consumed until turn-in).
    Collect { item_id: ItemId, needed: u16 },
    /// Walk within a radius of a world location; the location itself is kept
    /// by the caller, which decides when the player is inside it.
    Reach { reached: bool },
}

#[derive(Debug, Clone, Copy, PartialEq, Eq, Structural)]
pub enum QuestState {
    /// Not yet offered (prerequisite not met).
    Locked,
    /// Available to accept from NPC.
    Available,
    /// In progress.
    Active,
    /// Objective met: talk to NPC to turn in.
    Complete,
    /// Turned in, rewards given.
    TurnedIn,
}

#[derive(Debug, Clone, Copy)]
pub struct Quest {
    pub id: QuestId,
    pub name: &'static str,
    pub description: &'static str,
    pub objective: QuestObjective,
    pub state: QuestState,
    pub reward_xp: u32,
    pub reward_gold: u32,
    pub reward_items: &'static [(ItemId, u16)],
    /// Which NPC kind (index) gives/completes this quest.
    pub giver_npc: u8,
    /// Quest ID that must be TurnedIn before this one becomes Available.
    pub prerequisite: Option<QuestId>,
}

// Quest IDs.
pub const QUEST_FIRST_BLOOD: QuestId = 0;
pub const QUEST_HERMIT_HERBS: QuestId = 1;
pub const QUEST_GOBLIN_PATROL: QuestId = 2;
pub const QUEST_STONE_FOR_SMITH: QuestId = 3;

// NPC kind indices (matches NpcKind discriminant order).
pub const NPC_GARRISON: u8 = 0;
pub const NPC_MERCHANT: u8 = 1;
pub const NPC_HERMIT: u8 = 2;
pub const NPC_SMITH: u8 = 3;
pub const NPC_ORACLE: u8 = 4;

// Enemy type discriminants (must match EnemyType enum order).
pub const ENEMY_SLIME: u8 = 0;
pub const ENEMY_SKELETON: u8 = 1;
pub const ENEMY_GOBLIN: u8 = 2;
pub const ENEMY_GOLEM: u8 = 3;

/// Position of a state in the order quests move through.
pub open spec fn state_rank(s: QuestState) -> int {
    match s {
        QuestState::Locked => 0,
        QuestState::Available => 1,
        QuestState::Active => 2,
        QuestState::Complete => 3,
        QuestState::TurnedIn => 4,
    }
}

/// A quest as described by its fields.
pub open spec fn quest_is(
    q: Quest,
    id: QuestId,
    name: Seq<char>,
    description: Seq<char>,
    objective: QuestObjective,
    state: QuestState,
    reward_xp: u32,
    reward_gold: u32,
    reward_items: Seq<(ItemId, u16)>,
    giver_npc: u8,
    prerequisite: Option<QuestId>,
) -> bool {
    &&& q.id == id
    &&& q.name@ == name
    &&& q.description@ == description
    &&& q.objective == objective
    &&& q.state == state
    &&& q.reward_xp == reward_xp
    &&& q.reward_gold == reward_gold
    &&& q.reward_items@ == reward_items
    &&& q.giver_npc == giver_npc
    &&& q.prerequisite == prerequisite
}

pub fn create_quests() -> (r: Vec<Quest>)
    ensures
        r@.len() == 4,
        quest_is(r@[0], QUEST_FIRST_BLOOD, "First Blood"@, "Kill 5 Slimes near the plains."@,
            QuestObjective::Kill { enemy_kind: ENEMY_SLIME, needed: 5, done: 0 }, QuestState::Available,
            150, 10, seq![(ITEM_HEALTH_POTION, 3u16)], NPC_GARRISON, None),
        quest_is(r@[1], QUEST_HERMIT_HERBS, "The Hermit's Herbs"@, "Bring 10 Wood to Brother Aldric."@,
            QuestObjective::Collect { item_id: ITEM_WOOD, needed: 10 }, QuestState::Available,
            200, 15, seq![(ITEM_OAK_STAFF, 1u16), (ITEM_MANA_POTION, 5u16)], NPC_HERMIT, None),
        quest_is(r@[2], QUEST_GOBLIN_PATROL, "Goblin Patrol"@, "Defeat 3 Goblin Archers."@,
            QuestObjective::Kill { enemy_kind: ENEMY_GOBLIN, needed: 3, done: 0 }, QuestState::Locked,
            300, 25, seq![(ITEM_LEATHER_VEST, 1u16), (ITEM_IRON_SWORD, 1u16)], NPC_GARRISON,
            Some(QUEST_FIRST_BLOOD)),
        quest_is(r@[3], QUEST_STONE_FOR_SMITH, "Stone for the Smith"@, "Bring 15 Stone to Dura Stonesong."@,
            QuestObjective::Collect { item_id: ITEM_STONE, needed: 15 }, QuestState::Available,
            400, 40, seq![(ITEM_IRON_AXE, 1u16), (ITEM_WARHAMMER, 1u16)], NPC_SMITH, None),
{
    let mut v: Vec<Quest> = Vec::new();
    v.push(Quest {
        id: QUEST_FIRST_BLOOD,
        name: "First Blood",
        description: "Kill 5 Slimes near the plains.",
        objective: QuestObjective::Kill { enemy_kind: ENEMY_SLIME, needed: 5, done: 0 },
        state: QuestState::Available,
        reward_xp: 150,
        reward_gold: 10,
        reward_items: &[(ITEM_HEALTH_POTION, 3)],
        giver_npc: NPC_GARRISON,
        prerequisite: None,
    });
    v.push(Quest {
        id: QUEST_HERMIT_HERBS,
        name: "The Hermit's Herbs",
        description: "Bring 10 Wood to Brother Aldric.",
        objective: QuestObjective::Collect { item_id: ITEM_WOOD, needed: 10 },
        state: QuestState::Available,
        reward_xp: 200,
        reward_gold: 15,
        reward_items: &[(ITEM_OAK_STAFF, 1), (ITEM_MANA_POTION, 5)],
        giver_npc: NPC_HERMIT,
        prerequisite: None,
    });
    v.push(Quest {
        id: QUEST_GOBLIN_PATROL,
        name: "Goblin Patrol",
        description: "Defeat 3 Goblin Archers.",
        objective: QuestObjective::Kill { enemy_kind: ENEMY_GOBLIN, needed: 3, done: 0 },
        state: QuestState::Locked,
        reward_xp: 300,
        reward_gold: 25,
        reward_items: &[(ITEM_LEATHER_VEST, 1), (ITEM_IRON_SWORD, 1)],
        giver_npc: NPC_GARRISON,
        prerequisite: Some(QUEST_FIRST_BLOOD),
    });
    v.push(Quest {
        id: QUEST_STONE_FOR_SMITH,
        name: "Stone for the Smith",
        description: "Bring 15 Stone to Dura Stonesong.",
        objective: QuestObjective::Collect { item_id: ITEM_STONE, needed: 15 },
        state: QuestState::Available,
        reward_xp: 400,
        reward_gold: 40,
        reward_items: &[(ITEM_IRON_AXE, 1), (ITEM_WARHAMMER, 1)],
        giver_npc: NPC_SMITH,
        prerequisite: None,
    });
    assert(v@[0].reward_items@ == seq![(ITEM_HEALTH_POTION, 3u16)]);
    assert(v@[0].name@ == "First Blood"@);
    assert(v@[0].objective == QuestObjective::Kill { enemy_kind: ENEMY_SLIME, needed: 5, done: 0 });
    v
}

/// A quest after an enemy of `enemy_kind` was killed.
pub open spec fn after_kill(q: Quest, enemy_kind: u8) -> Quest {
    if q.state != QuestState::Active {
        q
    } else {
        match q.objective {
            QuestObjective::Kill { enemy_kind: ek, needed, done } => if ek == enemy_kind && done < needed {
                Quest {
                    objective: QuestObjective::Kill { enemy_kind: ek, needed, done: (done + 1) as u32 },
                    state: if done + 1 >= needed {
                        QuestState::Complete
                    } else {
                        q.state
                    },
                    ..q
                }
            } else {
                q
            },
            _ => q,
        }
    }
}

/// A quest after checking collect objectives against an inventory's contents.
pub open spec fn after_collect_check(q: Quest, inv: Seq<Option<crate::game::inventory::ItemStack>>) -> Quest {
    if q.state != QuestState::Active {
        q
    } else {
        match q.objective {
            QuestObjective::Collect { item_id, needed } => if total_of(inv, item_id) >= needed {
                Quest { state: QuestState::Complete, ..q }
            } else {
                q
            },
            _ => q,
        }
    }
}

/// A quest after the player was found inside (`inside`) or outside its target area.
pub open spec fn after_reach_check(q: Quest, inside: bool) -> Quest {
    if q.state != QuestState::Active {
        q
    } else {
        match q.objective {
            QuestObjective::Reach { .. } => if inside {
                Quest { objective: QuestObjective::Reach { reached: true }, state: QuestState::Complete, ..q }
            } else {
                q
            },
            _ => q,
        }
    }
}

/// Some quest with ID `id` has been turned in.
pub open spec fn is_turned_in(qs: Seq<Quest>, id: QuestId) -> bool {
    exists|j: int| 0 <= j < qs.len() && #[trigger] qs[j].state == QuestState::TurnedIn && qs[j].id == id
}

/// A quest after unlocking against the turned-in quests of `qs`.
pub open spec fn after_unlock(q: Quest, qs: Seq<Quest>) -> Quest {
    if q.state == QuestState::Locked {
        match q.prerequisite {
            Some(pre) => if is_turned_in(qs, pre) {
                Quest { state: QuestState::Available, ..q }
            } else {
                q
            },
            None => q,
        }
    } else {
        q
    }
}

/// Check if a kill quest's counter should increment for this enemy type.
pub fn notify_kill(quests: &mut Vec<Quest>, enemy_kind: u8)
    ensures
        final(quests)@.len() == old(quests)@.len(),
        forall|i: int| 0 <= i < old(quests)@.len() ==> #[trigger] final(quests)@[i] == after_kill(old(quests)@[i], enemy_kind),
{
    let mut i: usize = 0;
    while i < quests.len()
        invariant
            i <= quests@.len(),
            quests@.len() == old(quests)@.len(),
            forall|j: int| 0 <= j < i ==> #[trigger] quests@[j] == after_kill(old(quests)@[j], enemy_kind),
            forall|j: int| i <= j < quests@.len() ==> #[trigger] quests@[j] == old(quests)@[j],
        decreases quests@.len() - i,
    {
        let q = quests[i];
        if q.state == QuestState::Active {
            match q.objective {
                QuestObjective::Kill { enemy_kind: ek, needed, done } => {
                    if ek == enemy_kind && done < needed {
                        let d = done + 1;
                        let state = if d >= needed {
                            QuestState::Complete
                        } else {
                            q.state
                        };
                        quests.set(
                            i,
                            Quest { objective: QuestObjective::Kill { enemy_kind: ek, needed, done: d }, state, ..q },
                        );
                    }
                },
                _ => {},
            }
        }
        i = i + 1;
    }
}

/// Check collect quests against current inventory counts.
pub fn check_collect_quests(quests: &mut Vec<Quest>, inventory: &Inventory)
    requires
        forall|i: int| 0 <= i < old(quests)@.len() ==> match #[trigger] old(quests)@[i].objective {
            QuestObjective::Collect { item_id, .. } => total_of(inventory@, item_id) <= u16::MAX,
            _ => true,
        },
    ensures
        final(quests)@.len() == old(quests)@.len(),
        forall|i: int| 0 <= i < old(quests)@.len() ==> #[trigger] final(quests)@[i] == after_collect_check(old(quests)@[i], inventory@),
{
    let mut i: usize = 0;
    while i < quests.len()
        invariant
            i <= quests@.len(),
            quests@.len() == old(quests)@.len(),
            forall|j: int| 0 <= j < old(quests)@.len() ==> match #[trigger] old(quests)@[j].objective {
                QuestObjective::Collect { item_id, .. } => total_of(inventory@, item_id) <= u16::MAX,
                _ => true,
            },
            forall|j: int| 0 <= j < i ==> #[trigger] quests@[j] == after_collect_check(old(quests)@[j], inventory@),
            forall|j: int| i <= j < quests@.len() ==> #[trigger] quests@[j] == old(quests)@[j],
        decreases quests@.len() - i,
    {
        let q = quests[i];
        if q.state == QuestState::Active {
            match q.objective {
                QuestObjective::Collect { item_id, needed } => {
                    proof {
                        assert(old(quests)@[i as int] == q);
                    }
                    if inventory.count(item_id) >= needed {
                        quests.set(i, Quest { state: QuestState::Complete, ..q });
                    }
                },
                _ => {},
            }
        }
        i = i + 1;
    }
}

/// Complete the active reach quests whose target area the player is in;
/// `inside[i]` says whether the player is inside the area of `quests[i]`.
pub fn check_reach_quests(quests: &mut Vec<Quest>, inside: &Vec<bool>)
    requires
        inside@.len() == old(quests)@.len(),
    ensures
        final(quests)@.len() == old(quests)@.len(),
        forall|i: int| 0 <= i < old(quests)@.len() ==> #[trigger] final(quests)@[i] == after_reach_check(old(quests)@[i], inside@[i]),
{
    let mut i: usize = 0;
    while i < quests.len()
        invariant
            i <= quests@.len(),
            quests@.len() == old(quests)@.len(),
            inside@.len() == quests@.len(),
            forall|j: int| 0 <= j < i ==> #[trigger] quests@[j] == after_reach_check(old(quests)@[j], inside@[j]),
            forall|j: int| i <= j < quests@.len() ==> #[trigger] quests@[j] == old(quests)@[j],
        decreases quests@.len() - i,
    {
        let q = quests[i];
        if q.state == QuestState::Active {
            match q.objective {
                QuestObjective::Reach { .. } => {
                    if inside[i] {
                        quests.set(
                            i,
                            Quest { objective: QuestObjective::Reach { reached: true }, state: QuestState::Complete, ..q },
                        );
                    }
                },
                _ => {},
            }
        }
        i = i + 1;
    }
}

fn contains_id(ids: &Vec<QuestId>, id: QuestId) -> (r: bool)
    ensures
        r == ids@.contains(id),
{
    let mut i: usize = 0;
    while i < ids.len()
        invariant
            i <= ids@.len(),
            forall|j: int| 0 <= j < i ==> ids@[j] != id,
        decreases ids@.len() - i,
    {
        if ids[i] == id {
            return true;
        }
        i = i + 1;
    }
    false
}

/// Unlock quests whose prerequisites have been turned in.
pub fn unlock_quests(quests: &mut Vec<Quest>)
    ensures
        final(quests)@.len() == old(quests)@.len(),
        forall|i: int| 0 <= i < old(quests)@.len() ==> #[trigger] final(quests)@[i] == after_unlock(old(quests)@[i], old(quests)@),
{
    let ghost qs = quests@;
    // Collect turned-in quest IDs first.
    let mut turned_in: Vec<QuestId> = Vec::new();
    let mut i: usize = 0;
    while i < quests.len()
        invariant
            i <= quests@.len(),
            quests@ == qs,
            forall|k: int| 0 <= k < turned_in@.len() ==> is_turned_in(qs, #[trigger] turned_in@[k]),
            forall|j: int| 0 <= j < i && #[trigger] qs[j].state == QuestState::TurnedIn ==> turned_in@.contains(qs[j].id),
        decreases quests@.len() - i,
    {
        if quests[i].state == QuestState::TurnedIn {
            let ghost before = turned_in@;
            turned_in.push(quests[i].id);
            proof {
                assert(turned_in@[before.len() as int] == qs[i as int].id);
                assert forall|k: int| 0 <= k < turned_in@.len() implies is_turned_in(qs, #[trigger] turned_in@[k]) by {
                    if k < before.len() {
                        assert(turned_in@[k] == before[k]);
                    }
                }
                assert forall|j: int| 0 <= j < i + 1 && #[trigger] qs[j].state == QuestState::TurnedIn implies turned_in@.contains(qs[j].id) by {
                    if j < i {
                        let k = choose|k: int| 0 <= k < before.len() && before[k] == qs[j].id;
                        assert(turned_in@[k] == before[k]);
                    }
                }
            }
        }
        i = i + 1;
    }
    proof {
        assert forall|id: QuestId| turned_in@.contains(id) <==> is_turned_in(qs, id) by {
            if is_turned_in(qs, id) {
                let j = choose|j: int| 0 <= j < qs.len() && #[trigger] qs[j].state == QuestState::TurnedIn && qs[j].id == id;
                assert(turned_in@.contains(qs[j].id));
            }
        }
    }
    let mut i: usize = 0;
    while i < quests.len()
        invariant
            i <= quests@.len(),
            quests@.len() == qs.len(),
            qs == old(quests)@,
            forall|id: QuestId| turned_in@.contains(id) <==> is_turned_in(qs, id),
            forall|j: int| 0 <= j < i ==> #[trigger] quests@[j] == after_unlock(qs[j], qs),
            forall|j: int| i <= j < quests@.len() ==> #[trigger] quests@[j] == qs[j],
        decreases quests@.len() - i,
    {
        let q = quests[i];
        if q.state == QuestState::Locked {
            match q.prerequisite {
                Some(pre) => {
                    if contains_id(&turned_in, pre) {
                        quests.set(i, Quest { state: QuestState::Available, ..q });
                    }
                },
                None => {},
            }
        }
        i = i + 1;
    }
}

// ---------------------------------------------------------------------------
// Turning in and accepting quests at an NPC
// ---------------------------------------------------------------------------

/// Quest `q` is complete and given by NPC `npc_kind`: talking to that NPC
/// turns it in.
pub open spec fn due(q: Quest, npc_kind: u8) -> bool {
    q.state == QuestState::Complete && q.giver_npc == npc_kind
}

/// Stats `s` after receiving the XP and gold of quest `q`.
pub open spec fn rewarded(s: StatBlock, q: Quest) -> StatBlock {
    let a = awarded(s, q.reward_xp as int);
    StatBlock { gold: (a.gold + q.reward_gold) as u32, ..a }
}

/// Stats after the rewards of the quests of `qs` that are due, in order.
pub open spec fn stats_after_turnins(qs: Seq<Quest>, s: StatBlock, npc_kind: u8) -> StatBlock
    decreases qs.len(),
{
    if qs.len() == 0 {
        s
    } else {
        let p = stats_after_turnins(qs.drop_last(), s, npc_kind);
        if due(qs.last(), npc_kind) {
            rewarded(p, qs.last())
        } else {
            p
        }
    }
}

/// No reward on the way overflows a counter of the stats.
pub open spec fn turnins_fit(qs: Seq<Quest>, s: StatBlock, npc_kind: u8) -> bool
    decreases qs.len(),
{
    if qs.len() == 0 {
        true
    } else {
        let p = stats_after_turnins(qs.drop_last(), s, npc_kind);
        &&& turnins_fit(qs.drop_last(), s, npc_kind)
        &&& due(qs.last(), npc_kind) ==> {
            &&& award_fits(p, qs.last().reward_xp as int)
            &&& awarded(p, qs.last().reward_xp as int).gold + qs.last().reward_gold <= u32::MAX
        }
    }
}

/// Inventory slots after adding each of `items`, in order.
pub open spec fn slots_after_items(items: Seq<(ItemId, u16)>, inv: Seq<Option<ItemStack>>) -> Seq<Option<ItemStack>>
    decreases items.len(),
{
    if items.len() == 0 {
        inv
    } else {
        add_result(slots_after_items(items.drop_last(), inv), items.last().0, items.last().1 as int).0
    }
}

/// Inventory slots after the item rewards of the quests of `qs` that are due.
pub open spec fn slots_after_turnins(qs: Seq<Quest>, inv: Seq<Option<ItemStack>>, npc_kind: u8) -> Seq<Option<ItemStack>>
    decreases qs.len(),
{
    if qs.len() == 0 {
        inv
    } else {
        let p = slots_after_turnins(qs.drop_last(), inv, npc_kind);
        if due(qs.last(), npc_kind) {
            slots_after_items(qs.last().reward_items@, p)
        } else {
            p
        }
    }
}

/// A quest after talking to NPC `npc_kind`, first step: turned in if due.
pub open spec fn turned_in(q: Quest, npc_kind: u8) -> Quest {
    if due(q, npc_kind) {
        Quest { state: QuestState::TurnedIn, ..q }
    } else {
        q
    }
}

/// A quest after talking to NPC `npc_kind`, last step: accepted if offered.
pub open spec fn accepted(q: Quest, npc_kind: u8) -> Quest {
    if q.state == QuestState::Available && q.giver_npc == npc_kind {
        Quest { state: QuestState::Active, ..q }
    } else {
        q
    }
}

proof fn lemma_turnins_fit_prefix(qs: Seq<Quest>, s: StatBlock, npc_kind: u8, n: int)
    requires
        0 <= n <= qs.len(),
        turnins_fit(qs, s, npc_kind),
    ensures
        turnins_fit(qs.take(n), s, npc_kind),
    decreases qs.len() - n,
{
    if n == qs.len() {
        assert(qs.take(n) =~= qs);
    } else {
        assert(qs.drop_last().take(n) =~= qs.take(n));
        lemma_turnins_fit_prefix(qs.drop_last(), s, npc_kind, n);
    }
}

/// Turn in the complete quests of NPC `npc_kind` (rewarding XP, gold and
/// items), unlock follow-up quests, then accept the quests it offers.
pub fn try_quest_turnin_accept(
    quests: &mut Vec<Quest>,
    stats: &mut Option<StatBlock>,
    inventory: &mut Option<Inventory>,
    npc_kind: u8,
)
    requires
        *old(stats) matches Some(s) ==> turnins_fit(old(quests)@, s, npc_kind),
    ensures
        final(quests)@.len() == old(quests)@.len(),
        ({
            let t = old(quests)@.map_values(|q: Quest| turned_in(q, npc_kind));
            forall|i: int| 0 <= i < old(quests)@.len() ==> #[trigger] final(quests)@[i] == accepted(after_unlock(t[i], t), npc_kind)
        }),
        *final(stats) == (match *old(stats) {
            Some(s) => Some(stats_after_turnins(old(quests)@, s, npc_kind)),
            None => None,
        }),
        *old(inventory) is None ==> *final(inventory) is None,
        *old(inventory) matches Some(inv) ==> (*final(inventory) matches Some(inv2) && inv2@ == slots_after_turnins(old(quests)@, inv@, npc_kind)),
{
    let ghost qs = quests@;
    let ghost s0 = *stats;
    let ghost inv0 = *inventory;
    let mut i: usize = 0;
    while i < quests.len()
        invariant
            i <= qs.len(),
            quests@.len() == qs.len(),
            forall|j: int| 0 <= j < i ==> #[trigger] quests@[j] == turned_in(qs[j], npc_kind),
            forall|j: int| i <= j < qs.len() ==> #[trigger] quests@[j] == qs[j],
            s0 matches Some(s) ==> turnins_fit(qs, s, npc_kind),
            *stats == (match s0 {
                Some(s) => Some(stats_after_turnins(qs.take(i as int), s, npc_kind)),
                None => None,
            }),
            inv0 is None ==> *inventory is None,
            inv0 matches Some(iv) ==> (*inventory matches Some(cur) && cur@ == slots_after_turnins(qs.take(i as int), iv@, npc_kind)),
        decreases qs.len() - i,
    {
        let q = quests[i];
        proof {
            assert(qs.take(i + 1).drop_last() =~= qs.take(i as int));
            assert(qs.take(i + 1).last() == q);
        }
        if q.state == QuestState::Complete && q.giver_npc == npc_kind {
            match *stats {
                Some(st) => {
                    proof {
                        let s = s0->Some_0;
                        lemma_turnins_fit_prefix(qs, s, npc_kind, i + 1);
                    }
                    let mut st2 = st;
                    award_xp(&mut st2, q.reward_xp);
                    st2.gold = st2.gold + q.reward_gold;
                    *stats = Some(st2);
                },
                None => {},
            }
            match *inventory {
                Some(iv) => {
                    let mut inv = iv;
                    let ghost p = iv@;
                    let items = q.reward_items;
                    let mut j: usize = 0;
                    while j < items.len()
                        invariant
                            j <= items@.len(),
                            items@ == q.reward_items@,
                            inv@ == slots_after_items(items@.take(j as int), p),
                        decreases items@.len() - j,
                    {
                        let (item_id, count) = items[j];
                        proof {
                            assert(items@.take(j + 1).drop_last() =~= items@.take(j as int));
                            assert(items@.take(j + 1).last() == (item_id, count));
                        }
                        inv.add(item_id, count);
                        j = j + 1;
                    }
                    proof {
                        assert(items@.take(items@.len() as int) =~= items@);
                    }
                    *inventory = Some(inv);
                },
                None => {},
            }
            quests.set(i, Quest { state: QuestState::TurnedIn, ..q });
        }
        i = i + 1;
    }
    proof {
        assert(qs.take(qs.len() as int) =~= qs);
    }
    let ghost t = quests@;
    proof {
        assert(t =~= qs.map_values(|q: Quest| turned_in(q, npc_kind)));
    }
    unlock_quests(quests);
    let ghost u = quests@;
    let mut k: usize = 0;
    while k < quests.len()
        invariant
            k <= u.len(),
            quests@.len() == u.len(),
            forall|j: int| 0 <= j < k ==> #[trigger] quests@[j] == accepted(u[j], npc_kind),
            forall|j: int| k <= j < u.len() ==> #[trigger] quests@[j] == u[j],
        decreases u.len() - k,
    {
        let q = quests[k];
        if q.state == QuestState::Available && q.giver_npc == npc_kind {
            quests.set(k, Quest { state: QuestState::Active, ..q });
        }
        k = k + 1;
    }
}

/// Quest states only move forward: no update lowers a quest's state, and a
/// kill counter that had not passed its goal still has not.
pub proof fn law_quest_states_advance(
    q: Quest,
    enemy_kind: u8,
    inv: Seq<Option<crate::game::inventory::ItemStack>>,
    inside: bool,
    qs: Seq<Quest>,
)
    ensures
        state_rank(after_kill(q, enemy_kind).state) >= state_rank(q.state),
        state_rank(after_collect_check(q, inv).state) >= state_rank(q.state),
        state_rank(after_reach_check(q, inside).state) >= state_rank(q.state),
        state_rank(after_unlock(q, qs).state) >= state_rank(q.state),
        (q.objective matches QuestObjective::Kill { needed, done, .. } && done <= needed) ==> (after_kill(q, enemy_kind).objective matches QuestObjective::Kill { needed: n2, done: d2, .. } && d2 <= n2),
{
}

/// A kill quest completes exactly when its counter reaches its goal.
pub proof fn law_kill_completes_at_goal(q: Quest, enemy_kind: u8)
    requires
        q.state == QuestState::Active,
        q.objective matches QuestObjective::Kill { enemy_kind: ek, needed, done } && ek == enemy_kind && done < needed,
    ensures
        after_kill(q, enemy_kind).objective matches QuestObjective::Kill { needed, done, .. } && (after_kill(q, enemy_kind).state == QuestState::Complete <==> done == needed),
{
}

/// After talking to an NPC, none of its quests is left waiting to be turned in.
pub proof fn law_talk_leaves_nothing_due(q: Quest, t: Seq<Quest>, npc_kind: u8)
    ensures
        !due(accepted(after_unlock(turned_in(q, npc_kind), t), npc_kind), npc_kind),
{
}

/// With no quest due at an NPC, talking to it again rewards nothing: the
/// stats and the inventory stay as they are.
pub proof fn law_nothing_due_rewards_nothing(qs: Seq<Quest>, s: StatBlock, inv: Seq<Option<ItemStack>>, npc_kind: u8)
    requires
        forall|i: int| 0 <= i < qs.len() ==> !#[trigger] due(qs[i], npc_kind),
    ensures
        stats_after_turnins(qs, s, npc_kind) == s,
        slots_after_turnins(qs, inv, npc_kind) == inv,
    decreases qs.len(),
{
    if qs.len() > 0 {
        assert(!due(qs[qs.len() - 1], npc_kind));
        assert forall|i: int| 0 <= i < qs.drop_last().len() implies !#[trigger] due(qs.drop_last()[i], npc_kind) by {
            assert(qs.drop_last()[i] == qs[i]);
        }
        law_nothing_due_rewards_nothing(qs.drop_last(), s, inv, npc_kind);
    }
}

} // verus!
