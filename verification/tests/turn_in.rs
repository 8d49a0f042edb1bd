use physics_rendering_engine::game::inventory::Inventory;
use physics_rendering_engine::game::items::{ITEM_HEALTH_POTION, ITEM_IRON_SWORD, ITEM_LEATHER_VEST};
use physics_rendering_engine::game::quest::{
    create_quests, try_quest_turnin_accept, QuestState, NPC_GARRISON, NPC_HERMIT,
};
use physics_rendering_engine::game::stats::StatBlock;

#[test]
fn turn_in_rewards_and_unlocks() {
    let mut qs = create_quests();
    qs[0].state = QuestState::Complete;
    let mut stats = Some(StatBlock::new_player());
    let mut inv = Some(Inventory::default());
    try_quest_turnin_accept(&mut qs, &mut stats, &mut inv, NPC_GARRISON);
    assert_eq!(qs[0].state, QuestState::TurnedIn);
    // The follow-up quest of the same NPC is unlocked and accepted at once.
    assert_eq!(qs[2].state, QuestState::Active);
    // Quests of other NPCs are left alone.
    assert_eq!(qs[1].state, QuestState::Available);
    let s = stats.unwrap();
    assert_eq!(s.xp, 150);
    assert_eq!(s.gold, 10);
    assert_eq!(s.level, 1);
    assert_eq!(inv.unwrap().count(ITEM_HEALTH_POTION), 3);
    // Talking again rewards nothing more.
    try_quest_turnin_accept(&mut qs, &mut stats, &mut inv, NPC_GARRISON);
    assert_eq!(stats.unwrap().xp, 150);
    assert_eq!(inv.unwrap().count(ITEM_HEALTH_POTION), 3);
}

#[test]
fn second_quest_reward_levels_up() {
    let mut qs = create_quests();
    qs[0].state = QuestState::TurnedIn;
    qs[2].state = QuestState::Complete;
    let mut stats = Some(StatBlock::new_player());
    let mut inv = Some(Inventory::default());
    try_quest_turnin_accept(&mut qs, &mut stats, &mut inv, NPC_GARRISON);
    let s = stats.unwrap();
    assert_eq!(s.xp, 300);
    assert_eq!(s.level, 2);
    assert_eq!(s.gold, 25);
    let inv = inv.unwrap();
    assert_eq!(inv.count(ITEM_LEATHER_VEST), 1);
    assert_eq!(inv.count(ITEM_IRON_SWORD), 1);
}

#[test]
fn accepting_without_components() {
    let mut qs = create_quests();
    let mut stats = None;
    let mut inv = None;
    try_quest_turnin_accept(&mut qs, &mut stats, &mut inv, NPC_HERMIT);
    assert_eq!(qs[1].state, QuestState::Active);
    assert!(stats.is_none());
    assert!(inv.is_none());
}
