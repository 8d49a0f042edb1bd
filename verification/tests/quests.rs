use physics_rendering_engine::game::inventory::Inventory;
use physics_rendering_engine::game::items::{ITEM_STONE, ITEM_WOOD};
use physics_rendering_engine::game::quest::{
    check_collect_quests, check_reach_quests, create_quests, notify_kill, unlock_quests,
    QuestObjective, QuestState, ENEMY_GOBLIN, ENEMY_SLIME, QUEST_FIRST_BLOOD, QUEST_GOBLIN_PATROL,
    QUEST_HERMIT_HERBS, QUEST_STONE_FOR_SMITH,
};

#[test]
fn quest_table() {
    let qs = create_quests();
    assert_eq!(qs.len(), 4);
    assert_eq!(qs[0].id, QUEST_FIRST_BLOOD);
    assert_eq!(qs[1].id, QUEST_HERMIT_HERBS);
    assert_eq!(qs[2].id, QUEST_GOBLIN_PATROL);
    assert_eq!(qs[3].id, QUEST_STONE_FOR_SMITH);
    assert_eq!(qs[2].state, QuestState::Locked);
    assert_eq!(qs[2].prerequisite, Some(QUEST_FIRST_BLOOD));
    assert_eq!(qs[0].reward_xp, 150);
    assert_eq!(qs[3].reward_gold, 40);
}

#[test]
fn kills_count_only_when_active() {
    let mut qs = create_quests();
    notify_kill(&mut qs, ENEMY_SLIME);
    assert_eq!(qs[0].objective, QuestObjective::Kill { enemy_kind: ENEMY_SLIME, needed: 5, done: 0 });
    qs[0].state = QuestState::Active;
    for i in 1..=5u32 {
        notify_kill(&mut qs, ENEMY_SLIME);
        assert_eq!(qs[0].objective, QuestObjective::Kill { enemy_kind: ENEMY_SLIME, needed: 5, done: i });
    }
    assert_eq!(qs[0].state, QuestState::Complete);
    // Further kills change nothing.
    notify_kill(&mut qs, ENEMY_SLIME);
    assert_eq!(qs[0].objective, QuestObjective::Kill { enemy_kind: ENEMY_SLIME, needed: 5, done: 5 });
}

#[test]
fn kills_of_other_enemies_ignored() {
    let mut qs = create_quests();
    qs[0].state = QuestState::Active;
    notify_kill(&mut qs, ENEMY_GOBLIN);
    assert_eq!(qs[0].objective, QuestObjective::Kill { enemy_kind: ENEMY_SLIME, needed: 5, done: 0 });
    assert_eq!(qs[0].state, QuestState::Active);
}

#[test]
fn collect_completes_at_needed_count() {
    let mut qs = create_quests();
    qs[1].state = QuestState::Active;
    qs[3].state = QuestState::Active;
    let mut inv = Inventory::default();
    inv.add(ITEM_WOOD, 9);
    inv.add(ITEM_STONE, 20);
    check_collect_quests(&mut qs, &inv);
    assert_eq!(qs[1].state, QuestState::Active);
    assert_eq!(qs[3].state, QuestState::Complete);
    inv.add(ITEM_WOOD, 1);
    check_collect_quests(&mut qs, &inv);
    assert_eq!(qs[1].state, QuestState::Complete);
}

#[test]
fn reach_quest_completes_inside_area() {
    let mut qs = create_quests();
    qs[0].objective = QuestObjective::Reach { reached: false };
    qs[0].state = QuestState::Active;
    check_reach_quests(&mut qs, &vec![false, true, true, true]);
    assert_eq!(qs[0].state, QuestState::Active);
    check_reach_quests(&mut qs, &vec![true, false, false, false]);
    assert_eq!(qs[0].state, QuestState::Complete);
    assert_eq!(qs[0].objective, QuestObjective::Reach { reached: true });
    // Quests with other objectives are untouched.
    assert_eq!(qs[1].state, QuestState::Available);
}

#[test]
fn prerequisite_unlocks_follow_up() {
    let mut qs = create_quests();
    unlock_quests(&mut qs);
    assert_eq!(qs[2].state, QuestState::Locked);
    qs[0].state = QuestState::TurnedIn;
    unlock_quests(&mut qs);
    assert_eq!(qs[2].state, QuestState::Available);
    assert_eq!(qs[1].state, QuestState::Available);
}
