use physics_rendering_engine::game::progression::{
    award_xp, xp_for_kill, xp_for_level, xp_to_next, MAX_LEVEL,
};
use physics_rendering_engine::game::stats::StatBlock;

#[test]
fn xp_curve_increases() {
    for l in 2..=10 {
        assert!(xp_for_level(l) > xp_for_level(l - 1));
    }
}

#[test]
fn level_up() {
    let mut stats = StatBlock::new_player();
    assert_eq!(stats.level, 1);
    let needed = xp_to_next(1);
    let gained = award_xp(&mut stats, needed);
    assert_eq!(gained, 1);
    assert_eq!(stats.level, 2);
}

#[test]
fn multi_level_up() {
    let mut stats = StatBlock::new_player();
    // Give enough XP to reach level 5 in one go.
    let gained = award_xp(&mut stats, xp_for_level(5));
    assert!(gained >= 4);
    assert_eq!(stats.level, 5);
}

#[test]
fn max_level_cap() {
    let mut stats = StatBlock::new_player();
    award_xp(&mut stats, u32::MAX / 2);
    assert!(stats.level <= MAX_LEVEL);
}

#[test]
fn xp_curve_values() {
    assert_eq!(xp_for_level(0), 0);
    assert_eq!(xp_for_level(1), 0);
    assert_eq!(xp_for_level(2), 200);
    assert_eq!(xp_for_level(3), 500);
    assert_eq!(xp_for_level(10), 5400);
    assert_eq!(xp_for_level(50), 127400);
    assert_eq!(xp_for_level(u32::MAX), u32::MAX);
}

#[test]
fn xp_to_next_values() {
    assert_eq!(xp_to_next(1), 200);
    assert_eq!(xp_to_next(2), 300);
    assert_eq!(xp_to_next(49), 127400 - 122400);
    assert_eq!(xp_to_next(MAX_LEVEL), u32::MAX);
    assert_eq!(xp_to_next(MAX_LEVEL + 7), u32::MAX);
}

#[test]
fn kill_rewards() {
    assert_eq!(xp_for_kill(0), 20);
    assert_eq!(xp_for_kill(1), 30);
    assert_eq!(xp_for_kill(7), 90);
}

#[test]
fn level_up_grows_stats() {
    let mut stats = StatBlock::new_player();
    // From level 1 to level 5: levels 2, 3, 4, 5.
    let gained = award_xp(&mut stats, xp_for_level(5));
    assert_eq!(gained, 4);
    assert_eq!(stats.xp, 1400);
    assert_eq!(stats.vitality, 14);
    assert_eq!(stats.endurance, 14);
    // Level 2: (2/2)%3 == 1 -> intelligence; level 4: (4/2)%3 == 2 -> dexterity.
    assert_eq!(stats.strength, 10);
    assert_eq!(stats.intelligence, 11);
    assert_eq!(stats.dexterity, 11);
}

#[test]
fn award_below_threshold_keeps_level() {
    let mut stats = StatBlock::new_player();
    assert_eq!(award_xp(&mut stats, 199), 0);
    assert_eq!(stats.level, 1);
    assert_eq!(stats.xp, 199);
    // Split awards reach the same level as one award of the sum.
    assert_eq!(award_xp(&mut stats, 1), 1);
    assert_eq!(stats.level, 2);
}

#[test]
fn award_at_max_level_is_ignored() {
    let mut stats = StatBlock::new_enemy(MAX_LEVEL, 5, 5, 5, 5, 5);
    let before = stats;
    assert_eq!(award_xp(&mut stats, 1000), 0);
    assert_eq!(stats, before);
}

#[test]
fn huge_award_reaches_max_level() {
    let mut stats = StatBlock::new_player();
    let gained = award_xp(&mut stats, u32::MAX / 2);
    assert_eq!(gained, MAX_LEVEL - 1);
    assert_eq!(stats.level, MAX_LEVEL);
}
