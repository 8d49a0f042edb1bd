//! XP tables, leveling, and automatic stat growth.

use vstd::prelude::*;
use crate::game::stats::StatBlock;

verus! {

pub const MAX_LEVEL: u32 = 50;

/// XP required to reach `level`: 0 up to level 1, then the quadratic
/// `50 l^2 + 50 l - 100`.
pub open spec fn xp_curve(level: int) -> int {
    if level <= 1 {
        0
    } else {
        50 * level * level + 50 * level - 100
    }
}

/// The level a character at `level` with `xp` experience ends at: it climbs
/// while the next level's threshold is met, up to `MAX_LEVEL`.
pub open spec fn levels_reached(level: int, xp: int) -> int
    decreases MAX_LEVEL - level,
{
    if level < MAX_LEVEL && xp >= xp_curve(level + 1) {
        levels_reached(level + 1, xp)
    } else {
        level
    }
}

/// How many levels in `(from, to]` are even with `(level / 2) % 3 == r`: the
/// level-ups that grant strength (r = 0), intelligence (r = 1) or dexterity (r = 2).
pub open spec fn rotating_gains(from: int, to: int, r: int) -> int
    decreases to - from,
{
    if to <= from {
        0
    } else {
        rotating_gains(from, to - 1, r) + if to % 2 == 0 && (to / 2) % 3 == r {
            1int
        } else {
            0int
        }
    }
}

/// `s` after the automatic growth of every level-up from `from` to `to`.
pub open spec fn grown(s: StatBlock, from: int, to: int) -> StatBlock {
    StatBlock {
        vitality: (s.vitality + (to - from)) as u32,
        endurance: (s.endurance + (to - from)) as u32,
        strength: (s.strength + rotating_gains(from, to, 0)) as u32,
        intelligence: (s.intelligence + rotating_gains(from, to, 1)) as u32,
        dexterity: (s.dexterity + rotating_gains(from, to, 2)) as u32,
        level: to as u32,
        ..s
    }
}

/// Awarding `amount` XP to `s` neither overflows a counter nor panics.
pub open spec fn award_fits(s: StatBlock, amount: int) -> bool {
    s.level >= MAX_LEVEL || {
        let to = levels_reached(s.level as int, s.xp + amount);
        &&& s.xp + amount <= u32::MAX
        &&& s.vitality + (to - s.level) <= u32::MAX
        &&& s.endurance + (to - s.level) <= u32::MAX
        &&& s.strength + rotating_gains(s.level as int, to, 0) <= u32::MAX
        &&& s.intelligence + rotating_gains(s.level as int, to, 1) <= u32::MAX
        &&& s.dexterity + rotating_gains(s.level as int, to, 2) <= u32::MAX
    }
}

/// XP required to reach the given level (quadratic curve), saturating at `u32::MAX`.
pub fn xp_for_level(level: u32) -> (r: u32)
    ensures
        r as int == (if xp_curve(level as int) <= u32::MAX {
            xp_curve(level as int)
        } else {
            u32::MAX as int
        }),
{
    if level <= 1 {
        return 0;
    }
    if level >= 9268 {
        proof {
            lemma_curve_big(level as int);
        }
        return u32::MAX;
    }
    let l = level as u64;
    proof {
        lemma_curve_small(level as int);
    }
    (50 * l * l + 50 * l - 100) as u32
}

proof fn lemma_curve_big(l: int)
    requires
        l >= 9268,
    ensures
        xp_curve(l) > u32::MAX,
{
    assert(50 * l * l + 50 * l - 100 > 4294967295) by (nonlinear_arith)
        requires
            l >= 9268,
    ;
}

proof fn lemma_curve_small(l: int)
    requires
        2 <= l < 9268,
    ensures
        xp_curve(l) <= u32::MAX,
        50 * l * l <= 50 * 9267 * 9267,
{
    assert(50 * l * l <= 50 * 9267 * 9267) by (nonlinear_arith)
        requires
            2 <= l < 9268,
    ;
}

/// XP required to go from current level to next.
pub fn xp_to_next(level: u32) -> (r: u32)
    ensures
        level >= MAX_LEVEL ==> r == u32::MAX,
        level < MAX_LEVEL ==> r == xp_curve(level + 1) - xp_curve(level as int),
{
    if level >= MAX_LEVEL {
        return u32::MAX;
    }
    proof {
        lemma_curve_small_levels(level as int);
    }
    xp_for_level(level + 1) - xp_for_level(level)
}

proof fn lemma_curve_small_levels(l: int)
    requires
        0 <= l < MAX_LEVEL,
    ensures
        0 <= xp_curve(l) <= xp_curve(l + 1) <= 127400,
{
    if l >= 1 {
        assert(xp_curve(l) <= xp_curve(l + 1) <= 127400) by (nonlinear_arith)
            requires
                1 <= l < 50,
        ;
    }
}

/// The thresholds rise strictly from level 1 on.
pub proof fn law_xp_curve_increasing(a: int, b: int)
    requires
        1 <= a < b,
    ensures
        xp_curve(a) < xp_curve(b),
{
    assert(xp_curve(a) < xp_curve(b)) by (nonlinear_arith)
        requires
            1 <= a < b,
    ;
}

/// Where leveling stops: never above `MAX_LEVEL`, never below the start, every
/// level passed had its threshold met, and the next one is not met.
pub proof fn law_levels_reached(level: int, xp: int)
    requires
        level <= MAX_LEVEL,
    ensures
        level <= levels_reached(level, xp) <= MAX_LEVEL,
        levels_reached(level, xp) < MAX_LEVEL ==> xp < xp_curve(levels_reached(level, xp) + 1),
        forall|k: int| level < k <= levels_reached(level, xp) ==> xp >= #[trigger] xp_curve(k),
    decreases MAX_LEVEL - level,
{
    if level < MAX_LEVEL && xp >= xp_curve(level + 1) {
        law_levels_reached(level + 1, xp);
    }
}

/// Awarding XP in two parts reaches the same level as awarding the sum at once.
pub proof fn law_split_award(level: int, x1: int, x2: int)
    requires
        level <= MAX_LEVEL,
        x1 <= x2,
    ensures
        levels_reached(levels_reached(level, x1), x2) == levels_reached(level, x2),
    decreases MAX_LEVEL - level,
{
    if level < MAX_LEVEL && x1 >= xp_curve(level + 1) {
        law_split_award(level + 1, x1, x2);
    }
}

proof fn lemma_rotating_gains_step(from: int, to: int, r: int)
    requires
        from <= to,
    ensures
        rotating_gains(from, to + 1, r) == rotating_gains(from, to, r) + if (to + 1) % 2 == 0 && ((
        to + 1) / 2) % 3 == r {
            1int
        } else {
            0int
        },
        rotating_gains(from, to, r) >= 0,
        rotating_gains(from, to, r) <= to - from,
    decreases to - from,
{
    if to > from {
        lemma_rotating_gains_step(from, to - 1, r);
    }
}

proof fn lemma_rotating_gains_bounds(from: int, to: int, r: int)
    requires
        from <= to,
    ensures
        0 <= rotating_gains(from, to, r) <= to - from,
    decreases to - from,
{
    if to > from {
        lemma_rotating_gains_bounds(from, to - 1, r);
    }
}

/// Automatic stat growth on level up.
fn apply_level_up_growth(stats: &mut StatBlock)
    requires
        old(stats).vitality < u32::MAX,
        old(stats).endurance < u32::MAX,
        old(stats).level % 2 == 0 && (old(stats).level / 2) % 3 == 0 ==> old(stats).strength < u32::MAX,
        old(stats).level % 2 == 0 && (old(stats).level / 2) % 3 == 1 ==> old(stats).intelligence < u32::MAX,
        old(stats).level % 2 == 0 && (old(stats).level / 2) % 3 == 2 ==> old(stats).dexterity < u32::MAX,
    ensures
        final(stats).vitality == old(stats).vitality + 1,
        final(stats).endurance == old(stats).endurance + 1,
        final(stats).strength == old(stats).strength + if old(stats).level % 2 == 0 && (old(stats).level / 2) % 3 == 0 {
            1int
        } else {
            0int
        },
        final(stats).intelligence == old(stats).intelligence + if old(stats).level % 2 == 0 && (old(stats).level / 2) % 3 == 1 {
            1int
        } else {
            0int
        },
        final(stats).dexterity == old(stats).dexterity + if old(stats).level % 2 == 0 && (old(stats).level / 2) % 3 == 2 {
            1int
        } else {
            0int
        },
        final(stats).level == old(stats).level,
        final(stats).xp == old(stats).xp,
        final(stats).gold == old(stats).gold,
{
    stats.vitality += 1;
    stats.endurance += 1;
    // Every even level, +1 to str/int/dex in rotation.
    if stats.level % 2 == 0 {
        let k = (stats.level / 2) % 3;
        if k == 0 {
            stats.strength += 1;
        } else if k == 1 {
            stats.intelligence += 1;
        } else {
            stats.dexterity += 1;
        }
    }
}

/// `s` after being awarded `amount` XP: levels gained with their growth.
pub open spec fn awarded(s: StatBlock, amount: int) -> StatBlock {
    if s.level >= MAX_LEVEL {
        s
    } else {
        StatBlock { xp: (s.xp + amount) as u32, ..grown(s, s.level as int, levels_reached(s.level as int, s.xp + amount)) }
    }
}

/// Award XP. Returns number of levels gained.
pub fn award_xp(stats: &mut StatBlock, amount: u32) -> (r: u32)
    requires
        award_fits(*old(stats), amount as int),
    ensures
        *final(stats) == awarded(*old(stats), amount as int),
        old(stats).level >= MAX_LEVEL ==> r == 0 && *final(stats) == *old(stats),
        old(stats).level < MAX_LEVEL ==> {
            let to = levels_reached(old(stats).level as int, old(stats).xp + amount);
            &&& *final(stats) == (StatBlock { xp: (old(stats).xp + amount) as u32, ..grown(*old(stats), old(stats).level as int, to) })
            &&& r == to - old(stats).level
        },
{
    if stats.level >= MAX_LEVEL {
        return 0;
    }
    let ghost s0 = *stats;
    let ghost to = levels_reached(s0.level as int, s0.xp + amount);
    proof {
        law_levels_reached(s0.level as int, s0.xp + amount);
    }
    stats.xp += amount;
    let mut levels_gained: u32 = 0;
    while stats.level < MAX_LEVEL && stats.xp >= xp_for_level(stats.level + 1)
        invariant
            s0.level < MAX_LEVEL,
            to == levels_reached(s0.level as int, s0.xp + amount),
            award_fits(s0, amount as int),
            s0.level <= stats.level <= to <= MAX_LEVEL,
            levels_reached(stats.level as int, s0.xp + amount) == to,
            levels_gained == stats.level - s0.level,
            *stats == (StatBlock { xp: (s0.xp + amount) as u32, ..grown(s0, s0.level as int, stats.level as int) }),
        decreases MAX_LEVEL - stats.level,
    {
        proof {
            lemma_curve_small_levels(stats.level as int);
            let l = stats.level as int;
            law_levels_reached(l + 1, s0.xp + amount);
            lemma_rotating_gains_step(s0.level as int, l, 0);
            lemma_rotating_gains_step(s0.level as int, l, 1);
            lemma_rotating_gains_step(s0.level as int, l, 2);
            lemma_rotating_gains_step(s0.level as int, l + 1, 0);
            lemma_rotating_gains_step(s0.level as int, l + 1, 1);
            lemma_rotating_gains_step(s0.level as int, l + 1, 2);
            lemma_rotating_gains_monotone(s0.level as int, l + 1, to, 0);
            lemma_rotating_gains_monotone(s0.level as int, l + 1, to, 1);
            lemma_rotating_gains_monotone(s0.level as int, l + 1, to, 2);
        }
        stats.level += 1;
        levels_gained += 1;
        apply_level_up_growth(stats);
    }
    proof {
        if stats.level < MAX_LEVEL {
            lemma_curve_small_levels(stats.level as int);
        }
    }
    levels_gained
}

proof fn lemma_rotating_gains_monotone(from: int, mid: int, to: int, r: int)
    requires
        from <= mid <= to,
    ensures
        rotating_gains(from, mid, r) <= rotating_gains(from, to, r),
    decreases to - mid,
{
    if mid < to {
        lemma_rotating_gains_monotone(from, mid, to - 1, r);
        lemma_rotating_gains_step(from, to - 1, r);
    }
}

/// XP reward for killing an enemy of the given level.
pub fn xp_for_kill(enemy_level: u32) -> (r: u32)
    requires
        20 + enemy_level * 10 <= u32::MAX,
    ensures
        r == 20 + enemy_level * 10,
{
    20 + enemy_level * 10
}

} // verus!
