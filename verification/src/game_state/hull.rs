//! The hull's condition: its size per tier, the damage, and the jobs it allows.
use vstd::prelude::*;

use super::{max_hull_of, GameState, BASE_MAX_HULL, HULL_PER_HULL_LEVEL, REPAIR_COST_PER_HULL};

verus! {

/// At or below this share of a full hull (in percent) the harbourmaster won't let
/// the captain take on races or haulage — sailing a job in such a wreck is
/// unseemly.
pub const JOB_REFUSE_PERCENT: i32 = 30;

/// Maximum hull for a ship at the given hull tier. Only the hull upgrade enlarges
/// the planking — a taller rig or deeper hold leave the structure unchanged.
pub fn max_hull(hull_level: i32) -> (m: i32)
    requires
        i32::MIN <= max_hull_of(hull_level as int) <= i32::MAX,
    ensures
        m == max_hull_of(hull_level as int),
{
    (BASE_MAX_HULL as i64 + hull_level as i64 * HULL_PER_HULL_LEVEL as i64) as i32
}

/// Hull points missing from a full hull.
pub fn damage(s: &GameState) -> (d: i32)
    requires
        s.sane(),
    ensures
        d == max_hull_of(s.hull_level as int) - s.hull,
        d >= 0,
{
    s.max_hull() - s.hull
}

/// Gold to mend the hull all the way back to sound.
pub fn repair_cost(s: &GameState) -> (c: i32)
    requires
        s.sane(),
    ensures
        c == (max_hull_of(s.hull_level as int) - s.hull) * REPAIR_COST_PER_HULL,
{
    damage(s) * REPAIR_COST_PER_HULL
}

/// The hull holds more than 30% of its full strength.
pub open spec fn fit_for_jobs(hull: int, max_hull: int) -> bool {
    hull * 100 > max_hull * JOB_REFUSE_PERCENT
}

/// Whether the hull is sound enough to take on races and haulage contracts:
/// strictly more than 30% of a full hull.
pub fn can_take_jobs(s: &GameState) -> (b: bool)
    requires
        s.sane(),
    ensures
        b == fit_for_jobs(s.hull as int, max_hull_of(s.hull_level as int)),
{
    let full = s.max_hull();
    assert(0 <= full <= 360);
    s.hull as i64 * 100 > full as i64 * JOB_REFUSE_PERCENT as i64
}

// As the hull rots, handicaps stack one notch for every 10% of hull lost below
// 90%, cycling through three kinds: a wider no-go zone, a slower helm, then a
// lower top speed, and repeating down the scale. So the first bite at 90%
// widens the no-go zone, 80% slows the turn, 70% trims top speed, 60% widens
// the no-go again, and so on to 10%.

/// How many notches a hull of `hull` points out of `max_hull` has crossed:
/// none above 90%, then one at 90% and one more for every further 10% lost,
/// at most nine.
pub open spec fn notches(hull: int, max_hull: int) -> int {
    if hull * 100 > max_hull * 90 {
        0
    } else {
        let crossed = (max_hull * 90 - hull * 100) / (max_hull * 10) + 1;
        if crossed > 9 { 9 } else { crossed }
    }
}

/// How the first `crossed` notches fall on the three kinds, dealt in turn:
/// `(deadzone, turn, speed)`.
pub open spec fn dealt(crossed: int) -> (int, int, int) {
    ((crossed + 2) / 3, (crossed + 1) / 3, crossed / 3)
}

/// How many notches of each penalty kind a hull of `hull` points out of
/// `max_hull` has earned, as `(deadzone, turn, speed)`: the single source of
/// truth for both the helm's handicaps and the captain's log.
pub fn penalty_counts(hull: i32, max_hull: i32) -> (c: (i32, i32, i32))
    requires
        max_hull > 0,
    ensures
        c.0 == dealt(notches(hull as int, max_hull as int)).0,
        c.1 == dealt(notches(hull as int, max_hull as int)).1,
        c.2 == dealt(notches(hull as int, max_hull as int)).2,
{
    let pct_num: i64 = hull as i64 * 100;
    let bar: i64 = max_hull as i64 * 90;
    if pct_num > bar {
        return (0, 0, 0);
    }
    let below: i64 = bar - pct_num;
    let step: i64 = max_hull as i64 * 10;
    let q: i64 = below / step;
    let crossed: i32 = if q + 1 > 9 { 9 } else { (q + 1) as i32 };
    let mut counts: [i32; 3] = [0, 0, 0];
    let mut i: i32 = 0;
    while i < crossed
        invariant
            0 <= i <= crossed <= 9,
            counts[0] == (i + 2) / 3,
            counts[1] == (i + 1) / 3,
            counts[2] == i / 3,
        decreases crossed - i,
    {
        let slot: usize = (i % 3) as usize;
        counts.set(slot, counts[slot] + 1);
        i += 1;
    }
    (counts[0], counts[1], counts[2])
}

/// The handicaps only pile up as the hull rots: a weaker hull (out of the same
/// full strength) has crossed at least as many notches, and at least as many
/// of each kind.
pub proof fn law_notches_pile_up(weaker: int, stronger: int, max_hull: int)
    requires
        max_hull > 0,
        weaker <= stronger,
    ensures
        notches(weaker, max_hull) >= notches(stronger, max_hull),
        dealt(notches(weaker, max_hull)).0 >= dealt(notches(stronger, max_hull)).0,
        dealt(notches(weaker, max_hull)).1 >= dealt(notches(stronger, max_hull)).1,
        dealt(notches(weaker, max_hull)).2 >= dealt(notches(stronger, max_hull)).2,
{
    let step = max_hull * 10;
    if stronger * 100 <= max_hull * 90 {
        let a = max_hull * 90 - weaker * 100;
        let b = max_hull * 90 - stronger * 100;
        assert(a >= b >= 0);
        assert(a / step >= b / step) by {
            vstd::arithmetic::div_mod::lemma_div_is_ordered(b, a, step);
        }
    }
    let n1 = notches(weaker, max_hull);
    let n2 = notches(stronger, max_hull);
    assert(n1 >= n2);
    assert((n1 + 2) / 3 >= (n2 + 2) / 3) by {
        vstd::arithmetic::div_mod::lemma_div_is_ordered(n2 + 2, n1 + 2, 3);
    }
    assert((n1 + 1) / 3 >= (n2 + 1) / 3) by {
        vstd::arithmetic::div_mod::lemma_div_is_ordered(n2 + 1, n1 + 1, 3);
    }
    assert(n1 / 3 >= n2 / 3) by {
        vstd::arithmetic::div_mod::lemma_div_is_ordered(n2, n1, 3);
    }
}

} // verus!
