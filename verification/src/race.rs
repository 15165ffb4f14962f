//! Wager races between ports: the booked race a voyage carries, the terms a
//! port's race board offers, and the hull tier a leg of a given length demands.
use vstd::prelude::*;

verus! {

/// The distances (metres) at which a leg steps up a hull tier: a leg of at least
/// 4 km wants a tier-1 hull, 6.5 km tier 2, 9 km tier 3. Haulage contracts are
/// graded on the same rungs.
pub const HULL_REQ_M: [i64; 3] = [4_000, 6_500, 9_000];

/// A booked wager race from the origin port to the target mark.
#[derive(Clone, Copy, Debug, PartialEq, Eq, Structural)]
pub struct Race {
    pub origin_id: i32,
    pub target_id: i32,
    /// Gold staked on booking; handed back doubled on a win.
    pub stake: i32,
    /// The hull tier the leg demanded.
    pub required_level: i32,
}

/// One line of a port's race board: a mark to race to and the stake it costs.
#[derive(Clone, Copy, Debug, PartialEq, Eq, Structural)]
pub struct RaceOffer {
    pub target_id: i32,
    pub stake: i32,
}

/// How many rungs a leg of `distance_m` metres reaches.
pub open spec fn level_for(distance_m: int) -> int {
    (if distance_m >= 4_000 { 1int } else { 0int }) + (if distance_m >= 6_500 { 1int } else { 0int }) + (if distance_m
        >= 9_000 { 1int } else { 0int })
}

/// The hull tier a leg of `distance_m` metres demands: one per rung reached.
pub fn required_level_for(distance_m: i64) -> (level: i32)
    ensures
        level == level_for(distance_m as int),
        0 <= level <= 3,
{
    let mut level: i32 = 0;
    let mut k: usize = 0;
    while k < 3
        invariant
            k <= 3,
            level == (if k > 0 && distance_m >= 4_000 { 1int } else { 0int }) + (if k > 1 && distance_m >= 6_500 {
                1int
            } else {
                0int
            }) + (if k > 2 && distance_m >= 9_000 { 1int } else { 0int }),
        decreases 3 - k,
    {
        if distance_m >= HULL_REQ_M[k] {
            level += 1;
        }
        k += 1;
    }
    level
}

} // verus!
