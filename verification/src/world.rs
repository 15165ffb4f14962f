//! The chart the voyage is sailed on, as the rules read it: each island's id,
//! its position (whole metres on the chart), whether it has a port and a
//! shipyard, and the local clusters islands are grouped into.
use vstd::prelude::*;

verus! {

/// How far from the chart's origin (in metres, along either axis) an island may
/// lie; keeps every squared distance within 64 bits.
pub const WORLD_LIMIT: i32 = 1_000_000_000;

/// Most islands a chart may hold (so every contract id `100 * id + slot` fits).
pub const MAX_ISLANDS: usize = 20_000_000;

/// One island of the chart.
#[derive(Clone, Copy, Debug, PartialEq, Eq, Structural)]
pub struct Island {
    pub id: i32,
    /// East-west position, metres.
    pub x: i32,
    /// North-south position, metres.
    pub y: i32,
    pub is_port: bool,
    pub is_shipyard: bool,
}

/// A local group of islands; haulage stays within one.
#[derive(Clone, Debug)]
pub struct Cluster {
    pub id: i32,
    pub island_ids: Vec<i32>,
}

/// The whole chart.
#[derive(Clone, Debug)]
pub struct World {
    pub seed: i64,
    pub islands: Vec<Island>,
    pub clusters: Vec<Cluster>,
}

impl Island {
    /// The island lies within the chart's bounds.
    pub open spec fn on_chart(self) -> bool {
        -WORLD_LIMIT <= self.x <= WORLD_LIMIT && -WORLD_LIMIT <= self.y <= WORLD_LIMIT
    }
}

impl World {
    /// Islands are stored by id (`islands[i].id == i`), all lie on the chart, and
    /// clusters name only islands of the chart.
    pub open spec fn wf(&self) -> bool {
        &&& self.islands@.len() <= MAX_ISLANDS
        &&& forall|c: int, k: int|
            0 <= c < self.clusters@.len() && 0 <= k < self.clusters@[c].island_ids@.len() ==> 0
                <= #[trigger] self.clusters@[c].island_ids@[k] < self.islands@.len()
        &&& forall|i: int| 0 <= i < self.islands@.len() ==> (#[trigger] self.islands@[i]).id == i
        &&& forall|i: int| 0 <= i < self.islands@.len() ==> (#[trigger] self.islands@[i]).on_chart()
    }
}

/// Squared straight-line distance between two islands, square metres.
pub open spec fn dist_sq(a: Island, b: Island) -> int {
    (a.x - b.x) * (a.x - b.x) + (a.y - b.y) * (a.y - b.y)
}

/// `r` is the whole part of the square root of `n`.
pub open spec fn is_floor_sqrt(n: int, r: int) -> bool {
    0 <= r && r * r <= n < (r + 1) * (r + 1)
}

/// The whole part of the square root of `n`.
pub open spec fn floor_sqrt(n: int) -> int {
    choose|r: int| is_floor_sqrt(n, r)
}

/// Straight-line distance between two islands, in whole metres (rounded down).
pub open spec fn distance(a: Island, b: Island) -> int {
    floor_sqrt(dist_sq(a, b))
}

proof fn lemma_floor_sqrt_unique(n: int, r: int, s: int)
    requires
        is_floor_sqrt(n, r),
        is_floor_sqrt(n, s),
    ensures
        r == s,
{
    if r < s {
        assert((r + 1) * (r + 1) <= s * s) by (nonlinear_arith)
            requires
                0 <= r + 1 <= s,
        ;
    } else if s < r {
        assert((s + 1) * (s + 1) <= r * r) by (nonlinear_arith)
            requires
                0 <= s + 1 <= r,
        ;
    }
}

/// Every non-negative integer has a whole square root.
pub proof fn lemma_floor_sqrt_exists(n: int)
    requires
        n >= 0,
    ensures
        is_floor_sqrt(n, floor_sqrt(n)),
        floor_sqrt(n) >= 0,
    decreases n,
{
    if n == 0 {
        assert(is_floor_sqrt(0, 0));
    } else {
        lemma_floor_sqrt_exists(n - 1);
        let r = floor_sqrt(n - 1);
        if (r + 1) * (r + 1) <= n {
            assert(n < (r + 2) * (r + 2)) by (nonlinear_arith)
                requires
                    n - 1 < (r + 1) * (r + 1),
                    r >= 0,
            ;
            assert(is_floor_sqrt(n, r + 1));
        } else {
            assert(is_floor_sqrt(n, r));
        }
    }
}

/// The distance between two islands is never negative.
pub proof fn lemma_distance_nonneg(a: Island, b: Island)
    ensures
        distance(a, b) >= 0,
{
    assert(dist_sq(a, b) >= 0) by (nonlinear_arith);
    lemma_floor_sqrt_exists(dist_sq(a, b));
}

/// A witness pins `floor_sqrt`.
pub proof fn lemma_floor_sqrt_is(n: int, r: int)
    requires
        is_floor_sqrt(n, r),
    ensures
        floor_sqrt(n) == r,
{
    assert(is_floor_sqrt(n, floor_sqrt(n)));
    lemma_floor_sqrt_unique(n, r, floor_sqrt(n));
}

/// The whole part of the square root of `n`, by bisection.
pub fn isqrt(n: u64) -> (r: u64)
    ensures
        r as int == floor_sqrt(n as int),
        r <= 0x1_0000_0000,
{
    let mut lo: u128 = 0;
    let mut hi: u128 = 0x1_0000_0000;
    assert(hi * hi > n) by (nonlinear_arith)
        requires
            hi == 0x1_0000_0000,
            n <= 0xFFFF_FFFF_FFFF_FFFF,
    ;
    while lo + 1 < hi
        invariant
            lo < hi <= 0x1_0000_0000,
            lo * lo <= n,
            n < hi * hi,
        decreases hi - lo,
    {
        let mid: u128 = lo + (hi - lo) / 2;
        assert(mid * mid <= 0x1_0000_0000 * 0x1_0000_0000) by (nonlinear_arith)
            requires
                mid <= 0x1_0000_0000,
        ;
        if mid * mid <= n as u128 {
            lo = mid;
        } else {
            hi = mid;
        }
    }
    proof {
        assert(hi == lo + 1);
        lemma_floor_sqrt_is(n as int, lo as int);
    }
    lo as u64
}

/// Squared distance between two islands on the chart.
pub fn distance_sq(a: &Island, b: &Island) -> (d: u64)
    requires
        a.on_chart(),
        b.on_chart(),
    ensures
        d as int == dist_sq(*a, *b),
{
    let dx: i64 = a.x as i64 - b.x as i64;
    let dy: i64 = a.y as i64 - b.y as i64;
    let ux: u64 = if dx < 0 { (-dx) as u64 } else { dx as u64 };
    let uy: u64 = if dy < 0 { (-dy) as u64 } else { dy as u64 };
    assert(ux * ux <= 2_000_000_000 * 2_000_000_000) by (nonlinear_arith)
        requires
            ux <= 2_000_000_000,
    ;
    assert(uy * uy <= 2_000_000_000 * 2_000_000_000) by (nonlinear_arith)
        requires
            uy <= 2_000_000_000,
    ;
    assert(ux * ux == dx * dx && uy * uy == dy * dy) by (nonlinear_arith)
        requires
            ux == dx || ux == -dx,
            uy == dy || uy == -dy,
    ;
    ux * ux + uy * uy
}

/// Straight-line distance between two islands, whole metres rounded down.
pub fn distance_m(a: &Island, b: &Island) -> (d: u64)
    requires
        a.on_chart(),
        b.on_chart(),
    ensures
        d as int == distance(*a, *b),
        d <= 0x1_0000_0000,
{
    isqrt(distance_sq(a, b))
}

} // verus!
