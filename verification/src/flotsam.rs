//! Floating salvage adrift on the open sea.
//!
//! A crate, barrel or half-sunk strongbox bobs on the swell; the captain scoops
//! it up simply by sailing over it (see [`FlotsamField::collect_near`]), and the
//! gold it yields lands in the purse like any other voyage outcome. Positions
//! are whole metres on the chart, as for islands.
use vstd::prelude::*;

use crate::rng::{draw_between, lcg_next, seeded, Rng};

verus! {

/// The kinds of salvage that bob on the waves, each worth some gold when hauled
/// aboard: common crates, the odd barrel, a rare strongbox.
#[derive(Clone, Copy, PartialEq, Eq, Debug, Structural)]
pub enum FlotsamKind {
    Crate,
    Barrel,
    Chest,
}

/// Every kind, in the order [`FlotsamKind::pick`] walks them.
pub const FLOTSAM_KINDS: [FlotsamKind; 3] = [FlotsamKind::Crate, FlotsamKind::Barrel, FlotsamKind::Chest];

/// How many pieces of salvage drift within reach of the ship at once.
pub const TARGET: usize = 3;

/// How close the ship must come (m) to scoop a piece aboard: a touch wider than
/// the hull, so sailing over a crate lifts it.
pub const REACH: i32 = 30;

impl FlotsamKind {
    /// The kind's name as shown on the pickup flash.
    pub open spec fn name(self) -> Seq<char> {
        match self {
            FlotsamKind::Crate => "Crate"@,
            FlotsamKind::Barrel => "Barrel"@,
            FlotsamKind::Chest => "Chest"@,
        }
    }

    /// The gold the kind is worth.
    pub open spec fn worth(self) -> int {
        match self {
            FlotsamKind::Crate => 12,
            FlotsamKind::Barrel => 28,
            FlotsamKind::Chest => 75,
        }
    }

    /// How often the kind turns up, in hundredths (the three sum to a hundred).
    pub open spec fn share(self) -> int {
        match self {
            FlotsamKind::Crate => 56,
            FlotsamKind::Barrel => 32,
            FlotsamKind::Chest => 12,
        }
    }

    /// The kind a roll in `0..100` lands on: the first whose running share
    /// exceeds the roll.
    pub open spec fn for_roll(roll: int) -> FlotsamKind {
        if roll < 56 {
            FlotsamKind::Crate
        } else if roll < 88 {
            FlotsamKind::Barrel
        } else {
            FlotsamKind::Chest
        }
    }

    pub fn label(self) -> (s: &'static str)
        ensures
            s@ == self.name(),
    {
        match self {
            FlotsamKind::Crate => "Crate",
            FlotsamKind::Barrel => "Barrel",
            FlotsamKind::Chest => "Chest",
        }
    }

    /// The gold this kind is worth when scooped aboard.
    pub fn gold(self) -> (g: i32)
        ensures
            g == self.worth(),
    {
        match self {
            FlotsamKind::Crate => 12,
            FlotsamKind::Barrel => 28,
            FlotsamKind::Chest => 75,
        }
    }

    /// Draw a kind at random, weighted toward the common salvage: a roll in
    /// `0..100` walks the kinds in order, taking the first whose running share
    /// exceeds it. Advances `rng` by exactly one draw.
    pub fn pick(rng: &mut Rng) -> (k: FlotsamKind)
        ensures
            final(rng)@ == lcg_next(old(rng)@),
            k == FlotsamKind::for_roll(draw_between(old(rng)@, 0, 100)),
    {
        let roll = rng.int_between(0, 100);
        let mut rem: i32 = roll;
        if rem < 56 {
            return FlotsamKind::Crate;
        }
        rem = rem - 56;
        if rem < 32 {
            return FlotsamKind::Barrel;
        }
        FlotsamKind::Chest
    }
}

/// A floating collectible adrift on the open sea.
#[derive(Clone, Copy, PartialEq, Eq, Debug, Structural)]
pub struct Flotsam {
    pub id: i32,
    /// East-west position, metres.
    pub x: i32,
    /// North-south position, metres.
    pub y: i32,
    pub kind: FlotsamKind,
}

/// What a sweep for salvage turned up: the gold scooped aboard and the items
/// lifted (so the renderer can flash a pickup).
#[derive(Clone, Debug)]
pub struct Haul {
    pub gold: i32,
    pub picked: Vec<Flotsam>,
}

/// The drifting salvage currently at sea. The field carries its own stream so
/// topping it up stays deterministic from a seed.
#[derive(Clone, Debug)]
pub struct FlotsamField {
    pub items: Vec<Flotsam>,
    pub next_id: i32,
    pub rng: Rng,
}

/// The piece lies within `reach` metres of `(x, y)`.
pub open spec fn within_reach(f: Flotsam, x: int, y: int, reach: int) -> bool {
    reach >= 0 && (f.x - x) * (f.x - x) + (f.y - y) * (f.y - y) <= reach * reach
}

/// The pieces of `items`, in order, that are (or, when not `near`, are not)
/// within reach.
pub open spec fn swept(items: Seq<Flotsam>, x: int, y: int, reach: int, near: bool) -> Seq<Flotsam>
    decreases items.len(),
{
    if items.len() == 0 {
        Seq::empty()
    } else {
        let rest = swept(items.drop_last(), x, y, reach, near);
        if within_reach(items.last(), x, y, reach) == near {
            rest.push(items.last())
        } else {
            rest
        }
    }
}

/// The gold the pieces of `items` are worth together.
pub open spec fn salvage_worth(items: Seq<Flotsam>) -> int
    decreases items.len(),
{
    if items.len() == 0 {
        0
    } else {
        salvage_worth(items.drop_last()) + items.last().kind.worth()
    }
}

/// A sweep keeps at most the pieces it was given, each worth at most a chest.
proof fn lemma_swept_bounds(items: Seq<Flotsam>, x: int, y: int, reach: int, near: bool)
    ensures
        swept(items, x, y, reach, near).len() <= items.len(),
        0 <= salvage_worth(swept(items, x, y, reach, near)) <= 75 * swept(items, x, y, reach, near).len(),
    decreases items.len(),
{
    if items.len() > 0 {
        lemma_swept_bounds(items.drop_last(), x, y, reach, near);
        let rest = swept(items.drop_last(), x, y, reach, near);
        assert(rest.push(items.last()).drop_last() =~= rest);
    }
}

/// Whether the piece lies within `reach` metres of `(x, y)`.
fn in_reach(f: &Flotsam, x: i32, y: i32, reach: i32) -> (b: bool)
    ensures
        b == within_reach(*f, x as int, y as int, reach as int),
{
    let dx: i128 = f.x as i128 - x as i128;
    let dy: i128 = f.y as i128 - y as i128;
    let r: i128 = reach as i128;
    assert(dx * dx <= 0x1_0000_0000 * 0x1_0000_0000) by (nonlinear_arith)
        requires
            -0x1_0000_0000 <= dx <= 0x1_0000_0000,
    ;
    assert(dy * dy <= 0x1_0000_0000 * 0x1_0000_0000) by (nonlinear_arith)
        requires
            -0x1_0000_0000 <= dy <= 0x1_0000_0000,
    ;
    assert(r * r <= 0x1_0000_0000 * 0x1_0000_0000) by (nonlinear_arith)
        requires
            -0x1_0000_0000 <= r <= 0x1_0000_0000,
    ;
    assert(0 <= dx * dx) by (nonlinear_arith);
    assert(0 <= dy * dy) by (nonlinear_arith);
    assert(0 <= r * r) by (nonlinear_arith);
    r >= 0 && dx * dx + dy * dy <= r * r
}

impl FlotsamField {
    /// A fresh, empty field seeded deterministically.
    pub fn from_seed(seed: i64) -> (field: FlotsamField)
        ensures
            field.items@.len() == 0,
            field.next_id == 0,
            field.rng@ == seeded(seed),
    {
        FlotsamField { items: Vec::new(), next_id: 0, rng: Rng::from_seed(seed) }
    }

    /// Scoop up every floating item within `reach` metres of the ship at
    /// `(x, y)`, removing them from the field and returning the gold gained and
    /// the items lifted. The rest stay adrift, in their order.
    pub fn collect_near(&mut self, x: i32, y: i32, reach: i32) -> (haul: Haul)
        requires
            old(self).items@.len() <= 20_000_000,
        ensures
            haul.picked@ == swept(old(self).items@, x as int, y as int, reach as int, true),
            final(self).items@ == swept(old(self).items@, x as int, y as int, reach as int, false),
            haul.gold == salvage_worth(haul.picked@),
            final(self).next_id == old(self).next_id,
            final(self).rng == old(self).rng,
    {
        let ghost items = self.items@;
        let mut picked: Vec<Flotsam> = Vec::new();
        let mut kept: Vec<Flotsam> = Vec::new();
        let mut gold: i32 = 0;
        let mut k: usize = 0;
        while k < self.items.len()
            invariant
                items == self.items@,
                items.len() <= 20_000_000,
                k <= items.len(),
                picked@ == swept(items.take(k as int), x as int, y as int, reach as int, true),
                kept@ == swept(items.take(k as int), x as int, y as int, reach as int, false),
                gold == salvage_worth(picked@),
            decreases items.len() - k,
        {
            let f = self.items[k];
            proof {
                assert(items.take(k + 1).drop_last() =~= items.take(k as int));
                assert(items.take(k + 1).last() == f);
                lemma_swept_bounds(items.take(k as int), x as int, y as int, reach as int, true);
            }
            if in_reach(&f, x, y, reach) {
                let ghost before = picked@;
                picked.push(f);
                proof {
                    assert(picked@.drop_last() =~= before);
                }
                gold = gold + f.kind.gold();
            } else {
                kept.push(f);
            }
            k += 1;
        }
        proof {
            assert(items.take(items.len() as int) =~= items);
        }
        self.items = kept;
        Haul { gold, picked }
    }
}

} // verus!
