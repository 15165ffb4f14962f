//! The upgrade ladder: what each fitting tier gives and costs.
use vstd::prelude::*;

use super::{
    GameState, UpgradeKind, BASE_CARGO, CARGO_BASE_COST, CARGO_STEP, HAUL_BASE, HAUL_PER_SAIL_LEVEL, HULL_BASE_COST,
    HULL_MAX_LEVEL, MAX_LEVEL, SAIL_BASE_COST,
};

verus! {

/// `b` to the power `e`.
pub open spec fn power(b: int, e: nat) -> int
    decreases e,
{
    if e == 0 {
        1
    } else {
        b * power(b, (e - 1) as nat)
    }
}

/// `num / den` rounded to the nearest whole number, halves up.
pub open spec fn round_ratio(num: int, den: int) -> int {
    (2 * num + den) / (2 * den)
}

/// The price of tier `level` of a fitting whose first tier costs `base`: the base
/// grown by 2.2x per tier, rounded to whole gold and capped at `i32::MAX`.
pub open spec fn fitting_cost(base: int, level: int) -> int {
    if level >= 0 {
        let c = round_ratio(base * power(22, level as nat), power(10, level as nat));
        if c > i32::MAX {
            i32::MAX as int
        } else {
            c
        }
    } else {
        round_ratio(base * power(10, (-level) as nat), power(22, (-level) as nat))
    }
}

/// The cargo a rig at `sail_level` hauls at full speed before any penalty.
pub open spec fn haul_of(sail_level: int) -> int {
    HAUL_BASE + sail_level * HAUL_PER_SAIL_LEVEL
}

/// Hold slots at cargo tier `level`.
pub open spec fn capacity_of(level: int) -> int {
    BASE_CARGO + level * CARGO_STEP
}

/// Integer division rounding toward zero (Rust's `/` on integers).
pub open spec fn trunc_div(a: int, b: int) -> int {
    if a >= 0 {
        a / b
    } else {
        -((-a) / b)
    }
}

/// The cargo tier a hold of `capacity` slots reflects.
pub open spec fn cargo_level_for(capacity: int) -> int {
    trunc_div(capacity - BASE_CARGO, CARGO_STEP as int)
}

/// The tier a ship has reached in a fitting.
pub open spec fn level_in(kind: UpgradeKind, s: GameState) -> int {
    match kind {
        UpgradeKind::Hull => s.hull_level as int,
        UpgradeKind::Sail => s.sail_level as int,
        UpgradeKind::Cargo => cargo_level_for(s.hold_capacity as int),
    }
}

/// The top tier a fitting can reach.
pub open spec fn top_level(kind: UpgradeKind) -> int {
    match kind {
        UpgradeKind::Hull => HULL_MAX_LEVEL as int,
        UpgradeKind::Sail | UpgradeKind::Cargo => MAX_LEVEL as int,
    }
}

/// What the first tier of a fitting costs.
pub open spec fn base_cost(kind: UpgradeKind) -> int {
    match kind {
        UpgradeKind::Hull => HULL_BASE_COST as int,
        UpgradeKind::Sail => SAIL_BASE_COST as int,
        UpgradeKind::Cargo => CARGO_BASE_COST as int,
    }
}

/// The price of the next tier of `kind`, or `None` once it is maxed.
pub open spec fn next_cost_of(kind: UpgradeKind, s: GameState) -> Option<int> {
    if level_in(kind, s) >= top_level(kind) {
        None
    } else {
        Some(fitting_cost(base_cost(kind), level_in(kind, s)))
    }
}

proof fn lemma_power_pos(b: int, e: nat)
    requires
        b >= 1,
    ensures
        power(b, e) >= 1,
    decreases e,
{
    if e > 0 {
        lemma_power_pos(b, (e - 1) as nat);
        assert(b * power(b, (e - 1) as nat) >= 1) by (nonlinear_arith)
            requires
                b >= 1,
                power(b, (e - 1) as nat) >= 1,
        ;
    }
}

proof fn lemma_power_mono(b: int, i: nat, j: nat)
    requires
        b >= 1,
        i <= j,
    ensures
        power(b, i) <= power(b, j),
    decreases j,
{
    if i < j {
        lemma_power_mono(b, i, (j - 1) as nat);
        lemma_power_pos(b, (j - 1) as nat);
        assert(power(b, (j - 1) as nat) <= b * power(b, (j - 1) as nat)) by (nonlinear_arith)
            requires
                b >= 1,
                power(b, (j - 1) as nat) >= 1,
        ;
    }
}

/// 22^e outgrows 2^e * 10^e.
proof fn lemma_power_split(e: nat)
    ensures
        power(22, e) >= power(2, e) * power(10, e),
    decreases e,
{
    if e > 0 {
        let e1 = (e - 1) as nat;
        lemma_power_split(e1);
        lemma_power_pos(2, e1);
        lemma_power_pos(10, e1);
        assert(22 * power(22, e1) >= 2 * power(2, e1) * (10 * power(10, e1))) by (nonlinear_arith)
            requires
                power(22, e1) >= power(2, e1) * power(10, e1),
                power(2, e1) >= 1,
                power(10, e1) >= 1,
        ;
    }
}

/// Each tier of a fitting costs at least as much as the one below it: the
/// price grows by 2.2x a tier, and neither the rounding to whole gold nor the
/// cap at `i32::MAX` ever turns that growth into a drop.
pub proof fn law_each_tier_costs_more(base: int, level: int)
    requires
        base >= 0,
        level >= 0,
    ensures
        fitting_cost(base, level) <= fitting_cost(base, level + 1),
{
    let e = level as nat;
    lemma_power_pos(22, e);
    lemma_power_pos(10, e);
    let n = base * power(22, e);
    let d = power(10, e);
    assert(power(22, (e + 1) as nat) == 22 * power(22, e));
    assert(power(10, (e + 1) as nat) == 10 * power(10, e));
    assert(base * (22 * power(22, e)) == 22 * n) by (nonlinear_arith)
        requires
            n == base * power(22, e),
    ;
    assert(n >= 0) by (nonlinear_arith)
        requires
            n == base * power(22, e),
            base >= 0,
            power(22, e) >= 1,
    ;
    let lo = round_ratio(n, d);
    let hi = round_ratio(22 * n, 10 * d);
    vstd::arithmetic::div_mod::lemma_fundamental_div_mod(2 * n + d, 2 * d);
    vstd::arithmetic::div_mod::lemma_fundamental_div_mod(44 * n + 10 * d, 20 * d);
    assert(lo <= hi) by (nonlinear_arith)
        requires
            lo == (2 * n + d) / (2 * d),
            hi == (44 * n + 10 * d) / (20 * d),
            2 * n + d == (2 * d) * lo + (2 * n + d) % (2 * d),
            0 <= (2 * n + d) % (2 * d),
            44 * n + 10 * d == (20 * d) * hi + (44 * n + 10 * d) % (20 * d),
            (44 * n + 10 * d) % (20 * d) < 20 * d,
            n >= 0,
            d >= 1,
    ;
}

/// Past tier 24 the price is beyond any purse.
proof fn lemma_cost_saturates(base: int, level: int)
    requires
        250 <= base,
        level > 24,
    ensures
        fitting_cost(base, level) == i32::MAX,
{
    let e = level as nat;
    lemma_power_split(e);
    lemma_power_mono(2, 25, e);
    lemma_power_pos(10, e);
    assert(power(2, 25) == 33554432) by {
        reveal_with_fuel(power, 26);
    }
    let d = power(10, e);
    let n = base * power(22, e);
    assert(n >= 8388608000 * d) by (nonlinear_arith)
        requires
            n == base * power(22, e),
            base >= 250,
            power(22, e) >= power(2, e) * d,
            power(2, e) >= 33554432,
            d >= 1,
    ;
    assert(round_ratio(n, d) >= 8388608000) by (nonlinear_arith)
        requires
            n >= 8388608000 * d,
            d >= 1,
    ;
}

/// Below tier -24 the price rounds to nothing.
proof fn lemma_cost_vanishes(base: int, level: int)
    requires
        0 <= base <= 500,
        level < -24,
    ensures
        fitting_cost(base, level) == 0,
{
    let e = (-level) as nat;
    lemma_power_split(e);
    lemma_power_mono(2, 25, e);
    lemma_power_pos(10, e);
    assert(power(2, 25) == 33554432) by {
        reveal_with_fuel(power, 26);
    }
    let d = power(22, e);
    let n = base * power(10, e);
    assert(2 * n < d) by (nonlinear_arith)
        requires
            n == base * power(10, e),
            base <= 500,
            d >= power(2, e) * power(10, e),
            power(2, e) >= 33554432,
            power(10, e) >= 1,
            base >= 0,
    ;
    assert(0 <= n);
    assert(round_ratio(n, d) == 0) by (nonlinear_arith)
        requires
            0 <= 2 * n < d,
    ;
}

/// The price of tier `level` of a fitting whose first tier costs `base`.
fn fitting_price(base: i32, level: i32) -> (c: i32)
    requires
        250 <= base <= 500,
    ensures
        c == fitting_cost(base as int, level as int),
        c >= 0,
{
    if level > 24 {
        proof {
            lemma_cost_saturates(base as int, level as int);
        }
        return i32::MAX;
    }
    if level < -24 {
        proof {
            lemma_cost_vanishes(base as int, level as int);
        }
        return 0;
    }
    let steps: u32 = if level >= 0 { level as u32 } else { (-(level as i64)) as u32 };
    let mut p22: u128 = 1;
    let mut p10: u128 = 1;
    let mut i: u32 = 0;
    proof {
        lemma_power_mono(22, steps as nat, 24);
        assert(power(22, 24) == 165251092644282265779977014214656) by {
            reveal_with_fuel(power, 25);
        }
    }
    while i < steps
        invariant
            i <= steps <= 24,
            p22 == power(22, i as nat),
            p10 == power(10, i as nat),
            power(22, steps as nat) <= 165251092644282265779977014214656,
        decreases steps - i,
    {
        proof {
            lemma_power_mono(22, (i + 1) as nat, steps as nat);
            lemma_power_mono(10, (i + 1) as nat, steps as nat);
            lemma_power_split(steps as nat);
            lemma_power_pos(2, steps as nat);
            lemma_power_pos(10, steps as nat);
            assert(power(10, steps as nat) <= power(22, steps as nat)) by (nonlinear_arith)
                requires
                    power(22, steps as nat) >= power(2, steps as nat) * power(10, steps as nat),
                    power(2, steps as nat) >= 1,
                    power(10, steps as nat) >= 1,
            ;
        }
        p22 = p22 * 22;
        p10 = p10 * 10;
        i += 1;
    }
    proof {
        lemma_power_pos(22, steps as nat);
        lemma_power_pos(10, steps as nat);
        lemma_power_split(steps as nat);
        lemma_power_pos(2, steps as nat);
        assert(p10 <= p22) by (nonlinear_arith)
            requires
                p22 >= power(2, steps as nat) * p10,
                power(2, steps as nat) >= 1,
                p10 >= 1,
        ;
    }
    let b = base as u128;
    assert(2 * b * p22 <= 1000 * 165251092644282265779977014214656) by (nonlinear_arith)
        requires
            b <= 500,
            p22 <= 165251092644282265779977014214656,
    ;
    assert(2 * b * p10 <= 1000 * 165251092644282265779977014214656) by (nonlinear_arith)
        requires
            b <= 500,
            p10 <= p22 <= 165251092644282265779977014214656,
    ;
    assert(2 * b * p22 == 2 * (b * p22) && 2 * b * p10 == 2 * (b * p10)) by (nonlinear_arith);
    if level >= 0 {
        assert(steps as nat == level as nat);
        let c = (2 * b * p22 + p10) / (2 * p10);
        if c > i32::MAX as u128 {
            i32::MAX
        } else {
            c as i32
        }
    } else {
        assert(steps as nat == (-level) as nat);
        let c = (2 * b * p10 + p22) / (2 * p22);
        assert(c <= b) by (nonlinear_arith)
            requires
                c == (2 * b * p10 + p22) / (2 * p22),
                1 <= p10 <= p22,
        ;
        c as i32
    }
}

/// The cargo a rig at `sail_level` hauls at full speed before any penalty.
pub fn max_haul(sail_level: i32) -> (h: i32)
    requires
        i32::MIN <= haul_of(sail_level as int) <= i32::MAX,
    ensures
        h == haul_of(sail_level as int),
{
    (HAUL_BASE as i64 + sail_level as i64 * HAUL_PER_SAIL_LEVEL as i64) as i32
}

/// Hold slots at cargo tier `cargo_level`.
pub fn cargo_capacity(cargo_level: i32) -> (c: i32)
    requires
        i32::MIN <= capacity_of(cargo_level as int) <= i32::MAX,
    ensures
        c == capacity_of(cargo_level as int),
{
    (BASE_CARGO as i64 + cargo_level as i64 * CARGO_STEP as i64) as i32
}

/// The cargo tier a hold of `capacity` slots reflects.
pub fn cargo_level_of(capacity: i32) -> (l: i32)
    ensures
        l == cargo_level_for(capacity as int),
{
    let n: i64 = capacity as i64 - BASE_CARGO as i64;
    if n >= 0 {
        (n / CARGO_STEP as i64) as i32
    } else {
        (-((-n) / CARGO_STEP as i64)) as i32
    }
}

pub fn sail_cost(level: i32) -> (c: i32)
    ensures
        c == fitting_cost(SAIL_BASE_COST as int, level as int),
        c >= 0,
{
    fitting_price(SAIL_BASE_COST, level)
}

pub fn cargo_cost(level: i32) -> (c: i32)
    ensures
        c == fitting_cost(CARGO_BASE_COST as int, level as int),
        c >= 0,
{
    fitting_price(CARGO_BASE_COST, level)
}

pub fn hull_cost(level: i32) -> (c: i32)
    ensures
        c == fitting_cost(HULL_BASE_COST as int, level as int),
        c >= 0,
{
    fitting_price(HULL_BASE_COST, level)
}

/// The tier a ship has reached in a fitting.
pub fn level_of(kind: UpgradeKind, s: &GameState) -> (l: i32)
    ensures
        l == level_in(kind, *s),
{
    match kind {
        UpgradeKind::Hull => s.hull_level,
        UpgradeKind::Sail => s.sail_level,
        UpgradeKind::Cargo => cargo_level_of(s.hold_capacity),
    }
}

/// The top tier a fitting can reach (0-indexed). The hull stops at four tiers;
/// the sails and hold run the full ladder.
pub fn max_level(kind: UpgradeKind) -> (l: i32)
    ensures
        l == top_level(kind),
{
    match kind {
        UpgradeKind::Hull => HULL_MAX_LEVEL,
        UpgradeKind::Sail | UpgradeKind::Cargo => MAX_LEVEL,
    }
}

/// The price of the next upgrade of `kind`, or None if maxed.
pub fn next_cost(kind: UpgradeKind, s: &GameState) -> (c: Option<i32>)
    ensures
        match next_cost_of(kind, *s) {
            Some(v) => c == Some(v as i32) && 0 <= v <= i32::MAX,
            None => c is None,
        },
{
    let lvl = level_of(kind, s);
    if lvl >= max_level(kind) {
        None
    } else {
        Some(
            match kind {
                UpgradeKind::Hull => hull_cost(lvl),
                UpgradeKind::Sail => sail_cost(lvl),
                UpgradeKind::Cargo => cargo_cost(lvl),
            },
        )
    }
}

} // verus!
