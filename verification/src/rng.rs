//! The game's deterministic pseudo-random stream.
//!
//! Every generator in the library (dig fields, port prices, contract boards,
//! salvage kinds) threads one of these, seeded from the world seed and whatever
//! keys the thing being generated, so a given chart always rolls the same dice.
//! It is a 48-bit linear congruential generator with the classic
//! `0x5DEECE66D` multiplier; each draw yields the top 31 bits of the new state.
use vstd::prelude::*;

verus! {

/// Multiplier of the congruential step.
pub const LCG_MULT: u64 = 0x5_DEEC_E66D;
/// Increment of the congruential step.
pub const LCG_INC: u64 = 0xB;
/// The state lives modulo 2^48.
pub const LCG_MOD: u64 = 0x1_0000_0000_0000;
/// The low bits of the state that a draw discards (2^17).
pub const DRAW_SHIFT_DIV: u64 = 0x2_0000;

/// The state after one step of the generator.
pub open spec fn lcg_next(s: u64) -> u64 {
    ((s as int * LCG_MULT as int + LCG_INC as int) % LCG_MOD as int) as u64
}

/// The 31-bit value a draw from state `s` yields.
pub open spec fn lcg_draw(s: u64) -> int {
    lcg_next(s) as int / DRAW_SHIFT_DIV as int
}

/// The initial state for a seed: the seed's low 48 bits scrambled by the
/// multiplier.
pub open spec fn seeded(seed: i64) -> u64 {
    ((seed as u64) ^ LCG_MULT) & (LCG_MOD - 1) as u64
}

/// The integer in `lo..hi` that a draw from state `s` picks.
pub open spec fn draw_between(s: u64, lo: int, hi: int) -> int {
    lo + lcg_draw(s) % (hi - lo)
}

/// Whether a draw from state `s` lands under `per_mille` thousandths.
pub open spec fn draw_chance(s: u64, per_mille: int) -> bool {
    lcg_draw(s) % 1000 < per_mille
}

/// The state of a stream after `n` draws.
#[verifier::opaque]
pub open spec fn nth_state(s: u64, n: nat) -> u64
    decreases n,
{
    if n == 0 {
        s
    } else {
        lcg_next(nth_state(s, (n - 1) as nat))
    }
}

/// A seeded pseudo-random stream.
#[derive(Clone, Debug)]
pub struct Rng {
    state: u64,
}

impl View for Rng {
    type V = u64;

    closed spec fn view(&self) -> u64 {
        self.state
    }
}

impl Rng {
    /// A stream whose state is [`seeded`] from `seed`.
    pub fn from_seed(seed: i64) -> (r: Rng)
        ensures
            r@ == seeded(seed),
    {
        Rng { state: ((seed as u64) ^ LCG_MULT) & (LCG_MOD - 1) }
    }

    /// Advance the stream one step and return the 31-bit draw.
    pub fn next_u31(&mut self) -> (r: u32)
        ensures
            final(self)@ == lcg_next(old(self)@),
            r as int == lcg_draw(old(self)@),
            r < 0x8000_0000,
    {
        let s: u128 = self.state as u128;
        assert(s * 0x5_DEEC_E66D <= 0xFFFF_FFFF_FFFF_FFFF * 0x5_DEEC_E66D) by (nonlinear_arith)
            requires
                s <= 0xFFFF_FFFF_FFFF_FFFF,
        ;
        let next: u128 = (s * LCG_MULT as u128 + LCG_INC as u128) % (LCG_MOD as u128);
        assert(next < 0x1_0000_0000_0000);
        self.state = next as u64;
        let r: u128 = next / (DRAW_SHIFT_DIV as u128);
        assert(r < 0x8000_0000);
        r as u32
    }

    /// A uniform-ish integer in `lo..hi` (upper bound exclusive).
    pub fn int_between(&mut self, lo: i32, hi: i32) -> (v: i32)
        requires
            lo < hi,
        ensures
            final(self)@ == lcg_next(old(self)@),
            v as int == draw_between(old(self)@, lo as int, hi as int),
            lo <= v < hi,
    {
        let span: u64 = (hi as i64 - lo as i64) as u64;
        let r: u64 = self.next_u31() as u64 % span;
        (lo as i64 + r as i64) as i32
    }

    /// True with a chance of `per_mille` thousandths.
    pub fn chance(&mut self, per_mille: u32) -> (b: bool)
        ensures
            final(self)@ == lcg_next(old(self)@),
            b == draw_chance(old(self)@, per_mille as int),
    {
        self.next_u31() % 1000 < per_mille
    }

    /// An index in `0..n`.
    pub fn index_below(&mut self, n: usize) -> (i: usize)
        requires
            n > 0,
        ensures
            final(self)@ == lcg_next(old(self)@),
            i as int == lcg_draw(old(self)@) % (n as int),
            i < n,
    {
        (self.next_u31() as usize) % n
    }

    /// One element of a non-empty slice, chosen by a single draw.
    pub fn pick<'a, T>(&mut self, items: &'a [T]) -> (r: &'a T)
        requires
            items@.len() > 0,
        ensures
            final(self)@ == lcg_next(old(self)@),
            *r == items@[lcg_draw(old(self)@) % (items@.len() as int)],
    {
        let i = self.index_below(items.len());
        &items[i]
    }
}

} // verus!
