//! The treasure dig minigame played when the captain goes ashore on an
//! uninhabited isle.
//!
//! A square field of buried tiles (`GRID` on a side) hides loose coins and
//! chests. Each chest spans `CHEST_TILES` adjacent tiles and pays out *only*
//! once every one of them is cleared, so it costs a big slice of the move
//! budget: the whole game is deciding whether the chest you glimpsed is worth
//! finishing or whether to keep grabbing loose coins with your remaining digs.
//!
//! This module is pure rules: no drawing, no input. It seeds its own [`Rng`]
//! from the world seed, the island id and the day, so a given isle shows the
//! same field all day and a fresh one each morning. That seed is independent of
//! the world-generation draw sequence, so nothing here can shift island layout.
use vstd::prelude::*;

use crate::rng::{draw_between, draw_chance, lcg_draw, lcg_next, seeded, Rng};

verus! {

/// Tiles along one edge of the field; the field is `GRID * GRID` tiles.
pub const GRID: usize = 6;
/// Total buried tiles in a field.
pub const TILES: usize = GRID * GRID;
/// Digs the captain gets before the field is spent.
pub const MOVES: u32 = 10;
/// Tiles a single chest occupies (a 2x3 / 3x2 footprint).
pub const CHEST_TILES: usize = 6;

// Reward tuning. Kept here so the payout curve is one edit away; the dig rules
// below never bake in a magnitude.
pub const COIN_MIN: i32 = 15;
pub const COIN_MAX: i32 = 60;
pub const CHEST_MIN: i32 = 150;
pub const CHEST_MAX: i32 = 320;
// How many loose coins get scattered across the non-chest tiles.
pub const COIN_MIN_COUNT: i32 = 5;
pub const COIN_MAX_COUNT: i32 = 9;
/// Chance, in thousandths, that the field hides a second chest as well as the first.
pub const SECOND_CHEST_PER_MILLE: u32 = 350;
/// Chance, in thousandths, that a chest lies tall (3 rows x 2 cols) rather than wide.
pub const TALL_CHEST_PER_MILLE: u32 = 500;
/// Bounded rejection-sampling attempts when seeking a free chest footprint.
pub const PLACE_ATTEMPTS: u32 = 24;

/// What lies under a tile before it is dug.
#[derive(Clone, Copy, Debug, PartialEq, Eq, Structural)]
pub enum Buried {
    /// Nothing but dirt.
    Dirt,
    /// A loose coin worth this much gold, banked the moment it is dug.
    Coin(i32),
    /// Part of the chest with this index in [`DigSite::chests`].
    Chest(usize),
}

/// One buried chest: the tiles it covers and the gold it pays once they are all
/// cleared.
#[derive(Clone, Copy, Debug)]
pub struct Chest {
    pub tiles: [usize; CHEST_TILES],
    pub reward: i32,
    pub claimed: bool,
}

/// The outcome of a single [`DigSite::dig`], for the UI to react to (sound,
/// flash, banner).
#[derive(Clone, Copy, Debug, PartialEq, Eq, Structural)]
pub enum DigResult {
    /// The dig did nothing: the field was spent or the tile was already open.
    Spent,
    /// Turned up plain dirt.
    Dirt,
    /// Banked a loose coin worth this much gold.
    Coin(i32),
    /// Uncovered a piece of a chest that still needs more digging.
    ChestPiece,
    /// This dig cleared the last tile of a chest and banked its reward.
    ChestClaimed(i32),
}

/// `after` and `r` are what digging tile `i` makes of `before`: nothing at
/// all when the field is spent or the tile already open; else the tile opens
/// at the cost of one move, a coin banks its gold, and a chest banks its
/// reward on the dig that clears its last tile.
pub open spec fn dug(before: DigSite, i: int, r: DigResult, after: DigSite) -> bool {
    &&& (before.moves_left == 0 || before.opened()[i]) ==> r == DigResult::Spent && after == before
    &&& (before.moves_left > 0 && !before.opened()[i]) ==> {
        &&& after.opened() == before.opened().update(i, true)
        &&& after.moves_left == before.moves_left - 1
        &&& after.field() == before.field()
        &&& match before.field()[i] {
            Buried::Dirt => {
                &&& r == DigResult::Dirt
                &&& after.gold_found == before.gold_found
                &&& after.chests@ == before.chests@
            },
            Buried::Coin(g) => {
                &&& r == DigResult::Coin(g)
                &&& after.gold_found == before.gold_found + g
                &&& after.chests@ == before.chests@
            },
            Buried::Chest(ci) => if after.cleared(ci as int) && !before.chests@[ci as int].claimed {
                &&& r == DigResult::ChestClaimed(before.chests@[ci as int].reward)
                &&& after.gold_found == before.gold_found + before.chests@[ci as int].reward
                &&& after.chests@ == before.chests@.update(
                    ci as int,
                    Chest { claimed: true, ..before.chests@[ci as int] },
                )
            } else {
                &&& r == DigResult::ChestPiece
                &&& after.gold_found == before.gold_found
                &&& after.chests@ == before.chests@
            },
        }
    }
}

impl DigResult {
    /// The gold a dig banks: a coin's worth, a claimed chest's reward, else none.
    pub open spec fn banked(self) -> int {
        match self {
            DigResult::Coin(g) => g as int,
            DigResult::ChestClaimed(g) => g as int,
            _ => 0,
        }
    }

    /// The gold this dig turned up for the purse.
    pub fn gold(self) -> (g: i32)
        ensures
            g == self.banked(),
    {
        match self {
            DigResult::Coin(g) => g,
            DigResult::ChestClaimed(g) => g,
            _ => 0,
        }
    }
}

/// A single ashore dig field and the captain's progress through it.
#[derive(Clone, Debug)]
pub struct DigSite {
    pub tiles: [Buried; TILES],
    pub revealed: [bool; TILES],
    pub chests: Vec<Chest>,
    pub moves_left: u32,
    pub gold_found: i32,
}

// ---------------------------------------------------------------------------
// The mathematical model of a field.

/// The tile index of a row/column.
pub open spec fn tile_index(row: int, col: int) -> int {
    row * GRID as int + col
}

/// The footprints (tile lists) of a list of chests.
pub open spec fn footprints(chests: Seq<Chest>) -> Seq<Seq<usize>> {
    chests.map_values(|c: Chest| c.tiles@)
}

/// A footprint is six distinct tiles of the field.
pub open spec fn footprint_ok(fp: Seq<usize>) -> bool {
    &&& fp.len() == CHEST_TILES
    &&& forall|k: int| 0 <= k < fp.len() ==> fp[k] < TILES
    &&& forall|j: int, k: int| 0 <= j < k < fp.len() ==> fp[j] != fp[k]
}

/// The buried layout agrees with the chests: there are fewer chests than tiles,
/// every footprint is well formed, a
/// tile is marked as part of chest `ci` exactly when it lies in that chest's
/// footprint, and no tile names a chest that does not exist.
pub open spec fn layout_ok(tiles: Seq<Buried>, fps: Seq<Seq<usize>>) -> bool {
    &&& tiles.len() == TILES
    &&& fps.len() < TILES
    &&& forall|ci: int| 0 <= ci < fps.len() ==> footprint_ok(#[trigger] fps[ci])
    &&& forall|t: int, ci: int|
        0 <= t < TILES && 0 <= ci < fps.len() ==> ((#[trigger] tiles[t] == Buried::Chest(ci as usize))
            <==> #[trigger] fps[ci].contains(t as usize))
    &&& forall|t: int| 0 <= t < TILES ==> (#[trigger] tiles[t] matches Buried::Chest(ci) ==> ci < fps.len())
}

/// Every loose coin is worth between `COIN_MIN` and `COIN_MAX`.
pub open spec fn coins_ok(tiles: Seq<Buried>) -> bool {
    forall|t: int| 0 <= t < tiles.len() ==> (#[trigger] tiles[t] matches Buried::Coin(g) ==> COIN_MIN <= g <= COIN_MAX)
}

/// Every chest pays between `CHEST_MIN` and `CHEST_MAX`.
pub open spec fn rewards_ok(rewards: Seq<i32>) -> bool {
    forall|ci: int| 0 <= ci < rewards.len() ==> CHEST_MIN <= #[trigger] rewards[ci] <= CHEST_MAX
}

/// Number of open tiles among the first `n`.
pub open spec fn open_count(revealed: Seq<bool>, n: int) -> int
    decreases n,
{
    if n <= 0 {
        0
    } else {
        open_count(revealed, n - 1) + if revealed[n - 1] { 1int } else { 0int }
    }
}

/// Gold of the open coin tiles among the first `n`.
pub open spec fn open_coins(tiles: Seq<Buried>, revealed: Seq<bool>, n: int) -> int
    decreases n,
{
    if n <= 0 {
        0
    } else {
        open_coins(tiles, revealed, n - 1) + match tiles[n - 1] {
            Buried::Coin(g) => if revealed[n - 1] { g as int } else { 0int },
            _ => 0int,
        }
    }
}

/// Rewards of the claimed chests among the first `n`.
pub open spec fn claimed_rewards(chests: Seq<Chest>, n: int) -> int
    decreases n,
{
    if n <= 0 {
        0
    } else {
        claimed_rewards(chests, n - 1) + if chests[n - 1].claimed { chests[n - 1].reward as int } else { 0int }
    }
}

/// Open coins worth at most the coin cap each.
proof fn lemma_open_coins_bound(tiles: Seq<Buried>, revealed: Seq<bool>, n: int)
    requires
        0 <= n <= tiles.len(),
        coins_ok(tiles),
    ensures
        0 <= open_coins(tiles, revealed, n) <= n * COIN_MAX,
    decreases n,
{
    if n > 0 {
        lemma_open_coins_bound(tiles, revealed, n - 1);
        match tiles[n - 1] {
            Buried::Coin(g) => {
                assert(COIN_MIN <= g <= COIN_MAX);
            },
            _ => {},
        }
    }
}

/// Claimed chests paying at most the chest cap each.
proof fn lemma_claimed_bound(chests: Seq<Chest>, n: int)
    requires
        0 <= n <= chests.len(),
        rewards_ok(rewards(chests)),
    ensures
        0 <= claimed_rewards(chests, n) <= n * CHEST_MAX,
    decreases n,
{
    if n > 0 {
        lemma_claimed_bound(chests, n - 1);
        assert(rewards(chests)[n - 1] == chests[n - 1].reward);
    }
}

// ---------------------------------------------------------------------------
// The generation model: the draws the generator makes, step by step.

/// Whether a chest footprint `fp` sits on dirt only.
pub open spec fn footprint_clear(tiles: Seq<Buried>, fp: Seq<usize>) -> bool {
    forall|k: int| 0 <= k < fp.len() ==> tiles[#[trigger] fp[k] as int] == Buried::Dirt
}

/// The footprint of a chest whose top-left tile is (`top`, `left`).
pub open spec fn chest_footprint(tall: bool, top: int, left: int) -> Seq<usize> {
    Seq::new(
        CHEST_TILES as nat,
        |k: int|
            if tall {
                tile_index(top + k / 2, left + k % 2) as usize
            } else {
                tile_index(top + k / 3, left + k % 3) as usize
            },
    )
}

/// One try at placing a chest: the state after its three draws and the
/// footprint it proposes.
#[verifier::opaque]
pub open spec fn chest_attempt(s: u64) -> (u64, Seq<usize>) {
    let tall = draw_chance(s, TALL_CHEST_PER_MILLE as int);
    let s1 = lcg_next(s);
    let top = draw_between(s1, 0, if tall { 4 } else { 5 });
    let s2 = lcg_next(s1);
    let left = draw_between(s2, 0, if tall { 5 } else { 4 });
    (lcg_next(s2), chest_footprint(tall, top, left))
}

/// Rejection sampling of a chest footprint, `attempts` tries at most.
#[verifier::opaque]
pub open spec fn place_chest_model(s: u64, tiles: Seq<Buried>, attempts: nat) -> (u64, Option<Seq<usize>>)
    decreases attempts,
{
    if attempts == 0 {
        (s, None)
    } else {
        let (s1, fp) = chest_attempt(s);
        if footprint_clear(tiles, fp) {
            (s1, Some(fp))
        } else {
            place_chest_model(s1, tiles, (attempts - 1) as nat)
        }
    }
}

/// The field with footprint `fp` marked as chest `ci`.
pub open spec fn mark_chest(tiles: Seq<Buried>, fp: Seq<usize>, ci: int) -> Seq<Buried> {
    Seq::new(tiles.len(), |t: int| if fp.contains(t as usize) { Buried::Chest(ci as usize) } else { tiles[t] })
}

/// One round of chest burying: find a footprint, mark it, draw its reward.
#[verifier::opaque]
pub open spec fn chest_round(s: u64, tiles: Seq<Buried>, chests: Seq<(Seq<usize>, i32)>) -> (u64, Seq<Buried>, Seq<(Seq<usize>, i32)>) {
    let (s1, found) = place_chest_model(s, tiles, PLACE_ATTEMPTS as nat);
    match found {
        None => (s1, tiles, chests),
        Some(fp) => (
            lcg_next(s1),
            mark_chest(tiles, fp, chests.len() as int),
            chests.push((fp, draw_between(s1, CHEST_MIN as int, CHEST_MAX + 1) as i32)),
        ),
    }
}

/// `n` rounds of chest burying.
#[verifier::opaque]
pub open spec fn chest_rounds(s: u64, tiles: Seq<Buried>, chests: Seq<(Seq<usize>, i32)>, n: nat) -> (u64, Seq<Buried>, Seq<(Seq<usize>, i32)>)
    decreases n,
{
    if n == 0 {
        (s, tiles, chests)
    } else {
        let (s1, t1, c1) = chest_round(s, tiles, chests);
        chest_rounds(s1, t1, c1, (n - 1) as nat)
    }
}

/// A bounded probe for a dirt tile to hide one coin under.
#[verifier::opaque]
pub open spec fn coin_probe(s: u64, tiles: Seq<Buried>, attempts: nat) -> (u64, Seq<Buried>)
    decreases attempts,
{
    if attempts == 0 {
        (s, tiles)
    } else {
        let t = draw_between(s, 0, TILES as int);
        let s1 = lcg_next(s);
        if tiles[t] == Buried::Dirt {
            (lcg_next(s1), tiles.update(t, Buried::Coin(draw_between(s1, COIN_MIN as int, COIN_MAX + 1) as i32)))
        } else {
            coin_probe(s1, tiles, (attempts - 1) as nat)
        }
    }
}

/// `n` coins scattered, each by its own bounded probe.
#[verifier::opaque]
pub open spec fn coin_rounds(s: u64, tiles: Seq<Buried>, n: nat) -> (u64, Seq<Buried>)
    decreases n,
{
    if n == 0 {
        (s, tiles)
    } else {
        let (s1, t1) = coin_probe(s, tiles, PLACE_ATTEMPTS as nat);
        coin_rounds(s1, t1, (n - 1) as nat)
    }
}

/// The seed a field is generated from.
pub open spec fn field_seed_model(world_seed: i64, island_id: i32, day: u32) -> i64 {
    world_seed.wrapping_mul(0x2f9d).wrapping_add((island_id as i64).wrapping_mul(0x9e37_79b1)).wrapping_add(
        (day as i64).wrapping_mul(0x85eb_ca77),
    )
}

/// The buried layout and the chests (footprint, reward) an isle shows on a day.
pub open spec fn generated_field(world_seed: i64, island_id: i32, day: u32) -> (Seq<Buried>, Seq<(Seq<usize>, i32)>) {
    let s0 = seeded(field_seed_model(world_seed, island_id, day));
    let want: nat = if draw_chance(s0, SECOND_CHEST_PER_MILLE as int) { 2 } else { 1 };
    let (s1, tiles, chests) = chest_rounds(lcg_next(s0), Seq::new(TILES as nat, |t: int| Buried::Dirt), Seq::empty(), want);
    let coins = draw_between(s1, COIN_MIN_COUNT as int, COIN_MAX_COUNT + 1);
    let (s2, tiles2) = coin_rounds(lcg_next(s1), tiles, coins as nat);
    (tiles2, chests)
}

// ---------------------------------------------------------------------------
// Lemmas.

proof fn lemma_open_count_update(revealed: Seq<bool>, i: int, n: int)
    requires
        0 <= i < revealed.len(),
        0 <= n <= revealed.len(),
        !revealed[i],
    ensures
        open_count(revealed.update(i, true), n) == open_count(revealed, n) + if i < n { 1int } else { 0int },
    decreases n,
{
    if n > 0 {
        lemma_open_count_update(revealed, i, n - 1);
    }
}

proof fn lemma_open_coins_update(tiles: Seq<Buried>, revealed: Seq<bool>, i: int, n: int)
    requires
        0 <= i < revealed.len(),
        tiles.len() == revealed.len(),
        0 <= n <= revealed.len(),
        !revealed[i],
    ensures
        open_coins(tiles, revealed.update(i, true), n) == open_coins(tiles, revealed, n) + if i < n {
            match tiles[i] {
                Buried::Coin(g) => g as int,
                _ => 0int,
            }
        } else {
            0int
        },
    decreases n,
{
    if n > 0 {
        lemma_open_coins_update(tiles, revealed, i, n - 1);
    }
}

proof fn lemma_claimed_update(chests: Seq<Chest>, ci: int, c: Chest, n: int)
    requires
        0 <= ci < chests.len(),
        0 <= n <= chests.len(),
        !chests[ci].claimed,
        c.claimed,
        c.reward == chests[ci].reward,
    ensures
        claimed_rewards(chests.update(ci, c), n) == claimed_rewards(chests, n) + if ci < n { c.reward as int } else { 0int },
    decreases n,
{
    if n > 0 {
        lemma_claimed_update(chests, ci, c, n - 1);
    }
}

proof fn lemma_open_count_none(revealed: Seq<bool>, n: int)
    requires
        0 <= n <= revealed.len(),
        forall|t: int| 0 <= t < revealed.len() ==> !revealed[t],
    ensures
        open_count(revealed, n) == 0,
    decreases n,
{
    if n > 0 {
        lemma_open_count_none(revealed, n - 1);
    }
}

proof fn lemma_open_coins_none(tiles: Seq<Buried>, revealed: Seq<bool>, n: int)
    requires
        0 <= n <= revealed.len(),
        forall|t: int| 0 <= t < revealed.len() ==> !revealed[t],
    ensures
        open_coins(tiles, revealed, n) == 0,
    decreases n,
{
    if n > 0 {
        lemma_open_coins_none(tiles, revealed, n - 1);
    }
}

proof fn lemma_claimed_none(chests: Seq<Chest>, n: int)
    requires
        0 <= n <= chests.len(),
        forall|ci: int| 0 <= ci < chests.len() ==> !(#[trigger] chests[ci]).claimed,
    ensures
        claimed_rewards(chests, n) == 0,
    decreases n,
{
    if n > 0 {
        lemma_claimed_none(chests, n - 1);
    }
}


/// The (footprint, reward) pairs of a list of chests.
pub open spec fn chest_models(chests: Seq<Chest>) -> Seq<(Seq<usize>, i32)> {
    chests.map_values(|c: Chest| (c.tiles@, c.reward))
}

/// The rewards of a list of chests.
pub open spec fn rewards(chests: Seq<Chest>) -> Seq<i32> {
    chests.map_values(|c: Chest| c.reward)
}

proof fn lemma_footprint_ok(tall: bool, top: int, left: int)
    requires
        0 <= top,
        0 <= left,
        tall ==> top + 3 <= GRID && left + 2 <= GRID,
        !tall ==> top + 2 <= GRID && left + 3 <= GRID,
    ensures
        footprint_ok(chest_footprint(tall, top, left)),
{
    let fp = chest_footprint(tall, top, left);
    assert forall|k: int| 0 <= k < fp.len() implies fp[k] < TILES by {
        if tall {
            assert(k / 2 < 3 && k % 2 < 2);
        } else {
            assert(k / 3 < 2 && k % 3 < 3);
        }
    }
    assert forall|j: int, k: int| 0 <= j < k < fp.len() implies fp[j] != fp[k] by {
        if tall {
            assert(0 <= j / 2 < 3 && 0 <= j % 2 < 2 && 0 <= k / 2 < 3 && 0 <= k % 2 < 2);
            assert(j == (j / 2) * 2 + j % 2 && k == (k / 2) * 2 + k % 2);
        } else {
            assert(0 <= j / 3 < 2 && 0 <= j % 3 < 3 && 0 <= k / 3 < 2 && 0 <= k % 3 < 3);
            assert(j == (j / 3) * 3 + j % 3 && k == (k / 3) * 3 + k % 3);
        }
    }
}

proof fn lemma_attempt_ok(s: u64)
    ensures
        footprint_ok(chest_attempt(s).1),
{
    reveal(chest_attempt);
    let tall = draw_chance(s, TALL_CHEST_PER_MILLE as int);
    let s1 = lcg_next(s);
    let s2 = lcg_next(s1);
    let top = draw_between(s1, 0, if tall { 4 } else { 5 });
    let left = draw_between(s2, 0, if tall { 5 } else { 4 });
    assert(lcg_draw(s1) >= 0 && lcg_draw(s2) >= 0);
    lemma_footprint_ok(tall, top, left);
}

/// `fp` is a chest's block: three rows by two columns (tall) or two rows by
/// three columns, wholly inside the field.
pub open spec fn is_block(fp: Seq<usize>) -> bool {
    exists|tall: bool, top: int, left: int|
        #![trigger chest_footprint(tall, top, left)]
        0 <= top && 0 <= left && (if tall {
            top + 3 <= GRID && left + 2 <= GRID
        } else {
            top + 2 <= GRID && left + 3 <= GRID
        }) && fp == chest_footprint(tall, top, left)
}

/// Loose coins among the first `n` tiles.
pub open spec fn coin_count(tiles: Seq<Buried>, n: int) -> int
    decreases n,
{
    if n <= 0 {
        0
    } else {
        coin_count(tiles, n - 1) + if tiles[n - 1] is Coin { 1int } else { 0int }
    }
}

/// Every try at placing a chest proposes a block.
proof fn lemma_attempt_block(s: u64)
    ensures
        is_block(chest_attempt(s).1),
{
    reveal(chest_attempt);
    let tall = draw_chance(s, TALL_CHEST_PER_MILLE as int);
    let s1 = lcg_next(s);
    let s2 = lcg_next(s1);
    let top = draw_between(s1, 0, if tall { 4 } else { 5 });
    let left = draw_between(s2, 0, if tall { 5 } else { 4 });
    assert(lcg_draw(s1) >= 0 && lcg_draw(s2) >= 0);
    assert(chest_attempt(s).1 == chest_footprint(tall, top, left));
}

/// Whatever the placement finds is a block.
proof fn lemma_place_block(s: u64, tiles: Seq<Buried>, attempts: nat)
    ensures
        place_chest_model(s, tiles, attempts).1 matches Some(fp) ==> is_block(fp),
    decreases attempts,
{
    reveal_with_fuel(place_chest_model, 1);
    if attempts > 0 {
        lemma_attempt_block(s);
        let (s1, fp) = chest_attempt(s);
        if !footprint_clear(tiles, fp) {
            lemma_place_block(s1, tiles, (attempts - 1) as nat);
        }
    }
}

/// Chest burying keeps every chest a block and scatters no coins.
proof fn lemma_rounds_shape(s: u64, tiles: Seq<Buried>, chests: Seq<(Seq<usize>, i32)>, n: nat)
    requires
        forall|c: int| 0 <= c < chests.len() ==> is_block(#[trigger] chests[c].0),
        tiles.len() == TILES,
    ensures
        forall|c: int|
            0 <= c < chest_rounds(s, tiles, chests, n).2.len() ==> is_block(#[trigger] chest_rounds(s, tiles, chests, n).2[c].0),
        chest_rounds(s, tiles, chests, n).1.len() == TILES,
        coin_count(chest_rounds(s, tiles, chests, n).1, TILES as int) <= coin_count(tiles, TILES as int),
    decreases n,
{
    reveal_with_fuel(chest_rounds, 1);
    if n > 0 {
        reveal(chest_round);
        lemma_place_block(s, tiles, PLACE_ATTEMPTS as nat);
        let (s1, t1, c1) = chest_round(s, tiles, chests);
        assert forall|c: int| 0 <= c < c1.len() implies is_block(#[trigger] c1[c].0) by {
            if c < chests.len() {
                assert(c1[c] == chests[c]);
            }
        }
        assert(t1.len() == TILES);
        lemma_coins_no_more(t1, tiles, TILES as int);
        lemma_rounds_shape(s1, t1, c1, (n - 1) as nat);
    }
}

/// Where every coin of `b` is a coin of `a`, `b` holds no more coins.
proof fn lemma_coins_no_more(b: Seq<Buried>, a: Seq<Buried>, n: int)
    requires
        0 <= n <= a.len(),
        b.len() == a.len(),
        forall|t: int| 0 <= t < n ==> (b[t] is Coin ==> a[t] is Coin),
    ensures
        coin_count(b, n) <= coin_count(a, n),
    decreases n,
{
    if n > 0 {
        lemma_coins_no_more(b, a, n - 1);
    }
}

/// Setting one tile adds at most one coin.
proof fn lemma_coins_update(a: Seq<Buried>, i: int, v: Buried, n: int)
    requires
        0 <= i < a.len(),
        0 <= n <= a.len(),
    ensures
        coin_count(a.update(i, v), n) <= coin_count(a, n) + 1,
        i >= n ==> coin_count(a.update(i, v), n) == coin_count(a, n),
    decreases n,
{
    if n > 0 {
        lemma_coins_update(a, i, v, n - 1);
    }
}

/// Each coin round adds at most one coin.
proof fn lemma_coin_rounds_count(s: u64, tiles: Seq<Buried>, n: nat)
    requires
        tiles.len() == TILES,
    ensures
        coin_rounds(s, tiles, n).1.len() == TILES,
        coin_count(coin_rounds(s, tiles, n).1, TILES as int) <= coin_count(tiles, TILES as int) + n,
    decreases n,
{
    reveal_with_fuel(coin_rounds, 1);
    if n > 0 {
        lemma_probe_count(s, tiles, PLACE_ATTEMPTS as nat);
        let (s1, t1) = coin_probe(s, tiles, PLACE_ATTEMPTS as nat);
        lemma_coin_rounds_count(s1, t1, (n - 1) as nat);
    }
}

/// A probe hides at most one coin.
proof fn lemma_probe_count(s: u64, tiles: Seq<Buried>, attempts: nat)
    requires
        tiles.len() == TILES,
    ensures
        coin_probe(s, tiles, attempts).1.len() == TILES,
        coin_count(coin_probe(s, tiles, attempts).1, TILES as int) <= coin_count(tiles, TILES as int) + 1,
    decreases attempts,
{
    reveal_with_fuel(coin_probe, 1);
    if attempts > 0 {
        let t = draw_between(s, 0, TILES as int);
        assert(lcg_draw(s) >= 0);
        if tiles[t] == Buried::Dirt {
            lemma_coins_update(
                tiles,
                t,
                Buried::Coin(draw_between(lcg_next(s), COIN_MIN as int, COIN_MAX + 1) as i32),
                TILES as int,
            );
        } else {
            lemma_probe_count(lcg_next(s), tiles, (attempts - 1) as nat);
        }
    }
}

/// Every field an isle shows has its chests laid in blocks and at most nine
/// loose coins.
pub proof fn lemma_generated_shape(world_seed: i64, island_id: i32, day: u32)
    ensures
        forall|c: int|
            0 <= c < generated_field(world_seed, island_id, day).1.len() ==> is_block(
                #[trigger] generated_field(world_seed, island_id, day).1[c].0,
            ),
        generated_field(world_seed, island_id, day).0.len() == TILES,
        coin_count(generated_field(world_seed, island_id, day).0, TILES as int) <= COIN_MAX_COUNT,
{
    let s0 = seeded(field_seed_model(world_seed, island_id, day));
    let want: nat = if draw_chance(s0, SECOND_CHEST_PER_MILLE as int) { 2 } else { 1 };
    let dirt = Seq::new(TILES as nat, |t: int| Buried::Dirt);
    let none: Seq<(Seq<usize>, i32)> = Seq::empty();
    lemma_coins_no_more(dirt, dirt, 0);
    assert(coin_count(dirt, TILES as int) == 0) by {
        lemma_dirt_has_no_coins(dirt, TILES as int);
    }
    lemma_rounds_shape(lcg_next(s0), dirt, none, want);
    let (s1, tiles, chests) = chest_rounds(lcg_next(s0), dirt, none, want);
    let coins = draw_between(s1, COIN_MIN_COUNT as int, COIN_MAX_COUNT + 1);
    assert(lcg_draw(s1) >= 0);
    lemma_coin_rounds_count(lcg_next(s1), tiles, coins as nat);
}

/// A field of bare dirt holds no coins.
proof fn lemma_dirt_has_no_coins(tiles: Seq<Buried>, n: int)
    requires
        0 <= n <= tiles.len(),
        forall|t: int| 0 <= t < tiles.len() ==> tiles[t] == Buried::Dirt,
    ensures
        coin_count(tiles, n) == 0,
    decreases n,
{
    if n > 0 {
        lemma_dirt_has_no_coins(tiles, n - 1);
    }
}

/// On a field of bare dirt the first try always finds room for a chest.
pub proof fn lemma_place_on_dirt(s: u64, tiles: Seq<Buried>, attempts: nat)
    requires
        attempts > 0,
        tiles.len() == TILES,
        forall|t: int| 0 <= t < TILES ==> tiles[t] == Buried::Dirt,
    ensures
        place_chest_model(s, tiles, attempts).1 is Some,
{
    reveal_with_fuel(place_chest_model, 1);
    lemma_attempt_ok(s);
    let fp = chest_attempt(s).1;
    assert(footprint_clear(tiles, fp));
}

/// Whatever the placement finds is a well-formed footprint on dirt.
proof fn lemma_place_found(s: u64, tiles: Seq<Buried>, attempts: nat)
    ensures
        place_chest_model(s, tiles, attempts).1 matches Some(fp) ==> footprint_ok(fp) && footprint_clear(tiles, fp),
    decreases attempts,
{
    reveal_with_fuel(place_chest_model, 1);
    if attempts > 0 {
        lemma_attempt_ok(s);
        let (s1, fp) = chest_attempt(s);
        if !footprint_clear(tiles, fp) {
            lemma_place_found(s1, tiles, (attempts - 1) as nat);
        }
    }
}

/// Marking a free footprint as a new chest keeps the layout consistent.
proof fn lemma_mark_keeps_layout(tiles: Seq<Buried>, fps: Seq<Seq<usize>>, fp: Seq<usize>)
    requires
        layout_ok(tiles, fps),
        footprint_ok(fp),
        footprint_clear(tiles, fp),
        fps.len() + 1 < TILES,
    ensures
        layout_ok(mark_chest(tiles, fp, fps.len() as int), fps.push(fp)),
        coins_ok(tiles) ==> coins_ok(mark_chest(tiles, fp, fps.len() as int)),
{
    let marked = mark_chest(tiles, fp, fps.len() as int);
    let nfps = fps.push(fp);
    assert forall|t: int, ci: int| 0 <= t < TILES && 0 <= ci < nfps.len() implies ((#[trigger] marked[t]
        == Buried::Chest(ci as usize)) <==> #[trigger] nfps[ci].contains(t as usize)) by {
        if fp.contains(t as usize) {
            let k = choose|k: int| 0 <= k < fp.len() && fp[k] == t as usize;
            assert(tiles[fp[k] as int] == Buried::Dirt);
            if ci < fps.len() {
                assert(nfps[ci] == fps[ci]);
                assert((tiles[t] == Buried::Chest(ci as usize)) <==> fps[ci].contains(t as usize));
                assert(marked[t] == Buried::Chest(fps.len() as usize));
                assert(ci as usize != fps.len() as usize);
            } else {
                assert(nfps[ci] == fp);
            }
        } else {
            assert(marked[t] == tiles[t]);
            if ci < fps.len() {
                assert(nfps[ci] == fps[ci]);
                assert((tiles[t] == Buried::Chest(ci as usize)) <==> fps[ci].contains(t as usize));
            } else {
                assert(nfps[ci] == fp);
                match tiles[t] {
                    Buried::Chest(cj) => assert(cj < fps.len()),
                    _ => {},
                }
            }
        }
    }
    assert forall|t: int| 0 <= t < TILES implies (#[trigger] marked[t] matches Buried::Chest(ci) ==> ci < nfps.len()) by {
        if !fp.contains(t as usize) {
            assert(marked[t] == tiles[t]);
        }
    }
    assert forall|ci: int| 0 <= ci < nfps.len() implies footprint_ok(#[trigger] nfps[ci]) by {
        if ci < fps.len() as int {
            assert(nfps[ci] == fps[ci]);
        }
    }
}

// ---------------------------------------------------------------------------
// Executable rules.

/// The tile index of a row/column, so chest footprints are easy to lay out.
fn idx(row: usize, col: usize) -> (t: usize)
    requires
        row < GRID,
        col < GRID,
    ensures
        t as int == tile_index(row as int, col as int),
        t < TILES,
{
    row * GRID + col
}

/// Blend the three inputs into one PRNG seed. Distinct multipliers keep
/// neighbouring islands and consecutive days from aliasing onto the same field.
fn field_seed(world_seed: i64, island_id: i32, day: u32) -> (s: i64)
    ensures
        s == field_seed_model(world_seed, island_id, day),
{
    world_seed.wrapping_mul(0x2f9d).wrapping_add((island_id as i64).wrapping_mul(0x9e37_79b1)).wrapping_add(
        (day as i64).wrapping_mul(0x85eb_ca77),
    )
}

/// The six tiles of a chest whose top-left tile is (`top`, `left`), and
/// whether they are all dirt.
fn build_footprint(tiles: &[Buried; TILES], tall: bool, top: usize, left: usize) -> (r: ([usize; CHEST_TILES], bool))
    requires
        tall ==> top < 4 && left < 5,
        !tall ==> top < 5 && left < 4,
    ensures
        r.0@ == chest_footprint(tall, top as int, left as int),
        r.1 == footprint_clear(tiles@, chest_footprint(tall, top as int, left as int)),
{
    let ghost fp = chest_footprint(tall, top as int, left as int);
    let mut footprint = [0usize; CHEST_TILES];
    let mut clear = true;
    let mut k: usize = 0;
    while k < CHEST_TILES
        invariant
            k <= CHEST_TILES,
            fp == chest_footprint(tall, top as int, left as int),
            tall ==> top < 4 && left < 5,
            !tall ==> top < 5 && left < 4,
            forall|j: int| 0 <= j < k ==> footprint@[j] == fp[j],
            clear == (forall|j: int| 0 <= j < k ==> tiles@[#[trigger] fp[j] as int] == Buried::Dirt),
        decreases CHEST_TILES - k,
    {
        let t = if tall {
            idx(top + k / 2, left + k % 2)
        } else {
            idx(top + k / 3, left + k % 3)
        };
        assert(t == fp[k as int]);
        if tiles[t] != Buried::Dirt {
            clear = false;
        }
        footprint[k] = t;
        k += 1;
    }
    assert(footprint@ =~= fp);
    (footprint, clear)
}

/// The state and footprint one placement try draws.
proof fn lemma_attempt_draws(s: u64, tall: bool, top: int, left: int)
    requires
        tall == draw_chance(s, TALL_CHEST_PER_MILLE as int),
        top == draw_between(lcg_next(s), 0, if tall { 4 } else { 5 }),
        left == draw_between(lcg_next(lcg_next(s)), 0, if tall { 5 } else { 4 }),
    ensures
        chest_attempt(s) == (lcg_next(lcg_next(lcg_next(s))), chest_footprint(tall, top, left)),
{
    reveal(chest_attempt);
}

proof fn lemma_rounds_step(s: u64, tiles: Seq<Buried>, chests: Seq<(Seq<usize>, i32)>, n: nat)
    ensures
        chest_rounds(s, tiles, chests, 0) == (s, tiles, chests),
        n > 0 ==> chest_rounds(s, tiles, chests, n) == chest_rounds(
            chest_round(s, tiles, chests).0,
            chest_round(s, tiles, chests).1,
            chest_round(s, tiles, chests).2,
            (n - 1) as nat,
        ),
{
    reveal_with_fuel(chest_rounds, 1);
}

proof fn lemma_coin_rounds_step(s: u64, tiles: Seq<Buried>, n: nat)
    ensures
        coin_rounds(s, tiles, 0) == (s, tiles),
        n > 0 ==> coin_rounds(s, tiles, n) == coin_rounds(
            coin_probe(s, tiles, PLACE_ATTEMPTS as nat).0,
            coin_probe(s, tiles, PLACE_ATTEMPTS as nat).1,
            (n - 1) as nat,
        ),
{
    reveal_with_fuel(coin_rounds, 1);
}

/// Try to find a free 2x3 or 3x2 block of dirt for a chest, `attempts` tries
/// at most. Returns the six tile indices, or `None` if no free footprint turned
/// up within the attempt budget.
fn place_chest(rng: &mut Rng, tiles: &[Buried; TILES], attempts: u32) -> (found: Option<[usize; CHEST_TILES]>)
    ensures
        final(rng)@ == place_chest_model(old(rng)@, tiles@, attempts as nat).0,
        match found {
            Some(fp) => place_chest_model(old(rng)@, tiles@, attempts as nat).1 == Some(fp@),
            None => place_chest_model(old(rng)@, tiles@, attempts as nat).1 is None,
        },
    decreases attempts,
{
    let ghost s = rng@;
    proof {
        reveal_with_fuel(place_chest_model, 1);
    }
    if attempts == 0 {
        return None;
    }
    // Orientation: tall (3 rows x 2 cols) or wide (2 rows x 3 cols).
    let tall = rng.chance(TALL_CHEST_PER_MILLE);
    let top_span: i32 = if tall { 4 } else { 5 };
    let left_span: i32 = if tall { 5 } else { 4 };
    let top = rng.int_between(0, top_span) as usize;
    let left = rng.int_between(0, left_span) as usize;
    let (footprint, clear) = build_footprint(tiles, tall, top, left);
    proof {
        lemma_attempt_draws(s, tall, top as int, left as int);
    }
    if clear {
        Some(footprint)
    } else {
        place_chest(rng, tiles, attempts - 1)
    }
}

/// Bury one more chest if a free footprint turns up: mark its tiles and draw
/// its reward.
fn bury_chest(rng: &mut Rng, tiles: &mut [Buried; TILES], chests: &mut Vec<Chest>)
    requires
        layout_ok(old(tiles)@, footprints(old(chests)@)),
        coins_ok(old(tiles)@),
        rewards_ok(rewards(old(chests)@)),
        old(chests)@.len() + 1 < TILES,
    ensures
        (final(rng)@, final(tiles)@, chest_models(final(chests)@)) == chest_round(
            old(rng)@,
            old(tiles)@,
            chest_models(old(chests)@),
        ),
        layout_ok(final(tiles)@, footprints(final(chests)@)),
        coins_ok(final(tiles)@),
        rewards_ok(rewards(final(chests)@)),
        forall|ci: int| 0 <= ci < old(chests)@.len() ==> #[trigger] final(chests)@[ci] == old(chests)@[ci],
        old(chests)@.len() <= final(chests)@.len() <= old(chests)@.len() + 1,
        final(chests)@.len() == old(chests)@.len() + 1 ==> !final(chests)@[old(chests)@.len() as int].claimed,
        (forall|t: int| 0 <= t < TILES ==> old(tiles)@[t] == Buried::Dirt) ==> final(chests)@.len()
            == old(chests)@.len() + 1,
{
    let ghost s = rng@;
    let ghost before = tiles@;
    let ghost models = chest_models(chests@);
    proof {
        reveal(chest_round);
        lemma_place_found(s, before, PLACE_ATTEMPTS as nat);
        if forall|t: int| 0 <= t < TILES ==> before[t] == Buried::Dirt {
            lemma_place_on_dirt(s, before, PLACE_ATTEMPTS as nat);
        }
    }
    if let Some(footprint) = place_chest(rng, tiles, PLACE_ATTEMPTS) {
        let ci = chests.len();
        let mut k: usize = 0;
        while k < CHEST_TILES
            invariant
                k <= CHEST_TILES,
                forall|j: int| 0 <= j < CHEST_TILES ==> footprint@[j] < TILES,
                forall|t: int|
                    0 <= t < TILES ==> #[trigger] tiles@[t] == if exists|j: int|
                        0 <= j < k && footprint@[j] == t as usize {
                        Buried::Chest(ci)
                    } else {
                        before[t]
                    },
            decreases CHEST_TILES - k,
        {
            tiles[footprint[k]] = Buried::Chest(ci);
            k += 1;
        }
        assert(tiles@ =~= mark_chest(before, footprint@, ci as int));
        let reward = rng.int_between(CHEST_MIN, CHEST_MAX + 1);
        proof {
            lemma_mark_keeps_layout(before, footprints(chests@), footprint@);
        }
        let ghost old_chests = chests@;
        chests.push(Chest { tiles: footprint, reward, claimed: false });
        assert(footprints(chests@) =~= footprints(old_chests).push(footprint@));
        assert(chest_models(chests@) =~= models.push((footprint@, reward)));
        assert(rewards(chests@) =~= rewards(old_chests).push(reward));
    }
}

/// Hide one loose coin under a dirt tile, probing `attempts` times at most;
/// a packed field simply gets fewer coins.
fn bury_coin(rng: &mut Rng, tiles: &mut [Buried; TILES], attempts: u32, Ghost(fps): Ghost<Seq<Seq<usize>>>)
    requires
        layout_ok(old(tiles)@, fps),
        coins_ok(old(tiles)@),
    ensures
        (final(rng)@, final(tiles)@) == coin_probe(old(rng)@, old(tiles)@, attempts as nat),
        layout_ok(final(tiles)@, fps),
        coins_ok(final(tiles)@),
    decreases attempts,
{
    proof {
        reveal_with_fuel(coin_probe, 1);
    }
    if attempts == 0 {
        return;
    }
    let t = rng.int_between(0, TILES as i32) as usize;
    if tiles[t] == Buried::Dirt {
        let v = rng.int_between(COIN_MIN, COIN_MAX + 1);
        let ghost prev = tiles@;
        tiles[t] = Buried::Coin(v);
        assert forall|u: int, ci: int| 0 <= u < TILES && 0 <= ci < fps.len() implies ((#[trigger] tiles@[u]
            == Buried::Chest(ci as usize)) <==> #[trigger] fps[ci].contains(u as usize)) by {
            assert((prev[u] == Buried::Chest(ci as usize)) <==> fps[ci].contains(u as usize));
        }
    } else {
        bury_coin(rng, tiles, attempts - 1, Ghost(fps));
    }
}

impl DigSite {
    /// What is buried under each tile, in tile order.
    pub open spec fn field(self) -> Seq<Buried> {
        self.tiles@
    }

    /// Which tiles have been dug open, in tile order.
    pub open spec fn opened(self) -> Seq<bool> {
        self.revealed@
    }

    /// Every tile of chest `ci` has been dug open.
    pub open spec fn cleared(self, ci: int) -> bool {
        forall|k: int| 0 <= k < CHEST_TILES ==> self.opened()[#[trigger] self.chests@[ci].tiles@[k] as int]
    }

    /// The gold the open tiles and the claimed chests are worth.
    pub open spec fn ledger(self) -> int {
        open_coins(self.field(), self.opened(), TILES as int) + claimed_rewards(self.chests@, self.chests@.len() as int)
    }

    /// A field as the rules leave it: the layout agrees with the chests, every
    /// move spent opened exactly one tile, the purse holds exactly what the open
    /// coins and the claimed chests are worth, and a chest is claimed exactly
    /// when all of its tiles are open.
    pub open spec fn fair(self) -> bool {
        &&& layout_ok(self.field(), footprints(self.chests@))
        &&& coins_ok(self.field())
        &&& rewards_ok(rewards(self.chests@))
        &&& self.moves_left + open_count(self.opened(), TILES as int) == MOVES
        &&& self.gold_found == self.ledger()
        &&& forall|ci: int| 0 <= ci < self.chests@.len() ==> ((#[trigger] self.chests@[ci]).claimed <==> self.cleared(ci))
    }

    /// The untouched field an isle shows on a day: the generated layout and
    /// chests, nothing dug, nothing claimed, the full move budget and an empty
    /// purse.
    pub open spec fn is_fresh(self, world_seed: i64, island_id: i32, day: u32) -> bool {
        &&& self.field() == generated_field(world_seed, island_id, day).0
        &&& chest_models(self.chests@) == generated_field(world_seed, island_id, day).1
        &&& forall|ci: int| 0 <= ci < self.chests@.len() ==> !(#[trigger] self.chests@[ci]).claimed
        &&& forall|t: int| 0 <= t < TILES ==> !#[trigger] self.opened()[t]
        &&& self.moves_left == MOVES
        &&& self.gold_found == 0
        &&& 1 <= self.chests@.len() <= 2
        &&& self.fair()
    }

    /// Digging tile `i` stays within bounds and within the purse: the inputs on
    /// which [`DigSite::dig`] runs to completion.
    pub open spec fn can_dig(self, i: int) -> bool {
        (self.moves_left > 0 && !self.opened()[i]) ==> match self.field()[i] {
            Buried::Dirt => true,
            Buried::Coin(g) => i32::MIN <= self.gold_found + g <= i32::MAX,
            Buried::Chest(ci) => {
                &&& ci < self.chests@.len()
                &&& forall|k: int| 0 <= k < CHEST_TILES ==> #[trigger] self.chests@[ci as int].tiles@[k] < TILES
                &&& (!self.chests@[ci as int].claimed && forall|k: int|
                    0 <= k < CHEST_TILES ==> #[trigger] self.chests@[ci as int].tiles@[k] == i || self.opened()[self.chests@[ci as int].tiles@[k] as int])
                    ==> i32::MIN <= self.gold_found + self.chests@[ci as int].reward <= i32::MAX
            },
        }
    }

    /// A fair field can always be dug: its purse holds only what its coins and
    /// chests are worth, which stays far from the bounds of `i32`.
    pub proof fn lemma_fair_can_dig(self, i: int)
        requires
            self.fair(),
            0 <= i < TILES,
        ensures
            self.can_dig(i),
    {
        lemma_open_coins_bound(self.field(), self.opened(), TILES as int);
        lemma_claimed_bound(self.chests@, self.chests@.len() as int);
        let fps = footprints(self.chests@);
        assert(fps.len() == self.chests@.len());
        match self.field()[i] {
            Buried::Chest(ci) => {
                assert(ci < fps.len());
                assert(footprint_ok(fps[ci as int]));
                assert(fps[ci as int] == self.chests@[ci as int].tiles@);
                assert(rewards(self.chests@)[ci as int] == self.chests@[ci as int].reward);
            },
            Buried::Coin(g) => {
                assert(COIN_MIN <= g <= COIN_MAX);
            },
            Buried::Dirt => {},
        }
    }

    /// Whether tile `i` can be dug within the purse's bounds (always so on a
    /// fair field).
    pub fn diggable(&self, i: usize) -> (b: bool)
        requires
            i < TILES,
        ensures
            b == self.can_dig(i as int),
    {
        if self.moves_left == 0 || self.revealed[i] {
            return true;
        }
        match self.tiles[i] {
            Buried::Dirt => true,
            Buried::Coin(g) => {
                let total: i64 = self.gold_found as i64 + g as i64;
                i32::MIN as i64 <= total && total <= i32::MAX as i64
            },
            Buried::Chest(ci) => {
                if ci >= self.chests.len() {
                    return false;
                }
                let chest = self.chests[ci];
                let mut k: usize = 0;
                let mut all_open = true;
                while k < CHEST_TILES
                    invariant
                        k <= CHEST_TILES,
                        i < TILES,
                        ci < self.chests@.len(),
                        self.moves_left > 0,
                        !self.opened()[i as int],
                        self.field()[i as int] == Buried::Chest(ci),
                        chest == self.chests@[ci as int],
                        forall|j: int| 0 <= j < k ==> #[trigger] chest.tiles@[j] < TILES,
                        all_open == forall|j: int|
                            0 <= j < k ==> #[trigger] chest.tiles@[j] == i || self.opened()[chest.tiles@[j] as int],
                    decreases CHEST_TILES - k,
                {
                    let t = chest.tiles[k];
                    if t >= TILES {
                        return false;
                    }
                    if t != i && !self.revealed[t] {
                        all_open = false;
                    }
                    k += 1;
                }
                if chest.claimed || !all_open {
                    return true;
                }
                let total: i64 = self.gold_found as i64 + chest.reward as i64;
                i32::MIN as i64 <= total && total <= i32::MAX as i64
            },
        }
    }

    /// Build the field an isle shows on a given day. Deterministic in its
    /// inputs, and seeded off its own [`Rng`] so it never perturbs world gen.
    pub fn generate(world_seed: i64, island_id: i32, day: u32) -> (site: DigSite)
        ensures
            site.is_fresh(world_seed, island_id, day),
    {
        let mut rng = Rng::from_seed(field_seed(world_seed, island_id, day));
        let mut tiles = [Buried::Dirt; TILES];
        let ghost dirt = tiles@;
        assert(dirt =~= Seq::new(TILES as nat, |t: int| Buried::Dirt));
        let mut chests: Vec<Chest> = Vec::new();
        assert(chest_models(chests@) =~= Seq::<(Seq<usize>, i32)>::empty());
        assert(footprints(chests@) =~= Seq::<Seq<usize>>::empty());
        assert(rewards(chests@) =~= Seq::<i32>::empty());

        // Always at least one chest; sometimes a second. Placement is rejection
        // sampling within a bounded attempt count so a crowded field can quietly
        // settle for fewer chests rather than loop forever.
        let want: u32 = if rng.chance(SECOND_CHEST_PER_MILLE) { 2 } else { 1 };
        let ghost s1 = rng@;
        let mut round: u32 = 0;
        while round < want
            invariant
                1 <= want <= 2,
                round <= want,
                chest_rounds(s1, dirt, Seq::empty(), want as nat) == chest_rounds(
                    rng@,
                    tiles@,
                    chest_models(chests@),
                    (want - round) as nat,
                ),
                layout_ok(tiles@, footprints(chests@)),
                coins_ok(tiles@),
                rewards_ok(rewards(chests@)),
                forall|ci: int| 0 <= ci < chests@.len() ==> !(#[trigger] chests@[ci]).claimed,
                chests@.len() <= round,
                round == 0 ==> tiles@ == dirt,
                round == 0 ==> forall|t: int| 0 <= t < TILES ==> tiles@[t] == Buried::Dirt,
                round > 0 ==> chests@.len() >= 1,
            decreases want - round,
        {
            proof {
                lemma_rounds_step(rng@, tiles@, chest_models(chests@), (want - round) as nat);
            }
            bury_chest(&mut rng, &mut tiles, &mut chests);
            round += 1;
        }
        proof {
            lemma_rounds_step(rng@, tiles@, chest_models(chests@), 0);
        }

        // Scatter loose coins over the tiles the chests did not take.
        let ghost s2 = rng@;
        let ghost buried = tiles@;
        assert(chest_rounds(s1, dirt, Seq::empty(), want as nat) == (s2, buried, chest_models(chests@)));
        let coins = rng.int_between(COIN_MIN_COUNT, COIN_MAX_COUNT + 1);
        let ghost s3 = rng@;
        let mut n: i32 = 0;
        while n < coins
            invariant
                0 <= n <= coins,
                coin_rounds(s3, buried, coins as nat) == coin_rounds(rng@, tiles@, (coins - n) as nat),
                layout_ok(tiles@, footprints(chests@)),
                coins_ok(tiles@),
            decreases coins - n,
        {
            proof {
                lemma_coin_rounds_step(rng@, tiles@, (coins - n) as nat);
            }
            bury_coin(&mut rng, &mut tiles, PLACE_ATTEMPTS, Ghost(footprints(chests@)));
            n += 1;
        }
        proof {
            lemma_coin_rounds_step(rng@, tiles@, 0);
        }
        let site = DigSite { tiles, revealed: [false; TILES], chests, moves_left: MOVES, gold_found: 0 };
        proof {
            lemma_open_count_none(site.revealed@, TILES as int);
            lemma_open_coins_none(site.tiles@, site.revealed@, TILES as int);
            lemma_claimed_none(site.chests@, site.chests@.len() as int);
            assert forall|ci: int| 0 <= ci < site.chests@.len() implies ((#[trigger] site.chests@[ci]).claimed
                <==> site.cleared(ci)) by {
                assert(footprints(site.chests@)[ci] == site.chests@[ci].tiles@);
                assert(!site.opened()[site.chests@[ci].tiles@[0] as int]);
            }
        }
        site
    }

    /// Dig the tile at `i`. Costs one move unless the field is spent or the tile
    /// is already open (both no-ops). Coins bank immediately; a chest banks its
    /// reward on the dig that clears its final tile.
    pub fn dig(&mut self, i: usize) -> (r: DigResult)
        requires
            i < TILES,
            old(self).can_dig(i as int),
        ensures
            dug(*old(self), i as int, r, *final(self)),
            old(self).fair() ==> final(self).fair(),
    {
        if self.moves_left == 0 || self.revealed[i] {
            return DigResult::Spent;
        }
        let ghost before = *self;
        self.revealed[i] = true;
        self.moves_left -= 1;
        let ghost opened_now = self.revealed@;
        assert(opened_now == before.revealed@.update(i as int, true));

        let r = match self.tiles[i] {
            Buried::Dirt => DigResult::Dirt,
            Buried::Coin(g) => {
                self.gold_found += g;
                DigResult::Coin(g)
            },
            Buried::Chest(ci) => {
                let chest = self.chests[ci];
                let revealed = self.revealed;
                let mut done = true;
                let mut k: usize = 0;
                while k < CHEST_TILES
                    invariant
                        k <= CHEST_TILES,
                        forall|j: int| 0 <= j < CHEST_TILES ==> #[trigger] chest.tiles@[j] < TILES,
                        done == (forall|j: int| 0 <= j < k ==> revealed@[#[trigger] chest.tiles@[j] as int]),
                    decreases CHEST_TILES - k,
                {
                    if !revealed[chest.tiles[k]] {
                        done = false;
                    }
                    k += 1;
                }
                if done && !chest.claimed {
                    let reward = chest.reward;
                    self.chests.set(ci, Chest { tiles: chest.tiles, reward, claimed: true });
                    self.gold_found += reward;
                    DigResult::ChestClaimed(reward)
                } else {
                    DigResult::ChestPiece
                }
            },
        };
        proof {
            if before.fair() {
                self.lemma_dig_keeps_fair(before, i as int);
            }
        }
        r
    }

    /// The bookkeeping behind [`DigSite::dig`]'s promise that a fair field stays
    /// fair: `self` is `before` with tile `i` dug.
    proof fn lemma_dig_keeps_fair(self, before: DigSite, i: int)
        requires
            before.fair(),
            0 <= i < TILES,
            before.moves_left > 0,
            !before.opened()[i],
            self.opened() == before.opened().update(i, true),
            self.moves_left == before.moves_left - 1,
            self.field() == before.field(),
            match before.field()[i] {
                Buried::Dirt => self.gold_found == before.gold_found && self.chests@ == before.chests@,
                Buried::Coin(g) => self.gold_found == before.gold_found + g && self.chests@ == before.chests@,
                Buried::Chest(ci) => if self.cleared(ci as int) && !before.chests@[ci as int].claimed {
                    &&& self.gold_found == before.gold_found + before.chests@[ci as int].reward
                    &&& self.chests@ == before.chests@.update(
                        ci as int,
                        Chest { claimed: true, ..before.chests@[ci as int] },
                    )
                } else {
                    self.gold_found == before.gold_found && self.chests@ == before.chests@
                },
            },
        ensures
            self.fair(),
    {
        let fps = footprints(before.chests@);
        lemma_open_count_update(before.opened(), i, TILES as int);
        lemma_open_coins_update(before.field(), before.opened(), i, TILES as int);
        assert(footprints(self.chests@) =~= fps);
        assert(rewards(self.chests@) =~= rewards(before.chests@));
        // A chest's clearance changes only if tile `i` lies in its footprint.
        assert forall|cj: int| 0 <= cj < self.chests@.len() && !fps[cj].contains(i as usize) implies
            (self.cleared(cj) <==> before.cleared(cj)) by {
            assert(self.chests@[cj].tiles@ == fps[cj]);
            assert forall|k: int| 0 <= k < CHEST_TILES implies self.opened()[#[trigger] self.chests@[cj].tiles@[k] as int]
                == before.opened()[self.chests@[cj].tiles@[k] as int] by {
                assert(footprint_ok(fps[cj]));
                assert(fps[cj][k] != i as usize);
            }
            assert(before.chests@[cj].tiles@ == self.chests@[cj].tiles@);
        }
        match before.field()[i] {
            Buried::Chest(ci) => {
                let c = before.chests@[ci as int];
                assert(fps[ci as int].contains(i as usize));
                let k = choose|k: int| 0 <= k < fps[ci as int].len() && fps[ci as int][k] == i as usize;
                assert(c.tiles@[k] == i as usize);
                assert(!before.cleared(ci as int));
                assert(!c.claimed);
                assert forall|cj: int| 0 <= cj < self.chests@.len() && cj != ci implies !fps[cj].contains(
                    i as usize,
                ) by {
                    assert(!(before.field()[i] == Buried::Chest(cj as usize)));
                }
                if self.cleared(ci as int) {
                    lemma_claimed_update(before.chests@, ci as int, Chest { claimed: true, ..c }, before.chests@.len() as int);
                }
                assert forall|cj: int| 0 <= cj < self.chests@.len() implies ((#[trigger] self.chests@[cj]).claimed
                    <==> self.cleared(cj)) by {
                    if cj != ci {
                        assert(self.chests@[cj] == before.chests@[cj]);
                        assert(before.chests@[cj].claimed <==> before.cleared(cj));
                    }
                }
            },
            _ => {
                assert forall|cj: int| 0 <= cj < self.chests@.len() implies !fps[cj].contains(i as usize) by {
                    assert(!(before.field()[i] == Buried::Chest(cj as usize)));
                }
                assert forall|cj: int| 0 <= cj < self.chests@.len() implies ((#[trigger] self.chests@[cj]).claimed
                    <==> self.cleared(cj)) by {
                    assert(before.chests@[cj].claimed <==> before.cleared(cj));
                }
            },
        }
    }

    /// Whether the tile at `i` has been dug open.
    pub fn is_open(&self, i: usize) -> (b: bool)
        requires
            i < TILES,
        ensures
            b == self.opened()[i as int],
    {
        self.revealed[i]
    }

    /// What is buried at `i` (regardless of whether it has been revealed). The
    /// UI uses this only for already-open tiles.
    pub fn buried_at(&self, i: usize) -> (b: Buried)
        requires
            i < TILES,
        ensures
            b == self.field()[i as int],
    {
        self.tiles[i]
    }

    /// True once the move budget is exhausted.
    pub fn finished(&self) -> (b: bool)
        ensures
            b == (self.moves_left == 0),
    {
        self.moves_left == 0
    }
}

/// Where the board's cursor lands after one frame's presses: up/down a row and
/// left/right a column, each clamped to the field's edges.
pub open spec fn cursor_after(cursor: int, up: bool, down: bool, left: bool, right: bool) -> int {
    let row0 = cursor / GRID as int;
    let col0 = cursor % GRID as int;
    let row1 = if up && row0 > 0 { row0 - 1 } else { row0 };
    let row2 = if down && row1 < GRID - 1 { row1 + 1 } else { row1 };
    let col1 = if left && col0 > 0 { col0 - 1 } else { col0 };
    let col2 = if right && col1 < GRID - 1 { col1 + 1 } else { col1 };
    tile_index(row2, col2)
}

/// Move the board's cursor (a tile index) for one frame's presses: up/down a
/// row, left/right a column, each clamped to the field edges.
pub fn cursor_step(cursor: usize, up: bool, down: bool, left: bool, right: bool) -> (next: usize)
    requires
        cursor < TILES,
    ensures
        next == cursor_after(cursor as int, up, down, left, right),
        next < TILES,
{
    let mut row = cursor / GRID;
    let mut col = cursor % GRID;
    if up && row > 0 {
        row = row - 1;
    }
    if down && row < GRID - 1 {
        row = row + 1;
    }
    if left && col > 0 {
        col = col - 1;
    }
    if right && col < GRID - 1 {
        col = col + 1;
    }
    row * GRID + col
}

} // verus!
