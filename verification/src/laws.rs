//! What holds of the voyage across several operations, stated over the same
//! spec functions the operations' own contracts use.
use vstd::prelude::*;

use crate::dig_site::{
    chest_models, chest_round, chest_rounds, coin_count, dug, field_seed_model, generated_field, is_block,
    lemma_generated_shape, place_chest_model, Buried, DigResult, DigSite, COIN_MAX_COUNT, MOVES, PLACE_ATTEMPTS, TILES,
};
use crate::flotsam::{swept, Flotsam};
use crate::game_state::{
    booked, gave_up, handed_in, hull_after_wear, lost, market_price, same_ship, same_voyage, took_on, traded, wear_after,
    withdrawn, without_id, without_prefix, won, fill_units, GameState, Good, TradeError, WEAR_PER_POINT,
};
use crate::rng::{draw_chance, lcg_draw, lcg_next, nth_state, seeded};
use crate::voyage::{stepped, FrameAction, FrameInput, Voyage};
use crate::world::distance;
use crate::mission::{deposit_for, drawn_up, has_id, not_taken, tier_of, Mission};
use crate::race::{level_for, Race};
use crate::world::{Island, World};

verus! {

/// Selling back, at the same port price, what a purchase just bought is
/// always possible (the sale is not refused and stays within the purse's
/// bounds) and leaves the captain exactly where the purchase found them: the
/// same purse, the same hold, the same ship and voyage.
pub proof fn law_sell_undoes_buy(
    before: GameState,
    bought: GameState,
    after: GameState,
    good: Good,
    price: int,
    qty: int,
)
    requires
        before.sane(),
        before.buy_check(price, qty) is Ok,
        traded(bought, before, -(price * qty), good, qty),
        traded(after, bought, price * qty, good, -qty),
    ensures
        bought.sell_check(good, qty) is Ok,
        bought.sell_fits(good, price, qty),
        bought.gold + price * qty >= 0,
        after.gold == before.gold,
        after.cargo@ == before.cargo@,
        same_ship(after, before),
        same_voyage(after, before),
{
    crate::game_state::lemma_good_slots();
    let slot = good.slot();
    let held = before.cargo@[slot];
    crate::game_state::lemma_cargo_total_nonneg(before.cargo@, 8);
    crate::game_state::lemma_mission_total_nonneg(before.active_missions@, before.active_missions@.len() as int);
    crate::game_state::lemma_cargo_prefix_le(before.cargo@, slot + 1, 8);
    crate::game_state::lemma_cargo_prefix_le(before.cargo@, slot, slot + 1);
    assert(held <= before.cargo_units());
    assert(held + qty <= i32::MAX);
    assert(bought.cargo@[slot] == held + qty);
    assert(after.cargo@ =~= before.cargo@);
}

/// Calling off a booked race costs the captain nothing: the stake comes back
/// in full and the ship is left as it was before the booking.
pub proof fn law_withdraw_refunds_stake(before: GameState, booked_state: GameState, after: GameState, r: Race)
    requires
        booked(booked_state, before, r),
        withdrawn(after, booked_state),
    ensures
        after.gold == before.gold,
        after.race == before.race,
        after.cargo@ == before.cargo@,
        same_ship(after, before),
        same_voyage(after, before),
{
}

/// A booked race that is won nets the captain exactly its stake; one that is
/// lost costs exactly its stake. Either way the race ledger moves by what the
/// purse moved, and the race is cleared.
pub proof fn law_race_nets_the_stake(before: GameState, booked_state: GameState, after: GameState, r: Race)
    requires
        booked_state.sane(),
        booked(booked_state, before, r),
        won(after, booked_state) || lost(after, booked_state),
        i64::MIN <= before.stats.race_winnings - r.stake,
        before.stats.race_winnings + r.stake <= i64::MAX,
    ensures
        won(after, booked_state) ==> after.gold == before.gold + r.stake,
        lost(after, booked_state) ==> after.gold == before.gold - r.stake,
        after.stats.race_winnings - before.stats.race_winnings == after.gold - before.gold,
        after.race is None,
        after.cargo@ == before.cargo@,
        same_ship(after, before),
{
}

/// Striking a contract off a list it was just appended to, when no other
/// contract carried its id, gives the list back.
proof fn lemma_strike_appended(missions: Seq<Mission>, m: Mission)
    requires
        !has_id(missions, m.id as int),
    ensures
        without_id(missions.push(m), m.id as int) == missions,
{
    let all = missions.push(m);
    assert forall|k: int| 0 <= k <= missions.len() implies without_prefix(all, m.id as int, k) == missions.take(k) by {
        lemma_prefix_untouched(missions, m, k);
    }
    assert(without_prefix(all, m.id as int, missions.len() + 1int) == without_prefix(all, m.id as int, missions.len() as int));
    assert(missions.take(missions.len() as int) =~= missions);
}

/// Over the contracts before the appended one, striking its id removes nothing.
proof fn lemma_prefix_untouched(missions: Seq<Mission>, m: Mission, k: int)
    requires
        !has_id(missions, m.id as int),
        0 <= k <= missions.len(),
    ensures
        without_prefix(missions.push(m), m.id as int, k) == missions.take(k),
    decreases k,
{
    if k > 0 {
        lemma_prefix_untouched(missions, m, k - 1);
        assert(missions.push(m)[k - 1] == missions[k - 1]);
        if missions[k - 1].id == m.id {
            assert(has_id(missions, m.id as int));
        }
        assert(missions.take(k - 1).push(missions[k - 1]) =~= missions.take(k));
    }
}

/// Taking on a contract and handing it in nets the captain exactly its reward:
/// the deposit comes back, the contract list and the hold are as before, and
/// the ledger counts one more contract honoured.
pub proof fn law_delivery_nets_reward(before: GameState, loaded: GameState, after: GameState, m: Mission)
    requires
        loaded.sane(),
        took_on(loaded, before, m),
        handed_in(after, loaded, m),
        before.stats.contracts_fulfilled < u32::MAX,
    ensures
        after.gold == before.gold + m.reward,
        after.active_missions@ == before.active_missions@,
        after.cargo@ == before.cargo@,
        after.stats.contracts_fulfilled == before.stats.contracts_fulfilled + 1,
        same_ship(after, before),
        after.location == before.location,
        after.race == before.race,
{
    let ms = before.active_missions@;
    if has_id(ms, m.id as int) {
        let k = choose|k: int| 0 <= k < ms.len() && ms[k].id == m.id;
        assert(loaded.active_missions@[k].id == loaded.active_missions@[ms.len() as int].id);
    }
    lemma_strike_appended(ms, m);
}

/// Taking on a contract and then abandoning it forfeits exactly its deposit:
/// the contract list is as before, and its goods stay aboard as ordinary cargo.
pub proof fn law_abandon_forfeits_deposit(before: GameState, loaded: GameState, after: GameState, m: Mission)
    requires
        loaded.sane(),
        took_on(loaded, before, m),
        gave_up(after, loaded, m),
    ensures
        after.gold == before.gold - m.deposit,
        after.active_missions@ == before.active_missions@,
        after.cargo@ == before.cargo@.update(m.good.slot(), (before.cargo@[m.good.slot()] + m.quantity) as i32),
        same_ship(after, before),
        after.location == before.location,
        after.race == before.race,
        after.stats == before.stats,
{
    let ms = before.active_missions@;
    if has_id(ms, m.id as int) {
        let k = choose|k: int| 0 <= k < ms.len() && ms[k].id == m.id;
        assert(loaded.active_missions@[k].id == loaded.active_missions@[ms.len() as int].id);
    }
    lemma_strike_appended(ms, m);
}

/// Wear banks exactly: two hops in a row grind the hull down just as one
/// passage of their combined length does, as long as the hull survives it.
pub proof fn law_hops_wear_like_one_passage(hull: int, wear: int, first: int, second: int, full: int)
    requires
        0 <= wear < WEAR_PER_POINT,
        first > 0,
        second > 0,
        full >= 0,
        hull - (wear + (first + second) * full) / WEAR_PER_POINT as int > 0,
    ensures
        hull_after_wear(hull_after_wear(hull, wear, first, full), wear_after(wear, first, full), second, full)
            == hull_after_wear(hull, wear, first + second, full),
        wear_after(wear_after(wear, first, full), second, full) == wear_after(wear, first + second, full),
{
    let p = WEAR_PER_POINT as int;
    let a = wear + first * full;
    let q = a / p;
    let r = a % p;
    let total = wear + (first + second) * full;
    vstd::arithmetic::div_mod::lemma_fundamental_div_mod(a, p);
    assert(total == p * q + (r + second * full)) by (nonlinear_arith)
        requires
            a == p * q + r,
            total == wear + (first + second) * full,
            a == wear + first * full,
    ;
    vstd::arithmetic::div_mod::lemma_hoist_over_denominator(r + second * full, q, p as nat);
    assert(q * p == p * q) by (nonlinear_arith);
    vstd::arithmetic::div_mod::lemma_mod_multiples_vanish(q, r + second * full, p);
    assert(second * full >= 0) by (nonlinear_arith)
        requires
            second > 0,
            full >= 0,
    ;
    assert(first * full >= 0) by (nonlinear_arith)
        requires
            first > 0,
            full >= 0,
    ;
    assert(total >= a);
    vstd::arithmetic::div_mod::lemma_div_is_ordered(a, total, p);
}

/// Taking a contract only to abandon it and sell its goods back at the port
/// that offered it never pays: the deposit is the goods' value there plus 10%,
/// rounded up, so the round trip loses at least a tenth of that value, and
/// always something.
pub proof fn law_abandon_and_sell_never_pays(
    origin: Island,
    world: World,
    m: Mission,
    before: GameState,
    loaded: GameState,
    abandoned: GameState,
    after: GameState,
)
    requires
        drawn_up(m, origin, world),
        took_on(loaded, before, m),
        gave_up(abandoned, loaded, m),
        traded(
            after,
            abandoned,
            market_price(world.seed, origin.id, m.good) * m.quantity,
            m.good,
            -m.quantity,
        ),
    ensures
        after.gold == before.gold - m.deposit + m.quantity * market_price(world.seed, origin.id, m.good),
        10 * after.gold <= 10 * before.gold - m.quantity * market_price(world.seed, origin.id, m.good),
        after.gold < before.gold,
{
    let price = market_price(world.seed, origin.id, m.good);
    let value = m.quantity * price;
    assert(m.quantity >= 5);
    assert(value >= 5) by (nonlinear_arith)
        requires
            value == m.quantity * price,
            m.quantity >= 5,
            price >= 1,
    ;
    assert(price * m.quantity == value) by (nonlinear_arith)
        requires
            value == m.quantity * price,
    ;
    assert(m.deposit == deposit_for(value));
    assert(10 * m.deposit >= 11 * value);
}

/// The longer the leg, the sturdier the hull a race over it demands.
pub proof fn law_longer_legs_demand_sturdier_hulls(near: int, far: int)
    requires
        near <= far,
    ensures
        level_for(near) <= level_for(far),
        0 <= level_for(near) <= 3,
{
}

/// A sweep for salvage splits the field: every piece is either scooped aboard
/// or left adrift, never both, and none is lost or doubled.
pub proof fn law_sweep_splits_the_field(items: Seq<Flotsam>, x: int, y: int, reach: int)
    ensures
        swept(items, x, y, reach, true).len() + swept(items, x, y, reach, false).len() == items.len(),
        forall|f: Flotsam| swept(items, x, y, reach, true).contains(f) ==> items.contains(f),
        forall|f: Flotsam| swept(items, x, y, reach, false).contains(f) ==> items.contains(f),
        forall|f: Flotsam| items.contains(f) ==> (swept(items, x, y, reach, true).contains(f) || swept(
            items,
            x,
            y,
            reach,
            false,
        ).contains(f)),
    decreases items.len(),
{
    if items.len() > 0 {
        let init = items.drop_last();
        let last = items.last();
        law_sweep_splits_the_field(init, x, y, reach);
        assert(items =~= init.push(last));
        let t = swept(init, x, y, reach, true);
        let f = swept(init, x, y, reach, false);
        assert forall|g: Flotsam| items.contains(g) implies (init.contains(g) || g == last) by {
            let i = choose|i: int| 0 <= i < items.len() && items[i] == g;
            if i < init.len() {
                assert(init[i] == g);
            }
        }
        assert forall|g: Flotsam| init.contains(g) implies items.contains(g) by {
            let i = choose|i: int| 0 <= i < init.len() && init[i] == g;
            assert(items[i] == g);
        }
        assert(items.contains(last)) by {
            assert(items[items.len() - 1] == last);
        }
        assert forall|g: Flotsam| t.push(last).contains(g) implies (t.contains(g) || g == last) by {
            let i = choose|i: int| 0 <= i < t.len() + 1 && t.push(last)[i] == g;
            if i < t.len() {
                assert(t[i] == g);
            }
        }
        assert forall|g: Flotsam| f.push(last).contains(g) implies (f.contains(g) || g == last) by {
            let i = choose|i: int| 0 <= i < f.len() + 1 && f.push(last)[i] == g;
            if i < f.len() {
                assert(f[i] == g);
            }
        }
        assert forall|g: Flotsam| t.contains(g) implies t.push(last).contains(g) by {
            let i = choose|i: int| 0 <= i < t.len() && t[i] == g;
            assert(t.push(last)[i] == g);
        }
        assert forall|g: Flotsam| f.contains(g) implies f.push(last).contains(g) by {
            let i = choose|i: int| 0 <= i < f.len() && f[i] == g;
            assert(f.push(last)[i] == g);
        }
        assert(t.push(last).contains(last)) by {
            assert(t.push(last)[t.len() as int] == last);
        }
        assert(f.push(last).contains(last)) by {
            assert(f.push(last)[f.len() as int] == last);
        }
    }
}

/// A fresh field lays each chest in a block, three rows by two columns or two
/// by three, inside the field, and hides at most nine loose coins.
pub proof fn law_fresh_field_shape(site: DigSite, world_seed: i64, island_id: i32, day: u32)
    requires
        site.is_fresh(world_seed, island_id, day),
    ensures
        forall|ci: int| 0 <= ci < site.chests@.len() ==> is_block(#[trigger] site.chests@[ci].tiles@),
        coin_count(site.field(), TILES as int) <= COIN_MAX_COUNT,
{
    lemma_generated_shape(world_seed, island_id, day);
    let g = generated_field(world_seed, island_id, day);
    assert forall|ci: int| 0 <= ci < site.chests@.len() implies is_block(#[trigger] site.chests@[ci].tiles@) by {
        assert(chest_models(site.chests@)[ci] == (site.chests@[ci].tiles@, site.chests@[ci].reward));
        assert(g.1[ci].0 == site.chests@[ci].tiles@);
    }
}

/// How many of the first `n` digs turned something up (were not spent).
pub open spec fn digs_made(results: Seq<DigResult>, n: int) -> int
    decreases n,
{
    if n <= 0 {
        0
    } else {
        digs_made(results, n - 1) + if results[n - 1] == DigResult::Spent { 0int } else { 1int }
    }
}

/// A dig session on a fresh field: `sites[k + 1]` and `results[k]` are what
/// digging tile `tiles[k]` makes of `sites[k]`.
pub open spec fn dig_session(sites: Seq<DigSite>, tiles: Seq<int>, results: Seq<DigResult>) -> bool {
    &&& sites.len() == tiles.len() + 1
    &&& results.len() == tiles.len()
    &&& forall|t: int| 0 <= t < TILES ==> !#[trigger] sites[0].opened()[t]
    &&& sites[0].moves_left == MOVES
    &&& forall|k: int| 0 <= k < tiles.len() ==> 0 <= #[trigger] tiles[k] < TILES
    &&& forall|k: int| 0 <= k < tiles.len() ==> #[trigger] dug(sites[k], tiles[k], results[k], sites[k + 1])
}

/// Over a dig session on a fresh field, a tile is open exactly when some dig
/// on it turned something up; every such dig spent one move, so the field is
/// finished exactly when ten digs have turned something up.
pub proof fn law_dig_session(sites: Seq<DigSite>, tiles: Seq<int>, results: Seq<DigResult>, n: int)
    requires
        dig_session(sites, tiles, results),
        0 <= n <= tiles.len(),
    ensures
        forall|j: int|
            0 <= j < TILES ==> (#[trigger] sites[n].opened()[j] <==> exists|k: int|
                0 <= k < n && tiles[k] == j && results[k] != DigResult::Spent),
        sites[n].moves_left == MOVES - digs_made(results, n),
        sites[n].moves_left == 0 <==> digs_made(results, n) == MOVES,
    decreases n,
{
    if n > 0 {
        law_dig_session(sites, tiles, results, n - 1);
        let k = n - 1;
        assert(dug(sites[k], tiles[k], results[k], sites[k + 1]));
        let b = sites[k];
        let a = sites[n];
        if b.moves_left == 0 || b.opened()[tiles[k]] {
            assert(results[k] == DigResult::Spent);
            assert forall|j: int| 0 <= j < TILES implies (#[trigger] a.opened()[j] <==> exists|q: int|
                0 <= q < n && tiles[q] == j && results[q] != DigResult::Spent) by {
                if exists|q: int| 0 <= q < n && tiles[q] == j && results[q] != DigResult::Spent {
                    let q = choose|q: int| 0 <= q < n && tiles[q] == j && results[q] != DigResult::Spent;
                    assert(q < k);
                }
            }
        } else {
            assert(results[k] != DigResult::Spent) by {
                match b.field()[tiles[k]] {
                    Buried::Dirt => {},
                    Buried::Coin(g) => {},
                    Buried::Chest(ci) => {},
                }
            }
            assert forall|j: int| 0 <= j < TILES implies (#[trigger] a.opened()[j] <==> exists|q: int|
                0 <= q < n && tiles[q] == j && results[q] != DigResult::Spent) by {
                if j == tiles[k] {
                    assert(a.opened()[j]);
                } else {
                    assert(a.opened()[j] == b.opened()[j]);
                    if exists|q: int| 0 <= q < n && tiles[q] == j && results[q] != DigResult::Spent {
                        let q = choose|q: int| 0 <= q < n && tiles[q] == j && results[q] != DigResult::Spent;
                        assert(q < k);
                    }
                }
            }
        }
    }
}

/// A finished field digs nothing more: every further dig is spent and
/// changes nothing.
pub proof fn law_finished_field_digs_nothing(before: DigSite, i: int, r: DigResult, after: DigSite)
    requires
        before.moves_left == 0,
        dug(before, i, r, after),
    ensures
        r == DigResult::Spent,
        after == before,
{
}

/// An accepted contract leaves the port's board: once taken on, no contract
/// still offered there carries its id.
pub proof fn law_accepted_contract_leaves_the_board(board: Seq<Mission>, before: GameState, after: GameState, m: Mission)
    requires
        took_on(after, before, m),
    ensures
        forall|x: Mission| #[trigger] not_taken(board, after.active_missions@).contains(x) ==> x.id != m.id,
        !not_taken(board, after.active_missions@).contains(m),
{
    assert(after.active_missions@[before.active_missions@.len() as int] == m);
    assert(has_id(after.active_missions@, m.id as int));
    lemma_not_taken_lacks(board, after.active_missions@);
}

/// No contract left after striking the taken ids carries a taken id.
proof fn lemma_not_taken_lacks(board: Seq<Mission>, taken: Seq<Mission>)
    ensures
        forall|x: Mission| #[trigger] not_taken(board, taken).contains(x) ==> !has_id(taken, x.id as int),
    decreases board.len(),
{
    if board.len() > 0 {
        lemma_not_taken_lacks(board.drop_last(), taken);
        let rest = not_taken(board.drop_last(), taken);
        assert forall|x: Mission| #[trigger] rest.push(board.last()).contains(x) implies (rest.contains(x) || x
            == board.last()) by {
            let q = choose|q: int| 0 <= q < rest.len() + 1 && rest.push(board.last())[q] == x;
            if q < rest.len() {
                assert(rest[q] == x);
            }
        }
    }
}

/// A longer haul never falls in a lower contract tier.
pub proof fn law_tier_steps_up_with_distance(near: int, far: int)
    requires
        near <= far,
    ensures
        tier_of(near) <= tier_of(far),
        1 <= tier_of(near) <= 4,
{
}


/// A contract's reward is 30% of its goods' value at the origin plus a
/// quarter-gold per hundred unit-metres hauled, rounded half up, and never
/// under one gold: `max(1, round(0.3 * value + 0.0025 * distance * quantity))`.
pub proof fn law_reward_pays_value_and_distance(m: Mission, origin: Island, world: World)
    requires
        drawn_up(m, origin, world),
    ensures
        ({
            let d = distance(origin, world.islands@[m.target_id as int]);
            let value = m.quantity * market_price(world.seed, origin.id, m.good);
            let r = (120 * value + d * m.quantity + 200) / 400;
            m.reward == if r < 1 { 1 } else { r }
        }),
{
}

/// Of two contracts from one port for the same goods and quantity, the one
/// hauled farther never pays less, and pays strictly more once the extra
/// haul reaches 400 unit-metres.
pub proof fn law_farther_hauls_pay_more(near: Mission, far: Mission, origin: Island, world: World)
    requires
        drawn_up(near, origin, world),
        drawn_up(far, origin, world),
        near.good == far.good,
        near.quantity == far.quantity,
        distance(origin, world.islands@[near.target_id as int]) <= distance(
            origin,
            world.islands@[far.target_id as int],
        ),
    ensures
        near.reward <= far.reward,
        distance(origin, world.islands@[near.target_id as int]) * near.quantity + 400 <= distance(
            origin,
            world.islands@[far.target_id as int],
        ) * far.quantity ==> near.reward < far.reward,
{
    let q = near.quantity as int;
    let d1 = distance(origin, world.islands@[near.target_id as int]);
    let d2 = distance(origin, world.islands@[far.target_id as int]);
    let price = market_price(world.seed, origin.id, near.good);
    let v = q * price;
    law_reward_pays_value_and_distance(near, origin, world);
    law_reward_pays_value_and_distance(far, origin, world);
    assert(q >= 5);
    assert(price >= 1);
    assert(v >= 5) by (nonlinear_arith)
        requires
            v == q * price,
            q >= 5,
            price >= 1,
    ;
    assert(d1 * q <= d2 * q) by (nonlinear_arith)
        requires
            d1 <= d2,
            q >= 5,
    ;
    let a = 120 * v + d1 * q + 200;
    let b = 120 * v + d2 * q + 200;
    vstd::arithmetic::div_mod::lemma_div_is_ordered(a, b, 400);
    crate::world::lemma_distance_nonneg(origin, world.islands@[near.target_id as int]);
    assert(d1 * q >= 0) by (nonlinear_arith)
        requires
            d1 >= 0,
            q >= 5,
    ;
    assert(a / 400 >= 2);
    if d1 * q + 400 <= d2 * q {
        vstd::arithmetic::div_mod::lemma_div_is_ordered(a + 400, b, 400);
        vstd::arithmetic::div_mod::lemma_hoist_over_denominator(a, 1, 400);
    }
}

/// A port's price for a good is its base price scaled by a factor drawn from
/// the port's own stream, one draw per good in cargo order: the factor is
/// `550 + draw % 901` thousandths (from -45% to +45%), the price rounded half
/// up and never under one gold. Ports whose streams draw differently price
/// differently.
pub proof fn law_price_is_the_ports_draw(seed: i64, island_id: i32, good: Good)
    ensures
        ({
            let stream = seeded(seed ^ (island_id as i64).wrapping_mul(0x100000001b3));
            let factor = 550 + lcg_draw(nth_state(stream, good.slot() as nat)) % 901;
            let p = (good.base() * factor + 500) / 1000;
            market_price(seed, island_id, good) == if p < 1 { 1 } else { p }
        }),
{
}

/// A fill is never refused for want of hold: it orders no more than the
/// free hold (contract goods included) and no more than the purse pays for,
/// and it stops only when the hold is full or the purse cannot pay for one
/// more unit.
pub proof fn law_fill_fills_the_hold_or_the_purse(s: GameState, price: int)
    requires
        s.sane(),
        price >= 1,
    ensures
        ({
            let units = fill_units(s, price);
            let free = s.hold_capacity - s.used();
            &&& 0 <= units <= free
            &&& price * units <= s.gold
            &&& units == free || s.gold - price * units < price
            &&& s.buy_check(price, units) != Err::<(), TradeError>(TradeError::NotEnoughHold)
        }),
{
    crate::game_state::lemma_cargo_total_nonneg(s.cargo@, 8);
    crate::game_state::lemma_mission_total_nonneg(s.active_missions@, s.active_missions@.len() as int);
    let units = fill_units(s, price);
    let g = s.gold as int;
    vstd::arithmetic::div_mod::lemma_fundamental_div_mod(g, price);
    let q = g / price;
    assert(q >= 0) by {
        vstd::arithmetic::div_mod::lemma_div_pos_is_pos(g, price);
    }
    assert(price * q <= g && g - price * q < price) by (nonlinear_arith)
        requires
            g == price * q + g % price,
            0 <= g % price < price,
    ;
    if units < q {
        assert(price * units <= price * q) by (nonlinear_arith)
            requires
                units <= q,
                price >= 1,
        ;
    }
}

/// The one-chest-or-two rule: a field hides a second chest exactly when its
/// first draw lands under 350 per mille and the second burial finds room;
/// otherwise it hides one. On a field of bare dirt the first chest always
/// finds room.
pub proof fn law_second_chest_when_the_draw_hits(world_seed: i64, island_id: i32, day: u32)
    ensures
        ({
            let s0 = seeded(field_seed_model(world_seed, island_id, day));
            let dirt = Seq::new(TILES as nat, |t: int| Buried::Dirt);
            let first = chest_round(lcg_next(s0), dirt, Seq::empty());
            let room = place_chest_model(first.0, first.1, PLACE_ATTEMPTS as nat).1 is Some;
            generated_field(world_seed, island_id, day).1.len() == if draw_chance(s0, 350) && room { 2int } else { 1int }
        }),
{
    let s0 = seeded(field_seed_model(world_seed, island_id, day));
    let dirt = Seq::new(TILES as nat, |t: int| Buried::Dirt);
    let none: Seq<(Seq<usize>, i32)> = Seq::empty();
    reveal(chest_round);
    reveal_with_fuel(chest_rounds, 3);
    crate::dig_site::lemma_place_on_dirt(lcg_next(s0), dirt, PLACE_ATTEMPTS as nat);
    let first = chest_round(lcg_next(s0), dirt, none);
    assert(first.2.len() == 1);
    assert(chest_rounds(lcg_next(s0), dirt, none, 1) == chest_rounds(first.0, first.1, first.2, 0));
    assert(chest_rounds(lcg_next(s0), dirt, none, 2) == chest_rounds(first.0, first.1, first.2, 1));
    let second = chest_round(first.0, first.1, first.2);
    assert(chest_rounds(first.0, first.1, first.2, 1) == chest_rounds(second.0, second.1, second.2, 0));
}

/// A race settles only once its gun has fired: a win needs the ship at the
/// mark, a loss the rival there first, and a frame before the gun leaves the
/// booking, the ledger and the stake untouched (the purse moves only by any
/// salvage banked).
pub proof fn law_race_settles_only_once_running(
    before: Voyage,
    input: FrameInput,
    after: Voyage,
    action: FrameAction,
)
    requires
        stepped(before, input, after, action),
    ensures
        action.race_won ==> before.race_running && before.rival_out && input.reached_mark && before.gs.race is Some,
        action.race_lost ==> before.race_running && before.rival_out && !input.reached_mark && input.rival_reached_mark
            && before.gs.race is Some,
        !(action.race_won && action.race_lost),
        !before.race_running ==> {
            &&& after.gs.race == before.gs.race
            &&& after.gs.stats == before.gs.stats
            &&& after.gs.gold == before.gs.gold + if before.gs.location == crate::game_state::Location::Sailing
                && input.salvage_gold > 0 {
                input.salvage_gold as int
            } else {
                0
            }
        },
{
}

} // verus!
