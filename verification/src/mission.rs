//! Haulage contracts taken at a port.
//!
//! A contract carries `quantity` units of `good` to `target_id` for a `reward`.
//! Accepting one loads the goods into the hold (so it costs cargo space) and
//! requires a `deposit` of the goods' value plus 10%, returned alongside the
//! reward on delivery. The cargo is mission-bound — it cannot be sold at market,
//! only delivered (or abandoned, forfeiting the deposit).
//!
//! The board a port offers is derived deterministically from the world seed, so
//! the same chart always presents the same contracts. The state mutations
//! (accept / deliver / abandon) live on [`GameState`](crate::game_state::GameState);
//! the pure board derivation lives here.
use vstd::prelude::*;

use crate::game_state::{good_at, lemma_good_slots, market_price, GameState, Good, Location, Market, GOODS};
use crate::race::{level_for, required_level_for};
use crate::rng::{draw_between, lcg_draw, lcg_next, nth_state, seeded, Rng};
use crate::world::{distance, distance_m, Island, World};

verus! {

/// A haulage contract taken at a port. Small and `Copy`, so the boards can be
/// rebuilt and filtered freely.
#[derive(Clone, Copy, PartialEq, Eq, Debug, Structural)]
pub struct Mission {
    pub id: i32,
    pub good: Good,
    pub quantity: i32,
    pub origin_id: i32,
    pub target_id: i32,
    pub reward: i32,
    pub deposit: i32,
}

/// How many contracts a port offers at once.
pub const PER_PORT: i32 = 6;


/// The contract tier of a haul over `distance_m` metres (1-based): one more than
/// the hull tier a race over the same leg demands.
pub open spec fn tier_of(distance_m: int) -> int {
    level_for(distance_m) + 1
}

/// The inclusive cargo-quantity band of a contract of the given tier.
pub open spec fn quantity_band(tier: int) -> (int, int) {
    if tier == 1 {
        (5, 13)
    } else if tier == 2 {
        (17, 24)
    } else if tier == 3 {
        (28, 40)
    } else {
        (45, 64)
    }
}

/// The deposit on goods worth `value`: the value plus 10%, rounded up.
pub open spec fn deposit_for(value: int) -> int {
    (11 * value + 9) / 10
}

/// The reward for hauling `quantity` units worth `value` over `distance_m`
/// metres: 30% of the value plus a quarter-gold per hundred unit-metres,
/// rounded, and never less than 1.
pub open spec fn reward_for(value: int, distance_m: int, quantity: int) -> int {
    let r = (120 * value + distance_m * quantity + 200) / 400;
    if r < 1 {
        1
    } else {
        r
    }
}

/// The first cluster at or after index `c` that lists island `id`.
pub open spec fn cluster_from(world: World, id: i32, c: int) -> Option<int>
    decreases world.clusters@.len() - c,
{
    if c < 0 || c >= world.clusters@.len() {
        None
    } else if world.clusters@[c].island_ids@.contains(id) {
        Some(c)
    } else {
        cluster_from(world, id, c + 1)
    }
}

/// A cluster found is a real cluster that lists the island.
pub proof fn lemma_cluster_from(world: World, id: i32, c: int)
    ensures
        cluster_from(world, id, c) matches Some(i) ==> c <= i < world.clusters@.len()
            && world.clusters@[i].island_ids@.contains(id),
    decreases world.clusters@.len() - c,
{
    if 0 <= c < world.clusters@.len() && !world.clusters@[c].island_ids@.contains(id) {
        lemma_cluster_from(world, id, c + 1);
    }
}

/// The islands (by index) a contract from `origin_id` may be bound for, before
/// filtering: the origin's cluster if it has one, else the whole chart.
pub open spec fn candidates(world: World, origin_id: i32) -> Seq<int> {
    match cluster_from(world, origin_id, 0) {
        Some(c) => world.clusters@[c].island_ids@.map_values(|id: i32| id as int),
        None => Seq::new(world.islands@.len(), |i: int| i),
    }
}

/// The ports among the first `k` candidates, other than the origin itself.
pub open spec fn ports_among(world: World, origin_id: i32, cands: Seq<int>, k: int) -> Seq<int>
    decreases k,
{
    if k <= 0 {
        Seq::empty()
    } else {
        let prev = ports_among(world, origin_id, cands, k - 1);
        let i = cands[k - 1];
        if world.islands@[i].is_port && i != origin_id {
            prev.push(i)
        } else {
            prev
        }
    }
}

/// The ports (by index) a contract from `origin_id` may be bound for.
#[verifier::opaque]
pub open spec fn eligible_targets(world: World, origin_id: i32) -> Seq<int> {
    ports_among(world, origin_id, candidates(world, origin_id), candidates(world, origin_id).len() as int)
}

/// A contract as the board at `origin` draws one up: from the origin to an
/// eligible port, carrying a quantity in the band of its distance tier, with a
/// deposit of the goods' value at the origin's market plus 10% and a reward
/// scaled by value and distance.
pub open spec fn drawn_up(m: Mission, origin: Island, world: World) -> bool {
    let d = distance(origin, world.islands@[m.target_id as int]);
    let band = quantity_band(tier_of(d));
    let value = m.quantity * market_price(world.seed, origin.id, m.good);
    &&& m.origin_id == origin.id
    &&& eligible_targets(world, origin.id).contains(m.target_id as int)
    &&& 0 <= m.target_id < world.islands@.len()
    &&& band.0 <= m.quantity <= band.1
    &&& m.deposit == deposit_for(value)
    &&& m.reward == reward_for(value, d, m.quantity as int)
}

/// Cargo contracts are graded into four tiers by how far the haul runs, on the
/// very rungs the races step up on: a tier-1 job is a short hop, a tier-4 job a
/// long ocean crossing. The tier sets only how much cargo the job carries.
pub fn tier_for(distance_m: i64) -> (t: i32)
    ensures
        t == tier_of(distance_m as int),
        1 <= t <= 4,
{
    required_level_for(distance_m) + 1
}

/// The inclusive cargo-quantity band a contract of the given (1-based) tier
/// carries. The bands step up with a clear gap between them, so a heavier haul
/// always reads as a longer one.
pub fn tier_quantity_range(tier: i32) -> (b: (i32, i32))
    ensures
        b.0 == quantity_band(tier as int).0,
        b.1 == quantity_band(tier as int).1,
{
    match tier {
        1 => (5, 13),
        2 => (17, 24),
        3 => (28, 40),
        _ => (45, 64),
    }
}

/// Whether `ids` lists `id`.
fn lists(ids: &Vec<i32>, id: i32) -> (b: bool)
    ensures
        b == ids@.contains(id),
{
    let mut k: usize = 0;
    while k < ids.len()
        invariant
            k <= ids@.len(),
            forall|j: int| 0 <= j < k ==> ids@[j] != id,
        decreases ids@.len() - k,
    {
        if ids[k] == id {
            return true;
        }
        k += 1;
    }
    false
}

/// The first cluster listing island `id`.
fn home_cluster(world: &World, id: i32) -> (c: Option<usize>)
    ensures
        match c {
            Some(i) => cluster_from(*world, id, 0) == Some(i as int),
            None => cluster_from(*world, id, 0) is None,
        },
{
    let mut c: usize = 0;
    while c < world.clusters.len()
        invariant
            c <= world.clusters@.len(),
            cluster_from(*world, id, 0) == cluster_from(*world, id, c as int),
        decreases world.clusters@.len() - c,
    {
        if lists(&world.clusters[c].island_ids, id) {
            return Some(c);
        }
        c += 1;
    }
    None
}

/// The ports (by index) a contract from `origin_id` may be bound for.
fn eligible_ports(world: &World, origin_id: i32) -> (v: Vec<usize>)
    requires
        world.wf(),
    ensures
        v@.map_values(|i: usize| i as int) == eligible_targets(*world, origin_id),
        forall|j: int| 0 <= j < v@.len() ==> #[trigger] v@[j] < world.islands@.len(),
{
    let home = home_cluster(world, origin_id);
    let ghost cands = candidates(*world, origin_id);
    proof {
        reveal(eligible_targets);
        lemma_cluster_from(*world, origin_id, 0);
    }
    let n: usize = match home {
        Some(c) => world.clusters[c].island_ids.len(),
        None => world.islands.len(),
    };
    let mut v: Vec<usize> = Vec::new();
    let mut k: usize = 0;
    while k < n
        invariant
            k <= n,
            n == cands.len(),
            cands == candidates(*world, origin_id),
            world.wf(),
            match home {
                Some(c) => c < world.clusters@.len() && cluster_from(*world, origin_id, 0) == Some(c as int),
                None => cluster_from(*world, origin_id, 0) is None,
            },
            forall|j: int| 0 <= j < cands.len() ==> 0 <= #[trigger] cands[j] < world.islands@.len(),
            v@.map_values(|i: usize| i as int) == ports_among(*world, origin_id, cands, k as int),
            forall|j: int| 0 <= j < v@.len() ==> #[trigger] v@[j] < world.islands@.len(),
        decreases n - k,
    {
        let i: usize = match home {
            Some(c) => world.clusters[c].island_ids[k] as usize,
            None => k,
        };
        assert(i as int == cands[k as int]);
        let ghost before = v@;
        if world.islands[i].is_port && i as i32 != origin_id {
            v.push(i);
            assert(v@.map_values(|i: usize| i as int) =~= before.map_values(|i: usize| i as int).push(i as int));
        }
        k += 1;
    }
    v
}

/// `order` lists position `j` somewhere.
pub open spec fn lists_position(order: Seq<usize>, j: int) -> bool {
    exists|p: int| 0 <= p < order.len() && order[p] == j
}

/// `ord` lists index `j` somewhere.
pub open spec fn lists_index(ord: Seq<int>, j: int) -> bool {
    exists|p: int| 0 <= p < ord.len() && ord[p] == j
}

/// Entry `i` of `keys` comes before entry `j` in a stable ordering: a smaller
/// key, or an equal key at an earlier position.
pub open spec fn precedes(keys: Seq<int>, i: int, j: int) -> bool {
    keys[i] < keys[j] || (keys[i] == keys[j] && i < j)
}

/// `ord` lists every position of `keys` once, smallest key first, equal keys in
/// their given order.
pub open spec fn is_stable_order(keys: Seq<int>, ord: Seq<int>) -> bool {
    &&& ord.len() == keys.len()
    &&& forall|p: int| 0 <= p < ord.len() ==> 0 <= #[trigger] ord[p] < keys.len()
    &&& forall|j: int| 0 <= j < keys.len() ==> #[trigger] lists_index(ord, j)
    &&& forall|p: int, q: int| 0 <= p < q < ord.len() ==> #[trigger] precedes(keys, ord[p], ord[q])
}

/// The positions of `keys` listed smallest key first, equal keys in their
/// given order (a stable sort; there is exactly one such listing).
pub open spec fn stable_order(keys: Seq<int>) -> Seq<int> {
    choose|ord: Seq<int>| is_stable_order(keys, ord)
}

/// Two stable orderings of the same keys agree.
proof fn lemma_stable_order_unique(keys: Seq<int>, a: Seq<int>, b: Seq<int>)
    requires
        is_stable_order(keys, a),
        is_stable_order(keys, b),
    ensures
        a == b,
{
    assert forall|p: int| 0 <= p < a.len() implies a[p] == b[p] by {
        lemma_stable_orders_agree_upto(keys, a, b, p);
    }
    assert(a =~= b);
}

/// Two stable orderings of the same keys agree on their first `p + 1` entries.
proof fn lemma_stable_orders_agree_upto(keys: Seq<int>, a: Seq<int>, b: Seq<int>, p: int)
    requires
        is_stable_order(keys, a),
        is_stable_order(keys, b),
        0 <= p < a.len(),
    ensures
        forall|q: int| 0 <= q <= p ==> a[q] == b[q],
    decreases p,
{
    if p > 0 {
        lemma_stable_orders_agree_upto(keys, a, b, p - 1);
    }
    if a[p] != b[p] {
        let x = a[p];
        let y = b[p];
        if precedes(keys, x, y) {
            // `x` sits somewhere in `b`; neither before nor at nor after `p` works.
            assert(lists_index(b, x));
            let q = choose|q: int| 0 <= q < b.len() && b[q] == x;
            if q < p {
                assert(precedes(keys, a[q], a[p]));
            } else if q > p {
                assert(precedes(keys, b[p], b[q]));
            }
        } else {
            assert(lists_index(a, y));
            let q = choose|q: int| 0 <= q < a.len() && a[q] == y;
            if q < p {
                assert(a[q] == b[q]);
                assert(precedes(keys, b[q], b[p]));
            } else if q > p {
                assert(precedes(keys, a[p], a[q]));
            }
        }
    }
}

/// The keys of a list of lengths, as integers.
pub open spec fn key_ints(keys: Seq<u64>) -> Seq<int> {
    keys.map_values(|k: u64| k as int)
}

/// Positions, as integers.
pub open spec fn index_ints(order: Seq<usize>) -> Seq<int> {
    order.map_values(|i: usize| i as int)
}

/// The positions `0..keys.len()` ordered by their key, smallest first (equal keys
/// keep their order).
fn order_by_key(keys: &Vec<u64>) -> (order: Vec<usize>)
    ensures
        order@.len() == keys@.len(),
        forall|p: int| 0 <= p < order@.len() ==> #[trigger] order@[p] < keys@.len(),
        forall|j: int| 0 <= j < keys@.len() ==> #[trigger] lists_position(order@, j),
        forall|p: int, q: int| 0 <= p < q < order@.len() ==> keys@[#[trigger] order@[p] as int] <= keys@[#[trigger] order@[q] as int],
        is_stable_order(key_ints(keys@), index_ints(order@)),
{
    let mut order: Vec<usize> = Vec::new();
    let mut j: usize = 0;
    while j < keys.len()
        invariant
            j <= keys@.len(),
            order@.len() == j,
            forall|p: int| 0 <= p < order@.len() ==> #[trigger] order@[p] < j,
            forall|i: int| 0 <= i < j ==> #[trigger] lists_position(order@, i),
            forall|p: int, q: int| 0 <= p < q < order@.len() ==> keys@[#[trigger] order@[p] as int] <= keys@[#[trigger] order@[q] as int],
            forall|p: int, q: int| 0 <= p < q < order@.len() && keys@[order@[p] as int] == keys@[order@[q] as int] ==> #[trigger] order@[p] < #[trigger] order@[q],
        decreases keys@.len() - j,
    {
        // Insert `j` after every position whose key is no larger.
        let mut pos: usize = 0;
        while pos < order.len() && keys[order[pos]] <= keys[j]
            invariant
                pos <= order@.len(),
                forall|p: int| 0 <= p < order@.len() ==> #[trigger] order@[p] < j,
                j < keys@.len(),
                forall|p: int| 0 <= p < pos ==> keys@[#[trigger] order@[p] as int] <= keys@[j as int],
            decreases order@.len() - pos,
        {
            pos += 1;
        }
        let ghost old_order = order@;
        proof {
            old_order.insert_ensures(pos as int, j);
            // Past `pos` every key is larger, by sortedness.
            if pos < old_order.len() {
                assert(keys@[old_order[pos as int] as int] > keys@[j as int]);
            }
        }
        order.insert(pos, j);
        proof {
            let ord = order@;
            assert forall|p: int| 0 <= p < ord.len() implies #[trigger] ord[p] < j + 1 by {
                if p > pos {
                    assert(ord[p] == old_order[p - 1]);
                }
            }
            assert forall|i: int| 0 <= i < j + 1 implies #[trigger] lists_position(ord, i) by {
                if i < j {
                    assert(lists_position(old_order, i));
                    let p0 = choose|p: int| 0 <= p < old_order.len() && #[trigger] old_order[p] == i;
                    if p0 < pos {
                        assert(ord[p0] == i);
                    } else {
                        assert(ord[p0 + 1] == i);
                    }
                } else {
                    assert(ord[pos as int] == i);
                }
            }
            assert forall|p: int, q: int| 0 <= p < q < ord.len() implies keys@[#[trigger] ord[p] as int] <= keys@[#[trigger] ord[q] as int] by {
                if q < pos {
                } else if q == pos {
                    assert(ord[p] == old_order[p]);
                } else if p < pos {
                    assert(ord[q] == old_order[q - 1]);
                    assert(ord[p] == old_order[p]);
                    if q - 1 >= pos {
                        assert(keys@[old_order[pos as int] as int] <= keys@[old_order[q - 1] as int]);
                    }
                } else if p == pos {
                    assert(ord[q] == old_order[q - 1]);
                    assert(keys@[old_order[pos as int] as int] <= keys@[old_order[q - 1] as int]);
                } else {
                    assert(ord[q] == old_order[q - 1]);
                    assert(ord[p] == old_order[p - 1]);
                }
            }
            assert forall|p: int, q: int| 0 <= p < q < ord.len() && keys@[ord[p] as int] == keys@[ord[q] as int] implies #[trigger] ord[p] < #[trigger] ord[q] by {
                if q < pos {
                    assert(ord[p] == old_order[p]);
                    assert(ord[q] == old_order[q]);
                } else if q == pos {
                    assert(ord[p] == old_order[p]);
                } else if p < pos {
                    assert(ord[q] == old_order[q - 1]);
                    assert(ord[p] == old_order[p]);
                } else if p == pos {
                    assert(ord[q] == old_order[q - 1]);
                    assert(keys@[old_order[pos as int] as int] <= keys@[old_order[q - 1] as int]);
                } else {
                    assert(ord[q] == old_order[q - 1]);
                    assert(ord[p] == old_order[p - 1]);
                }
            }
        }
        j += 1;
    }
    proof {
        let k = key_ints(keys@);
        let o = index_ints(order@);
        assert forall|jj: int| 0 <= jj < k.len() implies #[trigger] lists_index(o, jj) by {
            assert(lists_position(order@, jj));
            let p = choose|p: int| 0 <= p < order@.len() && order@[p] == jj;
            assert(o[p] == jj);
        }
        assert forall|p: int, q: int| 0 <= p < q < o.len() implies #[trigger] precedes(k, o[p], o[q]) by {
            assert(keys@[order@[p] as int] <= keys@[order@[q] as int]);
        }
    }
    order
}

/// `m` stands somewhere on `board`.
pub open spec fn on_board(board: Seq<Mission>, m: Mission) -> bool {
    exists|q: int| 0 <= q < board.len() && board[q] == m
}

/// Some contract on `board` carries id `id`.
pub open spec fn board_has_id(board: Seq<Mission>, id: int) -> bool {
    exists|k: int| 0 <= k < board.len() && board[k].id == id
}

/// Some contract on `board` is bound for island `port`.
pub open spec fn board_targets_port(board: Seq<Mission>, port: int) -> bool {
    exists|k: int| 0 <= k < board.len() && board[k].target_id == port
}

/// The 64-bit golden-ratio constant `0x9e3779b97f4a7c15`, read as a signed word.
pub const GOLDEN_MIX: i64 = -0x61c8_8646_80b5_83eb;

/// Distance from `origin` to the `j`th island of `ports`.
pub open spec fn leg(origin: Island, world: World, ports: Seq<usize>, j: int) -> int {
    distance(origin, world.islands@[ports[j] as int])
}

/// `port` is one of the five anchored destinations of `targets`.
pub open spec fn anchored(targets: Seq<usize>, port: usize) -> bool {
    exists|t: int| 0 <= t < 5 && targets[t] == port
}

/// The length of the leg from `origin` to each island `ports` lists.
pub open spec fn port_legs(origin: Island, world: World, ports: Seq<int>) -> Seq<int> {
    Seq::new(ports.len(), |j: int| distance(origin, world.islands@[ports[j]]))
}

/// The sum of the first `k` entries of `s`.
pub open spec fn sum_first(s: Seq<int>, k: int) -> int
    decreases k,
{
    if k <= 0 {
        0
    } else {
        sum_first(s, k - 1) + s[k - 1]
    }
}

/// How far leg `p` sits from the mean leg, scaled by the number of legs:
/// `|n * legs[p] - total|`.
pub open spec fn off_mean(legs: Seq<int>, total: int, p: int) -> int {
    let x = legs.len() * legs[p] - total;
    if x >= 0 {
        x
    } else {
        -x
    }
}

/// Leg `p` is the middling one: none sits nearer the mean, and every earlier
/// leg sits strictly farther from it.
pub open spec fn is_middling(legs: Seq<int>, total: int, p: int) -> bool {
    &&& 0 <= p < legs.len()
    &&& forall|q: int| 0 <= q < legs.len() ==> off_mean(legs, total, p) <= #[trigger] off_mean(legs, total, q)
    &&& forall|q: int| 0 <= q < p ==> off_mean(legs, total, p) < #[trigger] off_mean(legs, total, q)
}

/// There is only one middling leg.
proof fn lemma_middling_unique(legs: Seq<int>, total: int, p: int, q: int)
    requires
        is_middling(legs, total, p),
        is_middling(legs, total, q),
    ensures
        p == q,
{
    if p < q {
        assert(off_mean(legs, total, q) < off_mean(legs, total, p));
        assert(off_mean(legs, total, p) <= off_mean(legs, total, q));
    } else if q < p {
        assert(off_mean(legs, total, p) < off_mean(legs, total, q));
        assert(off_mean(legs, total, q) <= off_mean(legs, total, p));
    }
}

/// The ports a contract from `origin` may be bound for, nearest first (equal
/// legs in the order they are eligible).
pub open spec fn ranked_ports(origin: Island, world: World) -> Seq<int> {
    let elig = eligible_targets(world, origin.id);
    let ord = stable_order(port_legs(origin, world, elig));
    Seq::new(elig.len(), |p: int| elig[ord[p]])
}

/// Where the middling haul stands among the ranked ports: the leg nearest the
/// mean leg, the nearest-ranked of any tie.
pub open spec fn middling_rank(origin: Island, world: World) -> int {
    let elig = eligible_targets(world, origin.id);
    let legs = port_legs(origin, world, ranked_ports(origin, world));
    let total = sum_first(port_legs(origin, world, elig), elig.len() as int);
    choose|p: int| is_middling(legs, total, p)
}

/// The stream a port's board is drawn from.
pub open spec fn board_stream(origin: Island, world: World) -> u64 {
    seeded(world.seed ^ (origin.id as i64).wrapping_mul(GOLDEN_MIX) ^ 0x5f3759df)
}

/// The six destinations of a port's board, in slot order: the nearest,
/// second-nearest, middling, farthest and second-farthest ports (which
/// coincide on a small cluster), then one drawn from the eligible ports.
pub open spec fn board_destinations(origin: Island, world: World) -> Seq<int> {
    let elig = eligible_targets(world, origin.id);
    let ranked = ranked_ports(origin, world);
    let n = elig.len() as int;
    seq![
        ranked[0],
        ranked[if n > 1 { 1 } else { 0 }],
        ranked[middling_rank(origin, world)],
        ranked[n - 1],
        ranked[if n >= 2 { n - 2 } else { 0 }],
        elig[lcg_draw(board_stream(origin, world)) % n],
    ]
}

/// The contract in board slot `slot`, bound for island `target`, drawn from
/// stream state `s`: a good, then a quantity in the band of the leg's tier;
/// the deposit and reward follow from the goods' value at the origin's market.
pub open spec fn contract_drawn(origin: Island, world: World, target: int, slot: int, s: u64) -> Mission {
    let good = good_at(lcg_draw(s) % 8);
    let d = distance(origin, world.islands@[target]);
    let band = quantity_band(tier_of(d));
    let quantity = draw_between(lcg_next(s), band.0, band.1 + 1);
    let value = quantity * market_price(world.seed, origin.id, good);
    Mission {
        id: (origin.id * 100 + slot) as i32,
        good,
        quantity: quantity as i32,
        origin_id: origin.id,
        target_id: target as i32,
        reward: reward_for(value, d, quantity) as i32,
        deposit: deposit_for(value) as i32,
    }
}

/// The six contracts of a port's board, in slot order, each drawn two draws
/// after the last, following the draw of the random destination.
pub open spec fn contracts_drawn(origin: Island, world: World) -> Seq<Mission> {
    let dest = board_destinations(origin, world);
    let s1 = lcg_next(board_stream(origin, world));
    Seq::new(6, |k: int| contract_drawn(origin, world, dest[k], k, nth_state(s1, (2 * k) as nat)))
}

/// The board a port offers: its drawn contracts nearest first (equal legs in
/// slot order), or nothing when no port is eligible.
pub open spec fn port_board(origin: Island, world: World) -> Seq<Mission> {
    if eligible_targets(world, origin.id).len() == 0 {
        Seq::empty()
    } else {
        let built = contracts_drawn(origin, world);
        let ord = stable_order(Seq::new(6, |k: int| distance(origin, world.islands@[built[k].target_id as int])));
        Seq::new(6, |p: int| built[ord[p]])
    }
}

/// The six destinations of a board: the nearest, second-nearest, middling,
/// farthest and second-farthest ports (indices coincide on a small cluster),
/// then one drawn at random.
fn board_targets(origin: &Island, world: &World, others: &Vec<usize>, rng: &mut Rng) -> (targets: Vec<usize>)
    requires
        world.wf(),
        origin.on_chart(),
        others@.len() > 0,
        forall|j: int| 0 <= j < others@.len() ==> #[trigger] others@[j] < world.islands@.len(),
        index_ints(others@) == eligible_targets(*world, origin.id),
        old(rng)@ == board_stream(*origin, *world),
    ensures
        targets@.len() == PER_PORT,
        index_ints(targets@) == board_destinations(*origin, *world),
        final(rng)@ == lcg_next(board_stream(*origin, *world)),
        forall|t: int| 0 <= t < PER_PORT ==> #[trigger] others@.contains(targets@[t]),
        forall|j: int| 0 <= j < others@.len() ==> leg(*origin, *world, targets@, 0) <= #[trigger] leg(*origin, *world, others@, j),
        forall|j: int| 0 <= j < others@.len() ==> leg(*origin, *world, targets@, 3) >= #[trigger] leg(*origin, *world, others@, j),
        others@.len() <= 4 ==> forall|j: int| 0 <= j < others@.len() ==> #[trigger] anchored(targets@, others@[j]),
{
    let n = others.len();
    let mut dists: Vec<u64> = Vec::new();
    let mut k: usize = 0;
    while k < n
        invariant
            k <= n,
            n == others@.len(),
            world.wf(),
            origin.on_chart(),
            forall|j: int| 0 <= j < others@.len() ==> #[trigger] others@[j] < world.islands@.len(),
            dists@.len() == k,
            forall|j: int| 0 <= j < k ==> #[trigger] dists@[j] as int == leg(*origin, *world, others@, j),
            forall|j: int| 0 <= j < k ==> #[trigger] dists@[j] <= 0x1_0000_0000,
        decreases n - k,
    {
        let d = distance_m(origin, &world.islands[others[k]]);
        dists.push(d);
        k += 1;
    }
    // Other ports ranked nearest-first, so the board's targets can be anchored
    // across the distance range.
    let by_dist = order_by_key(&dists);
    // The "middling" haul: the port whose distance sits nearest the average,
    // compared exactly as |n * d - total|.
    let ghost keys = key_ints(dists@);
    let mut total: u128 = 0;
    let mut k: usize = 0;
    while k < n
        invariant
            k <= n,
            n == dists@.len(),
            keys == key_ints(dists@),
            forall|j: int| 0 <= j < n ==> #[trigger] dists@[j] <= 0x1_0000_0000,
            total <= k * 0x1_0000_0000,
            total == sum_first(keys, k as int),
        decreases n - k,
    {
        total = total + dists[k] as u128;
        k += 1;
    }
    let ghost ranked_legs = Seq::new(n as nat, |q: int| dists@[by_dist@[q] as int] as int);
    let mut avg: usize = 0;
    let mut best: u128 = u128::MAX;
    let mut p: usize = 0;
    while p < n
        invariant
            p <= n,
            n == by_dist@.len(),
            n == dists@.len(),
            avg < n,
            forall|q: int| 0 <= q < n ==> #[trigger] by_dist@[q] < n,
            forall|j: int| 0 <= j < n ==> #[trigger] dists@[j] <= 0x1_0000_0000,
            total <= n * 0x1_0000_0000,
            ranked_legs == Seq::new(n as nat, |q: int| dists@[by_dist@[q] as int] as int),
            p == 0 ==> best == u128::MAX,
            p > 0 ==> {
                &&& avg < p
                &&& best as int == off_mean(ranked_legs, total as int, avg as int)
                &&& forall|q: int| 0 <= q < p ==> off_mean(ranked_legs, total as int, avg as int) <= #[trigger] off_mean(ranked_legs, total as int, q)
                &&& forall|q: int| 0 <= q < avg ==> off_mean(ranked_legs, total as int, avg as int) < #[trigger] off_mean(ranked_legs, total as int, q)
            },
        decreases n - p,
    {
        let d = dists[by_dist[p]];
        assert(n as u128 * d as u128 <= 0x1_0000_0000_0000_0000 * 0x1_0000_0000) by (nonlinear_arith)
            requires
                n <= 0x1_0000_0000_0000_0000,
                d <= 0x1_0000_0000,
        ;
        let scaled: u128 = n as u128 * d as u128;
        let dev: u128 = if scaled >= total { scaled - total } else { total - scaled };
        assert(ranked_legs[p as int] == d);
        assert(dev as int == off_mean(ranked_legs, total as int, p as int));
        assert(dev < u128::MAX);
        if dev < best {
            best = dev;
            avg = p;
        }
        p += 1;
    }
    // Guaranteed targets: closest, second-closest, middling, farthest and
    // second-farthest; the remaining slot draws a target at random.
    let anchors: [usize; 5] = [0, if n > 1 { 1 } else { 0 }, avg, n - 1, if n >= 2 { n - 2 } else { 0 }];
    let mut targets: Vec<usize> = Vec::new();
    let mut a: usize = 0;
    while a < 5
        invariant
            a <= 5,
            targets@.len() == a,
            n == others@.len(),
            n == by_dist@.len(),
            forall|q: int| 0 <= q < n ==> #[trigger] by_dist@[q] < n,
            forall|q: int| 0 <= q < 5 ==> #[trigger] anchors@[q] < n,
            forall|t: int| 0 <= t < a ==> #[trigger] targets@[t] == others@[by_dist@[anchors@[t] as int] as int],
        decreases 5 - a,
    {
        targets.push(others[by_dist[anchors[a]]]);
        a += 1;
    }
    let ghost s0 = rng@;
    let extra = *rng.pick(others.as_slice());
    targets.push(extra);
    proof {
        let ord = by_dist@;
        let elig = eligible_targets(*world, origin.id);
        // The ranking the board anchors on is the stable ranking by leg.
        assert(keys =~= port_legs(*origin, *world, elig)) by {
            assert forall|j: int| 0 <= j < n implies keys[j] == port_legs(*origin, *world, elig)[j] by {
                assert(elig[j] == others@[j] as int);
            }
        }
        lemma_stable_order_unique(keys, index_ints(ord), stable_order(keys));
        let ranked = ranked_ports(*origin, *world);
        assert forall|q: int| 0 <= q < n implies #[trigger] ranked[q] == others@[ord[q] as int] as int by {
            assert(index_ints(ord)[q] == ord[q] as int);
        }
        // The middling anchor is the one the spec names.
        assert(ranked_legs =~= port_legs(*origin, *world, ranked)) by {
            assert forall|q: int| 0 <= q < n implies ranked_legs[q] == port_legs(*origin, *world, ranked)[q] by {
                assert(ranked[q] == others@[ord[q] as int] as int);
            }
        }
        assert(is_middling(ranked_legs, total as int, avg as int));
        let mid = middling_rank(*origin, *world);
        lemma_middling_unique(ranked_legs, total as int, avg as int, mid);
        assert(index_ints(targets@) =~= board_destinations(*origin, *world)) by {
            assert(targets@[5] == others@[lcg_draw(s0) % (n as int)]);
            assert(elig[lcg_draw(s0) % (n as int)] == others@[lcg_draw(s0) % (n as int)] as int);
        }
        assert forall|t: int| 0 <= t < PER_PORT implies #[trigger] others@.contains(targets@[t]) by {
            if t < 5 {
                assert(targets@[t] == others@[ord[anchors@[t] as int] as int]);
            }
        }
        assert forall|j: int| 0 <= j < n implies leg(*origin, *world, targets@, 0) <= #[trigger] leg(*origin, *world, others@, j) by {
            assert(lists_position(ord, j));
            let q = choose|q: int| 0 <= q < ord.len() && ord[q] == j;
            if q > 0 {
                assert(dists@[ord[0] as int] <= dists@[ord[q] as int]);
            }
            assert(targets@[0] == others@[ord[0] as int]);
        }
        assert forall|j: int| 0 <= j < n implies leg(*origin, *world, targets@, 3) >= #[trigger] leg(*origin, *world, others@, j) by {
            assert(lists_position(ord, j));
            let q = choose|q: int| 0 <= q < ord.len() && ord[q] == j;
            if q < n - 1 {
                assert(dists@[ord[q] as int] <= dists@[ord[n - 1] as int]);
            }
            assert(targets@[3] == others@[ord[n - 1] as int]);
        }
        if n <= 4 {
            assert forall|j: int| 0 <= j < n implies #[trigger] anchored(targets@, others@[j]) by {
                assert(lists_position(ord, j));
                let q = choose|q: int| 0 <= q < ord.len() && ord[q] == j;
                if q == 0 {
                    assert(targets@[0] == others@[j]);
                } else if q == n - 1 {
                    assert(targets@[3] == others@[j]);
                } else if q == 1 {
                    assert(targets@[1] == others@[j]);
                } else {
                    assert(q == n - 2);
                    assert(targets@[4] == others@[j]);
                }
            }
        }
    }
    targets
}


/// Draw up the contract in board slot `slot`, bound for island `target`: the
/// good, the quantity for the leg's tier, and the deposit and reward that follow.
/// Also hands back the leg's length.
fn draw_contract(
    origin: &Island,
    world: &World,
    market: &Market,
    target: usize,
    slot: usize,
    rng: &mut Rng,
) -> (r: (Mission, u64))
    requires
        world.wf(),
        origin.on_chart(),
        0 <= origin.id < world.islands@.len(),
        slot < 6,
        eligible_targets(*world, origin.id).contains(target as int),
        target < world.islands@.len(),
        forall|g: Good| #[trigger] market.prices@[g.slot()] == market_price(world.seed, origin.id, g),
        forall|g: Good| 1 <= #[trigger] market.prices@[g.slot()] <= 100,
    ensures
        drawn_up(r.0, *origin, *world),
        r.0 == contract_drawn(*origin, *world, target as int, slot as int, old(rng)@),
        final(rng)@ == lcg_next(lcg_next(old(rng)@)),
        r.0.id == origin.id * 100 + slot,
        r.0.target_id == target,
        r.1 as int == distance(*origin, world.islands@[target as int]),
{
    proof {
        lemma_good_slots();
    }
    let good = *rng.pick(GOODS.as_slice());
    let isle = &world.islands[target];
    let d = distance_m(origin, isle);
    // The haul's distance grades it into a tier, and the tier alone sets how
    // much cargo it carries: a short hop is a light job, a long crossing a
    // heavy one.
    let (lo, hi) = tier_quantity_range(tier_for(d as i64));
    let quantity = rng.int_between(lo, hi + 1);
    let price = market.price(good);
    assert(1 <= price <= 100);
    assert(0 <= quantity * price <= 6400) by (nonlinear_arith)
        requires
            5 <= quantity <= 64,
            1 <= price <= 100,
    ;
    let value = quantity * price;
    // The deposit is the goods' value plus 10%, so abandoning a contract (and
    // keeping the goods to sell) always costs at least that 10%, closing the
    // accept-abandon-sell arbitrage.
    let deposit = (11 * value + 9) / 10;
    assert(0 <= d as i64 * quantity as i64 <= 0x1_0000_0000 * 64) by (nonlinear_arith)
        requires
            0 <= d <= 0x1_0000_0000,
            5 <= quantity <= 64,
    ;
    let haul: i64 = d as i64 * quantity as i64;
    let r: i64 = (120 * value as i64 + haul + 200) / 400;
    let reward: i32 = if r < 1 { 1 } else { r as i32 };
    let m = Mission {
        id: origin.id * 100 + slot as i32,
        good,
        quantity,
        origin_id: origin.id,
        target_id: target as i32,
        reward,
        deposit,
    };
    proof {
        assert(world.islands@[target as int].id == target);
        let dd = distance(*origin, world.islands@[m.target_id as int]);
        assert(dd == d);
        assert(value == m.quantity * market_price(world.seed, origin.id, m.good));
        assert(m.deposit == deposit_for(value as int));
        assert(m.reward == reward_for(value as int, dd, m.quantity as int));
        assert(m == contract_drawn(*origin, *world, target as int, slot as int, old(rng)@));
    }
    (m, d)
}

/// Draw up one contract per destination: the good, the quantity for the leg's
/// tier, and the deposit and reward that follow.
fn draw_contracts(
    origin: &Island,
    world: &World,
    market: &Market,
    targets: &Vec<usize>,
    rng: &mut Rng,
) -> (r: (Vec<Mission>, Vec<u64>))
    requires
        world.wf(),
        origin.on_chart(),
        0 <= origin.id < world.islands@.len(),
        targets@.len() == PER_PORT,
        forall|t: int| 0 <= t < PER_PORT ==> eligible_targets(*world, origin.id).contains(#[trigger] targets@[t] as int),
        forall|t: int| 0 <= t < PER_PORT ==> #[trigger] targets@[t] < world.islands@.len(),
        forall|g: Good| #[trigger] market.prices@[g.slot()] == market_price(world.seed, origin.id, g),
        forall|g: Good| 1 <= #[trigger] market.prices@[g.slot()] <= 100,
    ensures
        r.0@.len() == PER_PORT,
        r.1@.len() == PER_PORT,
        forall|k: int| 0 <= k < PER_PORT ==> #[trigger] r.0@[k] == contract_drawn(
            *origin,
            *world,
            targets@[k] as int,
            k,
            nth_state(old(rng)@, (2 * k) as nat),
        ),
        forall|k: int| 0 <= k < PER_PORT ==> drawn_up(#[trigger] r.0@[k], *origin, *world),
        forall|k: int| 0 <= k < PER_PORT ==> (#[trigger] r.0@[k]).id == origin.id * 100 + k,
        forall|k: int| 0 <= k < PER_PORT ==> (#[trigger] r.0@[k]).target_id == targets@[k],
        forall|k: int| 0 <= k < PER_PORT ==> #[trigger] r.1@[k] as int == distance(
            *origin,
            world.islands@[r.0@[k].target_id as int],
        ),
{
    let ghost s_start = rng@;
    let mut built: Vec<Mission> = Vec::new();
    let mut legs: Vec<u64> = Vec::new();
    let mut slot: usize = 0;
    proof {
        reveal_with_fuel(nth_state, 1);
    }
    while slot < 6
        invariant
            slot <= 6,
            rng@ == nth_state(s_start, (2 * slot) as nat),
            forall|k: int| 0 <= k < slot ==> #[trigger] built@[k] == contract_drawn(
                *origin,
                *world,
                targets@[k] as int,
                k,
                nth_state(s_start, (2 * k) as nat),
            ),
            world.wf(),
            origin.on_chart(),
            0 <= origin.id < world.islands@.len(),
            targets@.len() == PER_PORT,
            forall|t: int| 0 <= t < PER_PORT ==> eligible_targets(*world, origin.id).contains(#[trigger] targets@[t] as int),
            forall|t: int| 0 <= t < PER_PORT ==> #[trigger] targets@[t] < world.islands@.len(),
            forall|g: Good| #[trigger] market.prices@[g.slot()] == market_price(world.seed, origin.id, g),
            forall|g: Good| 1 <= #[trigger] market.prices@[g.slot()] <= 100,
            built@.len() == slot,
            legs@.len() == slot,
            forall|k: int| 0 <= k < slot ==> drawn_up(#[trigger] built@[k], *origin, *world),
            forall|k: int| 0 <= k < slot ==> (#[trigger] built@[k]).id == origin.id * 100 + k,
            forall|k: int| 0 <= k < slot ==> (#[trigger] built@[k]).target_id == targets@[k],
            forall|k: int| 0 <= k < slot ==> #[trigger] legs@[k] as int == distance(
                *origin,
                world.islands@[built@[k].target_id as int],
            ),
        decreases 6 - slot,
    {
        let (m, d) = draw_contract(origin, world, market, targets[slot], slot, rng);
        proof {
            reveal_with_fuel(nth_state, 3);
            assert(nth_state(s_start, (2 * slot + 2) as nat) == lcg_next(nth_state(s_start, (2 * slot + 1) as nat)));
            assert(nth_state(s_start, (2 * slot + 1) as nat) == lcg_next(nth_state(s_start, (2 * slot) as nat)));
        }
        built.push(m);
        legs.push(d);
        slot += 1;
    }
    (built, legs)
}

/// The contracts a port offers: one per board destination, presented
/// closest-first so the board reads top-down from the short, light jobs to the
/// long, heavy ones; the contract id keeps each slot identifiable regardless of
/// where the sort lands it.
///
/// Every contract targets a port *in the same local cluster* (or anywhere on the
/// chart for an isle outside every cluster), and the reward scales with both the
/// goods' value and the distance to haul them. The targets are anchored across
/// the distance range: the nearest port, the farthest, and (on a small cluster)
/// every port are always represented.
pub fn generate(origin: &Island, world: &World) -> (board: Vec<Mission>)
    requires
        world.wf(),
        origin.on_chart(),
        0 <= origin.id < world.islands@.len(),
    ensures
        board@ == port_board(*origin, *world),
        board@.len() == 0 <==> eligible_targets(*world, origin.id).len() == 0,
        board@.len() == 0 || board@.len() == PER_PORT,
        forall|k: int| 0 <= k < board@.len() ==> drawn_up(#[trigger] board@[k], *origin, *world),
        forall|s: int| 0 <= s < board@.len() ==> #[trigger] board_has_id(board@, origin.id * 100 + s),
        forall|p: int, q: int|
            0 <= p < q < board@.len() ==> distance(*origin, world.islands@[#[trigger] board@[p].target_id as int])
                <= distance(*origin, world.islands@[#[trigger] board@[q].target_id as int]),
        board@.len() > 0 ==> forall|j: int|
            0 <= j < eligible_targets(*world, origin.id).len() ==> distance(*origin, world.islands@[board@[0].target_id as int])
                <= distance(*origin, world.islands@[#[trigger] eligible_targets(*world, origin.id)[j]]),
        board@.len() > 0 ==> forall|j: int|
            0 <= j < eligible_targets(*world, origin.id).len() ==> distance(
                *origin,
                world.islands@[board@[board@.len() - 1].target_id as int],
            ) >= distance(*origin, world.islands@[#[trigger] eligible_targets(*world, origin.id)[j]]),
        eligible_targets(*world, origin.id).len() <= 4 ==> forall|j: int|
            0 <= j < eligible_targets(*world, origin.id).len() ==> #[trigger] board_targets_port(
                board@,
                eligible_targets(*world, origin.id)[j],
            ),
{
    let others = eligible_ports(world, origin.id);
    let ghost elig = eligible_targets(*world, origin.id);
    assert(others@.len() == elig.len());
    if others.len() == 0 {
        return Vec::new();
    }
    // Value the cargo at the origin's own market, since that is what the captain
    // would actually pay (or recoup, on abandon) for these goods at this port.
    let market = Market::for_island(origin, world.seed);
    let mut rng = Rng::from_seed(world.seed ^ (origin.id as i64).wrapping_mul(GOLDEN_MIX) ^ 0x5f3759df);
    let ghost s_board = rng@;
    let targets = board_targets(origin, world, &others, &mut rng);
    proof {
        assert forall|j: int| 0 <= j < others@.len() implies #[trigger] elig[j] == others@[j] as int by {
            assert(others@.map_values(|i: usize| i as int)[j] == others@[j] as int);
        }
        assert forall|t: int| 0 <= t < PER_PORT implies elig.contains(#[trigger] targets@[t] as int) by {
            assert(others@.contains(targets@[t]));
            let j = choose|j: int| 0 <= j < others@.len() && others@[j] == targets@[t];
            assert(elig[j] == targets@[t] as int);
        }
        assert forall|g: Good| 1 <= #[trigger] market.prices@[g.slot()] <= 100 by {
            assert(g.base() <= 45);
        }
    }
    let (built, legs) = draw_contracts(origin, world, &market, &targets, &mut rng);
    let order = order_by_key(&legs);
    let mut board: Vec<Mission> = Vec::new();
    let mut p: usize = 0;
    while p < 6
        invariant
            p <= 6,
            order@.len() == PER_PORT,
            built@.len() == PER_PORT,
            forall|q: int| 0 <= q < PER_PORT ==> #[trigger] order@[q] < PER_PORT,
            board@.len() == p,
            forall|q: int| 0 <= q < p ==> #[trigger] board@[q] == built@[order@[q] as int],
        decreases 6 - p,
    {
        board.push(built[order[p]]);
        p += 1;
    }
    proof {
        let ord = order@;
        // The drawn contracts are the ones the spec names, and the board is
        // their stable ranking by leg.
        let spec_built = contracts_drawn(*origin, *world);
        assert(built@ =~= spec_built) by {
            assert forall|k: int| 0 <= k < 6 implies built@[k] == spec_built[k] by {
                assert(index_ints(targets@)[k] == targets@[k] as int);
            }
        }
        let spec_legs = Seq::new(6, |k: int| distance(*origin, world.islands@[spec_built[k].target_id as int]));
        assert(key_ints(legs@) =~= spec_legs);
        lemma_stable_order_unique(spec_legs, index_ints(ord), stable_order(spec_legs));
        assert(board@ =~= port_board(*origin, *world)) by {
            assert forall|q: int| 0 <= q < 6 implies board@[q] == port_board(*origin, *world)[q] by {
                assert(index_ints(ord)[q] == ord[q] as int);
            }
        }
        // Every drawn contract made it onto the board.
        assert forall|k: int| 0 <= k < PER_PORT implies #[trigger] on_board(board@, built@[k]) by {
            assert(lists_position(ord, k));
            let q = choose|q: int| 0 <= q < ord.len() && ord[q] == k;
            assert(board@[q] == built@[k]);
        }
        assert forall|s: int| 0 <= s < board@.len() implies #[trigger] board_has_id(board@, origin.id * 100 + s) by {
            assert(on_board(board@, built@[s]));
            let q = choose|q: int| 0 <= q < board@.len() && #[trigger] board@[q] == built@[s];
            assert(board@[q].id == origin.id * 100 + s);
        }
        assert forall|p: int, q: int|
            0 <= p < q < board@.len() implies distance(*origin, world.islands@[#[trigger] board@[p].target_id as int])
                <= distance(*origin, world.islands@[#[trigger] board@[q].target_id as int]) by {
            assert(legs@[ord[p] as int] <= legs@[ord[q] as int]);
        }
        // The nearest anchor is slot 0; the board's first contract is no farther.
        assert(on_board(board@, built@[0]));
        assert(on_board(board@, built@[3]));
        let q0 = choose|q: int| 0 <= q < board@.len() && #[trigger] board@[q] == built@[0];
        let q3 = choose|q: int| 0 <= q < board@.len() && #[trigger] board@[q] == built@[3];
        if q0 > 0 {
            assert(legs@[ord[0] as int] <= legs@[ord[q0] as int]);
        }
        if q3 < 5 {
            assert(legs@[ord[q3] as int] <= legs@[ord[5] as int]);
        }
        assert forall|j: int| 0 <= j < elig.len() implies distance(*origin, world.islands@[board@[0].target_id as int])
            <= distance(*origin, world.islands@[#[trigger] elig[j]]) by {
            assert(elig[j] == others@[j] as int);
            assert(leg(*origin, *world, targets@, 0) <= leg(*origin, *world, others@, j));
        }
        assert forall|j: int| 0 <= j < elig.len() implies distance(*origin, world.islands@[board@[board@.len() - 1].target_id as int])
            >= distance(*origin, world.islands@[#[trigger] elig[j]]) by {
            assert(elig[j] == others@[j] as int);
            assert(leg(*origin, *world, targets@, 3) >= leg(*origin, *world, others@, j));
        }
        if elig.len() <= 4 {
            assert forall|j: int| 0 <= j < elig.len() implies #[trigger] board_targets_port(board@, elig[j]) by {
                assert(elig[j] == others@[j] as int);
                assert(anchored(targets@, others@[j]));
                let t = choose|t: int| 0 <= t < 5 && targets@[t] == others@[j];
                assert(on_board(board@, built@[t]));
                let q = choose|q: int| 0 <= q < board@.len() && #[trigger] board@[q] == built@[t];
                assert(board@[q].target_id == others@[j]);
            }
        }
    }
    board
}


/// Some contract in `missions` carries id `id`.
pub open spec fn has_id(missions: Seq<Mission>, id: int) -> bool {
    exists|k: int| 0 <= k < missions.len() && missions[k].id == id
}

/// Whether some contract in `missions` carries id `id`.
pub fn holds_id(missions: &Vec<Mission>, id: i32) -> (b: bool)
    ensures
        b == has_id(missions@, id as int),
{
    let mut k: usize = 0;
    while k < missions.len()
        invariant
            k <= missions@.len(),
            forall|j: int| 0 <= j < k ==> (#[trigger] missions@[j]).id != id,
        decreases missions@.len() - k,
    {
        if missions[k].id == id {
            return true;
        }
        k += 1;
    }
    false
}

/// The contracts of `missions`, in order, that are bound for `port` (when
/// `to_here`) or for anywhere else (when not).
pub open spec fn bound_for(missions: Seq<Mission>, port: int, to_here: bool) -> Seq<Mission>
    decreases missions.len(),
{
    if missions.len() == 0 {
        Seq::empty()
    } else {
        let rest = bound_for(missions.drop_last(), port, to_here);
        if (missions.last().target_id == port) == to_here {
            rest.push(missions.last())
        } else {
            rest
        }
    }
}

/// The contracts of `missions`, in order, whose destination is (or is not) `port`.
fn split_by_port(missions: &Vec<Mission>, port: i32, to_here: bool) -> (out: Vec<Mission>)
    ensures
        out@ == bound_for(missions@, port as int, to_here),
{
    let mut out: Vec<Mission> = Vec::new();
    let mut k: usize = 0;
    while k < missions.len()
        invariant
            k <= missions@.len(),
            out@ == bound_for(missions@.take(k as int), port as int, to_here),
        decreases missions@.len() - k,
    {
        let m = missions[k];
        proof {
            assert(missions@.take(k + 1).drop_last() =~= missions@.take(k as int));
            assert(missions@.take(k + 1).last() == m);
        }
        if (m.target_id == port) == to_here {
            out.push(m);
        }
        k += 1;
    }
    proof {
        assert(missions@.take(missions@.len() as int) =~= missions@);
    }
    out
}

/// Every contract lands on exactly one side of a split by destination: the two
/// sides together are as long as the whole, and a contract is on the side
/// that matches its destination.
pub proof fn law_split_by_port(missions: Seq<Mission>, port: int)
    ensures
        bound_for(missions, port, true).len() + bound_for(missions, port, false).len() == missions.len(),
        forall|m: Mission| bound_for(missions, port, true).contains(m) <==> (missions.contains(m) && m.target_id == port),
        forall|m: Mission| bound_for(missions, port, false).contains(m) <==> (missions.contains(m) && m.target_id != port),
    decreases missions.len(),
{
    if missions.len() > 0 {
        let init = missions.drop_last();
        law_split_by_port(init, port);
        assert(missions =~= init.push(missions.last()));
        assert forall|m: Mission| missions.contains(m) <==> (init.contains(m) || m == missions.last()) by {
            if missions.contains(m) {
                let i = choose|i: int| 0 <= i < missions.len() && missions[i] == m;
                if i < init.len() {
                    assert(init[i] == m);
                }
            }
            if init.contains(m) {
                let i = choose|i: int| 0 <= i < init.len() && init[i] == m;
                assert(missions[i] == m);
            }
            if m == missions.last() {
                assert(missions[missions.len() - 1] == m);
            }
        }
        let t = bound_for(init, port, true);
        let f = bound_for(init, port, false);
        assert forall|m: Mission| t.push(missions.last()).contains(m) <==> (t.contains(m) || m == missions.last()) by {
            if t.push(missions.last()).contains(m) {
                let i = choose|i: int| 0 <= i < t.len() + 1 && t.push(missions.last())[i] == m;
                if i < t.len() {
                    assert(t[i] == m);
                }
            }
            if t.contains(m) {
                let i = choose|i: int| 0 <= i < t.len() && t[i] == m;
                assert(t.push(missions.last())[i] == m);
            }
            if m == missions.last() {
                assert(t.push(missions.last())[t.len() as int] == m);
            }
        }
        assert forall|m: Mission| f.push(missions.last()).contains(m) <==> (f.contains(m) || m == missions.last()) by {
            if f.push(missions.last()).contains(m) {
                let i = choose|i: int| 0 <= i < f.len() + 1 && f.push(missions.last())[i] == m;
                if i < f.len() {
                    assert(f[i] == m);
                }
            }
            if f.contains(m) {
                let i = choose|i: int| 0 <= i < f.len() && f[i] == m;
                assert(f.push(missions.last())[i] == m);
            }
            if m == missions.last() {
                assert(f.push(missions.last())[f.len() as int] == m);
            }
        }
    }
}

/// The contracts of `board`, in order, whose id no contract of `taken` carries.
pub open spec fn not_taken(board: Seq<Mission>, taken: Seq<Mission>) -> Seq<Mission>
    decreases board.len(),
{
    if board.len() == 0 {
        Seq::empty()
    } else {
        let rest = not_taken(board.drop_last(), taken);
        if has_id(taken, board.last().id as int) {
            rest
        } else {
            rest.push(board.last())
        }
    }
}

/// Some of the first `k` contracts of `board` carries id `id`.
pub open spec fn has_id_before(board: Seq<Mission>, k: int, id: int) -> bool {
    exists|j: int| 0 <= j < k && board[j].id == id
}

/// The contracts on the board at the captain's current port, with any already
/// accepted removed. Empty while at sea.
pub fn offered_at(state: &GameState, world: &World) -> (offers: Vec<Mission>)
    requires
        world.wf(),
        state.docked_on(world),
    ensures
        state.location == Location::Sailing ==> offers@.len() == 0,
        state.location matches Location::Docked(id) ==> {
            let isle = world.islands@[id as int];
            &&& offers@ == not_taken(port_board(isle, *world), state.active_missions@)
            &&& forall|k: int| 0 <= k < offers@.len() ==> on_board(port_board(isle, *world), #[trigger] offers@[k])
            &&& forall|k: int| 0 <= k < offers@.len() ==> drawn_up(#[trigger] offers@[k], isle, *world)
            &&& forall|k: int| 0 <= k < offers@.len() ==> !has_id(state.active_missions@, (#[trigger] offers@[k]).id as int)
            &&& forall|cid: int| #[trigger] board_has_id(offers@, cid) <==> {
                &&& eligible_targets(*world, id).len() > 0
                &&& id * 100 <= cid < id * 100 + PER_PORT
                &&& !has_id(state.active_missions@, cid)
            }
        },
{
    match state.docked_island(world) {
        None => Vec::new(),
        Some(isle) => {
            proof {
                assert(isle.id == world.islands@[isle.id as int].id);
            }
            let board = generate(isle, world);
            let mut offers: Vec<Mission> = Vec::new();
            let mut k: usize = 0;
            while k < board.len()
                invariant
                    k <= board@.len(),
                    offers@ == not_taken(board@.take(k as int), state.active_missions@),
                    forall|j: int| 0 <= j < offers@.len() ==> on_board(board@, #[trigger] offers@[j]),
                    forall|j: int| 0 <= j < offers@.len() ==> drawn_up(#[trigger] offers@[j], *isle, *world),
                    forall|j: int| 0 <= j < board@.len() ==> drawn_up(#[trigger] board@[j], *isle, *world),
                    forall|j: int| 0 <= j < offers@.len() ==> !has_id(state.active_missions@, (#[trigger] offers@[j]).id as int),
                    forall|cid: int| #[trigger] board_has_id(offers@, cid) <==> has_id_before(board@, k as int, cid) && !has_id(state.active_missions@, cid),
                decreases board@.len() - k,
            {
                let m = board[k];
                let ghost before = offers@;
                proof {
                    assert(board@.take(k + 1).drop_last() =~= board@.take(k as int));
                    assert(board@.take(k + 1).last() == m);
                    assert(on_board(board@, m)) by {
                        assert(board@[k as int] == m);
                    }
                }
                if !holds_id(&state.active_missions, m.id) {
                    offers.push(m);
                    assert forall|cid: int| #[trigger] board_has_id(offers@, cid) <==> has_id_before(board@, k + 1, cid) && !has_id(state.active_missions@, cid) by {
                        if board_has_id(offers@, cid) {
                            let q = choose|q: int| 0 <= q < offers@.len() && offers@[q].id == cid;
                            if q < before.len() {
                                assert(board_has_id(before, cid));
                                let j = choose|j: int| 0 <= j < k && board@[j].id == cid;
                                assert(has_id_before(board@, k + 1, cid));
                            } else {
                                assert(board@[k as int].id == cid);
                                assert(has_id_before(board@, k + 1, cid));
                            }
                        }
                        if has_id_before(board@, k + 1, cid) && !has_id(state.active_missions@, cid) {
                            let j = choose|j: int| 0 <= j < k + 1 && board@[j].id == cid;
                            if j < k {
                                assert(has_id_before(board@, k as int, cid));
                                assert(board_has_id(before, cid));
                                let q = choose|q: int| 0 <= q < before.len() && before[q].id == cid;
                                assert(offers@[q].id == cid);
                            } else {
                                assert(offers@[before.len() as int].id == cid);
                            }
                        }
                    }
                } else {
                    assert forall|cid: int| #[trigger] board_has_id(offers@, cid) <==> has_id_before(board@, k + 1, cid) && !has_id(state.active_missions@, cid) by {
                        if has_id_before(board@, k + 1, cid) && !has_id(state.active_missions@, cid) {
                            let j = choose|j: int| 0 <= j < k + 1 && board@[j].id == cid;
                            assert(j < k);
                            assert(has_id_before(board@, k as int, cid));
                        }
                        if has_id_before(board@, k as int, cid) {
                            let j = choose|j: int| 0 <= j < k && board@[j].id == cid;
                            assert(has_id_before(board@, k + 1, cid));
                        }
                    }
                }
                k += 1;
            }
            proof {
                assert(board@.take(board@.len() as int) =~= board@);
                let base = isle.id * 100;
                assert forall|cid: int| #[trigger] has_id_before(board@, board@.len() as int, cid) <==> {
                    &&& eligible_targets(*world, isle.id).len() > 0
                    &&& base <= cid < base + PER_PORT
                } by {
                    if has_id_before(board@, board@.len() as int, cid) {
                        let j = choose|j: int| 0 <= j < board@.len() && board@[j].id == cid;
                        lemma_ids_cover(board@, base);
                        assert(base <= board@[j].id < base + PER_PORT);
                    }
                    if eligible_targets(*world, isle.id).len() > 0 && base <= cid < base + PER_PORT {
                        assert(board_has_id(board@, base + (cid - base)));
                        let j = choose|j: int| 0 <= j < board@.len() && board@[j].id == cid;
                    }
                }
            }
            offers
        },
    }
}

/// The accepted contracts whose destination is the current port: the
/// deliveries the captain can hand in right now. Empty while at sea.
pub fn deliverable_at(state: &GameState, world: &World) -> (due: Vec<Mission>)
    requires
        world.wf(),
        state.docked_on(world),
    ensures
        state.location == Location::Sailing ==> due@.len() == 0,
        state.location matches Location::Docked(id) ==> due@ == bound_for(state.active_missions@, id as int, true),
{
    match state.docked_island(world) {
        None => Vec::new(),
        Some(isle) => split_by_port(&state.active_missions, isle.id, true),
    }
}

/// The accepted contracts still bound somewhere else: the reserved cargo riding
/// in the hold. Excludes anything deliverable at the current port. Empty at sea.
pub fn reserved_at(state: &GameState, world: &World) -> (held: Vec<Mission>)
    requires
        world.wf(),
        state.docked_on(world),
    ensures
        state.location == Location::Sailing ==> held@.len() == 0,
        state.location matches Location::Docked(id) ==> held@ == bound_for(state.active_missions@, id as int, false),
{
    match state.docked_island(world) {
        None => Vec::new(),
        Some(isle) => split_by_port(&state.active_missions, isle.id, false),
    }
}

/// Six contracts whose ids cover `base..base + 6` carry no other id.
proof fn lemma_ids_cover(board: Seq<Mission>, base: int)
    requires
        board.len() == 0 || board.len() == PER_PORT,
        forall|s: int| 0 <= s < board.len() ==> #[trigger] board_has_id(board, base + s),
    ensures
        forall|q: int| 0 <= q < board.len() ==> base <= (#[trigger] board[q]).id < base + PER_PORT,
{
    if board.len() == 0 {
        return;
    }
    // Each of the six ids sits at some position; six ids on six positions leave
    // no position over.
    let w = Seq::new(6, |s: int| choose|k: int| 0 <= k < board.len() && board[k].id == base + s);
    assert forall|s: int| 0 <= s < 6 implies 0 <= #[trigger] w[s] < 6 && board[w[s]].id == base + s by {
        assert(board_has_id(board, base + s));
    }
    assert forall|q: int| 0 <= q < board.len() implies base <= (#[trigger] board[q]).id < base + PER_PORT by {
        // The witnesses are six distinct positions (their ids differ), so they
        // are all the positions there are, and `q` is one of them.
        assert(forall|a: int, b: int| 0 <= a < b < 6 ==> w[a] != w[b]);
        lemma_six_distinct_cover(w, q);
        let s = choose|s: int| 0 <= s < 6 && w[s] == q;
        assert(board[q].id == base + s);
    }
}

/// Six distinct positions below six cover every position below six.
proof fn lemma_six_distinct_cover(w: Seq<int>, q: int)
    requires
        w.len() == 6,
        forall|s: int| 0 <= s < 6 ==> 0 <= #[trigger] w[s] < 6,
        forall|a: int, b: int| 0 <= a < b < 6 ==> w[a] != w[b],
        0 <= q < 6,
    ensures
        exists|s: int| 0 <= s < 6 && w[s] == q,
{
    if !(exists|s: int| 0 <= s < 6 && w[s] == q) {
        // Then the six values avoid `q`: six distinct values among five.
        let m = Seq::new(6, |s: int| if w[s] > q { w[s] - 1 } else { w[s] });
        assert forall|s: int| 0 <= s < 6 implies 0 <= #[trigger] m[s] < 5 by {
            assert(w[s] != q);
        }
        assert forall|a: int, b: int| 0 <= a < b < 6 implies m[a] != m[b] by {
            assert(w[a] != q && w[b] != q && w[a] != w[b]);
        }
        lemma_pigeonhole_five(m);
    }
}

/// Six distinct values cannot all lie below five.
proof fn lemma_pigeonhole_five(m: Seq<int>)
    requires
        m.len() == 6,
        forall|s: int| 0 <= s < 6 ==> 0 <= #[trigger] m[s] < 5,
    ensures
        exists|a: int, b: int| 0 <= a < b < 6 && m[a] == m[b],
{
    let (a0, a1, a2, a3, a4, a5) = (m[0], m[1], m[2], m[3], m[4], m[5]);
    assert(0 <= a0 < 5 && 0 <= a1 < 5 && 0 <= a2 < 5 && 0 <= a3 < 5 && 0 <= a4 < 5 && 0 <= a5 < 5);
    if a0 != a1 && a0 != a2 && a0 != a3 && a0 != a4 && a0 != a5 && a1 != a2 && a1 != a3 && a1 != a4 && a1 != a5
        && a2 != a3 && a2 != a4 && a2 != a5 && a3 != a4 && a3 != a5 && a4 != a5 {
        assert(false);
    }
}

} // verus!
