//! The persisted voyage state and the port economy.
//!
//! Per-frame ship kinematics stay with the sailing engine; only voyage
//! *outcomes* land here — gold, the hold's cargo, the rig/hold upgrades bought,
//! the hull's condition, and where the captain is (sailing or docked). Markets
//! are deterministic per island+good, so the same seed always offers the same
//! arbitrage. Haulage contracts ride here too — the accepted contracts and their
//! reserved hold — and so does a booked wager race against the rival.
use vstd::prelude::*;

use crate::mission::{self, Mission};
use crate::race::{level_for, Race, RaceOffer};
use crate::rng::{draw_between, nth_state, seeded, Rng};
use crate::world::{distance, Island, World};

pub mod hull;
pub mod upgrades;

verus! {

// --- Goods -------------------------------------------------------------------

/// A tradeable commodity with a baseline price in gold. The order is the cargo
/// array's indexing — do not reorder.
#[derive(Clone, Copy, PartialEq, Eq, Debug, Structural)]
pub enum Good {
    Food,
    Rum,
    Sugar,
    Spice,
    Silk,
    Cotton,
    Tobacco,
    /// Ship's timber: an ordinary, tradeable commodity that doubles as a field
    /// repair — caulk the hull with a plank at sea for [`GameState::HULL_PER_PLANK`]
    /// points (see [`GameState::caulk_with_plank`]). Appended last so the existing
    /// goods keep their cargo-array ordinals.
    Plank,
}

/// Every good, in cargo-array order.
pub const GOODS: [Good; 8] = [
    Good::Food,
    Good::Rum,
    Good::Sugar,
    Good::Spice,
    Good::Silk,
    Good::Cotton,
    Good::Tobacco,
    Good::Plank,
];

/// The good in cargo slot `i`.
pub open spec fn good_at(i: int) -> Good {
    if i == 0 {
        Good::Food
    } else if i == 1 {
        Good::Rum
    } else if i == 2 {
        Good::Sugar
    } else if i == 3 {
        Good::Spice
    } else if i == 4 {
        Good::Silk
    } else if i == 5 {
        Good::Cotton
    } else if i == 6 {
        Good::Tobacco
    } else {
        Good::Plank
    }
}

impl Good {
    /// This good's slot in the cargo array.
    pub open spec fn slot(self) -> int {
        match self {
            Good::Food => 0,
            Good::Rum => 1,
            Good::Sugar => 2,
            Good::Spice => 3,
            Good::Silk => 4,
            Good::Cotton => 5,
            Good::Tobacco => 6,
            Good::Plank => 7,
        }
    }

    /// The good's baseline price before a port's ±45% jitter.
    pub open spec fn base(self) -> int {
        match self {
            Good::Food => 4,
            Good::Rum => 18,
            Good::Sugar => 9,
            Good::Spice => 30,
            Good::Silk => 45,
            Good::Cotton => 12,
            Good::Tobacco => 24,
            Good::Plank => 15,
        }
    }

    /// The good's on-screen name.
    pub open spec fn name(self) -> Seq<char> {
        match self {
            Good::Food => "Food"@,
            Good::Rum => "Rum"@,
            Good::Sugar => "Sugar"@,
            Good::Spice => "Spice"@,
            Good::Silk => "Silk"@,
            Good::Cotton => "Cotton"@,
            Good::Tobacco => "Tobacco"@,
            Good::Plank => "Planks"@,
        }
    }

    /// This good's slot in the cargo array.
    pub fn index(self) -> (i: usize)
        ensures
            i == self.slot(),
            i < 8,
            good_at(i as int) == self,
    {
        match self {
            Good::Food => 0,
            Good::Rum => 1,
            Good::Sugar => 2,
            Good::Spice => 3,
            Good::Silk => 4,
            Good::Cotton => 5,
            Good::Tobacco => 6,
            Good::Plank => 7,
        }
    }

    pub fn label(self) -> (s: &'static str)
        ensures
            s@ == self.name(),
    {
        match self {
            Good::Food => "Food",
            Good::Rum => "Rum",
            Good::Sugar => "Sugar",
            Good::Spice => "Spice",
            Good::Silk => "Silk",
            Good::Cotton => "Cotton",
            Good::Tobacco => "Tobacco",
            Good::Plank => "Planks",
        }
    }

    /// The good's baseline price before a port's ±45% jitter.
    pub fn base_price(self) -> (p: i32)
        ensures
            p == self.base(),
    {
        match self {
            Good::Food => 4,  // the galley's staple — cheap, eaten one ration per daytime
            Good::Rum => 18,
            Good::Sugar => 9,
            Good::Spice => 30,
            Good::Silk => 45,
            Good::Cotton => 12,
            Good::Tobacco => 24,
            // A plank mends 10 hull points; the drydock charges 2 g/point (20 g for
            // the same), so timber priced just under that is a worthwhile thing to
            // stock for repairs far from a shipyard.
            Good::Plank => 15,
        }
    }
}

/// Every good sits in the slot `good_at` names.
pub proof fn lemma_good_slots()
    ensures
        forall|g: Good| #[trigger] good_at(g.slot()) == g && 0 <= g.slot() < 8,
        forall|i: int| 0 <= i < 8 ==> (#[trigger] good_at(i)).slot() == i,
        forall|i: int| 0 <= i < 8 ==> GOODS@[i] == #[trigger] good_at(i),
{
}

// --- Markets -------------------------------------------------------------------

/// Lowest price factor a port applies to a base price, in thousandths (-45%).
pub const PRICE_FACTOR_MIN: i32 = 550;
/// Highest price factor a port applies to a base price, in thousandths (+45%).
pub const PRICE_FACTOR_MAX: i32 = 1450;

/// The stream a port's market is drawn from.
pub open spec fn market_seed(seed: i64, island_id: i32) -> i64 {
    seed ^ (island_id as i64).wrapping_mul(0x100000001b3)
}

/// The price factor (thousandths) a port applies to the good in `slot`.
pub open spec fn price_factor(seed: i64, island_id: i32, slot: int) -> int {
    draw_between(
        nth_state(seeded(market_seed(seed, island_id)), slot as nat),
        PRICE_FACTOR_MIN as int,
        PRICE_FACTOR_MAX + 1,
    )
}

/// A base price scaled by `factor` thousandths, rounded half up, never below 1.
pub open spec fn jittered_price(base: int, factor: int) -> int {
    let p = (base * factor + 500) / 1000;
    if p < 1 {
        1
    } else {
        p
    }
}

/// The price of `good` at island `island_id`'s market on the chart of `seed`.
pub open spec fn market_price(seed: i64, island_id: i32, good: Good) -> int {
    jittered_price(good.base(), price_factor(seed, island_id, good.slot()))
}

/// The price sheet at a single port: a price per good, deterministic per
/// island+good.
#[derive(Clone, Debug)]
pub struct Market {
    pub prices: [i32; 8],
}

/// A jittered price stays within 55%..145% of the base (rounded), and at least 1.
pub proof fn lemma_jittered_price_band(base: int, factor: int)
    requires
        0 <= base <= 1000,
        PRICE_FACTOR_MIN <= factor <= PRICE_FACTOR_MAX,
    ensures
        jittered_price(base, factor) >= 1,
        jittered_price(base, factor) >= (base * PRICE_FACTOR_MIN + 500) / 1000,
        jittered_price(base, factor) <= if base == 0 { 1 } else { (base * PRICE_FACTOR_MAX + 500) / 1000 },
{
    assert(base * PRICE_FACTOR_MIN <= base * factor <= base * PRICE_FACTOR_MAX) by (nonlinear_arith)
        requires
            0 <= base,
            PRICE_FACTOR_MIN <= factor <= PRICE_FACTOR_MAX,
    ;
    if base > 0 {
        assert(base * PRICE_FACTOR_MIN >= 550);
    }
}

impl Market {
    /// Derive a port's prices by jittering each good's base price ±45%, one draw
    /// per good in cargo order, so a seed reproduces the chart's economy.
    pub fn for_island(island: &Island, seed: i64) -> (m: Market)
        ensures
            forall|g: Good| #[trigger] m.prices@[g.slot()] == market_price(seed, island.id, g),
            forall|g: Good| 1 <= #[trigger] m.prices@[g.slot()] <= (g.base() * PRICE_FACTOR_MAX + 500) / 1000,
    {
        let mut rng = Rng::from_seed(seed ^ (island.id as i64).wrapping_mul(0x100000001b3));
        let ghost s0 = rng@;
        let mut prices = [0i32; 8];
        proof {
            reveal_with_fuel(nth_state, 1);
        }
        let mut slot: usize = 0;
        while slot < 8
            invariant
                slot <= 8,
                rng@ == nth_state(s0, slot as nat),
                s0 == seeded(market_seed(seed, island.id)),
                forall|k: int| 0 <= k < slot ==> #[trigger] prices@[k] == jittered_price(good_at(k).base(), price_factor(seed, island.id, k)),
                forall|k: int| 0 <= k < slot ==> 1 <= #[trigger] prices@[k] <= (good_at(k).base() * PRICE_FACTOR_MAX + 500) / 1000,
            decreases 8 - slot,
        {
            let good = GOODS[slot];
            assert(good == good_at(slot as int));
            proof {
                reveal_with_fuel(nth_state, 1);
            }
            let factor = rng.int_between(PRICE_FACTOR_MIN, PRICE_FACTOR_MAX + 1);
            let base = good.base_price();
            let p = (base * factor + 500) / 1000;
            proof {
                lemma_jittered_price_band(base as int, factor as int);
            }
            prices[slot] = if p < 1 { 1 } else { p };
            slot += 1;
        }
        proof {
            lemma_good_slots();
        }
        Market { prices }
    }

    pub fn price(&self, good: Good) -> (p: i32)
        ensures
            p == self.prices@[good.slot()],
    {
        self.prices[good.index()]
    }
}

// --- Trade / upgrade outcomes ------------------------------------------------

/// Why a trade or fitting could not be completed. The UI just no-ops on these,
/// so the message is only here for completeness / future surfacing.
#[derive(Clone, Copy, PartialEq, Eq, Debug, Structural)]
pub enum TradeError {
    NotDocked,
    NotEnoughGold,
    NotEnoughHold,
    NotEnoughCargo,
    NonPositive,
    NoShipyard,
    MaxUpgrade,
    HullSound,
    /// The hull is too battered to honourably take on a race or contract.
    HullTooDamaged,
    NoSuchMission,
    NoDelivery,
    RaceInProgress,
    NoSuchRace,
    NoRace,
    /// The race demands a sturdier hull than the captain has fitted.
    HullTierTooLow,
}

/// Which fitting a shipyard upgrade improves.
#[derive(Clone, Copy, PartialEq, Eq, Debug, Structural)]
pub enum UpgradeKind {
    /// A sturdier hull — the *only* fitting that raises top speed (and with it the
    /// hull's points, hence its upkeep).
    Hull,
    /// A taller rig — raises only the haul the ship carries before the overload
    /// penalty. See [`upgrades::max_haul`].
    Sail,
    /// A deeper hold — more cargo slots.
    Cargo,
}

impl UpgradeKind {
    pub open spec fn name(self) -> Seq<char> {
        match self {
            UpgradeKind::Hull => "Hull"@,
            UpgradeKind::Sail => "Sails"@,
            UpgradeKind::Cargo => "Hold"@,
        }
    }

    pub fn label(self) -> (s: &'static str)
        ensures
            s@ == self.name(),
    {
        match self {
            UpgradeKind::Hull => "Hull",
            UpgradeKind::Sail => "Sails",
            UpgradeKind::Cargo => "Hold",
        }
    }
}

// --- Economy / progression constants -----------------------------------------

pub const STARTING_GOLD: i32 = 200;
/// Hold slots on a fresh ship.
pub const BASE_CARGO: i32 = 16;
/// Slots added per cargo upgrade.
pub const CARGO_STEP: i32 = 8;
pub const HAUL_BASE: i32 = 12;
/// Haul tolerance gained per sail tier — sails *only* raise the load the rig can
/// carry before the overload penalty bites. Deliberately less than the +8 slots a
/// cargo upgrade adds, so haulers must over-invest in sails to keep a growing hold
/// at full speed; a racer (light hold) barely needs them.
pub const HAUL_PER_SAIL_LEVEL: i32 = 4;
/// Top tier (0-indexed) for the sails and the hold — six steps each.
pub const MAX_LEVEL: i32 = 6;
/// Top hull tier (0-indexed): four tiers in all, Lv 1–4 to the captain.
pub const HULL_MAX_LEVEL: i32 = 3;
pub const SAIL_BASE_COST: i32 = 300;
pub const CARGO_BASE_COST: i32 = 250;
/// The hull is the premium fitting (it buys speed *and* hull points), so it is the
/// dearest to step up.
pub const HULL_BASE_COST: i32 = 500;
pub const BASE_MAX_HULL: i32 = 180;
/// Hull points gained per hull tier: 180 / 240 / 300 / 360. Because wear is a
/// *fraction* of the (now larger) hull, a sturdier ship costs proportionally more
/// to keep mended — the higher upkeep the captain trades for the speed.
pub const HULL_PER_HULL_LEVEL: i32 = 60;
pub const REPAIR_COST_PER_HULL: i32 = 2;
/// Hull points mended by caulking with a single plank from the hold (a field
/// repair the captain makes from the log; see [`GameState::caulk_with_plank`]).
pub const HULL_PER_PLANK: i32 = 10;
/// Sailing wear is banked in hundred-millionths of a hull point: a millimetre
/// sailed wears `max_hull` of them (1% of a full hull per kilometre).
pub const WEAR_PER_POINT: i64 = 100_000_000;


// --- Location & GameState ----------------------------------------------------

/// Where the captain currently is in the world.
#[derive(Clone, Copy, PartialEq, Eq, Debug, Structural)]
pub enum Location {
    Docked(i32),
    Sailing,
}

/// The running ledger of a captain's career: contracts honoured, wagers won and
/// lost, and the distance logged. Accumulated for the life of a voyage (never
/// reset by a refit or a trade).
#[derive(Clone, Copy, Debug, PartialEq, Eq, Structural)]
pub struct Stats {
    /// Haulage contracts delivered to their destination (see [`GameState::deliver`]).
    pub contracts_fulfilled: u32,
    /// Gold earned from contract *rewards* over the voyage (the returned deposit is
    /// not a gain, so it isn't counted).
    pub contract_earnings: i64,
    /// Wager races reached first (see [`GameState::win_race`]).
    pub races_won: u32,
    /// Wager races the rival reached first (see [`GameState::lose_race`]).
    pub races_lost: u32,
    /// Net gold from racing: the stake won on each victory, less the stake forfeit
    /// on each defeat. Signed, so a losing record shows red.
    pub race_winnings: i64,
    /// Distance sailed over the voyage, in millimetres, banked from
    /// [`GameState::wear_distance`] (shown as kilometres).
    pub millimetres_traveled: i64,
}

/// A blank ledger.
pub open spec fn blank_stats() -> Stats {
    Stats {
        contracts_fulfilled: 0,
        contract_earnings: 0,
        races_won: 0,
        races_lost: 0,
        race_winnings: 0,
        millimetres_traveled: 0,
    }
}

impl Default for Stats {
    fn default() -> (s: Stats)
        ensures
            s == blank_stats(),
    {
        Stats {
            contracts_fulfilled: 0,
            contract_earnings: 0,
            races_won: 0,
            races_lost: 0,
            race_winnings: 0,
            millimetres_traveled: 0,
        }
    }
}

/// The discrete, persisted voyage state. The world itself is owned separately
/// (the renderers borrow it); here we keep only what a voyage mutates.
#[derive(Clone, Debug)]
pub struct GameState {
    pub gold: i32,
    /// Units of each good in the hold, indexed by [`Good::index`].
    pub cargo: [i32; 8],
    pub hold_capacity: i32,
    pub location: Location,
    /// Hull tier bought; drives top speed and max hull (see [`upgrades`]).
    pub hull_level: i32,
    /// Sail tier bought; drives haul tolerance only (see [`upgrades`]).
    pub sail_level: i32,
    /// Current hull integrity; worn by storms, starvation and distance.
    pub hull: i32,
    /// Hull wear sailed off but not yet a whole point, in [`WEAR_PER_POINT`]ths of
    /// a point. The hull is integer-valued, so distance decay (see
    /// [`GameState::wear_distance`]) banks its remainder here and spends it a
    /// point at a time.
    pub hull_wear: i64,
    /// Accepted haulage contracts riding in the hold until delivered (see
    /// [`crate::mission`]). Their goods occupy hold space but cannot be sold.
    pub active_missions: Vec<Mission>,
    /// The wager race booked at a port, if any — armed until the player or the
    /// rival reaches the mark, or the captain withdraws.
    pub race: Option<Race>,
    /// The captain's lifetime tally.
    pub stats: Stats,
}

/// Units in the first `n` cargo slots.
pub open spec fn cargo_total(cargo: Seq<i32>, n: int) -> int
    decreases n,
{
    if n <= 0 {
        0
    } else {
        cargo_total(cargo, n - 1) + cargo[n - 1]
    }
}

/// Units the first `n` contracts carry.
pub open spec fn mission_total(missions: Seq<Mission>, n: int) -> int
    decreases n,
{
    if n <= 0 {
        0
    } else {
        mission_total(missions, n - 1) + missions[n - 1].quantity
    }
}

/// No two contracts share an id.
pub open spec fn ids_distinct(missions: Seq<Mission>) -> bool {
    forall|a: int, b: int| 0 <= a < b < missions.len() ==> (#[trigger] missions[a]).id != (#[trigger] missions[b]).id
}

/// The first `k` contracts, less those carrying id `id`.
pub open spec fn without_prefix(missions: Seq<Mission>, id: int, k: int) -> Seq<Mission>
    decreases k,
{
    if k <= 0 {
        Seq::empty()
    } else {
        let prev = without_prefix(missions, id, k - 1);
        if missions[k - 1].id == id {
            prev
        } else {
            prev.push(missions[k - 1])
        }
    }
}

/// The contracts, less those carrying id `id`.
pub open spec fn without_id(missions: Seq<Mission>, id: int) -> Seq<Mission> {
    without_prefix(missions, id, missions.len() as int)
}

/// Units the first `k` contracts carrying id `id` hold.
pub open spec fn id_units(missions: Seq<Mission>, id: int, k: int) -> int
    decreases k,
{
    if k <= 0 {
        0
    } else {
        id_units(missions, id, k - 1) + if missions[k - 1].id == id { missions[k - 1].quantity as int } else { 0 }
    }
}

/// Hull points of a ship at hull tier `level`.
pub open spec fn max_hull_of(level: int) -> int {
    BASE_MAX_HULL + level * HULL_PER_HULL_LEVEL
}

pub proof fn lemma_cargo_total_update(cargo: Seq<i32>, i: int, v: i32, n: int)
    requires
        0 <= i < cargo.len(),
        0 <= n <= cargo.len(),
    ensures
        cargo_total(cargo.update(i, v), n) == cargo_total(cargo, n) + if i < n { v - cargo[i] } else { 0 },
    decreases n,
{
    if n > 0 {
        lemma_cargo_total_update(cargo, i, v, n - 1);
    }
}

pub proof fn lemma_cargo_total_nonneg(cargo: Seq<i32>, n: int)
    requires
        0 <= n <= cargo.len(),
        forall|k: int| 0 <= k < cargo.len() ==> cargo[k] >= 0,
    ensures
        cargo_total(cargo, n) >= 0,
        forall|k: int| 0 <= k < n ==> cargo[k] <= cargo_total(cargo, n),
    decreases n,
{
    if n > 0 {
        lemma_cargo_total_nonneg(cargo, n - 1);
    }
}

pub proof fn lemma_mission_total_nonneg(missions: Seq<Mission>, n: int)
    requires
        0 <= n <= missions.len(),
        forall|k: int| 0 <= k < missions.len() ==> (#[trigger] missions[k]).quantity > 0,
    ensures
        mission_total(missions, n) >= 0,
    decreases n,
{
    if n > 0 {
        lemma_mission_total_nonneg(missions, n - 1);
    }
}

pub proof fn lemma_mission_total_push(missions: Seq<Mission>, m: Mission)
    ensures
        mission_total(missions.push(m), missions.len() + 1int) == mission_total(missions, missions.len() as int) + m.quantity,
{
    assert(missions.push(m).subrange(0, missions.len() as int) =~= missions);
    lemma_mission_total_prefix(missions.push(m), missions, missions.len() as int);
}

/// Totals only read the prefix they count.
pub proof fn lemma_mission_total_prefix(a: Seq<Mission>, b: Seq<Mission>, n: int)
    requires
        0 <= n <= a.len(),
        n <= b.len(),
        forall|k: int| 0 <= k < n ==> a[k] == b[k],
    ensures
        mission_total(a, n) == mission_total(b, n),
    decreases n,
{
    if n > 0 {
        lemma_mission_total_prefix(a, b, n - 1);
    }
}

impl GameState {
    /// Units of ordinary cargo in the hold.
    pub open spec fn cargo_units(&self) -> int {
        cargo_total(self.cargo@, 8)
    }

    /// Units riding under contract.
    pub open spec fn mission_units(&self) -> int {
        mission_total(self.active_missions@, self.active_missions@.len() as int)
    }

    /// Hold in use: cargo plus contract goods.
    pub open spec fn used(&self) -> int {
        self.cargo_units() + self.mission_units()
    }

    /// A voyage state the rules can reach: a purse that is not overdrawn,
    /// fittings on their ladders, a hull between wrecked and full with less
    /// than one point of wear banked, no negative cargo, contracts that carry
    /// goods under distinct ids, a hold that is not overfilled, and no negative
    /// stake on a booked race.
    pub open spec fn sane(&self) -> bool {
        &&& self.gold >= 0
        &&& 0 <= self.hull_level <= HULL_MAX_LEVEL
        &&& 0 <= self.sail_level <= MAX_LEVEL
        &&& 0 <= self.hull <= max_hull_of(self.hull_level as int)
        &&& 0 <= self.hull_wear < WEAR_PER_POINT
        &&& self.hold_capacity >= 0
        &&& forall|k: int| 0 <= k < 8 ==> #[trigger] self.cargo@[k] >= 0
        &&& forall|k: int| 0 <= k < self.active_missions@.len() ==> (#[trigger] self.active_missions@[k]).quantity > 0
        &&& forall|k: int|
            0 <= k < self.active_missions@.len() ==> (#[trigger] self.active_missions@[k]).deposit >= 0
                && self.active_missions@[k].reward >= 0
        &&& ids_distinct(self.active_missions@)
        &&& self.used() <= self.hold_capacity
        &&& self.race matches Some(r) ==> r.stake >= 0
    }

    /// The captain is at sea or docked at an island of `world`.
    pub open spec fn docked_on(&self, world: &World) -> bool {
        match self.location {
            Location::Docked(id) => 0 <= id < world.islands@.len(),
            Location::Sailing => true,
        }
    }

    proof fn lemma_sane_totals(&self)
        requires
            self.sane(),
        ensures
            0 <= self.cargo_units() <= self.used() <= self.hold_capacity,
            0 <= self.mission_units() <= self.used(),
            forall|k: int| 0 <= k < 8 ==> #[trigger] self.cargo@[k] <= self.cargo_units(),
    {
        lemma_cargo_total_nonneg(self.cargo@, 8);
        lemma_mission_total_nonneg(self.active_missions@, self.active_missions@.len() as int);
    }

    /// A fresh voyage with a starting purse, an empty hold, and a modest hull.
    pub fn start() -> (s: GameState)
        ensures
            s.gold == STARTING_GOLD,
            forall|k: int| 0 <= k < 8 ==> #[trigger] s.cargo@[k] == 0,
            s.hold_capacity == BASE_CARGO,
            s.location == Location::Sailing,
            s.hull_level == 0,
            s.sail_level == 0,
            s.hull == max_hull_of(0),
            s.hull_wear == 0,
            s.active_missions@.len() == 0,
            s.race is None,
            s.stats == blank_stats(),
            s.sane(),
    {
        let s = GameState {
            gold: STARTING_GOLD,
            cargo: [0i32; 8],
            hold_capacity: BASE_CARGO,
            location: Location::Sailing,
            hull_level: 0,
            sail_level: 0,
            hull: hull::max_hull(0),
            hull_wear: 0,
            active_missions: Vec::new(),
            race: None,
            stats: Stats::default(),
        };
        proof {
            lemma_cargo_total_nonneg(s.cargo@, 8);
            assert(cargo_total(s.cargo@, 8) == 0) by {
                reveal_with_fuel(cargo_total, 9);
            }
        }
        s
    }

    pub fn quantity_of(&self, good: Good) -> (q: i32)
        ensures
            q == self.cargo@[good.slot()],
    {
        self.cargo[good.index()]
    }

    pub fn cargo_used(&self) -> (n: i32)
        requires
            self.sane(),
        ensures
            n == self.cargo_units(),
    {
        proof {
            self.lemma_sane_totals();
        }
        let mut total: i32 = 0;
        let mut k: usize = 0;
        while k < 8
            invariant
                k <= 8,
                total == cargo_total(self.cargo@, k as int),
                self.sane(),
            decreases 8 - k,
        {
            proof {
                lemma_cargo_total_nonneg(self.cargo@, k as int + 1);
                self.lemma_sane_totals();
                lemma_cargo_prefix_le(self.cargo@, k as int + 1, 8);
            }
            total = total + self.cargo[k];
            k += 1;
        }
        total
    }

    /// Hold taken by mission goods in transit — they ride along until delivered.
    pub fn mission_hold(&self) -> (n: i32)
        requires
            self.sane(),
        ensures
            n == self.mission_units(),
    {
        proof {
            self.lemma_sane_totals();
        }
        let mut total: i32 = 0;
        let mut k: usize = 0;
        while k < self.active_missions.len()
            invariant
                k <= self.active_missions@.len(),
                total == mission_total(self.active_missions@, k as int),
                self.sane(),
            decreases self.active_missions@.len() - k,
        {
            proof {
                self.lemma_sane_totals();
                lemma_mission_prefix_le(self.active_missions@, k as int + 1, self.active_missions@.len() as int);
            }
            total = total + self.active_missions[k].quantity;
            k += 1;
        }
        total
    }

    /// Hold space in use: ordinary cargo plus reserved mission cargo.
    pub fn hold_used(&self) -> (n: i32)
        requires
            self.sane(),
        ensures
            n == self.used(),
    {
        proof {
            self.lemma_sane_totals();
        }
        self.cargo_used() + self.mission_hold()
    }

    pub fn hold_free(&self) -> (n: i32)
        requires
            self.sane(),
        ensures
            n == self.hold_capacity - self.used(),
            n >= 0,
    {
        proof {
            self.lemma_sane_totals();
        }
        self.hold_capacity - self.hold_used()
    }

    pub fn max_hull(&self) -> (m: i32)
        requires
            i32::MIN <= max_hull_of(self.hull_level as int) <= i32::MAX,
        ensures
            m == max_hull_of(self.hull_level as int),
    {
        hull::max_hull(self.hull_level)
    }

    pub fn docked_island_id(&self) -> (id: Option<i32>)
        ensures
            id == match self.location {
                Location::Docked(i) => Some(i),
                Location::Sailing => None::<i32>,
            },
    {
        match self.location {
            Location::Docked(id) => Some(id),
            Location::Sailing => None,
        }
    }

    pub fn docked_island<'w>(&self, world: &'w World) -> (isle: Option<&'w Island>)
        requires
            self.docked_on(world),
        ensures
            match self.location {
                Location::Docked(i) => isle == Some(&world.islands@[i as int]),
                Location::Sailing => isle is None,
            },
    {
        match self.location {
            Location::Docked(id) => Some(&world.islands[id as usize]),
            Location::Sailing => None,
        }
    }
}

/// The ship itself is unchanged: hold size, fittings, hull and banked wear.
pub open spec fn same_ship(a: GameState, b: GameState) -> bool {
    &&& a.hold_capacity == b.hold_capacity
    &&& a.hull_level == b.hull_level
    &&& a.sail_level == b.sail_level
    &&& a.hull == b.hull
    &&& a.hull_wear == b.hull_wear
}

/// The voyage around the ship is unchanged: position, contracts, race, ledger.
pub open spec fn same_voyage(a: GameState, b: GameState) -> bool {
    &&& a.location == b.location
    &&& a.active_missions@ == b.active_missions@
    &&& a.race == b.race
    &&& a.stats == b.stats
}

/// The purse moved by `delta` and the hold's `good` by `units`; nothing else.
pub open spec fn traded(after: GameState, before: GameState, delta: int, good: Good, units: int) -> bool {
    &&& after.gold == before.gold + delta
    &&& after.cargo@ == before.cargo@.update(good.slot(), (before.cargo@[good.slot()] + units) as i32)
    &&& same_ship(after, before)
    &&& same_voyage(after, before)
}

/// Units bought by a fill: as many as both the hold and the purse allow.
pub open spec fn fill_units(s: GameState, price: int) -> int {
    let free = s.hold_capacity - s.used();
    let affordable = if price > 0 { s.gold as int / price } else { free };
    if free < affordable { free } else { affordable }
}

impl GameState {
    /// Why buying `qty` units at `price` would be refused, if it would.
    pub open spec fn buy_check(self, price: int, qty: int) -> Result<(), TradeError> {
        if qty <= 0 {
            Err(TradeError::NonPositive)
        } else if price * qty > self.gold {
            Err(TradeError::NotEnoughGold)
        } else if qty > self.hold_capacity - self.used() {
            Err(TradeError::NotEnoughHold)
        } else {
            Ok(())
        }
    }

    /// Why selling `qty` units of `good` would be refused, if it would.
    pub open spec fn sell_check(self, good: Good, qty: int) -> Result<(), TradeError> {
        if qty <= 0 {
            Err(TradeError::NonPositive)
        } else if qty > self.cargo@[good.slot()] {
            Err(TradeError::NotEnoughCargo)
        } else {
            Ok(())
        }
    }

    /// Buying `qty` at `price` stays within `i32` on the path that completes.
    pub open spec fn buy_fits(self, price: int, qty: int) -> bool {
        &&& qty > 0 ==> i32::MIN <= price * qty <= i32::MAX
        &&& self.buy_check(price, qty) is Ok ==> self.gold - price * qty <= i32::MAX
    }

    /// Selling `qty` at `price` stays within `i32` on the path that completes.
    pub open spec fn sell_fits(self, good: Good, price: int, qty: int) -> bool {
        self.sell_check(good, qty) is Ok ==> i32::MIN <= price * qty <= i32::MAX && i32::MIN <= self.gold + price * qty <= i32::MAX
    }

    /// Buy `qty` units of `good` at the given port price. Mutates on success.
    pub fn buy(&mut self, market: &Market, good: Good, qty: i32) -> (r: Result<(), TradeError>)
        requires
            old(self).sane(),
            old(self).buy_fits(market.prices@[good.slot()] as int, qty as int),
        ensures
            r == old(self).buy_check(market.prices@[good.slot()] as int, qty as int),
            r is Err ==> *final(self) == *old(self),
            r is Ok ==> traded(*final(self), *old(self), -(market.prices@[good.slot()] * qty), good, qty as int),
            final(self).sane(),
    {
        if qty <= 0 {
            return Err(TradeError::NonPositive);
        }
        let cost = market.price(good) * qty;
        if cost > self.gold {
            return Err(TradeError::NotEnoughGold);
        }
        if qty > self.hold_free() {
            return Err(TradeError::NotEnoughHold);
        }
        let ghost before = *self;
        let slot = good.index();
        proof {
            before.lemma_sane_totals();
            lemma_cargo_total_update(before.cargo@, slot as int, (before.cargo@[slot as int] + qty) as i32, 8);
        }
        self.gold -= cost;
        self.cargo[slot] = self.cargo[slot] + qty;
        proof {
            assert(self.cargo@ == before.cargo@.update(slot as int, (before.cargo@[slot as int] + qty) as i32));
            assert(self.active_missions@ == before.active_missions@);
        }
        Ok(())
    }

    /// Buy as much `good` as the hold and purse allow.
    pub fn fill(&mut self, market: &Market, good: Good) -> (r: Result<(), TradeError>)
        requires
            old(self).sane(),
            old(self).buy_fits(
                market.prices@[good.slot()] as int,
                fill_units(*old(self), market.prices@[good.slot()] as int),
            ),
        ensures
            r == old(self).buy_check(
                market.prices@[good.slot()] as int,
                fill_units(*old(self), market.prices@[good.slot()] as int),
            ),
            r is Err ==> *final(self) == *old(self),
            r is Ok ==> traded(
                *final(self),
                *old(self),
                -(market.prices@[good.slot()] * fill_units(*old(self), market.prices@[good.slot()] as int)),
                good,
                fill_units(*old(self), market.prices@[good.slot()] as int),
            ),
            final(self).sane(),
    {
        let price = market.price(good);
        let free = self.hold_free();
        let affordable = if price > 0 { self.gold / price } else { free };
        let qty = if free < affordable { free } else { affordable };
        self.buy(market, good, qty)
    }

    /// Sell `qty` units of `good` at the given port price. Mutates on success.
    pub fn sell(&mut self, market: &Market, good: Good, qty: i32) -> (r: Result<(), TradeError>)
        requires
            old(self).sane(),
            old(self).sell_fits(good, market.prices@[good.slot()] as int, qty as int),
            old(self).sell_check(good, qty as int) is Ok ==> old(self).gold + market.prices@[good.slot()] * qty >= 0,
        ensures
            r == old(self).sell_check(good, qty as int),
            r is Err ==> *final(self) == *old(self),
            r is Ok ==> traded(*final(self), *old(self), market.prices@[good.slot()] * qty, good, -qty),
            final(self).sane(),
    {
        if qty <= 0 {
            return Err(TradeError::NonPositive);
        }
        if qty > self.quantity_of(good) {
            return Err(TradeError::NotEnoughCargo);
        }
        let ghost before = *self;
        let slot = good.index();
        proof {
            before.lemma_sane_totals();
            lemma_cargo_total_update(before.cargo@, slot as int, (before.cargo@[slot as int] - qty) as i32, 8);
        }
        self.gold += market.price(good) * qty;
        self.cargo[slot] = self.cargo[slot] - qty;
        proof {
            assert(self.cargo@ == before.cargo@.update(slot as int, (before.cargo@[slot as int] - qty) as i32));
            assert(self.active_missions@ == before.active_missions@);
        }
        Ok(())
    }

    /// Sell every unit of `good` held.
    pub fn dump(&mut self, market: &Market, good: Good) -> (r: Result<(), TradeError>)
        requires
            old(self).sane(),
            old(self).sell_fits(good, market.prices@[good.slot()] as int, old(self).cargo@[good.slot()] as int),
            old(self).sell_check(good, old(self).cargo@[good.slot()] as int) is Ok ==> old(self).gold
                + market.prices@[good.slot()] * old(self).cargo@[good.slot()] >= 0,
        ensures
            r == old(self).sell_check(good, old(self).cargo@[good.slot()] as int),
            r is Err ==> *final(self) == *old(self),
            r is Ok ==> traded(
                *final(self),
                *old(self),
                market.prices@[good.slot()] * old(self).cargo@[good.slot()],
                good,
                -old(self).cargo@[good.slot()],
            ),
            final(self).sane(),
    {
        let qty = self.quantity_of(good);
        self.sell(market, good, qty)
    }
}

impl GameState {
    /// Hull points mended by a single plank — surfaced so the captain's log can
    /// caption the field repair.
    pub const HULL_PER_PLANK: i32 = HULL_PER_PLANK;

    /// Why a shipyard upgrade of `kind` would be refused, if it would.
    pub open spec fn upgrade_check(self, world: &World, kind: UpgradeKind) -> Result<(), TradeError> {
        match self.location {
            Location::Sailing => Err(TradeError::NotDocked),
            Location::Docked(id) => if !world.islands@[id as int].is_shipyard {
                Err(TradeError::NoShipyard)
            } else {
                match upgrades::next_cost_of(kind, self) {
                    None => Err(TradeError::MaxUpgrade),
                    Some(cost) => if cost > self.gold {
                        Err(TradeError::NotEnoughGold)
                    } else {
                        Ok(())
                    },
                }
            },
        }
    }

    /// Buy the next upgrade of `kind`. Requires being docked at a shipyard with
    /// the funds and the fitting not already maxed.
    ///
    /// The new fittings come sound: the yard hauls her out and patches the hull
    /// to full as part of the work, so an upgrade never leaves the captain a
    /// smaller *fraction* of hull than before.
    pub fn buy_upgrade(&mut self, world: &World, kind: UpgradeKind) -> (r: Result<(), TradeError>)
        requires
            old(self).sane(),
            old(self).docked_on(world),
        ensures
            r == old(self).upgrade_check(world, kind),
            r is Err ==> *final(self) == *old(self),
            r is Ok ==> {
                &&& final(self).gold == old(self).gold - upgrades::next_cost_of(kind, *old(self))->0
                &&& final(self).hull_level == old(self).hull_level + if kind == UpgradeKind::Hull { 1int } else { 0 }
                &&& final(self).sail_level == old(self).sail_level + if kind == UpgradeKind::Sail { 1int } else { 0 }
                &&& final(self).hold_capacity == old(self).hold_capacity + if kind == UpgradeKind::Cargo {
                    CARGO_STEP as int
                } else {
                    0
                }
                &&& final(self).hull == max_hull_of(final(self).hull_level as int)
                &&& final(self).hull_wear == 0
                &&& final(self).cargo@ == old(self).cargo@
                &&& same_voyage(*final(self), *old(self))
            },
            final(self).sane(),
    {
        let isle = match self.docked_island(world) {
            Some(isle) => isle,
            None => return Err(TradeError::NotDocked),
        };
        if !isle.is_shipyard {
            return Err(TradeError::NoShipyard);
        }
        let cost = match upgrades::next_cost(kind, self) {
            Some(c) => c,
            None => return Err(TradeError::MaxUpgrade),
        };
        if cost > self.gold {
            return Err(TradeError::NotEnoughGold);
        }
        proof {
            self.lemma_sane_totals();
        }
        self.gold -= cost;
        match kind {
            UpgradeKind::Hull => self.hull_level += 1,
            UpgradeKind::Sail => self.sail_level += 1,
            UpgradeKind::Cargo => self.hold_capacity += CARGO_STEP,
        }
        // Fresh, sound planking: the refit patches the hull all the way back up.
        self.hull = self.max_hull();
        self.hull_wear = 0;
        Ok(())
    }

    /// Why a drydock repair would be refused, if it would.
    pub open spec fn repair_check(self) -> Result<(), TradeError> {
        if self.location == Location::Sailing {
            Err(TradeError::NotDocked)
        } else if max_hull_of(self.hull_level as int) - self.hull <= 0 {
            Err(TradeError::HullSound)
        } else if self.gold as int / REPAIR_COST_PER_HULL as int <= 0 {
            Err(TradeError::NotEnoughGold)
        } else {
            Ok(())
        }
    }

    /// Hull points a drydock repair mends: the damage, or as much as the purse
    /// pays for at two gold a point.
    pub open spec fn repair_points(self) -> int {
        let damage = max_hull_of(self.hull_level as int) - self.hull;
        let affordable = self.gold as int / REPAIR_COST_PER_HULL as int;
        if damage < affordable {
            damage
        } else {
            affordable
        }
    }

    /// Mend the hull at the docked port, repairing as much as the purse allows.
    pub fn repair(&mut self) -> (r: Result<(), TradeError>)
        requires
            old(self).sane(),
        ensures
            r == old(self).repair_check(),
            r is Err ==> *final(self) == *old(self),
            r is Ok ==> {
                &&& final(self).hull == old(self).hull + old(self).repair_points()
                &&& final(self).gold == old(self).gold - old(self).repair_points() * REPAIR_COST_PER_HULL
                &&& final(self).hull_level == old(self).hull_level
                &&& final(self).sail_level == old(self).sail_level
                &&& final(self).hold_capacity == old(self).hold_capacity
                &&& final(self).hull_wear == old(self).hull_wear
                &&& final(self).cargo@ == old(self).cargo@
                &&& same_voyage(*final(self), *old(self))
            },
            final(self).sane(),
    {
        if self.docked_island_id().is_none() {
            return Err(TradeError::NotDocked);
        }
        let damage = hull::damage(self);
        if damage <= 0 {
            return Err(TradeError::HullSound);
        }
        let affordable = self.gold / REPAIR_COST_PER_HULL;
        let points = if damage < affordable { damage } else { affordable };
        if points <= 0 {
            return Err(TradeError::NotEnoughGold);
        }
        self.gold -= points * REPAIR_COST_PER_HULL;
        self.hull += points;
        Ok(())
    }

    /// Why caulking with a plank would be refused, if it would.
    pub open spec fn caulk_check(self) -> Result<(), TradeError> {
        if self.cargo@[Good::Plank.slot()] <= 0 {
            Err(TradeError::NotEnoughCargo)
        } else if max_hull_of(self.hull_level as int) - self.hull <= 0 {
            Err(TradeError::HullSound)
        } else {
            Ok(())
        }
    }

    /// Caulk the hull at sea with one plank from the hold, mending
    /// [`HULL_PER_PLANK`] points (capped at the hull's maximum). This is the
    /// captain's-log field repair — no gold and no drydock, just timber spent from
    /// the cargo. Refused with no planks aboard or a hull already sound (so a
    /// plank is never wasted patching a full hull).
    pub fn caulk_with_plank(&mut self) -> (r: Result<(), TradeError>)
        requires
            old(self).sane(),
        ensures
            r == old(self).caulk_check(),
            r is Err ==> *final(self) == *old(self),
            r is Ok ==> {
                &&& final(self).hull == if old(self).hull + HULL_PER_PLANK < max_hull_of(old(self).hull_level as int) {
                    old(self).hull + HULL_PER_PLANK
                } else {
                    max_hull_of(old(self).hull_level as int)
                }
                &&& final(self).cargo@ == old(self).cargo@.update(
                    Good::Plank.slot(),
                    (old(self).cargo@[Good::Plank.slot()] - 1) as i32,
                )
                &&& final(self).gold == old(self).gold
                &&& final(self).hull_level == old(self).hull_level
                &&& final(self).sail_level == old(self).sail_level
                &&& final(self).hold_capacity == old(self).hold_capacity
                &&& final(self).hull_wear == old(self).hull_wear
                &&& same_voyage(*final(self), *old(self))
            },
            final(self).sane(),
    {
        if self.quantity_of(Good::Plank) <= 0 {
            return Err(TradeError::NotEnoughCargo);
        }
        if hull::damage(self) <= 0 {
            return Err(TradeError::HullSound);
        }
        let ghost before = *self;
        let slot = Good::Plank.index();
        proof {
            before.lemma_sane_totals();
            lemma_cargo_total_update(before.cargo@, slot as int, (before.cargo@[slot as int] - 1) as i32, 8);
        }
        self.cargo[slot] = self.cargo[slot] - 1;
        let full = self.max_hull();
        self.hull = if self.hull + HULL_PER_PLANK < full { self.hull + HULL_PER_PLANK } else { full };
        proof {
            assert(self.active_missions@ == before.active_missions@);
        }
        Ok(())
    }

    /// Bank gold found ashore or scooped from the sea into the purse.
    pub fn bank(&mut self, found: i32)
        requires
            old(self).sane(),
            found >= 0,
            old(self).gold + found <= i32::MAX,
        ensures
            final(self).gold == old(self).gold + found,
            final(self).cargo@ == old(self).cargo@,
            same_ship(*final(self), *old(self)),
            same_voyage(*final(self), *old(self)),
            final(self).sane(),
    {
        self.gold = self.gold + found;
    }

    /// Wear the hull from distance sailed: every kilometre under way costs 1% of a
    /// full hull. Damage is accrued continuously and banked in `hull_wear`,
    /// spending whole points off `hull` as they accumulate, so even a string of
    /// short hops grinds the planking down over a voyage. `millimetres` is the
    /// distance covered this step. The distance is logged even on a wrecked hull
    /// still adrift.
    pub fn wear_distance(&mut self, millimetres: i64)
        requires
            old(self).sane(),
            millimetres > 0 ==> old(self).stats.millimetres_traveled + millimetres <= i64::MAX,
            millimetres > 0 ==> millimetres * max_hull_of(old(self).hull_level as int) + WEAR_PER_POINT <= i64::MAX,
        ensures
            millimetres <= 0 ==> *final(self) == *old(self),
            millimetres > 0 ==> {
                &&& final(self).stats == Stats {
                    millimetres_traveled: (old(self).stats.millimetres_traveled + millimetres) as i64,
                    ..old(self).stats
                }
                &&& old(self).hull <= 0 ==> final(self).hull == old(self).hull && final(self).hull_wear
                    == old(self).hull_wear
                &&& old(self).hull > 0 ==> {
                    &&& final(self).hull == hull_after_wear(
                        old(self).hull as int,
                        old(self).hull_wear as int,
                        millimetres as int,
                        max_hull_of(old(self).hull_level as int),
                    )
                    &&& final(self).hull_wear == wear_after(
                        old(self).hull_wear as int,
                        millimetres as int,
                        max_hull_of(old(self).hull_level as int),
                    )
                }
                &&& final(self).gold == old(self).gold
                &&& final(self).cargo@ == old(self).cargo@
                &&& final(self).hull_level == old(self).hull_level
                &&& final(self).sail_level == old(self).sail_level
                &&& final(self).hold_capacity == old(self).hold_capacity
                &&& final(self).location == old(self).location
                &&& final(self).active_missions@ == old(self).active_missions@
                &&& final(self).race == old(self).race
            },
            final(self).sane(),
    {
        if millimetres <= 0 {
            return;
        }
        // Log the distance first, before the hull guard: it is tallied for the
        // captain's record even on a wrecked (0-hull) hull that's still adrift.
        self.stats.millimetres_traveled = self.stats.millimetres_traveled + millimetres;
        if self.hull <= 0 {
            return;
        }
        let full = self.max_hull();
        assert(millimetres * full <= i64::MAX - WEAR_PER_POINT);
        let banked: i64 = self.hull_wear + millimetres * full as i64;
        let points: i64 = banked / WEAR_PER_POINT;
        self.hull_wear = banked % WEAR_PER_POINT;
        let left: i64 = self.hull as i64 - points;
        self.hull = if left > 0 { left as i32 } else { 0 };
    }
}

/// The hull left after sailing `mm` millimetres with `wear` banked, for a hull
/// of `full` points: every whole point of banked wear comes off, never below
/// a wreck.
pub open spec fn hull_after_wear(hull: int, wear: int, mm: int, full: int) -> int {
    let points = (wear + mm * full) / WEAR_PER_POINT as int;
    if hull - points > 0 {
        hull - points
    } else {
        0
    }
}

/// The wear still banked after sailing `mm` millimetres with `wear` banked, for
/// a hull of `full` points: what falls short of a whole point.
pub open spec fn wear_after(wear: int, mm: int, full: int) -> int {
    (wear + mm * full) % WEAR_PER_POINT as int
}

/// `m` is among the first `k` contracts.
pub open spec fn listed_before(missions: Seq<Mission>, k: int, m: Mission) -> bool {
    exists|i: int| 0 <= i < k && missions[i] == m
}

/// Dropping the contracts with one id: what remains carries goods, keeps
/// distinct ids, comes from the list, and lost exactly that id's units.
pub proof fn lemma_without_prefix(missions: Seq<Mission>, id: int, k: int)
    requires
        0 <= k <= missions.len(),
        ids_distinct(missions),
        forall|j: int| 0 <= j < missions.len() ==> (#[trigger] missions[j]).quantity > 0,
    ensures
        ({
            let w = without_prefix(missions, id, k);
            &&& ids_distinct(w)
            &&& forall|j: int| 0 <= j < w.len() ==> (#[trigger] w[j]).quantity > 0
            &&& forall|j: int| 0 <= j < w.len() ==> (#[trigger] w[j]).id != id
            &&& forall|j: int| 0 <= j < w.len() ==> #[trigger] listed_before(missions, k, w[j])
            &&& mission_total(w, w.len() as int) + id_units(missions, id, k) == mission_total(missions, k)
            &&& (forall|j: int|
                0 <= j < missions.len() ==> (#[trigger] missions[j]).deposit >= 0 && missions[j].reward >= 0) ==> forall|
                j: int,
            |
                0 <= j < w.len() ==> (#[trigger] w[j]).deposit >= 0 && w[j].reward >= 0
        }),
    decreases k,
{
    lemma_without_prefix_inner(missions, id, k);
    let w = without_prefix(missions, id, k);
    if forall|j: int| 0 <= j < missions.len() ==> (#[trigger] missions[j]).deposit >= 0 && missions[j].reward >= 0 {
        assert forall|j: int| 0 <= j < w.len() implies (#[trigger] w[j]).deposit >= 0 && w[j].reward >= 0 by {
            assert(listed_before(missions, k, w[j]));
            let i = choose|i: int| 0 <= i < k && missions[i] == w[j];
            assert(missions[i].deposit >= 0);
        }
    }
}

/// The contracts left after striking an id are distinct, carry goods, lack the
/// id, come from the list, and carry what the list carried less the struck ones.
proof fn lemma_without_prefix_inner(missions: Seq<Mission>, id: int, k: int)
    requires
        0 <= k <= missions.len(),
        ids_distinct(missions),
        forall|j: int| 0 <= j < missions.len() ==> (#[trigger] missions[j]).quantity > 0,
    ensures
        ({
            let w = without_prefix(missions, id, k);
            &&& ids_distinct(w)
            &&& forall|j: int| 0 <= j < w.len() ==> (#[trigger] w[j]).quantity > 0
            &&& forall|j: int| 0 <= j < w.len() ==> (#[trigger] w[j]).id != id
            &&& forall|j: int| 0 <= j < w.len() ==> #[trigger] listed_before(missions, k, w[j])
            &&& mission_total(w, w.len() as int) + id_units(missions, id, k) == mission_total(missions, k)
        }),
    decreases k,
{
    if k > 0 {
        lemma_without_prefix_inner(missions, id, k - 1);
        let prev = without_prefix(missions, id, k - 1);
        let x = missions[k - 1];
        if x.id != id {
            let w = prev.push(x);
            lemma_mission_total_push(prev, x);
            assert forall|a: int, b: int| 0 <= a < b < w.len() implies (#[trigger] w[a]).id != (#[trigger] w[b]).id by {
                if b == prev.len() {
                    assert(listed_before(missions, k - 1, prev[a]));
                    let i = choose|i: int| 0 <= i < k - 1 && #[trigger] missions[i] == prev[a];
                    assert(missions[i].id != missions[k - 1].id);
                } else {
                    assert(w[a] == prev[a] && w[b] == prev[b]);
                }
            }
            assert forall|j: int| 0 <= j < w.len() implies #[trigger] listed_before(missions, k, w[j]) by {
                if j == prev.len() {
                    assert(missions[k - 1] == w[j]);
                } else {
                    assert(listed_before(missions, k - 1, prev[j]));
                    let i = choose|i: int| 0 <= i < k - 1 && #[trigger] missions[i] == prev[j];
                    assert(missions[i] == w[j]);
                }
            }
        } else {
            assert forall|j: int| 0 <= j < prev.len() implies #[trigger] listed_before(missions, k, prev[j]) by {
                assert(listed_before(missions, k - 1, prev[j]));
                let i = choose|i: int| 0 <= i < k - 1 && #[trigger] missions[i] == prev[j];
            }
        }
    }
}

/// With distinct ids, the units under one id are those of its single contract.
pub proof fn lemma_id_units_single(missions: Seq<Mission>, i: int, k: int)
    requires
        0 <= i < missions.len(),
        0 <= k <= missions.len(),
        ids_distinct(missions),
    ensures
        id_units(missions, missions[i].id as int, k) == if i < k { missions[i].quantity as int } else { 0 },
    decreases k,
{
    if k > 0 {
        lemma_id_units_single(missions, i, k - 1);
        if k - 1 != i {
            if k - 1 < i {
                assert(missions[k - 1].id != missions[i].id);
            } else {
                assert(missions[i].id != missions[k - 1].id);
            }
        }
    }
}

/// With no contract under an id, none of its units ride.
pub proof fn lemma_id_units_absent(missions: Seq<Mission>, id: int, k: int)
    requires
        0 <= k <= missions.len(),
        forall|j: int| 0 <= j < missions.len() ==> (#[trigger] missions[j]).id != id,
    ensures
        id_units(missions, id, k) == 0,
    decreases k,
{
    if k > 0 {
        lemma_id_units_absent(missions, id, k - 1);
    }
}

/// The contracts, less those carrying id `id`, in order.
fn drop_contract(missions: &Vec<Mission>, id: i32) -> (kept: Vec<Mission>)
    ensures
        kept@ == without_id(missions@, id as int),
{
    let mut kept: Vec<Mission> = Vec::new();
    let mut k: usize = 0;
    while k < missions.len()
        invariant
            k <= missions@.len(),
            kept@ == without_prefix(missions@, id as int, k as int),
        decreases missions@.len() - k,
    {
        if missions[k].id != id {
            kept.push(missions[k]);
        }
        k += 1;
    }
    kept
}

/// The first of `missions` carrying id `id` and, if `port` is given, bound for it.
fn find_contract(missions: &Vec<Mission>, id: i32, port: Option<i32>) -> (found: Option<Mission>)
    ensures
        match found {
            Some(m) => exists|k: int| 0 <= k < missions@.len() && missions@[k] == m && m.id == id
                && (port matches Some(p) ==> m.target_id == p),
            None => forall|k: int| 0 <= k < missions@.len() ==> !((#[trigger] missions@[k]).id == id
                && (port matches Some(p) ==> missions@[k].target_id == p)),
        },
{
    let mut k: usize = 0;
    while k < missions.len()
        invariant
            k <= missions@.len(),
            forall|j: int| 0 <= j < k ==> !((#[trigger] missions@[j]).id == id
                && (port matches Some(p) ==> missions@[j].target_id == p)),
        decreases missions@.len() - k,
    {
        let m = missions[k];
        let bound = match port {
            Some(p) => m.target_id == p,
            None => true,
        };
        if m.id == id && bound {
            return Some(m);
        }
        k += 1;
    }
    None
}

/// `after` is `before` with contract `m` taken on: its deposit paid and its
/// goods loaded.
pub open spec fn took_on(after: GameState, before: GameState, m: Mission) -> bool {
    &&& after.gold == before.gold - m.deposit
    &&& after.active_missions@ == before.active_missions@.push(m)
    &&& after.cargo@ == before.cargo@
    &&& same_ship(after, before)
    &&& after.location == before.location
    &&& after.race == before.race
    &&& after.stats == before.stats
}

/// `after` is `before` with contract `m` handed in: deposit and reward paid,
/// the contract struck off, and the ledger credited.
pub open spec fn handed_in(after: GameState, before: GameState, m: Mission) -> bool {
    &&& after.gold == before.gold + m.deposit + m.reward
    &&& after.active_missions@ == without_id(before.active_missions@, m.id as int)
    &&& after.stats == Stats {
        contracts_fulfilled: (before.stats.contracts_fulfilled + 1) as u32,
        contract_earnings: (before.stats.contract_earnings + m.reward) as i64,
        ..before.stats
    }
    &&& after.cargo@ == before.cargo@
    &&& same_ship(after, before)
    &&& after.location == before.location
    &&& after.race == before.race
}

/// `after` is `before` with contract `m` given up: struck off, its goods turned
/// into ordinary cargo, its deposit forfeit.
pub open spec fn gave_up(after: GameState, before: GameState, m: Mission) -> bool {
    &&& after.gold == before.gold
    &&& after.active_missions@ == without_id(before.active_missions@, m.id as int)
    &&& after.cargo@ == before.cargo@.update(m.good.slot(), (before.cargo@[m.good.slot()] + m.quantity) as i32)
    &&& same_ship(after, before)
    &&& after.location == before.location
    &&& after.race == before.race
    &&& after.stats == before.stats
}

/// `after` is `before` with race `r` booked: its stake paid.
pub open spec fn booked(after: GameState, before: GameState, r: Race) -> bool {
    &&& after.gold == before.gold - r.stake
    &&& before.race is None
    &&& after.race == Some(r)
    &&& after.cargo@ == before.cargo@
    &&& same_ship(after, before)
    &&& after.location == before.location
    &&& after.active_missions@ == before.active_missions@
    &&& after.stats == before.stats
}

/// `after` is `before` with its booked race called off: the stake handed back.
pub open spec fn withdrawn(after: GameState, before: GameState) -> bool {
    &&& before.race matches Some(r) && after.gold == before.gold + r.stake
    &&& after.race is None
    &&& after.cargo@ == before.cargo@
    &&& same_ship(after, before)
    &&& after.location == before.location
    &&& after.active_missions@ == before.active_missions@
    &&& after.stats == before.stats
}

/// `after` is `before` with its booked race won: the stake handed back doubled
/// and the win tallied.
pub open spec fn won(after: GameState, before: GameState) -> bool {
    &&& before.race matches Some(r) && {
        &&& after.gold == before.gold + 2 * r.stake
        &&& after.stats == Stats {
            races_won: (before.stats.races_won + 1) as u32,
            race_winnings: (before.stats.race_winnings + r.stake) as i64,
            ..before.stats
        }
    }
    &&& after.race is None
    &&& after.cargo@ == before.cargo@
    &&& same_ship(after, before)
    &&& after.location == before.location
    &&& after.active_missions@ == before.active_missions@
}

/// `after` is `before` with its booked race lost: the stake stays forfeit and
/// the loss is tallied.
pub open spec fn lost(after: GameState, before: GameState) -> bool {
    &&& before.race matches Some(r) && {
        &&& after.gold == before.gold
        &&& after.stats == Stats {
            races_lost: (before.stats.races_lost + 1) as u32,
            race_winnings: (before.stats.race_winnings - r.stake) as i64,
            ..before.stats
        }
    }
    &&& after.race is None
    &&& after.cargo@ == before.cargo@
    &&& same_ship(after, before)
    &&& after.location == before.location
    &&& after.active_missions@ == before.active_missions@
}

/// The first offer on `offers` for the mark `target`, at or after `k`.
pub open spec fn offer_from(offers: Seq<RaceOffer>, target: i32, k: int) -> Option<RaceOffer>
    decreases offers.len() - k,
{
    if k < 0 || k >= offers.len() {
        None
    } else if offers[k].target_id == target {
        Some(offers[k])
    } else {
        offer_from(offers, target, k + 1)
    }
}

/// The terms a race board quotes are usable: real marks, non-negative stakes.
pub open spec fn offers_ok(offers: Seq<RaceOffer>, world: &World) -> bool {
    forall|k: int|
        0 <= k < offers.len() ==> 0 <= (#[trigger] offers[k]).target_id < world.islands@.len() && offers[k].stake >= 0
}

impl GameState {
    /// Why taking contract `mission_id` would be refused before its terms are
    /// read: at sea, too battered, or no such contract on this port's board.
    pub open spec fn accept_gate(self, world: &World, mission_id: i32) -> Option<TradeError> {
        match self.location {
            Location::Sailing => Some(TradeError::NotDocked),
            Location::Docked(id) => if !hull::fit_for_jobs(self.hull as int, max_hull_of(self.hull_level as int)) {
                Some(TradeError::HullTooDamaged)
            } else if !(mission::eligible_targets(*world, id).len() > 0 && id * 100 <= mission_id < id * 100
                + mission::PER_PORT && !mission::has_id(self.active_missions@, mission_id as int)) {
                Some(TradeError::NoSuchMission)
            } else {
                None
            },
        }
    }

    /// Whether contract `m` would be refused on its terms.
    pub open spec fn terms_check(self, m: Mission) -> Result<(), TradeError> {
        if m.deposit > self.gold {
            Err(TradeError::NotEnoughGold)
        } else if m.quantity > self.hold_capacity - self.used() {
            Err(TradeError::NotEnoughHold)
        } else {
            Ok(())
        }
    }

    /// Take a contract from the board: pay the deposit and load the goods into
    /// the hold.
    pub fn accept(&mut self, world: &World, mission_id: i32) -> (r: Result<(), TradeError>)
        requires
            old(self).sane(),
            world.wf(),
            old(self).docked_on(world),
        ensures
            old(self).accept_gate(world, mission_id) matches Some(e) ==> r == Err::<(), TradeError>(e),
            old(self).accept_gate(world, mission_id) is None ==> exists|m: Mission| {
                &&& m.id == mission_id
                &&& mission::on_board(mission::port_board(world.islands@[old(self).location->Docked_0 as int], *world), m)
                &&& mission::drawn_up(m, world.islands@[old(self).location->Docked_0 as int], *world)
                &&& r == old(self).terms_check(m)
                &&& r is Ok ==> took_on(*final(self), *old(self), m)
            },
            r is Err ==> *final(self) == *old(self),
            final(self).sane(),
    {
        if self.docked_island_id().is_none() {
            return Err(TradeError::NotDocked);
        }
        if !hull::can_take_jobs(self) {
            return Err(TradeError::HullTooDamaged);
        }
        let mission = match self.pick_offer(world, mission_id) {
            Some(m) => m,
            None => return Err(TradeError::NoSuchMission),
        };
        let ghost isle = world.islands@[self.location->Docked_0 as int];
        if mission.deposit > self.gold {
            assert(old(self).terms_check(mission) == Err::<(), TradeError>(TradeError::NotEnoughGold));
            return Err(TradeError::NotEnoughGold);
        }
        if mission.quantity > self.hold_free() {
            assert(old(self).terms_check(mission) == Err::<(), TradeError>(TradeError::NotEnoughHold));
            return Err(TradeError::NotEnoughHold);
        }
        self.take_on(mission);
        assert(old(self).terms_check(mission) == Ok::<(), TradeError>(()));
        Ok(())
    }

    /// The contract `mission_id` on the board of the port the captain is docked at,
    /// unless it is not offered there.
    fn pick_offer(&self, world: &World, mission_id: i32) -> (found: Option<Mission>)
        requires
            self.sane(),
            world.wf(),
            self.docked_on(world),
            self.location is Docked,
        ensures
            found is None <==> !(mission::eligible_targets(*world, self.location->Docked_0).len() > 0
                && self.location->Docked_0 * 100 <= mission_id < self.location->Docked_0 * 100 + mission::PER_PORT
                && !mission::has_id(self.active_missions@, mission_id as int)),
            found matches Some(m) ==> {
                &&& m.id == mission_id
                &&& mission::on_board(mission::port_board(world.islands@[self.location->Docked_0 as int], *world), m)
                &&& mission::drawn_up(m, world.islands@[self.location->Docked_0 as int], *world)
                &&& !mission::has_id(self.active_missions@, mission_id as int)
            },
    {
        let offers = mission::offered_at(self, world);
        let found = find_contract(&offers, mission_id, None);
        proof {
            if mission::board_has_id(offers@, mission_id as int) {
                let k = choose|k: int| 0 <= k < offers@.len() && offers@[k].id == mission_id;
                assert(offers@[k].id == mission_id);
            }
            if found is Some {
                assert(mission::board_has_id(offers@, mission_id as int));
            }
        }
        found
    }

    /// Pay contract `m`'s deposit and load its goods.
    fn take_on(&mut self, m: Mission)
        requires
            old(self).sane(),
            m.quantity > 0,
            m.deposit >= 0,
            m.reward >= 0,
            !mission::has_id(old(self).active_missions@, m.id as int),
            old(self).terms_check(m) is Ok,
        ensures
            took_on(*final(self), *old(self), m),
            final(self).sane(),
    {
        let ghost before = *self;
        proof {
            before.lemma_sane_totals();
            lemma_mission_total_push(before.active_missions@, m);
        }
        self.gold -= m.deposit;
        self.active_missions.push(m);
        proof {
            let ms = self.active_missions@;
            assert(ms == before.active_missions@.push(m));
            assert forall|a: int, b: int| 0 <= a < b < ms.len() implies (#[trigger] ms[a]).id != (#[trigger] ms[b]).id by {
                if b == ms.len() - 1 {
                    assert(ms[a] == before.active_missions@[a]);
                }
            }
        }
    }
}

impl GameState {
    /// The contract with id `mission_id` bound for island `port`, if one rides in
    /// the hold.
    pub open spec fn delivery(self, mission_id: i32, port: i32) -> Option<Mission> {
        if exists|k: int| 0 <= k < self.active_missions@.len() && (#[trigger] self.active_missions@[k]).id == mission_id
            && self.active_missions@[k].target_id == port {
            Some(
                self.active_missions@[choose|k: int|
                    0 <= k < self.active_missions@.len() && (#[trigger] self.active_missions@[k]).id == mission_id
                        && self.active_missions@[k].target_id == port],
            )
        } else {
            None
        }
    }

    /// Handing in contract `m` stays within the purse's and the ledger's bounds.
    pub open spec fn delivery_fits(self, m: Mission) -> bool {
        &&& self.gold + m.deposit + m.reward <= i32::MAX
        &&& self.stats.contracts_fulfilled < u32::MAX
        &&& self.stats.contract_earnings + m.reward <= i64::MAX
    }

    /// Hand in a contract at its destination: return the deposit plus the reward
    /// and free the hold the goods occupied.
    pub fn deliver(&mut self, world: &World, mission_id: i32) -> (r: Result<(), TradeError>)
        requires
            old(self).sane(),
            world.wf(),
            old(self).docked_on(world),
            old(self).location matches Location::Docked(port) ==> (old(self).delivery(mission_id, port) matches Some(
                m,
            ) ==> old(self).delivery_fits(m)),
        ensures
            old(self).location == Location::Sailing ==> r == Err::<(), TradeError>(TradeError::NotDocked),
            old(self).location matches Location::Docked(port) ==> match old(self).delivery(mission_id, port) {
                None => r == Err::<(), TradeError>(TradeError::NoDelivery),
                Some(m) => r is Ok && handed_in(*final(self), *old(self), m),
            },
            r is Err ==> *final(self) == *old(self),
            final(self).sane(),
    {
        let isle_id = match self.docked_island(world) {
            Some(isle) => isle.id,
            None => return Err(TradeError::NotDocked),
        };
        let ghost port = self.location->Docked_0;
        assert(isle_id == port) by {
            assert(world.islands@[port as int].id == isle_id);
        }
        let mission = match find_contract(&self.active_missions, mission_id, Some(isle_id)) {
            Some(m) => m,
            None => return Err(TradeError::NoDelivery),
        };
        let ghost before = *self;
        proof {
            let k = choose|k: int| 0 <= k < before.active_missions@.len() && before.active_missions@[k] == mission;
            let c = choose|k: int|
                0 <= k < before.active_missions@.len() && (#[trigger] before.active_missions@[k]).id == mission_id
                    && before.active_missions@[k].target_id == port;
            if c != k {
                if c < k {
                    assert(before.active_missions@[c].id != before.active_missions@[k].id);
                } else {
                    assert(before.active_missions@[k].id != before.active_missions@[c].id);
                }
            }
            assert(before.delivery(mission_id, port) == Some(mission));
            lemma_without_prefix(before.active_missions@, mission_id as int, before.active_missions@.len() as int);
            lemma_id_units_single(before.active_missions@, k, before.active_missions@.len() as int);
            before.lemma_sane_totals();
        }
        self.gold = self.gold + mission.deposit + mission.reward;
        self.active_missions = drop_contract(&self.active_missions, mission_id);
        self.stats.contracts_fulfilled = self.stats.contracts_fulfilled + 1;
        self.stats.contract_earnings = self.stats.contract_earnings + mission.reward as i64;
        Ok(())
    }

    /// Abandon an accepted contract: forfeit the deposit and reward, but keep the
    /// goods — they convert from mission-bound cargo into ordinary, sellable
    /// cargo. Hold usage is unchanged: the reserved space becomes free cargo.
    pub fn abandon(&mut self, world: &World, mission_id: i32) -> (r: Result<(), TradeError>)
        requires
            old(self).sane(),
            old(self).docked_on(world),
        ensures
            old(self).location == Location::Sailing ==> r == Err::<(), TradeError>(TradeError::NotDocked),
            old(self).location is Docked && !mission::has_id(old(self).active_missions@, mission_id as int) ==> r
                == Err::<(), TradeError>(TradeError::NoSuchMission),
            old(self).location is Docked && mission::has_id(old(self).active_missions@, mission_id as int) ==> {
                &&& r is Ok
                &&& exists|k: int|
                    0 <= k < old(self).active_missions@.len() && (#[trigger] old(self).active_missions@[k]).id == mission_id
                        && gave_up(*final(self), *old(self), old(self).active_missions@[k])
                &&& final(self).used() == old(self).used()
            },
            r is Err ==> *final(self) == *old(self),
            final(self).sane(),
    {
        if self.docked_island(world).is_none() {
            return Err(TradeError::NotDocked);
        }
        let mission = match find_contract(&self.active_missions, mission_id, None) {
            Some(m) => m,
            None => return Err(TradeError::NoSuchMission),
        };
        let ghost before = *self;
        let slot = mission.good.index();
        proof {
            let k = choose|k: int| 0 <= k < before.active_missions@.len() && before.active_missions@[k] == mission;
            lemma_without_prefix(before.active_missions@, mission_id as int, before.active_missions@.len() as int);
            lemma_id_units_single(before.active_missions@, k, before.active_missions@.len() as int);
            before.lemma_sane_totals();
            lemma_mission_prefix_le(before.active_missions@, k, k + 1);
            lemma_mission_prefix_le(before.active_missions@, k + 1, before.active_missions@.len() as int);
            lemma_mission_total_nonneg(before.active_missions@, k);
            lemma_cargo_total_update(before.cargo@, slot as int, (before.cargo@[slot as int] + mission.quantity) as i32, 8);
        }
        self.active_missions = drop_contract(&self.active_missions, mission_id);
        self.cargo[slot] = self.cargo[slot] + mission.quantity;
        proof {
            let k = choose|k: int| 0 <= k < before.active_missions@.len() && before.active_missions@[k] == mission;
            assert(self.cargo@ == before.cargo@.update(slot as int, (before.cargo@[slot as int] + mission.quantity) as i32));
            assert(gave_up(*self, before, before.active_missions@[k]));
        }
        Ok(())
    }
}

/// The first offer on `offers` for the mark `target`.
fn find_offer(offers: &Vec<RaceOffer>, target: i32) -> (o: Option<RaceOffer>)
    ensures
        o == offer_from(offers@, target, 0),
{
    let mut k: usize = 0;
    while k < offers.len()
        invariant
            k <= offers@.len(),
            offer_from(offers@, target, 0) == offer_from(offers@, target, k as int),
        decreases offers@.len() - k,
    {
        if offers[k].target_id == target {
            return Some(offers[k]);
        }
        k += 1;
    }
    None
}

/// A found offer is one of the board's lines.
pub proof fn lemma_offer_from(offers: Seq<RaceOffer>, target: i32, k: int)
    ensures
        offer_from(offers, target, k) matches Some(o) ==> o.target_id == target && exists|j: int|
            k <= j < offers.len() && #[trigger] offers[j] == o,
    decreases offers.len() - k,
{
    if 0 <= k < offers.len() && offers[k].target_id != target {
        lemma_offer_from(offers, target, k + 1);
    }
    if 0 <= k < offers.len() && offers[k].target_id == target {
        assert(offers[k] == offers[k]);
    }
}

impl GameState {
    /// Why booking a race to `target_id` would be refused, if it would, and the
    /// race it would book.
    pub open spec fn race_check(self, world: &World, offers: Seq<RaceOffer>, target_id: i32) -> Result<Race, TradeError> {
        match self.location {
            Location::Sailing => Err(TradeError::NotDocked),
            Location::Docked(origin) => if self.race is Some {
                Err(TradeError::RaceInProgress)
            } else if !hull::fit_for_jobs(self.hull as int, max_hull_of(self.hull_level as int)) {
                Err(TradeError::HullTooDamaged)
            } else {
                match offer_from(offers, target_id, 0) {
                    None => Err(TradeError::NoSuchRace),
                    Some(o) => {
                        let level = level_for(
                            distance(world.islands@[origin as int], world.islands@[o.target_id as int]),
                        );
                        if self.hull_level < level {
                            Err(TradeError::HullTierTooLow)
                        } else if o.stake > self.gold {
                            Err(TradeError::NotEnoughGold)
                        } else {
                            Ok(Race { origin_id: origin, target_id, stake: o.stake, required_level: level as i32 })
                        }
                    },
                }
            },
        }
    }

    /// Book a race: charge the stake up front and arm the race against the named
    /// target. Refused while at sea, while another race is already booked, with a
    /// hull too battered or too light for the leg, or without the gold for the
    /// wager. The longer the leg, the sturdier the hull the harbour demands.
    pub fn accept_race(&mut self, world: &World, offers: &Vec<RaceOffer>, target_id: i32) -> (r: Result<(), TradeError>)
        requires
            old(self).sane(),
            world.wf(),
            old(self).docked_on(world),
            offers_ok(offers@, world),
        ensures
            match old(self).race_check(world, offers@, target_id) {
                Ok(race) => r is Ok && booked(*final(self), *old(self), race),
                Err(e) => r == Err::<(), TradeError>(e) && *final(self) == *old(self),
            },
            final(self).sane(),
    {
        let origin = match self.docked_island(world) {
            Some(isle) => isle,
            None => return Err(TradeError::NotDocked),
        };
        let origin_id = origin.id;
        if self.race.is_some() {
            return Err(TradeError::RaceInProgress);
        }
        if !hull::can_take_jobs(self) {
            return Err(TradeError::HullTooDamaged);
        }
        let offer = match find_offer(offers, target_id) {
            Some(o) => o,
            None => return Err(TradeError::NoSuchRace),
        };
        proof {
            lemma_offer_from(offers@, target_id, 0);
        }
        let target = &world.islands[offer.target_id as usize];
        let distance = crate::world::distance_m(origin, target);
        let required_level = crate::race::required_level_for(distance as i64);
        if self.hull_level < required_level {
            return Err(TradeError::HullTierTooLow);
        }
        let wager = offer.stake;
        if wager > self.gold {
            return Err(TradeError::NotEnoughGold);
        }
        self.gold -= wager;
        self.race = Some(Race { origin_id, target_id, stake: wager, required_level });
        Ok(())
    }

    /// Settle a race the player has won: hand back the stake doubled (the wager
    /// plus its match) and clear the race. A no-op when no race runs.
    pub fn win_race(&mut self)
        requires
            old(self).sane(),
            old(self).race matches Some(r) ==> old(self).gold + 2 * r.stake <= i32::MAX
                && old(self).stats.races_won < u32::MAX && old(self).stats.race_winnings + r.stake <= i64::MAX,
        ensures
            old(self).race is None ==> *final(self) == *old(self),
            old(self).race is Some ==> won(*final(self), *old(self)),
            final(self).sane(),
    {
        if let Some(r) = self.race {
            self.gold = self.gold + r.stake * 2;
            self.race = None;
            self.stats.races_won = self.stats.races_won + 1;
            // The stake was forfeit on booking; winning hands back double, so the
            // net gain is the stake itself.
            self.stats.race_winnings = self.stats.race_winnings + r.stake as i64;
        }
    }

    /// Settle a race the player has lost — the stake was already forfeited when
    /// the race was booked, so this only clears it.
    pub fn lose_race(&mut self)
        requires
            old(self).sane(),
            old(self).race matches Some(r) ==> old(self).stats.races_lost < u32::MAX
                && old(self).stats.race_winnings - r.stake >= i64::MIN,
        ensures
            old(self).race is None ==> *final(self) == *old(self),
            old(self).race is Some ==> lost(*final(self), *old(self)),
            final(self).sane(),
    {
        if let Some(r) = self.race {
            self.race = None;
            self.stats.races_lost = self.stats.races_lost + 1;
            // The stake was already forfeit when the race was booked: a clear loss.
            self.stats.race_winnings = self.stats.race_winnings - r.stake as i64;
        }
    }

    /// Abandon a booked race at port before it has started — the stake is handed
    /// back in full, so calling it off costs the captain nothing. Refused at sea
    /// or with no race booked.
    pub fn withdraw_race(&mut self, world: &World) -> (r: Result<(), TradeError>)
        requires
            old(self).sane(),
            old(self).docked_on(world),
            old(self).location is Docked ==> (old(self).race matches Some(r) ==> old(self).gold + r.stake <= i32::MAX),
        ensures
            old(self).location == Location::Sailing ==> r == Err::<(), TradeError>(TradeError::NotDocked),
            old(self).location is Docked && old(self).race is None ==> r == Err::<(), TradeError>(TradeError::NoRace),
            old(self).location is Docked && old(self).race is Some ==> r is Ok && withdrawn(*final(self), *old(self)),
            r is Err ==> *final(self) == *old(self),
            final(self).sane(),
    {
        if self.docked_island(world).is_none() {
            return Err(TradeError::NotDocked);
        }
        let r = match self.race {
            Some(r) => r,
            None => return Err(TradeError::NoRace),
        };
        self.gold = self.gold + r.stake;
        self.race = None;
        Ok(())
    }
}

/// A prefix of non-negative cargo never outweighs the whole hold.
pub proof fn lemma_cargo_prefix_le(cargo: Seq<i32>, m: int, n: int)
    requires
        0 <= m <= n <= cargo.len(),
        forall|k: int| 0 <= k < cargo.len() ==> cargo[k] >= 0,
    ensures
        0 <= cargo_total(cargo, m) <= cargo_total(cargo, n),
    decreases n - m,
{
    lemma_cargo_total_nonneg(cargo, m);
    if m < n {
        lemma_cargo_prefix_le(cargo, m, n - 1);
    }
}

/// A prefix of the contracts never carries more than all of them.
pub proof fn lemma_mission_prefix_le(missions: Seq<Mission>, m: int, n: int)
    requires
        0 <= m <= n <= missions.len(),
        forall|k: int| 0 <= k < missions.len() ==> (#[trigger] missions[k]).quantity > 0,
    ensures
        0 <= mission_total(missions, m) <= mission_total(missions, n),
    decreases n - m,
{
    lemma_mission_total_nonneg(missions, m);
    if m < n {
        lemma_mission_prefix_le(missions, m, n - 1);
    }
}

} // verus!
