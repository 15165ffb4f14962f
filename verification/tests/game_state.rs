use sail::game_state::hull::{self, penalty_counts};
use sail::game_state::upgrades::{
    cargo_capacity, cargo_cost, cargo_level_of, hull_cost, level_of, max_haul, max_level, next_cost, sail_cost,
};
use sail::game_state::{GameState, Good, Location, Market, TradeError, UpgradeKind, HULL_PER_PLANK, STARTING_GOLD};
use sail::race::{Race, RaceOffer};
use sail::world::{Cluster, Island, World};

fn yard_world() -> World {
    World {
        seed: 1,
        islands: vec![
            Island { id: 0, x: 0, y: 0, is_port: true, is_shipyard: true },
            Island { id: 1, x: 3000, y: 0, is_port: true, is_shipyard: false },
            Island { id: 2, x: 0, y: 5000, is_port: true, is_shipyard: false },
        ],
        clusters: vec![Cluster { id: 0, island_ids: vec![0, 1, 2] }],
    }
}

#[test]
fn distance_wear_costs_one_percent_of_full_hull_per_km() {
    let mut gs = GameState::start();
    let full = gs.max_hull();
    // 10 km should knock off ~10% of a full hull.
    gs.wear_distance(10_000_000);
    let lost = full - gs.hull;
    let expected = (full as f64 * 0.10).floor() as i32;
    assert_eq!(lost, expected);
}

#[test]
fn distance_wear_banks_the_fractional_remainder() {
    let mut gs = GameState::start();
    let full = gs.max_hull();
    // A string of short hops totalling 1 km still wears a whole ~1% off, even
    // though no single hop crosses a full hull point on its own.
    for _ in 0..100 {
        gs.wear_distance(10_000); // 10 m each, 1 km total
    }
    assert_eq!(full - gs.hull, (full as f64 * 0.01).floor() as i32);
}

#[test]
fn penalties_stack_one_notch_per_ten_percent_cycling_kinds() {
    // Sound above 90%.
    assert_eq!(penalty_counts(100, 100), (0, 0, 0));
    assert_eq!(penalty_counts(95, 100), (0, 0, 0));
    // 90% widens the no-go zone; 80% adds a slow helm; 70% trims top speed.
    assert_eq!(penalty_counts(90, 100), (1, 0, 0));
    assert_eq!(penalty_counts(80, 100), (1, 1, 0));
    assert_eq!(penalty_counts(70, 100), (1, 1, 1));
    // ...then the cycle repeats down the scale.
    assert_eq!(penalty_counts(60, 100), (2, 1, 1));
    assert_eq!(penalty_counts(30, 100), (3, 2, 2));
    assert_eq!(penalty_counts(10, 100), (3, 3, 3));
}

#[test]
fn buying_an_upgrade_refits_the_hull_to_full() {
    let world = yard_world();
    // Dock at a shipyard so the upgrade is allowed.
    let yard = world.islands.iter().find(|i| i.is_shipyard).unwrap();
    let mut gs = GameState::start();
    gs.gold = 1_000_000;
    gs.location = Location::Docked(yard.id);
    gs.hull = gs.max_hull() / 4; // battered before the refit
    let before = gs.max_hull();
    gs.buy_upgrade(&world, UpgradeKind::Hull).unwrap();
    // The hull tier enlarges the planking, and it comes sound — full, not the
    // old quarter, and bigger than before.
    assert!(gs.max_hull() > before);
    assert_eq!(gs.hull, gs.max_hull());
    assert_eq!(gs.hull_wear, 0);
}

#[test]
fn a_plank_caulks_ten_hull_points_and_is_spent() {
    let mut gs = GameState::start();
    gs.cargo[Good::Plank.index()] = 2;
    gs.hull = gs.max_hull() - 25;
    gs.caulk_with_plank().unwrap();
    // One plank spent, ten points mended.
    assert_eq!(gs.quantity_of(Good::Plank), 1);
    assert_eq!(gs.hull, gs.max_hull() - 15);
}

#[test]
fn caulking_never_overfills_the_hull_and_refuses_a_sound_one() {
    let mut gs = GameState::start();
    gs.cargo[Good::Plank.index()] = 1;
    // Only 4 points down: the plank tops it off without overshooting.
    gs.hull = gs.max_hull() - 4;
    gs.caulk_with_plank().unwrap();
    assert_eq!(gs.hull, gs.max_hull());
    assert_eq!(gs.quantity_of(Good::Plank), 0);
    // A second caulk on a sound hull is refused — and no plank is wasted.
    gs.cargo[Good::Plank.index()] = 1;
    assert_eq!(gs.caulk_with_plank(), Err(TradeError::HullSound));
    assert_eq!(gs.quantity_of(Good::Plank), 1);
}

#[test]
fn caulking_without_timber_is_refused() {
    let mut gs = GameState::start();
    gs.hull = gs.max_hull() / 2;
    assert_eq!(gs.caulk_with_plank(), Err(TradeError::NotEnoughCargo));
}

#[test]
fn lifetime_stats_tally_distance_races_and_contracts() {
    let mut gs = GameState::start();
    // Distance is logged, even once the hull is wrecked and adrift.
    gs.wear_distance(2_500_000);
    gs.hull = 0;
    gs.wear_distance(500_000);
    assert_eq!(gs.stats.millimetres_traveled, 3_000_000);

    // A won race counts once, banks the stake as winnings, and clears the wager.
    gs.race = Some(Race { origin_id: 0, target_id: 1, stake: 100, required_level: 0 });
    gs.win_race();
    assert_eq!(gs.stats.races_won, 1);
    assert_eq!(gs.stats.race_winnings, 100);
    assert!(gs.race.is_none());
    // A loss forfeits the stake: net winnings fall back to zero.
    gs.race = Some(Race { origin_id: 0, target_id: 1, stake: 100, required_level: 0 });
    gs.lose_race();
    assert_eq!(gs.stats.races_lost, 1);
    assert_eq!(gs.stats.race_winnings, 0);
    // With no race afoot, settling again is a no-op and doesn't pad the tally.
    gs.win_race();
    gs.lose_race();
    assert_eq!((gs.stats.races_won, gs.stats.races_lost), (1, 1));
    assert_eq!(gs.stats.race_winnings, 0);
}

#[test]
fn a_battered_hull_is_barred_from_jobs_at_thirty_percent() {
    let mut gs = GameState::start();
    gs.location = Location::Docked(0);
    gs.hull = (gs.max_hull() as f64 * 0.31).round() as i32;
    assert!(hull::can_take_jobs(&gs));
    gs.hull = (gs.max_hull() as f64 * 0.30).round() as i32;
    assert!(!hull::can_take_jobs(&gs));
}

// --- further cases -----------------------------------------------------------

#[test]
fn a_fresh_voyage_starts_with_the_purse_and_an_empty_sound_ship() {
    let gs = GameState::start();
    assert_eq!(gs.gold, STARTING_GOLD);
    assert_eq!(gs.cargo_used(), 0);
    assert_eq!(gs.hold_free(), 16);
    assert_eq!(gs.hull, 180);
    assert_eq!(gs.location, Location::Sailing);
    assert!(gs.race.is_none());
    assert_eq!(gs.docked_island_id(), None);
}

#[test]
fn upgrade_prices_grow_two_point_two_fold_a_tier() {
    assert_eq!((sail_cost(0), sail_cost(1), sail_cost(2), sail_cost(3)), (300, 660, 1452, 3194));
    assert_eq!((cargo_cost(0), cargo_cost(1), cargo_cost(2)), (250, 550, 1210));
    assert_eq!((hull_cost(0), hull_cost(1), hull_cost(2)), (500, 1100, 2420));
    for level in 0..30 {
        assert!(sail_cost(level) <= sail_cost(level + 1));
    }
    assert_eq!(sail_cost(40), i32::MAX);
}

#[test]
fn the_fitting_ladders_read_back_their_levels() {
    assert_eq!(max_haul(0), 12);
    assert_eq!(max_haul(3), 24);
    assert_eq!(cargo_capacity(2), 32);
    assert_eq!(cargo_level_of(32), 2);
    assert_eq!(max_level(UpgradeKind::Hull), 3);
    assert_eq!(max_level(UpgradeKind::Sail), 6);
    let mut gs = GameState::start();
    assert_eq!(level_of(UpgradeKind::Cargo, &gs), 0);
    assert_eq!(next_cost(UpgradeKind::Sail, &gs), Some(300));
    gs.hull_level = 3;
    assert_eq!(next_cost(UpgradeKind::Hull, &gs), None);
}

#[test]
fn upgrades_are_refused_off_a_shipyard_or_when_maxed_or_unaffordable() {
    let world = yard_world();
    let mut gs = GameState::start();
    assert_eq!(gs.buy_upgrade(&world, UpgradeKind::Sail), Err(TradeError::NotDocked));
    gs.location = Location::Docked(1);
    assert_eq!(gs.buy_upgrade(&world, UpgradeKind::Sail), Err(TradeError::NoShipyard));
    gs.location = Location::Docked(0);
    gs.gold = 10;
    assert_eq!(gs.buy_upgrade(&world, UpgradeKind::Sail), Err(TradeError::NotEnoughGold));
    gs.gold = 1_000_000;
    gs.sail_level = 6;
    assert_eq!(gs.buy_upgrade(&world, UpgradeKind::Sail), Err(TradeError::MaxUpgrade));
    gs.buy_upgrade(&world, UpgradeKind::Cargo).unwrap();
    assert_eq!(gs.hold_capacity, 24);
    assert_eq!(gs.gold, 1_000_000 - 250);
}

#[test]
fn market_prices_are_deterministic_and_stay_in_their_band() {
    let isle = Island { id: 4, x: 10, y: 20, is_port: true, is_shipyard: false };
    let a = Market::for_island(&isle, 42);
    let b = Market::for_island(&isle, 42);
    for g in sail::game_state::GOODS.iter() {
        assert_eq!(a.price(*g), b.price(*g));
        let base = g.base_price();
        assert!(a.price(*g) >= 1);
        assert!(a.price(*g) * 1000 <= base * 1450 + 500);
        assert!(a.price(*g) * 1000 + 500 >= base * 550);
    }
}

#[test]
fn selling_back_what_was_just_bought_restores_the_purse_and_hold() {
    let isle = Island { id: 0, x: 0, y: 0, is_port: true, is_shipyard: true };
    let market = Market::for_island(&isle, 9);
    let mut gs = GameState::start();
    let before_gold = gs.gold;
    gs.buy(&market, Good::Rum, 2).unwrap();
    assert_eq!(gs.gold, before_gold - 2 * market.price(Good::Rum));
    assert_eq!(gs.quantity_of(Good::Rum), 2);
    gs.sell(&market, Good::Rum, 2).unwrap();
    assert_eq!(gs.gold, before_gold);
    assert_eq!(gs.quantity_of(Good::Rum), 0);
}

#[test]
fn trades_are_refused_for_each_reason_in_turn() {
    let isle = Island { id: 0, x: 0, y: 0, is_port: true, is_shipyard: true };
    let market = Market::for_island(&isle, 9);
    let mut gs = GameState::start();
    assert_eq!(gs.buy(&market, Good::Food, 0), Err(TradeError::NonPositive));
    gs.gold = 0;
    assert_eq!(gs.buy(&market, Good::Food, 1), Err(TradeError::NotEnoughGold));
    gs.gold = 1_000_000;
    assert_eq!(gs.buy(&market, Good::Food, 17), Err(TradeError::NotEnoughHold));
    assert_eq!(gs.sell(&market, Good::Food, -3), Err(TradeError::NonPositive));
    assert_eq!(gs.sell(&market, Good::Food, 1), Err(TradeError::NotEnoughCargo));
    assert_eq!(gs.gold, 1_000_000);
}

#[test]
fn fill_buys_what_the_hold_allows_and_dump_sells_it_all() {
    let isle = Island { id: 2, x: 0, y: 0, is_port: true, is_shipyard: true };
    let market = Market::for_island(&isle, 5);
    let mut gs = GameState::start();
    gs.gold = 1_000_000;
    gs.fill(&market, Good::Silk).unwrap();
    assert_eq!(gs.quantity_of(Good::Silk), 16);
    assert_eq!(gs.hold_free(), 0);
    gs.dump(&market, Good::Silk).unwrap();
    assert_eq!(gs.quantity_of(Good::Silk), 0);
    assert_eq!(gs.gold, 1_000_000);
    // A purse that buys only a few units fills only those.
    let price = market.price(Good::Food);
    gs.gold = price * 3;
    gs.fill(&market, Good::Food).unwrap();
    assert_eq!(gs.quantity_of(Good::Food), 3);
    assert_eq!(gs.gold, 0);
}

#[test]
fn repair_mends_what_the_purse_allows() {
    let mut gs = GameState::start();
    assert_eq!(gs.repair(), Err(TradeError::NotDocked));
    gs.location = Location::Docked(0);
    assert_eq!(gs.repair(), Err(TradeError::HullSound));
    gs.hull = 100;
    assert_eq!(hull::damage(&gs), 80);
    assert_eq!(hull::repair_cost(&gs), 160);
    gs.gold = 50;
    gs.repair().unwrap();
    assert_eq!(gs.hull, 125);
    assert_eq!(gs.gold, 0);
    assert_eq!(gs.repair(), Err(TradeError::NotEnoughGold));
    gs.gold = 1_000;
    gs.repair().unwrap();
    assert_eq!(gs.hull, 180);
    assert_eq!(gs.gold, 1_000 - 110);
    assert_eq!(GameState::HULL_PER_PLANK, HULL_PER_PLANK);
}

#[test]
fn a_booked_race_costs_its_stake_and_withdrawing_refunds_it() {
    let world = yard_world();
    let offers = vec![RaceOffer { target_id: 1, stake: 80 }, RaceOffer { target_id: 2, stake: 120 }];
    let mut gs = GameState::start();
    assert_eq!(gs.accept_race(&world, &offers, 1), Err(TradeError::NotDocked));
    gs.location = Location::Docked(0);
    assert_eq!(gs.accept_race(&world, &offers, 7), Err(TradeError::NoSuchRace));
    // The 5 km leg wants a tier-1 hull.
    assert_eq!(gs.accept_race(&world, &offers, 2), Err(TradeError::HullTierTooLow));
    gs.gold = 50;
    assert_eq!(gs.accept_race(&world, &offers, 1), Err(TradeError::NotEnoughGold));
    gs.gold = 200;
    gs.accept_race(&world, &offers, 1).unwrap();
    assert_eq!(gs.gold, 120);
    assert_eq!(gs.race, Some(Race { origin_id: 0, target_id: 1, stake: 80, required_level: 0 }));
    assert_eq!(gs.accept_race(&world, &offers, 1), Err(TradeError::RaceInProgress));
    gs.withdraw_race(&world).unwrap();
    assert_eq!(gs.gold, 200);
    assert!(gs.race.is_none());
    assert_eq!(gs.withdraw_race(&world), Err(TradeError::NoRace));
    gs.hull = 20;
    assert_eq!(gs.accept_race(&world, &offers, 1), Err(TradeError::HullTooDamaged));
}

#[test]
fn a_won_race_nets_the_stake_and_a_lost_one_costs_it() {
    let world = yard_world();
    let offers = vec![RaceOffer { target_id: 1, stake: 80 }];
    let mut gs = GameState::start();
    gs.location = Location::Docked(0);
    gs.accept_race(&world, &offers, 1).unwrap();
    gs.win_race();
    assert_eq!(gs.gold, 280);
    gs.accept_race(&world, &offers, 1).unwrap();
    gs.lose_race();
    assert_eq!(gs.gold, 200);
    assert_eq!(gs.stats.race_winnings, 0);
}

#[test]
fn wear_never_drives_the_hull_below_a_wreck() {
    let mut gs = GameState::start();
    gs.wear_distance(1_000_000_000); // 1000 km
    assert_eq!(gs.hull, 0);
    gs.wear_distance(-5);
    assert_eq!(gs.hull, 0);
}

#[test]
fn labels_name_goods_and_fittings() {
    assert_eq!(Good::Plank.label(), "Planks");
    assert_eq!(Good::Food.index(), 0);
    assert_eq!(Good::Plank.index(), 7);
    assert_eq!(UpgradeKind::Sail.label(), "Sails");
    assert_eq!(UpgradeKind::Cargo.label(), "Hold");
}

#[test]
fn found_gold_lands_in_the_purse_and_nothing_else_moves() {
    let mut gs = GameState::start();
    gs.bank(75);
    assert_eq!(gs.gold, STARTING_GOLD + 75);
    assert_eq!(gs.cargo_used(), 0);
    assert_eq!(gs.hull, 180);
}

#[test]
fn withdrawing_at_sea_is_refused_whatever_the_purse() {
    let world = yard_world();
    let mut gs = GameState::start();
    gs.gold = i32::MAX - 10;
    gs.race = Some(Race { origin_id: 0, target_id: 1, stake: 80, required_level: 0 });
    assert_eq!(gs.withdraw_race(&world), Err(TradeError::NotDocked));
    assert_eq!(gs.gold, i32::MAX - 10);
    assert!(gs.race.is_some());
}
