use sail::game_state::{GameState, Location, Market, TradeError};
use sail::mission::{
    deliverable_at, generate, offered_at, reserved_at, tier_for, tier_quantity_range, Mission, PER_PORT,
};
use sail::world::{distance_m, Cluster, Island, World};

fn mk(id: i32, x: i32, y: i32) -> Island {
    Island { id, x, y, is_port: true, is_shipyard: true }
}

// A little two-port cluster so contracts always have a destination.
fn two_port_world() -> World {
    World {
        seed: 99,
        islands: vec![mk(0, 0, 0), mk(1, 2000, 0)],
        clusters: vec![Cluster { id: 0, island_ids: vec![0, 1] }],
    }
}

// A flush captain, docked at port 0, with a roomy hold so a contract can
// always be funded and loaded.
fn flush_state() -> GameState {
    let mut gs = GameState::start();
    gs.gold = 100_000;
    gs.hold_capacity = 1000;
    gs.hull = gs.max_hull();
    gs.location = Location::Docked(0);
    gs
}

#[test]
fn accept_pays_deposit_loads_goods_and_activates() {
    let world = two_port_world();
    let mut gs = flush_state();
    let contract = offered_at(&gs, &world)[0];

    let gold_before = gs.gold;
    gs.accept(&world, contract.id).unwrap();
    assert_eq!(gs.gold, gold_before - contract.deposit);
    assert_eq!(gs.active_missions, vec![contract]);
    assert_eq!(gs.mission_hold(), contract.quantity);
}

#[test]
fn accept_rejects_underfunded_contract() {
    let world = two_port_world();
    let mut gs = flush_state();
    let contract = offered_at(&gs, &world)[0];
    gs.gold = contract.deposit - 1;
    assert_eq!(gs.accept(&world, contract.id), Err(TradeError::NotEnoughGold));
}

#[test]
fn accept_rejects_contract_that_will_not_fit() {
    let world = two_port_world();
    let mut gs = flush_state();
    let contract = offered_at(&gs, &world)[0];
    gs.hold_capacity = contract.quantity - 1;
    assert_eq!(gs.accept(&world, contract.id), Err(TradeError::NotEnoughHold));
}

#[test]
fn accept_rejects_unknown_contract() {
    let world = two_port_world();
    let mut gs = flush_state();
    assert_eq!(gs.accept(&world, -1), Err(TradeError::NoSuchMission));
}

#[test]
fn accept_refused_while_at_sea() {
    let world = two_port_world();
    let mut gs = flush_state();
    let contract = offered_at(&gs, &world)[0];
    gs.location = Location::Sailing;
    assert_eq!(gs.accept(&world, contract.id), Err(TradeError::NotDocked));
}

#[test]
fn deliver_returns_deposit_pays_reward_and_frees_hold() {
    let world = two_port_world();
    let mut gs = flush_state();
    let contract = offered_at(&gs, &world)[0];
    gs.active_missions = vec![contract];
    gs.location = Location::Docked(contract.target_id);

    let gold_before = gs.gold;
    gs.deliver(&world, contract.id).unwrap();
    assert_eq!(gs.gold, gold_before + contract.deposit + contract.reward);
    assert!(gs.active_missions.is_empty());
}

#[test]
fn deliver_refused_anywhere_but_the_destination() {
    let world = two_port_world();
    let mut gs = flush_state();
    let contract = offered_at(&gs, &world)[0];
    gs.active_missions = vec![contract];
    gs.location = Location::Docked(contract.origin_id);
    assert_eq!(gs.deliver(&world, contract.id), Err(TradeError::NoDelivery));
}

#[test]
fn abandon_drops_contract_and_keeps_goods_as_sellable_cargo() {
    let world = two_port_world();
    let mut gs = flush_state();
    let contract = offered_at(&gs, &world)[0];
    gs.cargo = [0; 8];
    gs.active_missions = vec![contract];

    let hold_before = gs.hold_used();
    let gold_before = gs.gold;
    gs.abandon(&world, contract.id).unwrap();
    assert!(gs.active_missions.is_empty());
    assert_eq!(gs.gold, gold_before);
    assert_eq!(gs.quantity_of(contract.good), contract.quantity);
    assert_eq!(gs.hold_used(), hold_before);
}

#[test]
fn offered_at_hides_a_contract_once_accepted() {
    let world = two_port_world();
    let mut gs = flush_state();
    let contract = offered_at(&gs, &world)[0];
    gs.accept(&world, contract.id).unwrap();
    assert!(!offered_at(&gs, &world).contains(&contract));
}

// A spread-out cluster of ports at a range of distances, so the generated
// board carries contracts of several tiers to sort and grade.
fn spread_world() -> World {
    // Origin at 0, targets a short hop to a long crossing away (metres).
    let islands = vec![mk(0, 0, 0), mk(1, 1500, 0), mk(2, 5000, 0), mk(3, 8000, 0), mk(4, 12000, 0)];
    let island_ids = islands.iter().map(|i| i.id).collect();
    World { seed: 7, islands, clusters: vec![Cluster { id: 0, island_ids }] }
}

#[test]
fn tier_steps_up_with_distance() {
    // The race rungs (4.0, 6.5, 9.0 km) graduate the four tiers.
    assert_eq!(tier_for(1_500), 1);
    assert_eq!(tier_for(5_000), 2);
    assert_eq!(tier_for(8_000), 3);
    assert_eq!(tier_for(12_000), 4);
}

#[test]
fn board_is_sorted_closest_first() {
    let world = spread_world();
    let board = generate(&world.islands[0], &world);
    let dists: Vec<u64> = board
        .iter()
        .map(|m| distance_m(&world.islands[0], &world.islands[m.target_id as usize]))
        .collect();
    assert!(dists.windows(2).all(|w| w[0] <= w[1]), "contracts should be ordered nearest first, got {dists:?}");
}

#[test]
fn board_anchors_span_nearest_to_farthest() {
    let world = spread_world();
    let board = generate(&world.islands[0], &world);
    assert_eq!(board.len(), PER_PORT as usize);
    let targets: Vec<i32> = board.iter().map(|m| m.target_id).collect();
    // The two nearest (1, 2), the middling (3) and the farthest (4) are all
    // guaranteed a contract, whatever the lone random slot lands on.
    for id in [1, 2, 3, 4] {
        assert!(targets.contains(&id), "board should anchor a contract to isle {id}, got {targets:?}");
    }
}

#[test]
fn quantity_stays_within_its_distance_tier_band() {
    let world = spread_world();
    for m in generate(&world.islands[0], &world) {
        let dist = distance_m(&world.islands[0], &world.islands[m.target_id as usize]);
        let (lo, hi) = tier_quantity_range(tier_for(dist as i64));
        assert!(
            m.quantity >= lo && m.quantity <= hi,
            "tier-{} contract carried {} units, outside {lo}..={hi}",
            tier_for(dist as i64),
            m.quantity,
        );
    }
}

// --- further cases -----------------------------------------------------------

#[test]
fn the_board_is_the_same_every_time_and_numbers_its_contracts_by_port() {
    let world = spread_world();
    let a = generate(&world.islands[0], &world);
    let b = generate(&world.islands[0], &world);
    assert_eq!(a, b);
    let mut ids: Vec<i32> = a.iter().map(|m| m.id).collect();
    ids.sort();
    assert_eq!(ids, vec![0, 1, 2, 3, 4, 5]);
    for m in a.iter() {
        assert_eq!(m.origin_id, 0);
        assert!(m.target_id != 0);
        assert!(m.reward >= 1);
        assert!(m.deposit >= 1);
    }
    let from_two = generate(&world.islands[2], &world);
    let ids2: Vec<i32> = from_two.iter().map(|m| m.id).collect();
    assert!(ids2.iter().all(|id| (200..206).contains(id)));
}

#[test]
fn a_port_alone_in_its_waters_offers_no_contracts() {
    let world = World {
        seed: 3,
        islands: vec![mk(0, 0, 0), mk(1, 900, 0)],
        clusters: vec![Cluster { id: 0, island_ids: vec![0] }, Cluster { id: 1, island_ids: vec![1] }],
    };
    assert!(generate(&world.islands[0], &world).is_empty());
}

#[test]
fn a_board_short_of_ports_still_targets_every_one() {
    let world = two_port_world();
    let board = generate(&world.islands[0], &world);
    assert_eq!(board.len(), PER_PORT as usize);
    assert!(board.iter().all(|m| m.target_id == 1));
}

#[test]
fn deliveries_and_reservations_split_the_contracts_by_destination() {
    let world = spread_world();
    let mut gs = flush_state();
    let board = offered_at(&gs, &world);
    let to_one: Vec<Mission> = board.iter().copied().filter(|m| m.target_id == 1).collect();
    let elsewhere: Vec<Mission> = board.iter().copied().filter(|m| m.target_id != 1).collect();
    gs.active_missions = board.clone();
    gs.location = Location::Docked(1);
    assert_eq!(deliverable_at(&gs, &world), to_one);
    assert_eq!(reserved_at(&gs, &world), elsewhere);
    assert_eq!(deliverable_at(&gs, &world).len() + reserved_at(&gs, &world).len(), board.len());
    gs.location = Location::Sailing;
    assert!(deliverable_at(&gs, &world).is_empty());
    assert!(reserved_at(&gs, &world).is_empty());
    assert!(offered_at(&gs, &world).is_empty());
}

#[test]
fn taking_and_handing_in_a_contract_nets_its_reward() {
    let world = two_port_world();
    let mut gs = flush_state();
    let contract = offered_at(&gs, &world)[0];
    let gold_before = gs.gold;
    let hold_before = gs.hold_used();
    gs.accept(&world, contract.id).unwrap();
    gs.location = Location::Docked(contract.target_id);
    gs.deliver(&world, contract.id).unwrap();
    assert_eq!(gs.gold, gold_before + contract.reward);
    assert_eq!(gs.hold_used(), hold_before);
    assert_eq!(gs.stats.contracts_fulfilled, 1);
    assert_eq!(gs.stats.contract_earnings, contract.reward as i64);
}

#[test]
fn taking_then_abandoning_a_contract_forfeits_its_deposit() {
    let world = two_port_world();
    let mut gs = flush_state();
    let contract = offered_at(&gs, &world)[0];
    let gold_before = gs.gold;
    gs.accept(&world, contract.id).unwrap();
    gs.abandon(&world, contract.id).unwrap();
    assert_eq!(gs.gold, gold_before - contract.deposit);
    assert!(gs.active_missions.is_empty());
    assert_eq!(gs.quantity_of(contract.good), contract.quantity);
    // Abandoning a contract not held is refused.
    assert_eq!(gs.abandon(&world, contract.id), Err(TradeError::NoSuchMission));
}

#[test]
fn a_battered_hull_may_not_take_a_contract() {
    let world = two_port_world();
    let mut gs = flush_state();
    let contract = offered_at(&gs, &world)[0];
    gs.hull = 10;
    assert_eq!(gs.accept(&world, contract.id), Err(TradeError::HullTooDamaged));
}

#[test]
fn taking_abandoning_and_selling_a_contract_never_pays() {
    let world = spread_world();
    for k in 0..PER_PORT as usize {
        let mut gs = flush_state();
        let contract = offered_at(&gs, &world)[k];
        let gold_before = gs.gold;
        gs.accept(&world, contract.id).unwrap();
        gs.abandon(&world, contract.id).unwrap();
        let market = Market::for_island(&world.islands[0], world.seed);
        gs.dump(&market, contract.good).unwrap();
        let value = contract.quantity * market.price(contract.good);
        assert_eq!(gs.gold, gold_before - contract.deposit + value);
        assert!(10 * gs.gold <= 10 * gold_before - value);
        assert!(gs.gold < gold_before);
    }
}
