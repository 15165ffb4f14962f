use sail::dig_site::{cursor_step, Buried, DigResult, DigSite, CHEST_MAX, CHEST_MIN, CHEST_TILES, COIN_MAX, COIN_MIN, MOVES, TILES};

#[test]
fn field_is_deterministic_in_its_inputs() {
    let a = DigSite::generate(12345, 7, 3);
    let b = DigSite::generate(12345, 7, 3);
    assert_eq!(a.tiles, b.tiles);
    assert_eq!(a.chests.len(), b.chests.len());
}

#[test]
fn a_new_day_reshuffles_the_field() {
    let today = DigSite::generate(12345, 7, 3);
    let tomorrow = DigSite::generate(12345, 7, 4);
    // Overwhelmingly the layouts differ; guard the seed-mixing wiring.
    assert_ne!(today.tiles, tomorrow.tiles);
}

#[test]
fn every_chest_covers_exactly_its_footprint() {
    // Sweep a range of seeds so both orientations and both chest counts show.
    for seed in 0..200i64 {
        let site = DigSite::generate(seed, 1, 1);
        assert!(!site.chests.is_empty(), "a field always hides a chest");
        for (ci, chest) in site.chests.iter().enumerate() {
            let covered = site.tiles.iter().filter(|&&t| t == Buried::Chest(ci)).count();
            assert_eq!(covered, CHEST_TILES);
            assert_eq!(chest.tiles.len(), CHEST_TILES);
        }
    }
}

#[test]
fn a_dig_spends_one_move_and_reveals_the_tile() {
    let mut site = DigSite::generate(1, 1, 1);
    assert_eq!(site.moves_left, MOVES);
    assert!(!site.is_open(0));
    site.dig(0);
    assert_eq!(site.moves_left, MOVES - 1);
    assert!(site.is_open(0));
}

#[test]
fn redigging_an_open_tile_is_a_free_no_op() {
    let mut site = DigSite::generate(1, 1, 1);
    site.dig(0);
    let moves = site.moves_left;
    let gold = site.gold_found;
    assert_eq!(site.dig(0), DigResult::Spent);
    assert_eq!(site.moves_left, moves);
    assert_eq!(site.gold_found, gold);
}

#[test]
fn digging_stops_when_the_budget_is_spent() {
    let mut site = DigSite::generate(1, 1, 1);
    // Dig distinct tiles until out of moves.
    let mut i = 0;
    while !site.finished() {
        site.dig(i);
        i += 1;
    }
    assert_eq!(site.moves_left, 0);
    // A further dig on a fresh tile changes nothing.
    assert_eq!(site.dig(TILES - 1), DigResult::Spent);
    assert!(!site.is_open(TILES - 1));
}

#[test]
fn a_coin_banks_its_gold_once() {
    let mut site = DigSite::generate(1, 1, 1);
    let coin = (0..TILES)
        .find(|&t| matches!(site.tiles[t], Buried::Coin(_)))
        .expect("a field scatters coins");
    let value = match site.tiles[coin] {
        Buried::Coin(v) => v,
        _ => unreachable!(),
    };
    assert_eq!(site.dig(coin), DigResult::Coin(value));
    assert_eq!(site.gold_found, value);
}

#[test]
fn a_chest_pays_only_once_every_tile_is_cleared() {
    // Give the field a generous budget: dig the six chest tiles directly and
    // confirm the reward lands on the last one.
    let mut site = DigSite::generate(1, 1, 1);
    let chest = site.chests[0].clone();
    for (n, &t) in chest.tiles.iter().enumerate() {
        // Ensure we never run dry mid-excavation for this accounting test.
        site.moves_left = MOVES;
        let result = site.dig(t);
        if n + 1 < CHEST_TILES {
            assert_eq!(result, DigResult::ChestPiece);
            assert_eq!(site.gold_found, 0, "no gold until the chest is finished");
        } else {
            assert_eq!(result, DigResult::ChestClaimed(chest.reward));
            assert_eq!(site.gold_found, chest.reward);
            assert!(site.chests[0].claimed);
        }
    }
}

// --- further cases -----------------------------------------------------------

#[test]
fn every_field_hides_one_or_two_chests_and_keeps_its_purse_in_bounds() {
    for seed in 0..100i64 {
        let site = DigSite::generate(seed, 3, 9);
        assert!(site.chests.len() == 1 || site.chests.len() == 2);
        for t in site.tiles.iter() {
            if let Buried::Coin(g) = t {
                assert!(COIN_MIN <= *g && *g <= COIN_MAX);
            }
        }
        for c in site.chests.iter() {
            assert!(CHEST_MIN <= c.reward && c.reward <= CHEST_MAX);
            assert!(!c.claimed);
        }
        assert_eq!(site.gold_found, 0);
        assert_eq!(site.moves_left, MOVES);
        assert!(site.revealed.iter().all(|r| !r));
    }
}

#[test]
fn buried_at_reports_the_tile_whether_or_not_it_is_open() {
    let mut site = DigSite::generate(5, 2, 2);
    let before = site.buried_at(4);
    site.dig(4);
    assert_eq!(site.buried_at(4), before);
    assert_eq!(site.buried_at(4), site.tiles[4]);
}

#[test]
fn gold_found_is_the_coins_and_claimed_chests_dug() {
    let mut site = DigSite::generate(77, 4, 11);
    let mut expected = 0;
    for t in 0..(MOVES as usize) {
        match site.dig(t) {
            DigResult::Coin(g) => expected += g,
            DigResult::ChestClaimed(g) => expected += g,
            _ => {}
        }
    }
    assert_eq!(site.gold_found, expected);
    assert!(site.finished());
}

#[test]
fn the_cursor_walks_the_grid_and_stops_at_its_edges() {
    // Top-left corner: up and left go nowhere.
    assert_eq!(cursor_step(0, true, false, true, false), 0);
    assert_eq!(cursor_step(0, false, true, false, false), 6);
    assert_eq!(cursor_step(0, false, false, false, true), 1);
    // Bottom-right corner: down and right go nowhere.
    assert_eq!(cursor_step(35, false, true, false, true), 35);
    assert_eq!(cursor_step(35, true, false, true, false), 28);
    // Up and down together cancel out in the middle of the field.
    assert_eq!(cursor_step(14, true, true, false, false), 14);
    // At the top row, up then down lands one row lower.
    assert_eq!(cursor_step(2, true, true, false, false), 8);
}

#[test]
fn a_dig_result_reports_the_gold_it_banks() {
    assert_eq!(DigResult::Coin(30).gold(), 30);
    assert_eq!(DigResult::ChestClaimed(200).gold(), 200);
    assert_eq!(DigResult::ChestPiece.gold(), 0);
    assert_eq!(DigResult::Dirt.gold(), 0);
    assert_eq!(DigResult::Spent.gold(), 0);
}

#[test]
fn every_tile_of_a_fresh_field_is_diggable() {
    let site = DigSite::generate(9, 9, 9);
    for t in 0..TILES {
        assert!(site.diggable(t));
    }
}

#[test]
fn chests_lie_in_blocks_and_coins_number_at_most_nine() {
    for seed in 0..150i64 {
        let site = DigSite::generate(seed, 2, 5);
        let coins = site.tiles.iter().filter(|t| matches!(t, Buried::Coin(_))).count();
        assert!(coins <= 9);
        for chest in site.chests.iter() {
            let rows: Vec<usize> = chest.tiles.iter().map(|t| t / 6).collect();
            let cols: Vec<usize> = chest.tiles.iter().map(|t| t % 6).collect();
            let (r0, r1) = (*rows.iter().min().unwrap(), *rows.iter().max().unwrap());
            let (c0, c1) = (*cols.iter().min().unwrap(), *cols.iter().max().unwrap());
            let (h, w) = (r1 - r0 + 1, c1 - c0 + 1);
            assert!((h, w) == (3, 2) || (h, w) == (2, 3));
        }
    }
}

#[test]
fn a_tile_is_open_exactly_when_a_dig_on_it_turned_something_up() {
    let mut site = DigSite::generate(3, 3, 3);
    let order = [4usize, 4, 9, 0, 9, 17, 1, 2, 3, 5, 6, 7, 8, 10, 11];
    let mut made = 0;
    let mut found = Vec::new();
    for &t in order.iter() {
        let r = site.dig(t);
        if r != DigResult::Spent {
            made += 1;
            found.push(t);
        }
    }
    assert_eq!(made, MOVES as usize);
    assert!(site.finished());
    for t in 0..TILES {
        assert_eq!(site.is_open(t), found.contains(&t));
    }
}
