use sail::dig_site::MOVES;
use sail::shore::Shore;
use sail::world::{Cluster, Island, World};

fn one_isle_world() -> World {
    let isle = Island { id: 0, x: 0, y: 0, is_port: false, is_shipyard: false };
    World { seed: 1, islands: vec![isle], clusters: vec![Cluster { id: 0, island_ids: vec![0] }] }
}

// The ship parked in range of the isle with her bow on it: the helm offers it.
fn at(shore: &mut Shore) {
    shore.update_landable(Some(0), false);
}

// Landing and leaving must not permanently blank the prompt. Still in range and
// facing the isle, the captain can go straight back ashore.
#[test]
fn can_re_enter_the_shore_right_after_casting_off() {
    let world = one_isle_world();
    let mut shore = Shore::new();

    at(&mut shore);
    assert!(shore.landable.is_some(), "approach should offer to land");

    assert!(shore.try_land(&world, 1, None).is_some());
    let (id, _site) = shore.cast_off().expect("a dig was open");

    at(&mut shore);
    assert!(shore.landable == Some(id), "facing the isle in range should offer to land again immediately");
    assert!(shore.try_land(&world, 1, None).is_some(), "and the captain can go ashore again");
}

// Resuming a field must not undo digging done on an earlier visit: leaving and
// coming back should find the same tiles open with the same moves left, not a
// fresh reshuffle.
#[test]
fn resuming_a_field_keeps_its_progress() {
    let world = one_isle_world();
    let mut shore = Shore::new();

    at(&mut shore);
    shore.try_land(&world, 1, None);
    shore.screen.as_mut().unwrap().site.dig(0);
    let (_id, site) = shore.cast_off().unwrap();
    let moves_after_one_dig = site.moves_left;
    assert!(site.is_open(0), "the dug tile stays revealed");
    assert_eq!(moves_after_one_dig, MOVES - 1);

    at(&mut shore);
    shore.try_land(&world, 1, Some(site));
    let resumed = &shore.screen.as_ref().unwrap().site;
    assert!(resumed.is_open(0), "the resumed field remembers the dug tile");
    assert_eq!(resumed.moves_left, moves_after_one_dig, "and the spent move stays spent");
}

// --- further cases -----------------------------------------------------------

#[test]
fn no_landing_is_offered_beside_a_dockable_port_or_out_of_reach() {
    let world = one_isle_world();
    let mut shore = Shore::new();
    shore.update_landable(Some(0), true);
    assert_eq!(shore.landable, None);
    assert_eq!(shore.try_land(&world, 1, None), None);
    assert!(!shore.is_open());
    shore.update_landable(None, false);
    assert_eq!(shore.try_land(&world, 1, None), None);
    assert!(shore.cast_off().is_none());
}

#[test]
fn a_fresh_landing_opens_the_field_of_the_day_with_the_cursor_home() {
    let world = one_isle_world();
    let mut shore = Shore::new();
    at(&mut shore);
    assert_eq!(shore.try_land(&world, 4, None), Some(0));
    assert!(shore.is_open());
    assert_eq!(shore.landable, None);
    let board = shore.screen.as_ref().unwrap();
    assert_eq!(board.cursor, 0);
    assert_eq!(board.site.tiles, sail::dig_site::DigSite::generate(1, 0, 4).tiles);
}
