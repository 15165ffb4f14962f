use sail::device::{hint, update};
use sail::isle_features::{density_label, FeatureKind, DENSITY_LEVELS};
use sail::palette::Daytime;
use sail::race::required_level_for;
use sail::rng::Rng;
use sail::world::{distance_m, isqrt, Island};

#[test]
fn the_device_follows_whichever_input_fired_last() {
    assert!(update(false, false, true));
    assert!(!update(true, true, false));
    assert!(update(true, false, false));
    assert!(!update(false, false, false));
    // The pad wins a frame in which both fired.
    assert!(update(false, true, true));
    assert_eq!(hint(false, "Enter", "A"), "Enter");
    assert_eq!(hint(true, "Enter", "A"), "A");
}

#[test]
fn density_levels_are_named_and_the_top_absorbs_the_rest() {
    assert_eq!(DENSITY_LEVELS, 5);
    assert_eq!(density_label(0), "Very Low");
    assert_eq!(density_label(2), "Medium");
    assert_eq!(density_label(4), "Very High");
    assert_eq!(density_label(9), "Very High");
    assert_ne!(FeatureKind::Dock, FeatureKind::Shipwreck);
}

#[test]
fn the_hull_a_leg_demands_steps_at_each_rung() {
    assert_eq!(required_level_for(3_999), 0);
    assert_eq!(required_level_for(4_000), 1);
    assert_eq!(required_level_for(6_500), 2);
    assert_eq!(required_level_for(8_999), 2);
    assert_eq!(required_level_for(9_000), 3);
    assert_eq!(required_level_for(-7), 0);
}

#[test]
fn distances_are_whole_metres_rounded_down() {
    assert_eq!(isqrt(0), 0);
    assert_eq!(isqrt(24), 4);
    assert_eq!(isqrt(25), 5);
    assert_eq!(isqrt(u64::MAX), 4_294_967_295);
    let a = Island { id: 0, x: 0, y: 0, is_port: true, is_shipyard: false };
    let b = Island { id: 1, x: 3, y: 4, is_port: true, is_shipyard: false };
    let c = Island { id: 2, x: 1, y: 1, is_port: false, is_shipyard: false };
    assert_eq!(distance_m(&a, &b), 5);
    assert_eq!(distance_m(&a, &c), 1);
}

#[test]
fn a_seeded_stream_repeats_and_stays_in_range() {
    let mut a = Rng::from_seed(31);
    let mut b = Rng::from_seed(31);
    for _ in 0..100 {
        let x = a.int_between(-5, 5);
        assert_eq!(x, b.int_between(-5, 5));
        assert!((-5..5).contains(&x));
        assert!(a.next_u31() < 0x8000_0000);
        b.next_u31();
    }
    let items = [10, 20, 30];
    assert!(items.contains(a.pick(&items)));
}

#[test]
fn every_daytime_has_a_name() {
    assert_eq!(Daytime::Dawn.label(), "Dawn");
}
