use sail::flotsam::{Flotsam, FlotsamField, FlotsamKind, REACH, TARGET};
use sail::rng::Rng;

#[test]
fn collect_near_scoops_an_item_the_ship_sails_over_and_awards_its_gold() {
    let mut field = FlotsamField {
        items: vec![Flotsam { id: 0, x: 100, y: 100, kind: FlotsamKind::Barrel }],
        next_id: 1,
        rng: Rng::from_seed(99),
    };
    let haul = field.collect_near(110, 95, 40);
    assert_eq!(haul.gold, FlotsamKind::Barrel.gold());
    assert_eq!(haul.picked.iter().map(|f| f.id).collect::<Vec<_>>(), vec![0]);
    assert!(field.items.is_empty());
}

#[test]
fn collect_near_leaves_salvage_beyond_reach_untouched() {
    let mut field = FlotsamField {
        items: vec![Flotsam { id: 0, x: 1000, y: 0, kind: FlotsamKind::Crate }],
        next_id: 1,
        rng: Rng::from_seed(99),
    };
    let haul = field.collect_near(0, 0, 40);
    assert_eq!(haul.gold, 0);
    assert!(haul.picked.is_empty());
    assert_eq!(field.items.iter().map(|f| f.id).collect::<Vec<_>>(), vec![0]);
}

#[test]
fn collect_near_takes_only_what_is_in_range() {
    let mut field = FlotsamField {
        items: vec![
            Flotsam { id: 0, x: 5, y: 0, kind: FlotsamKind::Crate },
            Flotsam { id: 1, x: 5000, y: 0, kind: FlotsamKind::Chest },
        ],
        next_id: 2,
        rng: Rng::from_seed(99),
    };
    let haul = field.collect_near(0, 0, 40);
    assert_eq!(haul.picked.iter().map(|f| f.id).collect::<Vec<_>>(), vec![0]);
    assert_eq!(field.items.iter().map(|f| f.id).collect::<Vec<_>>(), vec![1]);
}

#[test]
fn pick_is_weighted_toward_common_salvage() {
    // Over many draws the common crate should outnumber the rare chest.
    let mut rng = Rng::from_seed(123);
    let mut crates = 0;
    let mut chests = 0;
    for _ in 0..2000 {
        match FlotsamKind::pick(&mut rng) {
            FlotsamKind::Crate => crates += 1,
            FlotsamKind::Chest => chests += 1,
            FlotsamKind::Barrel => {}
        }
    }
    assert!(crates > chests);
}

// --- further cases -----------------------------------------------------------

#[test]
fn each_kind_is_worth_its_gold_and_reads_its_name() {
    assert_eq!(FlotsamKind::Crate.gold(), 12);
    assert_eq!(FlotsamKind::Barrel.gold(), 28);
    assert_eq!(FlotsamKind::Chest.gold(), 75);
    assert_eq!(FlotsamKind::Chest.label(), "Chest");
    assert_eq!(TARGET, 3);
}

#[test]
fn a_sweep_sums_every_piece_in_reach_and_keeps_the_rest_in_order() {
    let mut field = FlotsamField::from_seed(4);
    assert!(field.items.is_empty());
    field.items = vec![
        Flotsam { id: 0, x: 30, y: 0, kind: FlotsamKind::Chest },
        Flotsam { id: 1, x: 31, y: 0, kind: FlotsamKind::Crate },
        Flotsam { id: 2, x: 0, y: -18, kind: FlotsamKind::Barrel },
        Flotsam { id: 3, x: 22, y: 22, kind: FlotsamKind::Crate },
        Flotsam { id: 4, x: -900, y: 3, kind: FlotsamKind::Barrel },
    ];
    let haul = field.collect_near(0, 0, REACH);
    // (30, 0) sits exactly on the rim and is taken; (22, 22) is 31.1 m off.
    assert_eq!(haul.picked.iter().map(|f| f.id).collect::<Vec<_>>(), vec![0, 2]);
    assert_eq!(haul.gold, 75 + 28);
    assert_eq!(field.items.iter().map(|f| f.id).collect::<Vec<_>>(), vec![1, 3, 4]);
    assert_eq!(field.next_id, 0);
}

#[test]
fn pick_turns_a_seeded_stream_into_the_same_kinds() {
    let mut a = Rng::from_seed(8);
    let mut b = Rng::from_seed(8);
    for _ in 0..50 {
        assert_eq!(FlotsamKind::pick(&mut a), FlotsamKind::pick(&mut b));
    }
}

#[test]
fn a_negative_reach_scoops_nothing() {
    let mut field = FlotsamField {
        items: vec![Flotsam { id: 0, x: 5, y: 0, kind: FlotsamKind::Crate }, Flotsam { id: 1, x: 0, y: 0, kind: FlotsamKind::Chest }],
        next_id: 2,
        rng: Rng::from_seed(99),
    };
    let haul = field.collect_near(0, 0, -40);
    assert_eq!(haul.gold, 0);
    assert!(haul.picked.is_empty());
    assert_eq!(field.items.iter().map(|f| f.id).collect::<Vec<_>>(), vec![0, 1]);
    // A zero reach takes only what lies exactly under the keel.
    let haul = field.collect_near(0, 0, 0);
    assert_eq!(haul.picked.iter().map(|f| f.id).collect::<Vec<_>>(), vec![1]);
}
