use sail::game_state::{GameState, Location};
use sail::race::Race;
use sail::voyage::{frame_fits_check, step, FrameInput, Voyage};

fn calm() -> FrameInput {
    FrameInput {
        sail_up: false,
        sail_down: false,
        set_sail: false,
        dock: false,
        port_in_range: None,
        alongside: false,
        still: false,
        reached_mark: false,
        rival_reached_mark: false,
        salvage_gold: 0,
        new_day: false,
        blow: false,
    }
}

fn at_sea() -> Voyage {
    Voyage { gs: GameState::start(), sail_mode: 0, rival_out: false, race_ready: false, race_running: false, days: 0 }
}

#[test]
fn the_sail_steps_a_notch_each_press_between_struck_and_full() {
    let mut v = at_sea();
    let up = FrameInput { sail_up: true, ..calm() };
    let a = step(&mut v, up);
    assert_eq!(v.sail_mode, 1);
    assert!(a.sail_raised && !a.sail_lowered);
    step(&mut v, up);
    let a = step(&mut v, up);
    assert_eq!(v.sail_mode, 2);
    assert!(!a.sail_raised);
    let down = FrameInput { sail_down: true, ..calm() };
    step(&mut v, down);
    step(&mut v, down);
    let a = step(&mut v, down);
    assert_eq!(v.sail_mode, 0);
    assert!(!a.sail_lowered);
}

#[test]
fn the_ship_ties_up_only_with_sails_struck_and_a_port_in_range() {
    let mut v = at_sea();
    v.sail_mode = 1;
    let dock = FrameInput { dock: true, port_in_range: Some(3), ..calm() };
    let a = step(&mut v, dock);
    assert!(!a.docked);
    assert_eq!(v.gs.location, Location::Sailing);
    v.sail_mode = 0;
    let a = step(&mut v, FrameInput { dock: true, ..calm() });
    assert!(!a.docked);
    let a = step(&mut v, dock);
    assert!(a.docked);
    assert_eq!(v.gs.location, Location::Docked(3));
    // In port the board owns the helm: sail presses do nothing.
    step(&mut v, FrameInput { sail_up: true, ..calm() });
    assert_eq!(v.sail_mode, 0);
    let a = step(&mut v, FrameInput { set_sail: true, ..calm() });
    assert!(a.cast_off);
    assert_eq!(v.gs.location, Location::Sailing);
}

fn booked() -> Voyage {
    let mut v = at_sea();
    v.gs.location = Location::Docked(0);
    v.gs.gold = 120;
    v.gs.race = Some(Race { origin_id: 0, target_id: 1, stake: 80, required_level: 0 });
    v
}

#[test]
fn a_race_waits_for_the_captain_alongside_and_hove_to_then_fires_on_raising_sail() {
    let mut v = booked();
    let a = step(&mut v, FrameInput { set_sail: true, ..calm() });
    assert!(a.cast_off && a.rival_called);
    assert!(v.rival_out && !v.race_ready && !v.race_running);
    // Raising sail away from the rival fires nothing.
    step(&mut v, FrameInput { sail_up: true, ..calm() });
    assert!(!v.race_running);
    step(&mut v, FrameInput { sail_down: true, ..calm() });
    // Alongside but still moving: not yet ready.
    step(&mut v, FrameInput { alongside: true, ..calm() });
    assert!(!v.race_ready);
    // Alongside, struck and dead slow: ready.
    step(&mut v, FrameInput { alongside: true, still: true, ..calm() });
    assert!(v.race_ready && !v.race_running);
    let a = step(&mut v, FrameInput { alongside: true, sail_up: true, ..calm() });
    assert!(a.gun_fired);
    assert!(v.race_running);
}

#[test]
fn a_running_race_is_won_at_the_mark_and_lost_to_the_rival() {
    let mut v = booked();
    step(&mut v, FrameInput { set_sail: true, ..calm() });
    step(&mut v, FrameInput { alongside: true, still: true, ..calm() });
    step(&mut v, FrameInput { alongside: true, sail_up: true, ..calm() });
    let a = step(&mut v, FrameInput { reached_mark: true, rival_reached_mark: true, ..calm() });
    assert!(a.race_won && !a.race_lost);
    assert_eq!(v.gs.gold, 120 + 160);
    assert_eq!(v.gs.stats.races_won, 1);
    assert!(v.gs.race.is_none() && !v.rival_out && !v.race_running);

    let mut v = booked();
    step(&mut v, FrameInput { set_sail: true, ..calm() });
    step(&mut v, FrameInput { alongside: true, still: true, ..calm() });
    step(&mut v, FrameInput { alongside: true, sail_up: true, ..calm() });
    let a = step(&mut v, FrameInput { rival_reached_mark: true, ..calm() });
    assert!(a.race_lost);
    assert_eq!(v.gs.gold, 120);
    assert_eq!(v.gs.stats.race_winnings, -80);
}

#[test]
fn a_race_cleared_in_port_retires_the_rival() {
    let mut v = booked();
    step(&mut v, FrameInput { set_sail: true, ..calm() });
    v.gs.race = None;
    let a = step(&mut v, calm());
    assert!(a.rival_retired);
    assert!(!v.rival_out);
}

#[test]
fn salvage_banks_days_count_and_a_blow_staves_in_a_tenth_of_the_hull() {
    let mut v = at_sea();
    let input = FrameInput { salvage_gold: 28, new_day: true, blow: true, ..calm() };
    assert!(frame_fits_check(&v, &input));
    step(&mut v, input);
    assert_eq!(v.gs.gold, 200 + 28);
    assert_eq!(v.days, 1);
    assert_eq!(v.gs.hull, 180 - 18);
    assert_eq!(v.gs.hull_wear, 0);
    v.gs.gold = i32::MAX - 5;
    assert!(!frame_fits_check(&v, &input));
}
