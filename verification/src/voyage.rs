//! The per-frame decisions of a voyage: the sail notch, casting off and
//! tying up, the start and settlement of a booked race, salvage banked to the
//! purse, the day count and the hull blow. The frame loop measures the world
//! (where the ship is, what is in range, who reached the mark) and hands the
//! answers in as plain values; [`step`] decides what they mean for the voyage
//! and reports what happened, for the loop to sound and show.
use vstd::prelude::*;

use crate::game_state::{max_hull_of, GameState, Location, Stats};

verus! {

/// The top sail notch: 0 is struck, 1 half sail, 2 full sail.
pub const TOP_SAIL: u8 = 2;

/// What a voyage keeps from frame to frame besides the persisted state: the
/// sail notch, whether the racing rival is on the water, the race's start
/// phases (alongside and hove to, then the gun), and the days passed.
#[derive(Clone, Debug)]
pub struct Voyage {
    pub gs: GameState,
    pub sail_mode: u8,
    /// The rival of a booked race is on the water.
    pub rival_out: bool,
    /// The captain has drawn up alongside the rival and hove to.
    pub race_ready: bool,
    /// The gun has fired: the race is on.
    pub race_running: bool,
    pub days: u32,
}

/// What the frame loop measured this frame.
#[derive(Clone, Copy, Debug)]
pub struct FrameInput {
    /// The raise-sail key was pressed.
    pub sail_up: bool,
    /// The lower-sail key was pressed.
    pub sail_down: bool,
    /// The port board asked to put to sea.
    pub set_sail: bool,
    /// The dock key was pressed.
    pub dock: bool,
    /// The port the bow is pointed at within docking range, if any.
    pub port_in_range: Option<i32>,
    /// The ship lies within starting range of the rival.
    pub alongside: bool,
    /// The ship is dead slow.
    pub still: bool,
    /// The ship reached the race's mark.
    pub reached_mark: bool,
    /// The rival reached the race's mark.
    pub rival_reached_mark: bool,
    /// Gold scooped aboard from salvage this frame.
    pub salvage_gold: i32,
    /// The clock rolled over into a new day.
    pub new_day: bool,
    /// The hull-blow key was pressed (stave in a tenth of a full hull).
    pub blow: bool,
}

/// What happened this frame, for the loop to sound and show.
#[derive(Clone, Copy, Debug, PartialEq, Eq, Structural)]
pub struct FrameAction {
    pub sail_raised: bool,
    pub sail_lowered: bool,
    pub cast_off: bool,
    pub docked: bool,
    /// The rival was called up alongside: the loop places it on the water.
    pub rival_called: bool,
    pub gun_fired: bool,
    pub race_won: bool,
    pub race_lost: bool,
    /// The race was cleared (withdrawn at a port): the loop retires the rival.
    pub rival_retired: bool,
}

/// The sail notch after a frame's presses: up a notch (stopping at full), then
/// down a notch (stopping at struck).
pub open spec fn next_sail(mode: int, up: bool, down: bool) -> int {
    let raised = if up && mode < TOP_SAIL { mode + 1 } else { mode };
    if down && raised > 0 {
        raised - 1
    } else {
        raised
    }
}

/// The hull left after a blow of a tenth of a full hull (rounded up), never
/// below a wreck.
pub open spec fn blown(hull: int, max_hull: int) -> int {
    let blow = (max_hull + 9) / 10;
    if hull - blow > 0 {
        hull - blow
    } else {
        0
    }
}

/// The captain is at sea this frame.
pub open spec fn at_sea(v: Voyage) -> bool {
    v.gs.location == Location::Sailing
}

/// A running race is won this frame: the ship reached the mark.
pub open spec fn wins_now(v: Voyage, input: FrameInput) -> bool {
    at_sea(v) && v.gs.race is Some && v.rival_out && v.race_running && input.reached_mark
}

/// A running race is lost this frame: the rival reached the mark first.
pub open spec fn loses_now(v: Voyage, input: FrameInput) -> bool {
    at_sea(v) && v.gs.race is Some && v.rival_out && v.race_running && !input.reached_mark
        && input.rival_reached_mark
}

/// The race waiting for its gun, with the sail notch after this frame's
/// presses: whether the captain is alongside and hove to after this frame.
/// Readiness is armed by drawing up alongside with sails struck and dead slow,
/// and lost by drawing away.
pub open spec fn ready_after(v: Voyage, input: FrameInput, sail: int) -> bool {
    if !v.race_ready {
        input.alongside && sail == 0 && input.still
    } else {
        input.alongside
    }
}

/// The gun fires this frame: the rival waits at the line, the captain is
/// alongside and hove to, and sail is raised.
pub open spec fn gun_now(v: Voyage, input: FrameInput) -> bool {
    let sail = next_sail(v.sail_mode as int, input.sail_up, input.sail_down);
    at_sea(v) && v.gs.race is Some && v.rival_out && !v.race_running && ready_after(v, input, sail) && sail > 0
}

/// The gold banked from salvage this frame.
pub open spec fn salvage_banked(v: Voyage, input: FrameInput) -> int {
    if at_sea(v) && input.salvage_gold > 0 {
        input.salvage_gold as int
    } else {
        0
    }
}

/// The frame stays within the purse's and the ledger's bounds.
pub open spec fn frame_fits(v: Voyage, input: FrameInput) -> bool {
    &&& v.gs.gold + salvage_banked(v, input) <= i32::MAX
    &&& v.gs.race matches Some(r) ==> {
        &&& v.gs.gold + salvage_banked(v, input) + 2 * r.stake <= i32::MAX
        &&& v.gs.stats.races_won < u32::MAX
        &&& v.gs.stats.races_lost < u32::MAX
        &&& v.gs.stats.race_winnings + r.stake <= i64::MAX
        &&& v.gs.stats.race_winnings - r.stake >= i64::MIN
    }
}

/// Whether this frame stays within the purse's and the ledger's bounds.
pub fn frame_fits_check(v: &Voyage, input: &FrameInput) -> (b: bool)
    ensures
        b == frame_fits(*v, *input),
{
    let banked: i64 = if v.gs.location == Location::Sailing && input.salvage_gold > 0 {
        input.salvage_gold as i64
    } else {
        0
    };
    if v.gs.gold as i64 + banked > i32::MAX as i64 {
        return false;
    }
    match v.gs.race {
        None => true,
        Some(r) => {
            v.gs.gold as i64 + banked + 2 * (r.stake as i64) <= i32::MAX as i64 && v.gs.stats.races_won < u32::MAX
                && v.gs.stats.races_lost < u32::MAX && v.gs.stats.race_winnings as i128 + r.stake as i128
                <= i64::MAX as i128 && v.gs.stats.race_winnings as i128 - r.stake as i128 >= i64::MIN as i128
        },
    }
}

/// The location after a frame: at sea on casting off, at the port in range on
/// tying up, else where it was.
pub open spec fn location_after(before: Voyage, input: FrameInput, action: FrameAction) -> Location {
    if action.cast_off {
        Location::Sailing
    } else if action.docked {
        Location::Docked(input.port_in_range->0)
    } else {
        before.gs.location
    }
}

/// The race leaves the water this frame: called up afresh, settled, or retired.
pub open spec fn race_reset(action: FrameAction) -> bool {
    action.rival_called || action.race_won || action.race_lost || action.rival_retired
}

/// The race phases after a frame: whether the rival is out, the captain ready,
/// and the race running.
pub open spec fn race_phases_after(before: Voyage, input: FrameInput, after_sail: int, action: FrameAction) -> (
    bool,
    bool,
    bool,
) {
    if action.rival_called {
        (true, false, false)
    } else if race_reset(action) {
        (false, false, false)
    } else if at_sea(before) && before.gs.race is Some && before.rival_out && !before.race_running {
        (true, ready_after(before, input, after_sail), action.gun_fired)
    } else {
        (before.rival_out, before.race_ready, before.race_running)
    }
}

/// The ledger after a race of stake `stake` is won, lost, or neither.
pub open spec fn ledger_after(stats: Stats, stake: int, won: bool, lost: bool) -> Stats {
    if won {
        Stats {
            races_won: (stats.races_won + 1) as u32,
            race_winnings: (stats.race_winnings + stake) as i64,
            ..stats
        }
    } else if lost {
        Stats {
            races_lost: (stats.races_lost + 1) as u32,
            race_winnings: (stats.race_winnings - stake) as i64,
            ..stats
        }
    } else {
        stats
    }
}

/// The ledger after a frame: a won race counts a win and banks its stake as
/// winnings, a lost one counts a loss and writes its stake off, else unchanged.
pub open spec fn stats_after(before: Voyage, action: FrameAction) -> Stats {
    ledger_after(before.gs.stats, before.gs.race->0.stake as int, action.race_won, action.race_lost)
}

/// The report of a frame at sea that neither casts off, ties up nor moves the
/// sail, with the given race events.
pub open spec fn race_report(gun: bool, won: bool, lost: bool, retired: bool) -> FrameAction {
    FrameAction {
        sail_raised: false,
        sail_lowered: false,
        cast_off: false,
        docked: false,
        rival_called: false,
        gun_fired: gun,
        race_won: won,
        race_lost: lost,
        rival_retired: retired,
    }
}

/// `after` and `action` are what one frame of [`step`] makes of `before` on
/// `input`.
pub open spec fn stepped(before: Voyage, input: FrameInput, after: Voyage, action: FrameAction) -> bool {
    let sail = if at_sea(before) { next_sail(before.sail_mode as int, input.sail_up, input.sail_down) } else { 0 };
    // The sail.
    &&& after.sail_mode == sail
    &&& action.sail_raised == (at_sea(before) && sail > before.sail_mode)
    &&& action.sail_lowered == (at_sea(before) && sail < before.sail_mode)
    // Casting off and tying up.
    &&& action.cast_off == (!at_sea(before) && input.set_sail)
    &&& action.docked == (at_sea(before) && input.dock && sail == 0 && input.port_in_range is Some)
    &&& after.gs.location == location_after(before, input, action)
    // The race.
    &&& action.rival_called == (action.cast_off && before.gs.race is Some && !before.rival_out)
    &&& action.race_won == wins_now(before, input)
    &&& action.race_lost == loses_now(before, input)
    &&& action.gun_fired == gun_now(before, input)
    &&& action.rival_retired == (at_sea(before) && before.gs.race is None && before.rival_out)
    &&& (after.rival_out, after.race_ready, after.race_running) == race_phases_after(before, input, sail, action)
    // The purse and the ledger.
    &&& after.gs.gold == before.gs.gold + salvage_banked(before, input) + (if action.race_won {
        2 * before.gs.race->0.stake
    } else {
        0
    })
    &&& after.gs.stats == stats_after(before, action)
    &&& after.gs.race == (if action.race_won || action.race_lost { None } else { before.gs.race })
    // The hull.
    &&& after.gs.hull == (if at_sea(before) && input.blow {
        blown(before.gs.hull as int, max_hull_of(before.gs.hull_level as int))
    } else {
        before.gs.hull as int
    })
    &&& after.gs.hull_wear == (if at_sea(before) && input.blow { 0 } else { before.gs.hull_wear })
    // Nothing else moves.
    &&& after.gs.cargo@ == before.gs.cargo@
    &&& after.gs.active_missions@ == before.gs.active_missions@
    &&& after.gs.hold_capacity == before.gs.hold_capacity
    &&& after.gs.hull_level == before.gs.hull_level
    &&& after.gs.sail_level == before.gs.sail_level
    // The day count.
    &&& after.days == (if input.new_day && before.days < u32::MAX { before.days + 1 } else { before.days as int })
}

/// One frame of the voyage's decisions.
///
/// In port the board owns the helm: the sails lie struck, and when the board
/// puts to sea the captain casts off (calling a booked race's rival up
/// alongside, once). At sea the sail steps a notch on each press; salvage gold
/// is banked; a booked race waits at the line until the captain draws up
/// alongside and heaves to, fires its gun when sail is raised, and settles when
/// the ship (won) or else the rival (lost) reaches the mark; a race cleared in
/// port retires the rival. The captain ties up only with sails struck and a
/// port in range. The day count and the hull blow close the frame.
/// The sail notch after a frame's presses.
fn sail_step(mode: u8, up: bool, down: bool) -> (next: u8)
    requires
        mode <= TOP_SAIL,
    ensures
        next == next_sail(mode as int, up, down),
        next <= TOP_SAIL,
{
    let mut m = mode;
    if up && m < TOP_SAIL {
        m = m + 1;
    }
    if down && m > 0 {
        m = m - 1;
    }
    m
}

/// A booked race's progress at sea this frame, with the sail at `sail`:
/// `(rival out, ready, running, gun fired, won, lost, rival retired)`.
fn race_step(v: &Voyage, input: &FrameInput, sail: u8) -> (r: (bool, bool, bool, bool, bool, bool, bool))
    requires
        at_sea(*v),
        sail as int == next_sail(v.sail_mode as int, input.sail_up, input.sail_down),
    ensures
        r.3 == gun_now(*v, *input),
        r.4 == wins_now(*v, *input),
        r.5 == loses_now(*v, *input),
        r.6 == (v.gs.race is None && v.rival_out),
        (r.0, r.1, r.2) == race_phases_after(*v, *input, sail as int, race_report(r.3, r.4, r.5, r.6)),
{
    if v.gs.race.is_some() {
        if v.rival_out {
            if v.race_running {
                if input.reached_mark {
                    (false, false, false, false, true, false, false)
                } else if input.rival_reached_mark {
                    (false, false, false, false, false, true, false)
                } else {
                    (true, v.race_ready, true, false, false, false, false)
                }
            } else {
                // The start is armed once the captain draws up alongside and heaves
                // to, and the gun fires the moment sail is raised.
                let ready = if !v.race_ready {
                    input.alongside && sail == 0 && input.still
                } else {
                    input.alongside
                };
                let gun = ready && sail > 0;
                (true, ready, gun, gun, false, false, false)
            }
        } else {
            (v.rival_out, v.race_ready, v.race_running, false, false, false, false)
        }
    } else if v.rival_out {
        // The race was cleared (withdrawn at a port): retire the rival.
        (false, false, false, false, false, false, true)
    } else {
        (v.rival_out, v.race_ready, v.race_running, false, false, false, false)
    }
}

/// The persisted state's share of a frame at sea: salvage banked, a race
/// settled, the ship tied up, the hull blown.
fn settle_at_sea(gs: &mut GameState, banked: i32, won: bool, lost: bool, dock_to: Option<i32>, blow: bool)
    requires
        old(gs).sane(),
        banked >= 0,
        old(gs).gold + banked <= i32::MAX,
        !(won && lost),
        won || lost ==> old(gs).race is Some,
        old(gs).race matches Some(r) ==> {
            &&& old(gs).gold + banked + 2 * r.stake <= i32::MAX
            &&& old(gs).stats.races_won < u32::MAX
            &&& old(gs).stats.races_lost < u32::MAX
            &&& old(gs).stats.race_winnings + r.stake <= i64::MAX
            &&& old(gs).stats.race_winnings - r.stake >= i64::MIN
        },
    ensures
        final(gs).sane(),
        final(gs).gold == old(gs).gold + banked + (if won { 2 * old(gs).race->0.stake } else { 0 }),
        final(gs).stats == ledger_after(old(gs).stats, old(gs).race->0.stake as int, won, lost),
        final(gs).race == (if won || lost { None } else { old(gs).race }),
        final(gs).location == (match dock_to {
            Some(id) => Location::Docked(id),
            None => old(gs).location,
        }),
        final(gs).hull == (if blow {
            blown(old(gs).hull as int, max_hull_of(old(gs).hull_level as int))
        } else {
            old(gs).hull as int
        }),
        final(gs).hull_wear == (if blow { 0 } else { old(gs).hull_wear }),
        final(gs).cargo@ == old(gs).cargo@,
        final(gs).active_missions@ == old(gs).active_missions@,
        final(gs).hold_capacity == old(gs).hold_capacity,
        final(gs).hull_level == old(gs).hull_level,
        final(gs).sail_level == old(gs).sail_level,
{
    if banked > 0 {
        gs.bank(banked);
    }
    if won {
        gs.win_race();
    } else if lost {
        gs.lose_race();
    }
    if let Some(id) = dock_to {
        gs.location = Location::Docked(id);
    }
    if blow {
        let full = gs.max_hull();
        let b = (full + 9) / 10;
        gs.hull = if gs.hull - b > 0 { gs.hull - b } else { 0 };
        gs.hull_wear = 0;
    }
}

pub fn step(v: &mut Voyage, input: FrameInput) -> (action: FrameAction)
    requires
        old(v).gs.sane(),
        old(v).sail_mode <= TOP_SAIL,
        frame_fits(*old(v), input),
    ensures
        final(v).gs.sane(),
        final(v).sail_mode <= TOP_SAIL,
        stepped(*old(v), input, *final(v), action),
{
    let mut action = FrameAction {
        sail_raised: false,
        sail_lowered: false,
        cast_off: false,
        docked: false,
        rival_called: false,
        gun_fired: false,
        race_won: false,
        race_lost: false,
        rival_retired: false,
    };
    if input.new_day && v.days < u32::MAX {
        v.days = v.days + 1;
    }
    if v.gs.location != Location::Sailing {
        // The port board owns the helm: the ship lies with sails struck.
        v.sail_mode = 0;
        if input.set_sail {
            v.gs.location = Location::Sailing;
            action.cast_off = true;
            // A booked race begins the instant the captain sets sail: bring the
            // rival up alongside, once.
            if v.gs.race.is_some() && !v.rival_out {
                v.rival_out = true;
                v.race_ready = false;
                v.race_running = false;
                action.rival_called = true;
            }
        }
        return action;
    }
    let sail = sail_step(v.sail_mode, input.sail_up, input.sail_down);
    let (out, ready, running, gun, won, lost, retired) = race_step(v, &input, sail);
    action.sail_raised = sail > v.sail_mode;
    action.sail_lowered = sail < v.sail_mode;
    action.gun_fired = gun;
    action.race_won = won;
    action.race_lost = lost;
    action.rival_retired = retired;
    // Tie up only with sails struck and a port in range.
    let dock_to = if input.dock && sail == 0 { input.port_in_range } else { None };
    action.docked = dock_to.is_some();
    let banked = if input.salvage_gold > 0 { input.salvage_gold } else { 0 };
    settle_at_sea(&mut v.gs, banked, won, lost, dock_to, input.blow);
    v.sail_mode = sail;
    v.rival_out = out;
    v.race_ready = ready;
    v.race_running = running;
    action
}

} // verus!
