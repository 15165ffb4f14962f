//! The rules of an age-of-sail trading voyage: port markets and the hold,
//! shipyard refits and hull wear, haulage contracts, wager races, the treasure
//! dig ashore, the salvage adrift at sea, and the per-frame decisions of the
//! helm. Every generator is seeded, so a given chart always rolls the same
//! dice.
use vstd::prelude::*;

pub mod palette;
pub mod rng;
pub mod dig_site;
pub mod world;
pub mod race;
pub mod mission;
pub mod game_state;
pub mod flotsam;
pub mod isle_features;
pub mod device;
pub mod shore;
pub mod voyage;
pub mod laws;

verus! {
}
