//! The scenery that dresses each island, as far as the rules read it: the kinds
//! of feature a mound can carry and the names of the scenery-density levels the
//! performance setting offers. Placing the features is the renderer's work.
use vstd::prelude::*;

verus! {

/// Scenery-density levels offered by the performance setting; the scatters are
/// tuned at level 2 (`Medium`).
pub const DENSITY_LEVELS: usize = 5;

/// The on-screen name of density level `level`; anything past the top reads as
/// the top.
pub open spec fn density_name(level: int) -> Seq<char> {
    if level == 0 {
        "Very Low"@
    } else if level == 1 {
        "Low"@
    } else if level == 2 {
        "Medium"@
    } else if level == 3 {
        "High"@
    } else {
        "Very High"@
    }
}

/// The on-screen name of a density level (`0..DENSITY_LEVELS`).
pub fn density_label(level: usize) -> (s: &'static str)
    ensures
        s@ == density_name(level as int),
{
    match level {
        0 => "Very Low",
        1 => "Low",
        2 => "Medium",
        3 => "High",
        _ => "Very High",
    }
}

/// A kind of scenery standing on an island.
#[derive(Clone, Copy, Debug, PartialEq, Eq, Structural)]
pub enum FeatureKind {
    Tree,
    Palm,
    Pine,
    Fern,
    Bush,
    Rock,
    Ruin,
    Hut,
    Cottage,
    Tower,
    Dock,
    Flag,
    Shipwreck,
    // Foliage and ground cover.
    DeadTree,
    FlowerPatch,
    Reeds,
    Cactus,
    FallenLog,
    // Stone: piled, standing, and molten.
    Cairn,
    StoneArch,
    LavaVent,
    // Human traces beyond the harbour.
    Campfire,
    Windmill,
    Lighthouse,
}

} // verus!
