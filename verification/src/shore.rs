//! Going ashore on a wild isle: the offer to land, the open dig board, and the
//! field handed back, part-dug, when the captain puts to sea again. Which isle
//! lies in range and off the bow is the helm's geometry; the handshake is here.
use vstd::prelude::*;

use crate::dig_site::DigSite;
use crate::world::World;

verus! {

/// The dig board while ashore: the isle, its field and the board's cursor.
pub struct DigScreen {
    pub island_id: i32,
    pub site: DigSite,
    /// The keyboard/d-pad cursor, a tile index.
    pub cursor: usize,
}

/// The shore handshake and the open dig board, if any.
pub struct Shore {
    /// The isle in range and ahead this frame, eligible to land on (id).
    pub landable: Option<i32>,
    /// The open dig board, while ashore.
    pub screen: Option<DigScreen>,
}

impl Shore {
    pub fn new() -> (shore: Shore)
        ensures
            shore.landable is None,
            shore.screen is None,
    {
        Shore { landable: None, screen: None }
    }

    /// Whether a dig board is open.
    pub fn is_open(&self) -> (b: bool)
        ensures
            b == self.screen is Some,
    {
        self.screen.is_some()
    }

    /// Offer the isle in range and off the bow this frame (`in_reach`), unless
    /// `blocked` (a port is dockable here), so the shore prompt never fights the
    /// docking prompt. Whether today's dig is used up plays no part: the offer
    /// shows whenever the bow is close and facing.
    pub fn update_landable(&mut self, in_reach: Option<i32>, blocked: bool)
        ensures
            final(self).landable == (if blocked { None } else { in_reach }),
            final(self).screen == old(self).screen,
    {
        self.landable = if blocked { None } else { in_reach };
    }

    /// Go ashore on the landable isle and open its field. `resume` is today's
    /// field as left by an earlier visit, if any; passing it back picks up right
    /// where the captain left off instead of reshuffling a fresh one, so leaving
    /// and returning can't dig the same tiles twice. Returns the isle's id if
    /// the captain landed.
    pub fn try_land(&mut self, world: &World, day: u32, resume: Option<DigSite>) -> (landed: Option<i32>)
        ensures
            match old(self).landable {
                None => landed is None && final(self).landable is None && final(self).screen == old(self).screen,
                Some(id) => {
                    &&& landed == Some(id)
                    &&& final(self).landable is None
                    &&& final(self).screen matches Some(board) && {
                        &&& board.island_id == id
                        &&& board.cursor == 0
                        &&& match resume {
                            Some(site) => board.site == site,
                            None => board.site.is_fresh(world.seed, id, day),
                        }
                    }
                },
            },
    {
        let id = match self.landable {
            Some(id) => id,
            None => return None,
        };
        let site = match resume {
            Some(site) => site,
            None => DigSite::generate(world.seed, id, day),
        };
        self.landable = None;
        self.screen = Some(DigScreen { island_id: id, site, cursor: 0 });
        Some(id)
    }

    /// Put back to sea: close the board, handing back its isle's id and the
    /// field as left, so today's progress can be saved for a later visit.
    pub fn cast_off(&mut self) -> (left: Option<(i32, DigSite)>)
        ensures
            final(self).screen is None,
            final(self).landable == old(self).landable,
            match old(self).screen {
                None => left is None,
                Some(board) => left == Some((board.island_id, board.site)),
            },
    {
        match self.screen.take() {
            Some(board) => Some((board.island_id, board.site)),
            None => None,
        }
    }
}

} // verus!
