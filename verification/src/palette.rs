use vstd::prelude::*;

verus! {

/// The time of day at sea, on a single dawn→day→dusk→night cycle.
#[derive(Clone, Copy, Debug, PartialEq, Eq, Structural)]
pub enum Daytime {
    Dawn,
    Day,
    Dusk,
    Night,
}

impl Daytime {
    /// The on-screen name of the phase.
    pub open spec fn label_spec(self) -> Seq<char> {
        match self {
            Daytime::Dawn => "Dawn"@,
            Daytime::Day => "Day"@,
            Daytime::Dusk => "Dusk"@,
            Daytime::Night => "Night"@,
        }
    }

    pub fn label(self) -> (s: &'static str)
        ensures
            s@ == self.label_spec(),
    {
        match self {
            Daytime::Dawn => "Dawn",
            Daytime::Day => "Day",
            Daytime::Dusk => "Dusk",
            Daytime::Night => "Night",
        }
    }
}

} // verus!
