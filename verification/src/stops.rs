//! The transit stops whose departures the board shows.

use vstd::prelude::*;

verus! {

/// A stop the departure board can be asked about.
#[derive(Clone, Copy)]
pub enum Location {
    Killester,
    CastleGrove,
    CollinsAvenue,
}

impl Location {
    /// The stop's request parameters: `(stop id, stop name, stop type)`.
    pub fn stop_params(&self) -> (r: (&'static str, &'static str, &'static str))
        ensures
            self is Killester ==> r.0@ == "8220IR3881"@ && r.1@ == "Killester"@ && r.2@
                == "TRAIN_STATION"@,
            self is CastleGrove ==> r.0@ == "8220DB000609"@ && r.1@ == "Castle Grove, Clontarf"@
                && r.2@ == "BUS_STOP"@,
            self is CollinsAvenue ==> r.0@ == "8220DB000529"@ && r.1@
                == "Collins Avenue, Killester"@ && r.2@ == "BUS_STOP"@,
    {
        match self {
            Location::Killester => ("8220IR3881", "Killester", "TRAIN_STATION"),
            Location::CastleGrove => ("8220DB000609", "Castle Grove, Clontarf", "BUS_STOP"),
            Location::CollinsAvenue => ("8220DB000529", "Collins Avenue, Killester", "BUS_STOP"),
        }
    }
}

} // verus!
