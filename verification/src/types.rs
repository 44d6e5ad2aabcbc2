//! Plain request and result types of the core API.

use vstd::prelude::*;

verus! {

/// Road types a route should stay off.
#[derive(Debug, Clone, Copy, PartialEq, Eq, Structural)]
pub struct Avoid {
    pub motorways: bool,
    pub unpaved: bool,
    pub ferries: bool,
}

impl Default for Avoid {
    /// Motorways and unpaved roads avoided, ferries allowed.
    fn default() -> (a: Self)
        ensures
            a.motorways && a.unpaved && !a.ferries,
    {
        Avoid { motorways: true, unpaved: true, ferries: false }
    }
}

/// What an append of track points did.
#[derive(Debug, Clone, Copy, PartialEq, Eq, Structural)]
pub struct Appended {
    /// Points stored by this call; points not newer than the track's last
    /// one (e.g. a batch sent again after a crash) are skipped.
    pub added: u64,
    pub point_count: u64,
}

/// What re-matching the saved sections to a region did.
#[derive(Debug, Clone, Copy, PartialEq, Eq, Structural, Default)]
pub struct RematchReport {
    /// Sections looked at (0 when the region hadn't changed).
    pub checked: u64,
    /// Sections that fit the region (way spans updated where they changed).
    pub matched: u64,
    /// Sections that no longer fit: kept, flagged unmatched.
    pub unmatched: u64,
}

} // verus!
