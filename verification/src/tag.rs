//! Quick-tags: a tap while riding that marks "this road is good", turned
//! into a suggested section after the ride.

use vstd::prelude::*;

verus! {

/// Where a tag stands in the post-ride review.
#[derive(Debug, Clone, Copy, PartialEq, Eq, Structural)]
pub enum TagStatus {
    /// Not reviewed yet.
    Pending,
    /// Saved as a section.
    Used,
    Discarded,
}

/// The integer a tag status is stored as.
pub open spec fn tag_status_code(s: TagStatus) -> int {
    match s {
        TagStatus::Pending => 0,
        TagStatus::Used => 1,
        TagStatus::Discarded => 2,
    }
}

impl TagStatus {
    /// The status stored as `v`, if any.
    pub fn from_i64(v: i64) -> (r: Option<Self>)
        ensures
            r is Some <==> 0 <= v <= 2,
            r matches Some(x) ==> tag_status_code(x) == v,
    {
        match v {
            0 => Some(TagStatus::Pending),
            1 => Some(TagStatus::Used),
            2 => Some(TagStatus::Discarded),
            _ => None,
        }
    }

    /// The stored integer.
    pub fn to_i64(self) -> (v: i64)
        ensures
            v == tag_status_code(self),
    {
        match self {
            TagStatus::Pending => 0,
            TagStatus::Used => 1,
            TagStatus::Discarded => 2,
        }
    }
}

/// Reading back a stored tag status gives the status.
pub proof fn tag_status_codes_round_trip(s: TagStatus, x: TagStatus)
    ensures
        tag_status_code(x) == tag_status_code(s) <==> x == s,
        0 <= tag_status_code(s) <= 2,
{
}

} // verus!
