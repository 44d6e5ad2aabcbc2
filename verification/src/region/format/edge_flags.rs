//! Bits of `Edge::flags`.

use vstd::prelude::*;

verus! {

/// The edge runs against its geometry (the reverse of a two-way road).
pub const REVERSED: u8 = 1;
pub const FERRY: u8 = 2;
pub const TOLL: u8 = 4;
/// Access only to reach a destination.
pub const DESTINATION: u8 = 8;
pub const ROUNDABOUT: u8 = 16;
/// Slip road.
pub const LINK: u8 = 32;
/// Mostly within a built-up area.
pub const BUILT_UP: u8 = 64;

} // verus!
