//! Favourite road sections: the enums they are stored with, the way spans
//! they cover, and the checks every saved section passes.
//!
//! A section is a stretch of road the rider likes: the OSM ways it covers
//! (so it can be re-matched after the region is rebuilt from newer OSM
//! data) plus its own geometry (so it can be drawn, and re-matched, even
//! when the ways have changed).

use vstd::prelude::*;
use vstd::string::StringSliceAdditionalSpecFns;
use crate::error::{owned, CoreError};

verus! {

/// The rider every section belongs to for now; community ratings later
/// add other riders without changing the model.
pub const LOCAL_RIDER: &'static str = "local";

/// Most points a section's geometry may have (about 500 km of densely
/// mapped road); bounds memory and work on imported data.
pub const MAX_SECTION_POINTS: usize = 50_000;
/// Most OSM way spans a section may reference.
pub const MAX_SECTION_WAYS: usize = 10_000;
/// Longest section name, in characters.
pub const MAX_NAME_CHARS: usize = 200;
/// Longest rider id, in bytes.
pub const MAX_RIDER_ID_BYTES: usize = 100;

/// How good a section is. Stored as 1–3.
#[derive(Debug, Clone, Copy, PartialEq, Eq, Structural, PartialOrd, Ord, Hash)]
pub enum Rating {
    Good,
    Great,
    Epic,
}

/// The integer a rating is stored as.
pub open spec fn rating_code(r: Rating) -> int {
    match r {
        Rating::Good => 1,
        Rating::Great => 2,
        Rating::Epic => 3,
    }
}

impl Rating {
    /// The rating stored as `v`, if any.
    pub fn from_i64(v: i64) -> (r: Option<Self>)
        ensures
            r is Some <==> 1 <= v <= 3,
            r matches Some(x) ==> rating_code(x) == v,
    {
        match v {
            1 => Some(Rating::Good),
            2 => Some(Rating::Great),
            3 => Some(Rating::Epic),
            _ => None,
        }
    }

    /// The stored integer.
    pub fn to_i64(self) -> (v: i64)
        ensures
            v == rating_code(self),
    {
        match self {
            Rating::Good => 1,
            Rating::Great => 2,
            Rating::Epic => 3,
        }
    }
}

/// Which way a section is good to ride.
#[derive(Debug, Clone, Copy, PartialEq, Eq, Structural, Hash)]
pub enum Direction {
    /// Good both ways (the default).
    Both,
    /// Only in the order of its geometry.
    Forward,
}

/// The integer a direction is stored as.
pub open spec fn direction_code(d: Direction) -> int {
    match d {
        Direction::Both => 0,
        Direction::Forward => 1,
    }
}

impl Direction {
    /// The direction stored as `v`, if any.
    pub fn from_i64(v: i64) -> (r: Option<Self>)
        ensures
            r is Some <==> 0 <= v <= 1,
            r matches Some(x) ==> direction_code(x) == v,
    {
        match v {
            0 => Some(Direction::Both),
            1 => Some(Direction::Forward),
            _ => None,
        }
    }

    /// The stored integer.
    pub fn to_i64(self) -> (v: i64)
        ensures
            v == direction_code(self),
    {
        match self {
            Direction::Both => 0,
            Direction::Forward => 1,
        }
    }
}

/// How a section was captured: drawn on the map, from a quick-tag, from a
/// recorded ride, or imported.
#[derive(Debug, Clone, Copy, PartialEq, Eq, Structural, Hash)]
pub enum Source {
    /// Picked on the map.
    OnMap,
    Tag,
    Track,
    Import,
}

/// The integer a source is stored as.
pub open spec fn source_code(s: Source) -> int {
    match s {
        Source::OnMap => 0,
        Source::Tag => 1,
        Source::Track => 2,
        Source::Import => 3,
    }
}

impl Source {
    /// The source stored as `v`, if any.
    pub fn from_i64(v: i64) -> (r: Option<Self>)
        ensures
            r is Some <==> 0 <= v <= 3,
            r matches Some(x) ==> source_code(x) == v,
    {
        match v {
            0 => Some(Source::OnMap),
            1 => Some(Source::Tag),
            2 => Some(Source::Track),
            3 => Some(Source::Import),
            _ => None,
        }
    }

    /// The stored integer.
    pub fn to_i64(self) -> (v: i64)
        ensures
            v == source_code(self),
    {
        match self {
            Source::OnMap => 0,
            Source::Tag => 1,
            Source::Track => 2,
            Source::Import => 3,
        }
    }
}

/// Whether a section still matches the loaded road network (flagged, never
/// silently dropped).
#[derive(Debug, Clone, Copy, PartialEq, Eq, Structural, Hash)]
pub enum Status {
    /// Fits the loaded road network.
    Matched,
    /// The region changed; re-match before trusting the way references.
    NeedsRematch,
    /// Re-matching failed; the rider should look at it.
    Unmatched,
}

/// The integer a status is stored as.
pub open spec fn status_code(s: Status) -> int {
    match s {
        Status::Matched => 0,
        Status::NeedsRematch => 1,
        Status::Unmatched => 2,
    }
}

impl Status {
    /// The status stored as `v`, if any.
    pub fn from_i64(v: i64) -> (r: Option<Self>)
        ensures
            r is Some <==> 0 <= v <= 2,
            r matches Some(x) ==> status_code(x) == v,
    {
        match v {
            0 => Some(Status::Matched),
            1 => Some(Status::NeedsRematch),
            2 => Some(Status::Unmatched),
            _ => None,
        }
    }

    /// The stored integer.
    pub fn to_i64(self) -> (v: i64)
        ensures
            v == status_code(self),
    {
        match self {
            Status::Matched => 0,
            Status::NeedsRematch => 1,
            Status::Unmatched => 2,
        }
    }
}

/// Reading back a stored rating gives the rating.
pub proof fn rating_codes_round_trip(r: Rating, x: Rating)
    ensures
        rating_code(x) == rating_code(r) <==> x == r,
        1 <= rating_code(r) <= 3,
{
}

/// Reading back a stored direction gives the direction.
pub proof fn direction_codes_round_trip(d: Direction, x: Direction)
    ensures
        direction_code(x) == direction_code(d) <==> x == d,
        0 <= direction_code(d) <= 1,
{
}

/// Reading back a stored source gives the source.
pub proof fn source_codes_round_trip(s: Source, x: Source)
    ensures
        source_code(x) == source_code(s) <==> x == s,
        0 <= source_code(s) <= 3,
{
}

/// Reading back a stored status gives the status.
pub proof fn status_codes_round_trip(s: Status, x: Status)
    ensures
        status_code(x) == status_code(s) <==> x == s,
        0 <= status_code(s) <= 2,
{
}

/// The part of one OSM way a section covers: node indices `from_idx` to
/// `to_idx` in the way's node list (`from_idx > to_idx` runs against the
/// way). Same convention as the region file's way refs.
#[derive(Debug, Clone, Copy, PartialEq, Eq, Structural, Hash)]
pub struct WaySpan {
    pub way_id: i64,
    pub from_idx: u32,
    pub to_idx: u32,
}

/// Changes to a saved section; `None` leaves a field as it is.
#[derive(Debug, Clone, Default, PartialEq)]
pub struct SectionUpdate {
    pub name: Option<String>,
    pub rating: Option<Rating>,
    pub direction: Option<Direction>,
}

/// A Unicode control character (general category Cc).
pub open spec fn is_control(c: char) -> bool {
    (c as u32) < 0x20 || (0x7f <= (c as u32) && (c as u32) <= 0x9f)
}

/// `char::is_control`.
pub fn char_is_control(c: char) -> (b: bool)
    ensures
        b == is_control(c),
{
    let v = c as u32;
    v < 0x20 || (0x7f <= v && v <= 0x9f)
}

/// A name a section may have: at most [`MAX_NAME_CHARS`] characters, none
/// of them control characters.
pub open spec fn name_ok(name: Seq<char>) -> bool {
    &&& name.len() <= MAX_NAME_CHARS
    &&& forall|i: int| 0 <= i < name.len() ==> !is_control(#[trigger] name[i])
}

/// The error text for a name that is not [`name_ok`]: too long, else a
/// control character.
pub open spec fn name_fault(name: Seq<char>) -> Seq<char> {
    if name.len() > MAX_NAME_CHARS {
        "section name longer than 200 characters"@
    } else {
        "section name contains control characters"@
    }
}

fn invalid(msg: &str) -> (e: CoreError)
    ensures
        e matches CoreError::InvalidArgument(m) && m@ == msg@,
{
    CoreError::InvalidArgument(owned(msg))
}

/// Checks a section name.
pub fn validate_name(name: &str) -> (r: Result<(), CoreError>)
    ensures
        r is Ok <==> name_ok(name@),
        r matches Err(e) ==> e is InvalidArgument,
        r is Err ==> (r matches Err(CoreError::InvalidArgument(m)) && m@ == name_fault(name@)),
{
    let mut count: usize = 0;
    for c in it: name.chars()
        invariant
            it.seq() == name@,
            count == it.index(),
            count <= MAX_NAME_CHARS,
    {
        if count == MAX_NAME_CHARS {
            return Err(invalid("section name longer than 200 characters"));
        }
        count += 1;
    }
    assert(name@.len() <= MAX_NAME_CHARS);
    for c in it: name.chars()
        invariant
            it.seq() == name@,
            name@.len() <= MAX_NAME_CHARS,
            forall|i: int| 0 <= i < it.index() ==> !is_control(#[trigger] name@[i]),
    {
        if char_is_control(c) {
            return Err(invalid("section name contains control characters"));
        }
    }
    Ok(())
}

/// What the store relies on of a new section's rider, name and point
/// count (the points themselves are checked one by one as coordinates).
pub open spec fn fields_ok(rider_bytes: int, name: Seq<char>, point_count: int) -> bool {
    &&& rider_bytes >= 1
    &&& rider_bytes <= MAX_RIDER_ID_BYTES
    &&& name_ok(name)
    &&& 2 <= point_count <= MAX_SECTION_POINTS
}

/// The first checks of a new section, in order: a rider id of 1–100
/// bytes, a valid name, 2–50 000 points.
pub fn validate_fields(rider_id: &str, name: &str, point_count: usize) -> (r: Result<(), CoreError>)
    ensures
        r is Ok <==> fields_ok(rider_id.spec_bytes().len() as int, name@, point_count as int),
        r matches Err(e) ==> e is InvalidArgument,
        r is Err ==> (r matches Err(CoreError::InvalidArgument(m)) && m@ == if rider_id.spec_bytes().len() == 0
            || rider_id.spec_bytes().len() > MAX_RIDER_ID_BYTES {
            "rider id must be 1–100 bytes"@
        } else if !name_ok(name@) {
            name_fault(name@)
        } else {
            "section geometry needs 2–50000 points, got "@ + crate::gpx::text::decimal(point_count as nat)
        }),
{
    let bytes = rider_id.as_bytes();
    proof { crate::le::lemma_slice_len_bound(bytes); }
    let len = bytes.len();
    if len == 0 || len > MAX_RIDER_ID_BYTES {
        return Err(invalid("rider id must be 1–100 bytes"));
    }
    if let Err(e) = validate_name(name) {
        return Err(e);
    }
    if point_count < 2 || point_count > MAX_SECTION_POINTS {
        let text = crate::error::with_number("section geometry needs 2–50000 points, got ", point_count as u64, "");
        proof {
            reveal_strlit("");
            assert(text@ =~= "section geometry needs 2–50000 points, got "@ + crate::gpx::text::decimal(point_count as nat));
        }
        return Err(CoreError::InvalidArgument(text));
    }
    Ok(())
}

/// The way spans a section may reference: at most [`MAX_SECTION_WAYS`],
/// each with a positive OSM way id.
pub open spec fn ways_ok(ways: Seq<WaySpan>) -> bool {
    &&& ways.len() <= MAX_SECTION_WAYS
    &&& forall|i: int| 0 <= i < ways.len() ==> (#[trigger] ways[i]).way_id > 0
}

/// The last checks of a new section: how many way spans, and their ids.
pub fn validate_ways(ways: &[WaySpan]) -> (r: Result<(), CoreError>)
    ensures
        r is Ok <==> ways_ok(ways@),
        r matches Err(e) ==> e is InvalidArgument,
        r is Err ==> (r matches Err(CoreError::InvalidArgument(m)) && m@ == if ways@.len() > MAX_SECTION_WAYS {
            "section references more than 10000 ways"@
        } else {
            "OSM way ids are positive"@
        }),
{
    if ways.len() > MAX_SECTION_WAYS {
        return Err(invalid("section references more than 10000 ways"));
    }
    let mut i: usize = 0;
    while i < ways.len()
        invariant
            i <= ways@.len(),
            ways@.len() <= MAX_SECTION_WAYS,
            forall|j: int| 0 <= j < i ==> (#[trigger] ways@[j]).way_id > 0,
        decreases ways@.len() - i,
    {
        if ways[i].way_id <= 0 {
            return Err(invalid("OSM way ids are positive"));
        }
        i += 1;
    }
    Ok(())
}

} // verus!
