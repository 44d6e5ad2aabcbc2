//! Export and import of the rider's sections as GeoJSON: the names the
//! files use for ratings, directions and sources, the checks an imported
//! section's properties pass, the containers a file may come in, and the
//! plan of what an import adds, skips and replaces.
//!
//! An import file is untrusted: every value is validated, and any problem
//! rejects the whole file with a typed error.

pub mod archive;
pub mod plan;

use vstd::prelude::*;
use crate::error::{owned, CoreError};
use crate::gpx::read::chars_of;
use crate::section::{char_is_control, is_control, Direction, Rating, Source, WaySpan, MAX_NAME_CHARS};

verus! {

/// Most sections one import may hold.
pub const MAX_IMPORT_SECTIONS: usize = 10000;

/// What an import did.
#[derive(Debug, Clone, Copy, PartialEq, Eq, Structural, Default)]
pub struct ImportReport {
    /// Sections added.
    pub added: u64,
    /// Imported sections skipped: already covered by a saved section (or
    /// by a longer one in the same file).
    pub skipped: u64,
    /// Saved sections removed because an imported section covers them and
    /// is longer.
    pub replaced: u64,
    /// Added sections that don't fit the current map (kept, hidden as
    /// unmatched until a map they fit).
    pub unmatched: u64,
}

/// The name a rating has in the files.
pub open spec fn rating_text(r: Rating) -> Seq<char> {
    match r {
        Rating::Good => "good"@,
        Rating::Great => "great"@,
        Rating::Epic => "epic"@,
    }
}

/// The name a direction has in the files.
pub open spec fn direction_text(d: Direction) -> Seq<char> {
    match d {
        Direction::Both => "both"@,
        Direction::Forward => "forward"@,
    }
}

/// The name a source has in the files.
pub open spec fn source_text(s: Source) -> Seq<char> {
    match s {
        Source::OnMap => "map"@,
        Source::Tag => "tag"@,
        Source::Track => "track"@,
        Source::Import => "import"@,
    }
}

pub fn rating_name(r: Rating) -> (s: &'static str)
    ensures
        s@ == rating_text(r),
{
    match r {
        Rating::Good => "good",
        Rating::Great => "great",
        Rating::Epic => "epic",
    }
}

pub fn direction_name(d: Direction) -> (s: &'static str)
    ensures
        s@ == direction_text(d),
{
    match d {
        Direction::Both => "both",
        Direction::Forward => "forward",
    }
}

pub fn source_name(s: Source) -> (t: &'static str)
    ensures
        t@ == source_text(s),
{
    match s {
        Source::OnMap => "map",
        Source::Tag => "tag",
        Source::Track => "track",
        Source::Import => "import",
    }
}

/// Whether two texts are the same.
fn same_text(a: &str, b: &str) -> (r: bool)
    ensures
        r == (a@ == b@),
{
    let x = chars_of(a);
    let y = chars_of(b);
    if x.len() != y.len() {
        return false;
    }
    let mut i: usize = 0;
    while i < x.len()
        invariant
            x@ == a@,
            y@ == b@,
            x@.len() == y@.len(),
            i <= x@.len(),
            forall|j: int| 0 <= j < i ==> x@[j] == y@[j],
        decreases x@.len() - i,
    {
        if x[i] != y[i] {
            assert(x@[i as int] != y@[i as int]);
            return false;
        }
        i += 1;
    }
    assert(x@ =~= y@);
    true
}

/// The rating a file names, `good` when it names none.
pub open spec fn rating_named(name: Option<Seq<char>>) -> Option<Rating> {
    match name {
        None => Some(Rating::Good),
        Some(n) => if n == "good"@ {
            Some(Rating::Good)
        } else if n == "great"@ {
            Some(Rating::Great)
        } else if n == "epic"@ {
            Some(Rating::Epic)
        } else {
            None
        },
    }
}

/// The direction a file names, `both` when it names none.
pub open spec fn direction_named(name: Option<Seq<char>>) -> Option<Direction> {
    match name {
        None => Some(Direction::Both),
        Some(n) => if n == "both"@ {
            Some(Direction::Both)
        } else if n == "forward"@ {
            Some(Direction::Forward)
        } else {
            None
        },
    }
}

/// What Rust's `{:?}` shows for a string: the text in double quotes,
/// escaped as `str::escape_debug` escapes it.
pub uninterp spec fn debug_quoted_of(s: Seq<char>) -> Seq<char>;

/// `<str as Debug>::fmt`, through `format!("{:?}")`: `s` as Rust's
/// `{:?}` shows it, named [`debug_quoted_of`]; the text depends on `s`
/// alone.
#[verifier::external_body]
fn debug_quoted(s: &str) -> (r: String)
    ensures
        r@ == debug_quoted_of(s@),
{
    format!("{:?}", s)
}

/// The rating of an imported section: `good` unless the file says
/// otherwise; an unknown name is refused.
pub fn rating_from_name(name: Option<&str>) -> (r: Result<Rating, CoreError>)
    ensures
        r is Ok <==> rating_named(match name { Some(n) => Some(n@), None => None }) is Some,
        r matches Ok(x) ==> rating_named(match name { Some(n) => Some(n@), None => None }) == Some(x),
        r matches Err(e) ==> e is InvalidArgument,
        r matches Err(e) ==> (e matches CoreError::InvalidArgument(m) && name matches Some(n)
            && m@ == "unknown rating "@ + debug_quoted_of(n@)),
{
    match name {
        None => Ok(Rating::Good),
        Some(n) => {
            if same_text(n, "good") {
                Ok(Rating::Good)
            } else if same_text(n, "great") {
                Ok(Rating::Great)
            } else if same_text(n, "epic") {
                Ok(Rating::Epic)
            } else {
                Err(CoreError::InvalidArgument(crate::error::join(owned("unknown rating "), debug_quoted(n))))
            }
        },
    }
}

/// The direction of an imported section: both ways unless the file says
/// otherwise; an unknown name is refused.
pub fn direction_from_name(name: Option<&str>) -> (r: Result<Direction, CoreError>)
    ensures
        r is Ok <==> direction_named(match name { Some(n) => Some(n@), None => None }) is Some,
        r matches Ok(x) ==> direction_named(match name { Some(n) => Some(n@), None => None }) == Some(x),
        r matches Err(e) ==> e is InvalidArgument,
        r matches Err(e) ==> (e matches CoreError::InvalidArgument(m) && name matches Some(n)
            && m@ == "unknown direction "@ + debug_quoted_of(n@)),
{
    match name {
        None => Ok(Direction::Both),
        Some(n) => {
            if same_text(n, "both") {
                Ok(Direction::Both)
            } else if same_text(n, "forward") {
                Ok(Direction::Forward)
            } else {
                Err(CoreError::InvalidArgument(crate::error::join(owned("unknown direction "), debug_quoted(n))))
            }
        },
    }
}

/// An exported rating or direction reads back as itself.
pub proof fn names_read_back(r: Rating, d: Direction)
    ensures
        rating_named(Some(rating_text(r))) == Some(r),
        direction_named(Some(direction_text(d))) == Some(d),
{
    reveal_strlit("good");
    reveal_strlit("great");
    reveal_strlit("epic");
    reveal_strlit("both");
    reveal_strlit("forward");
    assert("great"@.len() == 5 && "good"@.len() == 4 && "epic"@.len() == 4);
    assert("epic"@[0] != "good"@[0]);
    assert("great"@ != "good"@);
    assert("epic"@ != "good"@);
    assert("epic"@ != "great"@);
    assert("forward"@.len() == 7 && "both"@.len() == 4);
    assert("forward"@ != "both"@);
}

/// `s` without its control characters.
pub open spec fn without_controls(s: Seq<char>) -> Seq<char>
    decreases s.len(),
{
    if s.len() == 0 {
        Seq::empty()
    } else {
        without_controls(s.drop_last()) + if is_control(s.last()) { Seq::empty() } else { seq![s.last()] }
    }
}

/// At most the first `n` items of `s`.
pub open spec fn at_most(s: Seq<char>, n: int) -> Seq<char> {
    if s.len() <= n { s } else { s.take(n) }
}

/// An imported section's name: its control characters dropped, and cut
/// to [`MAX_NAME_CHARS`] characters.
pub fn clean_name(name: &str) -> (r: String)
    ensures
        r@ == at_most(without_controls(name@), MAX_NAME_CHARS as int),
{
    let mut out = String::new();
    let mut count: usize = 0;
    for c in it: name.chars()
        invariant
            it.seq() == name@,
            count == out@.len(),
            count <= MAX_NAME_CHARS,
            out@ == at_most(without_controls(name@.take(it.index() as int)), MAX_NAME_CHARS as int),
    {
        let ghost k = it.index();
        let ghost before = without_controls(name@.take(k as int));
        proof {
            assert(name@.take(k + 1).drop_last() =~= name@.take(k as int));
            assert(name@.take(k + 1).last() == c);
        }
        if !char_is_control(c) && count < MAX_NAME_CHARS {
            out.push(c);
            count += 1;
            proof {
                assert(before.len() < MAX_NAME_CHARS);
                assert(out@ =~= at_most(without_controls(name@.take(k + 1)), MAX_NAME_CHARS as int));
            }
        } else {
            proof {
                let after = without_controls(name@.take(k + 1));
                if !is_control(c) {
                    assert(after.take(MAX_NAME_CHARS as int) =~= before.take(MAX_NAME_CHARS as int));
                } else {
                    assert(after =~= before);
                }
            }
        }
    }
    assert(name@.take(name@.len() as int) =~= name@);
    out
}

/// Checks an import file's top level: a `FeatureCollection` of at most
/// [`MAX_IMPORT_SECTIONS`] features.
pub fn check_collection(kind: &str, features: usize) -> (r: Result<(), CoreError>)
    ensures
        r is Ok <==> kind@ == "FeatureCollection"@ && features <= MAX_IMPORT_SECTIONS,
        kind@ != "FeatureCollection"@ ==> (r matches Err(CoreError::InvalidArgument(m))
            && m@ == "expected a GeoJSON FeatureCollection"@),
        kind@ == "FeatureCollection"@ && features > MAX_IMPORT_SECTIONS ==> (r matches Err(
            CoreError::InvalidArgument(m),
        ) && m@ == "at most 10000 sections per import, got "@ + crate::gpx::text::decimal(features as nat)),
{
    if !same_text(kind, "FeatureCollection") {
        return Err(CoreError::InvalidArgument(owned("expected a GeoJSON FeatureCollection")));
    }
    if features > MAX_IMPORT_SECTIONS {
        let text = crate::error::with_number("at most 10000 sections per import, got ", features as u64, "");
        proof {
            reveal_strlit("");
            assert(text@ =~= "at most 10000 sections per import, got "@ + crate::gpx::text::decimal(features as nat));
        }
        return Err(CoreError::InvalidArgument(text));
    }
    Ok(())
}

/// Checks an imported feature's type tags: a `Feature` whose geometry is
/// a `LineString`.
pub fn check_feature_kinds(kind: &str, geometry_kind: &str) -> (r: Result<(), CoreError>)
    ensures
        r is Ok <==> kind@ == "Feature"@ && geometry_kind@ == "LineString"@,
        kind@ != "Feature"@ ==> (r matches Err(CoreError::InvalidArgument(m)) && m@ == "not a Feature"@),
        kind@ == "Feature"@ && geometry_kind@ != "LineString"@ ==> (r matches Err(CoreError::InvalidArgument(m))
            && m@ == geometry_kind@ + " geometry; sections are LineStrings"@),
{
    if !same_text(kind, "Feature") {
        return Err(CoreError::InvalidArgument(owned("not a Feature")));
    }
    if !same_text(geometry_kind, "LineString") {
        return Err(CoreError::InvalidArgument(crate::error::join(
            owned(geometry_kind),
            owned(" geometry; sections are LineStrings"),
        )));
    }
    Ok(())
}

/// A way span as the files write it, `[way id, from index, to index]`:
/// both indices must fit 32 bits.
pub fn way_span_from(way_id: i64, from_idx: i64, to_idx: i64) -> (r: Result<WaySpan, CoreError>)
    ensures
        r is Ok <==> 0 <= from_idx <= u32::MAX && 0 <= to_idx <= u32::MAX,
        r matches Ok(w) ==> w.way_id == way_id && w.from_idx == from_idx && w.to_idx == to_idx,
        r matches Err(e) ==> e is InvalidArgument,
        r is Err ==> (r matches Err(CoreError::InvalidArgument(m)) && m@ == "invalid way span"@),
{
    if from_idx < 0 || from_idx > u32::MAX as i64 || to_idx < 0 || to_idx > u32::MAX as i64 {
        return Err(CoreError::InvalidArgument(owned("invalid way span")));
    }
    Ok(WaySpan { way_id, from_idx: from_idx as u32, to_idx: to_idx as u32 })
}

} // verus!
