//! The plain parts of the rider's database: which schema migrations a
//! database still needs, and how a section's geometry is stored.
//!
//! Everything read back is validated, so a damaged or tampered database
//! gives errors, never panics.

use vstd::prelude::*;
use crate::error::{join, owned, signed_decimal, with_number, with_signed, CoreError};
use crate::gpx::text::decimal;
use crate::region::encode::{encode_points, lays_out, point_bytes};
use crate::region::format::{decode_point, PointE7};
use crate::region::layout::points;
use crate::region::reread::lemma_points_back;
use crate::section::MAX_SECTION_POINTS;

verus! {

/// Where the migrations of a database at schema version `current` start,
/// with `target` migrations known to this build: a database from a newer
/// app, or with a negative version, is refused.
pub fn migration_start(current: i64, target: usize) -> (r: Result<usize, CoreError>)
    requires
        target <= i64::MAX,
    ensures
        r is Ok <==> 0 <= current <= target,
        r matches Ok(start) ==> start == current,
        r matches Err(e) ==> e is Storage,
        current > target ==> (r matches Err(CoreError::Storage(m)) && m@
            == "the database is from a newer version of the app (schema "@ + decimal(current as nat)
            + ", this app knows "@ + decimal(target as nat) + ")"@),
        current < 0 ==> (r matches Err(CoreError::Storage(m)) && m@ == "invalid schema version "@
            + signed_decimal(current as int)),
{
    if current > target as i64 {
        let head = with_number("the database is from a newer version of the app (schema ", current as u64, ", this app knows ");
        let text = join(head, with_number("", target as u64, ")"));
        proof {
            reveal_strlit("");
            assert(text@ =~= "the database is from a newer version of the app (schema "@ + decimal(current as nat)
                + ", this app knows "@ + decimal(target as nat) + ")"@);
        }
        return Err(CoreError::Storage(text));
    }
    if current < 0 {
        let text = with_signed("invalid schema version ", current, "");
        proof {
            reveal_strlit("");
            assert(text@ =~= "invalid schema version "@ + signed_decimal(current as int));
        }
        return Err(CoreError::Storage(text));
    }
    Ok(current as usize)
}

/// Geometry as stored: the points as little-endian `i32` pairs in 1e-7
/// degrees, as in the region file.
pub fn encode_geometry(points: &[PointE7]) -> (r: Vec<u8>)
    ensures
        lays_out(r@, points@, 8, |p: PointE7| point_bytes(p)),
{
    encode_points(points)
}

/// A stored line that can be read: whole points, 2 to `max` of them.
pub open spec fn line_ok(b: Seq<u8>, max: int) -> bool {
    b.len() % 8 == 0 && 2 <= b.len() / 8 <= max
}

/// A stored section geometry that can be read: whole points, 2 to
/// [`MAX_SECTION_POINTS`] of them.
pub open spec fn geometry_ok(b: Seq<u8>) -> bool {
    line_ok(b, MAX_SECTION_POINTS as int)
}

/// The points of a stored line, if it is whole and has 2 to `max` points.
/// (Each point is then checked as a coordinate.)
pub fn decode_line(bytes: &[u8], max: usize) -> (r: Option<Vec<PointE7>>)
    ensures
        r is Some <==> line_ok(bytes@, max as int),
        r matches Some(p) ==> p@ == points(bytes@),
{
    proof { crate::le::lemma_slice_len_bound(bytes); }
    if bytes.len() % 8 != 0 {
        return None;
    }
    let n = bytes.len() / 8;
    if n < 2 || n > max {
        return None;
    }
    let mut v: Vec<PointE7> = Vec::with_capacity(n);
    let mut i: usize = 0;
    while i < n
        invariant
            n == bytes@.len() / 8,
            bytes@.len() % 8 == 0,
            bytes@.len() <= usize::MAX,
            i <= n,
            v@ == points(bytes@).take(i as int),
        decreases n - i,
    {
        v.push(decode_point(bytes, 8 * i));
        i += 1;
        assert(v@ =~= points(bytes@).take(i as int));
    }
    assert(points(bytes@).take(n as int) =~= points(bytes@));
    Some(v)
}

/// The points of a stored section geometry, if it is whole and of a
/// length a section may have.
pub fn decode_geometry(bytes: &[u8]) -> (r: Option<Vec<PointE7>>)
    ensures
        r is Some <==> geometry_ok(bytes@),
        r matches Some(p) ==> p@ == points(bytes@),
{
    decode_line(bytes, MAX_SECTION_POINTS)
}

/// A geometry a section may have reads back as stored.
pub proof fn stored_geometry_reads_back(p: Seq<PointE7>, b: Seq<u8>)
    requires
        2 <= p.len() <= MAX_SECTION_POINTS,
        lays_out(b, p, 8, |q: PointE7| point_bytes(q)),
    ensures
        geometry_ok(b),
        points(b) == p,
{
    lemma_points_back(b, p);
}

/// The south-west and north-east corners of the points' bounding box
/// (`i32::MAX` / `i32::MIN` corners for no points).
pub open spec fn bounds_of(p: Seq<PointE7>) -> (PointE7, PointE7)
    decreases p.len(),
{
    if p.len() == 0 {
        (PointE7 { lat: i32::MAX, lon: i32::MAX }, PointE7 { lat: i32::MIN, lon: i32::MIN })
    } else {
        let (lo, hi) = bounds_of(p.drop_last());
        let q = p.last();
        (
            PointE7 { lat: if q.lat < lo.lat { q.lat } else { lo.lat }, lon: if q.lon < lo.lon { q.lon } else { lo.lon } },
            PointE7 { lat: if q.lat > hi.lat { q.lat } else { hi.lat }, lon: if q.lon > hi.lon { q.lon } else { hi.lon } },
        )
    }
}

/// The bounding box of a geometry, as the database indexes sections by
/// area.
pub fn bounds(points: &[PointE7]) -> (r: (PointE7, PointE7))
    ensures
        r == bounds_of(points@),
{
    let mut lo = PointE7 { lat: i32::MAX, lon: i32::MAX };
    let mut hi = PointE7 { lat: i32::MIN, lon: i32::MIN };
    let mut i: usize = 0;
    while i < points.len()
        invariant
            i <= points@.len(),
            (lo, hi) == bounds_of(points@.take(i as int)),
        decreases points@.len() - i,
    {
        let q = points[i];
        proof {
            assert(points@.take(i + 1).drop_last() =~= points@.take(i as int));
        }
        lo = PointE7 { lat: if q.lat < lo.lat { q.lat } else { lo.lat }, lon: if q.lon < lo.lon { q.lon } else { lo.lon } };
        hi = PointE7 { lat: if q.lat > hi.lat { q.lat } else { hi.lat }, lon: if q.lon > hi.lon { q.lon } else { hi.lon } };
        i += 1;
    }
    assert(points@.take(points@.len() as int) =~= points@);
    (lo, hi)
}

} // verus!
