//! Records as little-endian bytes: the inverse of the decoders in
//! [`super::format`].

use vstd::prelude::*;
use crate::le::{
    i32_bytes, i64_bytes, lemma_i32_round_trip, lemma_i64_round_trip, lemma_u16_round_trip,
    lemma_u32_round_trip, lemma_u64_round_trip, push_i32, push_i64, push_u16, push_u32, push_u64,
    u16_bytes, u32_bytes, u64_bytes,
};
use super::format::{
    spec_edge, spec_entry, spec_grid_meta, spec_point, spec_radius_bins, spec_way_ref,
    CurvatureMetrics, Edge, GridMeta, PointE7, SectionEntry, WayRef,
};

verus! {

pub open spec fn point_bytes(p: PointE7) -> Seq<u8> {
    i32_bytes(p.lat) + i32_bytes(p.lon)
}

pub open spec fn edge_bytes(e: Edge) -> Seq<u8> {
    u32_bytes(e.tail) + u32_bytes(e.head) + u32_bytes(e.length_dm) + u32_bytes(e.geometry)
        + seq![e.speed_kmh, e.class, e.surface, e.flags]
}

pub open spec fn curvature_bytes(turn_ddeg: u32, bins: Seq<u16>) -> Seq<u8> {
    u32_bytes(turn_ddeg) + u16_bytes(bins[0]) + u16_bytes(bins[1]) + u16_bytes(bins[2])
        + u16_bytes(bins[3]) + u16_bytes(bins[4]) + u16_bytes(bins[5])
}

pub open spec fn way_ref_bytes(w: WayRef) -> Seq<u8> {
    i64_bytes(w.way_id) + u32_bytes(w.from_idx) + u32_bytes(w.to_idx)
}

pub open spec fn grid_meta_bytes(g: GridMeta) -> Seq<u8> {
    i32_bytes(g.min_lat) + i32_bytes(g.min_lon) + i32_bytes(g.cell_lat) + i32_bytes(g.cell_lon)
        + u32_bytes(g.rows) + u32_bytes(g.cols)
}

pub open spec fn entry_bytes(e: SectionEntry) -> Seq<u8> {
    u32_bytes(e.id) + u32_bytes(e.crc32) + u64_bytes(e.offset) + u64_bytes(e.len)
}

/// `r` holds the records `v` one after another, record `k` being `f(v[k])`
/// of `size` bytes.
pub open spec fn lays_out<T>(r: Seq<u8>, v: Seq<T>, size: int, f: spec_fn(T) -> Seq<u8>) -> bool {
    &&& r.len() == size * v.len()
    &&& forall|k: int| 0 <= k < v.len() ==> r.subrange(size * k, size * k + size) == f(#[trigger] v[k])
}

pub proof fn lemma_lays_out_push<T>(r: Seq<u8>, v: Seq<T>, size: int, f: spec_fn(T) -> Seq<u8>, x: T)
    requires
        size > 0,
        lays_out(r, v, size, f),
        f(x).len() == size,
    ensures
        lays_out(r + f(x), v.push(x), size, f),
{
    let r2 = r + f(x);
    let v2 = v.push(x);
    assert(r2.len() == size * v2.len()) by (nonlinear_arith)
        requires r2.len() == r.len() + size, r.len() == size * v.len(), v2.len() == v.len() + 1;
    assert forall|k: int| 0 <= k < v2.len() implies r2.subrange(size * k, size * k + size) == f(#[trigger] v2[k]) by {
        if k < v.len() {
            assert(size * k + size <= size * v.len()) by (nonlinear_arith)
                requires k < v.len(), size > 0;
            assert(0 <= size * k) by (nonlinear_arith) requires k >= 0, size > 0;
            assert(r2.subrange(size * k, size * k + size) =~= r.subrange(size * k, size * k + size));
            assert(f(v2[k]) == f(v[k]));
        } else {
            assert(k == v.len());
            assert(r2.subrange(size * k, size * k + size) =~= f(x));
        }
    }
}

pub fn push_point(out: &mut Vec<u8>, p: PointE7)
    ensures
        final(out)@ == old(out)@ + point_bytes(p),
{
    push_i32(out, p.lat);
    push_i32(out, p.lon);
    assert(final(out)@ =~= old(out)@ + point_bytes(p));
}

pub fn push_edge(out: &mut Vec<u8>, e: Edge)
    ensures
        final(out)@ == old(out)@ + edge_bytes(e),
{
    push_u32(out, e.tail);
    push_u32(out, e.head);
    push_u32(out, e.length_dm);
    push_u32(out, e.geometry);
    out.push(e.speed_kmh);
    out.push(e.class);
    out.push(e.surface);
    out.push(e.flags);
    assert(final(out)@ =~= old(out)@ + edge_bytes(e));
}

pub fn push_curvature(out: &mut Vec<u8>, c: &CurvatureMetrics)
    ensures
        final(out)@ == old(out)@ + curvature_bytes(c.turn_ddeg, c.radius_len_m@),
{
    push_u32(out, c.turn_ddeg);
    push_u16(out, c.radius_len_m[0]);
    push_u16(out, c.radius_len_m[1]);
    push_u16(out, c.radius_len_m[2]);
    push_u16(out, c.radius_len_m[3]);
    push_u16(out, c.radius_len_m[4]);
    push_u16(out, c.radius_len_m[5]);
    assert(final(out)@ =~= old(out)@ + curvature_bytes(c.turn_ddeg, c.radius_len_m@));
}

pub fn push_way_ref(out: &mut Vec<u8>, w: WayRef)
    ensures
        final(out)@ == old(out)@ + way_ref_bytes(w),
{
    push_i64(out, w.way_id);
    push_u32(out, w.from_idx);
    push_u32(out, w.to_idx);
    assert(final(out)@ =~= old(out)@ + way_ref_bytes(w));
}

pub fn push_grid_meta(out: &mut Vec<u8>, g: GridMeta)
    ensures
        final(out)@ == old(out)@ + grid_meta_bytes(g),
{
    push_i32(out, g.min_lat);
    push_i32(out, g.min_lon);
    push_i32(out, g.cell_lat);
    push_i32(out, g.cell_lon);
    push_u32(out, g.rows);
    push_u32(out, g.cols);
    assert(final(out)@ =~= old(out)@ + grid_meta_bytes(g));
}

pub fn push_entry(out: &mut Vec<u8>, e: SectionEntry)
    ensures
        final(out)@ == old(out)@ + entry_bytes(e),
{
    push_u32(out, e.id);
    push_u32(out, e.crc32);
    push_u64(out, e.offset);
    push_u64(out, e.len);
    assert(final(out)@ =~= old(out)@ + entry_bytes(e));
}

pub fn encode_points(v: &[PointE7]) -> (r: Vec<u8>)
    ensures
        lays_out(r@, v@, 8, |p: PointE7| point_bytes(p)),
{
    let mut out: Vec<u8> = Vec::new();
    let mut i: usize = 0;
    while i < v.len()
        invariant
            i <= v@.len(),
            lays_out(out@, v@.take(i as int), 8, |p: PointE7| point_bytes(p)),
        decreases v@.len() - i,
    {
        proof {
            lemma_lays_out_push(out@, v@.take(i as int), 8, |p: PointE7| point_bytes(p), v@[i as int]);
            assert(v@.take(i + 1) =~= v@.take(i as int).push(v@[i as int]));
        }
        push_point(&mut out, v[i]);
        i += 1;
    }
    assert(v@.take(v@.len() as int) =~= v@);
    out
}

pub fn encode_u32s(v: &[u32]) -> (r: Vec<u8>)
    ensures
        lays_out(r@, v@, 4, |x: u32| u32_bytes(x)),
{
    let mut out: Vec<u8> = Vec::new();
    let mut i: usize = 0;
    while i < v.len()
        invariant
            i <= v@.len(),
            lays_out(out@, v@.take(i as int), 4, |x: u32| u32_bytes(x)),
        decreases v@.len() - i,
    {
        proof {
            lemma_lays_out_push(out@, v@.take(i as int), 4, |x: u32| u32_bytes(x), v@[i as int]);
            assert(v@.take(i + 1) =~= v@.take(i as int).push(v@[i as int]));
        }
        push_u32(&mut out, v[i]);
        i += 1;
    }
    assert(v@.take(v@.len() as int) =~= v@);
    out
}

pub fn encode_edges(v: &[Edge]) -> (r: Vec<u8>)
    ensures
        lays_out(r@, v@, 20, |e: Edge| edge_bytes(e)),
{
    let mut out: Vec<u8> = Vec::new();
    let mut i: usize = 0;
    while i < v.len()
        invariant
            i <= v@.len(),
            lays_out(out@, v@.take(i as int), 20, |e: Edge| edge_bytes(e)),
        decreases v@.len() - i,
    {
        proof {
            lemma_lays_out_push(out@, v@.take(i as int), 20, |e: Edge| edge_bytes(e), v@[i as int]);
            assert(v@.take(i + 1) =~= v@.take(i as int).push(v@[i as int]));
        }
        push_edge(&mut out, v[i]);
        i += 1;
    }
    assert(v@.take(v@.len() as int) =~= v@);
    out
}

/// The bytes of one curvature record.
pub open spec fn curvature_record(c: CurvatureMetrics) -> Seq<u8> {
    curvature_bytes(c.turn_ddeg, c.radius_len_m@)
}

pub fn encode_curvatures(v: &[CurvatureMetrics]) -> (r: Vec<u8>)
    ensures
        lays_out(r@, v@, 16, |c: CurvatureMetrics| curvature_record(c)),
{
    let mut out: Vec<u8> = Vec::new();
    let mut i: usize = 0;
    while i < v.len()
        invariant
            i <= v@.len(),
            lays_out(out@, v@.take(i as int), 16, |c: CurvatureMetrics| curvature_record(c)),
        decreases v@.len() - i,
    {
        proof {
            lemma_lays_out_push(out@, v@.take(i as int), 16, |c: CurvatureMetrics| curvature_record(c), v@[i as int]);
            assert(v@.take(i + 1) =~= v@.take(i as int).push(v@[i as int]));
        }
        push_curvature(&mut out, &v[i]);
        i += 1;
    }
    assert(v@.take(v@.len() as int) =~= v@);
    out
}

pub fn encode_way_refs(v: &[WayRef]) -> (r: Vec<u8>)
    ensures
        lays_out(r@, v@, 16, |w: WayRef| way_ref_bytes(w)),
{
    let mut out: Vec<u8> = Vec::new();
    let mut i: usize = 0;
    while i < v.len()
        invariant
            i <= v@.len(),
            lays_out(out@, v@.take(i as int), 16, |w: WayRef| way_ref_bytes(w)),
        decreases v@.len() - i,
    {
        proof {
            lemma_lays_out_push(out@, v@.take(i as int), 16, |w: WayRef| way_ref_bytes(w), v@[i as int]);
            assert(v@.take(i + 1) =~= v@.take(i as int).push(v@[i as int]));
        }
        push_way_ref(&mut out, v[i]);
        i += 1;
    }
    assert(v@.take(v@.len() as int) =~= v@);
    out
}


// --- decoding what was encoded ---

pub proof fn lemma_point_decode(b: Seq<u8>, at: int, p: PointE7)
    requires
        0 <= at,
        at + 8 <= b.len(),
        b.subrange(at, at + 8) == point_bytes(p),
    ensures
        spec_point(b, at) == p,
{
    assert(b.subrange(at, at + 4) =~= point_bytes(p).subrange(0, 4));
    assert(b.subrange(at + 4, at + 8) =~= point_bytes(p).subrange(4, 8));
    assert(point_bytes(p).subrange(0, 4) =~= i32_bytes(p.lat));
    assert(point_bytes(p).subrange(4, 8) =~= i32_bytes(p.lon));
    lemma_i32_round_trip(p.lat, b, at);
    lemma_i32_round_trip(p.lon, b, at + 4);
}

pub proof fn lemma_edge_decode(b: Seq<u8>, at: int, e: Edge)
    requires
        0 <= at,
        at + 20 <= b.len(),
        b.subrange(at, at + 20) == edge_bytes(e),
    ensures
        spec_edge(b, at) == e,
{
    let eb = edge_bytes(e);
    assert(b.subrange(at, at + 4) =~= eb.subrange(0, 4));
    assert(b.subrange(at + 4, at + 8) =~= eb.subrange(4, 8));
    assert(b.subrange(at + 8, at + 12) =~= eb.subrange(8, 12));
    assert(b.subrange(at + 12, at + 16) =~= eb.subrange(12, 16));
    assert(eb.subrange(0, 4) =~= u32_bytes(e.tail));
    assert(eb.subrange(4, 8) =~= u32_bytes(e.head));
    assert(eb.subrange(8, 12) =~= u32_bytes(e.length_dm));
    assert(eb.subrange(12, 16) =~= u32_bytes(e.geometry));
    lemma_u32_round_trip(e.tail, b, at);
    lemma_u32_round_trip(e.head, b, at + 4);
    lemma_u32_round_trip(e.length_dm, b, at + 8);
    lemma_u32_round_trip(e.geometry, b, at + 12);
    assert(b[at + 16] == eb[16]);
    assert(b[at + 17] == eb[17]);
    assert(b[at + 18] == eb[18]);
    assert(b[at + 19] == eb[19]);
}

pub proof fn lemma_way_ref_decode(b: Seq<u8>, at: int, w: WayRef)
    requires
        0 <= at,
        at + 16 <= b.len(),
        b.subrange(at, at + 16) == way_ref_bytes(w),
    ensures
        spec_way_ref(b, at) == w,
{
    let wb = way_ref_bytes(w);
    assert(b.subrange(at, at + 8) =~= wb.subrange(0, 8));
    assert(b.subrange(at + 8, at + 12) =~= wb.subrange(8, 12));
    assert(b.subrange(at + 12, at + 16) =~= wb.subrange(12, 16));
    assert(wb.subrange(0, 8) =~= i64_bytes(w.way_id));
    assert(wb.subrange(8, 12) =~= u32_bytes(w.from_idx));
    assert(wb.subrange(12, 16) =~= u32_bytes(w.to_idx));
    lemma_i64_round_trip(w.way_id, b, at);
    lemma_u32_round_trip(w.from_idx, b, at + 8);
    lemma_u32_round_trip(w.to_idx, b, at + 12);
}

pub proof fn lemma_grid_meta_decode(b: Seq<u8>, at: int, g: GridMeta)
    requires
        0 <= at,
        at + 24 <= b.len(),
        b.subrange(at, at + 24) == grid_meta_bytes(g),
    ensures
        spec_grid_meta(b, at) == g,
{
    let gb = grid_meta_bytes(g);
    assert(b.subrange(at, at + 4) =~= gb.subrange(0, 4));
    assert(b.subrange(at + 4, at + 8) =~= gb.subrange(4, 8));
    assert(b.subrange(at + 8, at + 12) =~= gb.subrange(8, 12));
    assert(b.subrange(at + 12, at + 16) =~= gb.subrange(12, 16));
    assert(b.subrange(at + 16, at + 20) =~= gb.subrange(16, 20));
    assert(b.subrange(at + 20, at + 24) =~= gb.subrange(20, 24));
    assert(gb.subrange(0, 4) =~= i32_bytes(g.min_lat));
    assert(gb.subrange(4, 8) =~= i32_bytes(g.min_lon));
    assert(gb.subrange(8, 12) =~= i32_bytes(g.cell_lat));
    assert(gb.subrange(12, 16) =~= i32_bytes(g.cell_lon));
    assert(gb.subrange(16, 20) =~= u32_bytes(g.rows));
    assert(gb.subrange(20, 24) =~= u32_bytes(g.cols));
    lemma_i32_round_trip(g.min_lat, b, at);
    lemma_i32_round_trip(g.min_lon, b, at + 4);
    lemma_i32_round_trip(g.cell_lat, b, at + 8);
    lemma_i32_round_trip(g.cell_lon, b, at + 12);
    lemma_u32_round_trip(g.rows, b, at + 16);
    lemma_u32_round_trip(g.cols, b, at + 20);
}

pub proof fn lemma_entry_decode(b: Seq<u8>, at: int, e: SectionEntry)
    requires
        0 <= at,
        at + 24 <= b.len(),
        b.subrange(at, at + 24) == entry_bytes(e),
    ensures
        spec_entry(b, at) == e,
{
    let eb = entry_bytes(e);
    assert(b.subrange(at, at + 4) =~= eb.subrange(0, 4));
    assert(b.subrange(at + 4, at + 8) =~= eb.subrange(4, 8));
    assert(b.subrange(at + 8, at + 16) =~= eb.subrange(8, 16));
    assert(b.subrange(at + 16, at + 24) =~= eb.subrange(16, 24));
    assert(eb.subrange(0, 4) =~= u32_bytes(e.id));
    assert(eb.subrange(4, 8) =~= u32_bytes(e.crc32));
    assert(eb.subrange(8, 16) =~= u64_bytes(e.offset));
    assert(eb.subrange(16, 24) =~= u64_bytes(e.len));
    lemma_u32_round_trip(e.id, b, at);
    lemma_u32_round_trip(e.crc32, b, at + 4);
    lemma_u64_round_trip(e.offset, b, at + 8);
    lemma_u64_round_trip(e.len, b, at + 16);
}

pub proof fn lemma_curvature_decode(b: Seq<u8>, at: int, c: CurvatureMetrics)
    requires
        0 <= at,
        at + 16 <= b.len(),
        b.subrange(at, at + 16) == curvature_record(c),
    ensures
        le_u32_at(b, at) == c.turn_ddeg,
        spec_radius_bins(b, at) == c.radius_len_m@,
{
    let cb = curvature_record(c);
    assert(b.subrange(at, at + 4) =~= cb.subrange(0, 4));
    assert(cb.subrange(0, 4) =~= u32_bytes(c.turn_ddeg));
    lemma_u32_round_trip(c.turn_ddeg, b, at);
    assert forall|i: int| 0 <= i < 6 implies spec_radius_bins(b, at)[i] == c.radius_len_m@[i] by {
        assert(b.subrange(at + 4 + 2 * i, at + 6 + 2 * i) =~= cb.subrange(4 + 2 * i, 6 + 2 * i));
        assert(cb.subrange(4 + 2 * i, 6 + 2 * i) =~= u16_bytes(c.radius_len_m@[i]));
        lemma_u16_round_trip(c.radius_len_m@[i], b, at + 4 + 2 * i);
    }
    assert(spec_radius_bins(b, at) =~= c.radius_len_m@);
}

/// `le_u32` under another name, for the curvature lemma's statement.
pub open spec fn le_u32_at(b: Seq<u8>, at: int) -> int {
    crate::le::le_u32(b, at)
}

} // verus!
