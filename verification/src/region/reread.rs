//! What the reader makes of the bytes the writer lays out: each record
//! decodes to the value encoded, each section listed by the writer is found
//! again under its id, and the header gives back its fields.

use vstd::prelude::*;
use crate::le::{
    i32_bytes, i64_bytes, le_i64, le_u16, le_u32, lemma_i32_round_trip, lemma_i64_round_trip,
    lemma_u16_round_trip, lemma_u32_round_trip, u16_bytes, u32_bytes,
};
use super::format::{spec_bbox, spec_entry, spec_magic, CurvatureMetrics, Edge, GridMeta, PointE7, WayRef};
use super::encode::{
    curvature_record, edge_bytes, grid_meta_bytes, lays_out, lemma_curvature_decode, lemma_edge_decode,
    lemma_grid_meta_decode, lemma_point_decode, lemma_way_ref_decode, point_bytes, way_ref_bytes,
};
use super::layout::{
    edges, entry_in_bounds, grid_metas, has_section, header_ok, ids_distinct, no_overlap, placed_before, points,
    section_bytes, sections_present, spec_table, table_ok, u32s, way_refs,
};
use super::read::curvature_at;
use super::writer::{entry_of, header_bytes, lemma_offset_aligned, lemma_offset_mono, lens, offset_of};
use super::RegionInfo;

verus! {

/// Record `i` of a laid-out array sits inside the bytes.
proof fn lemma_record_inside(len: int, count: int, size: int, i: int)
    requires
        size > 0,
        len == size * count,
        0 <= i < count,
    ensures
        0 <= size * i,
        size * i + size <= len,
{
    assert(0 <= size * i) by (nonlinear_arith) requires size > 0, i >= 0;
    assert(size * i + size <= size * count) by (nonlinear_arith) requires size > 0, i < count;
}

pub proof fn lemma_points_back(r: Seq<u8>, v: Seq<PointE7>)
    requires
        lays_out(r, v, 8, |p: PointE7| point_bytes(p)),
    ensures
        points(r) == v,
{
    assert forall|i: int| 0 <= i < v.len() implies points(r)[i] == v[i] by {
        lemma_record_inside(r.len() as int, v.len() as int, 8, i);
        assert(r.subrange(8 * i, 8 * i + 8) == point_bytes(v[i]));
        lemma_point_decode(r, 8 * i, v[i]);
    }
    assert(points(r) =~= v);
}

pub proof fn lemma_u32s_back(r: Seq<u8>, v: Seq<u32>)
    requires
        lays_out(r, v, 4, |x: u32| u32_bytes(x)),
    ensures
        u32s(r) == v,
{
    assert forall|i: int| 0 <= i < v.len() implies u32s(r)[i] == v[i] by {
        lemma_record_inside(r.len() as int, v.len() as int, 4, i);
        assert(r.subrange(4 * i, 4 * i + 4) == u32_bytes(v[i]));
        lemma_u32_round_trip(v[i], r, 4 * i);
    }
    assert(u32s(r) =~= v);
}

pub proof fn lemma_edges_back(r: Seq<u8>, v: Seq<Edge>)
    requires
        lays_out(r, v, 20, |e: Edge| edge_bytes(e)),
    ensures
        edges(r) == v,
{
    assert forall|i: int| 0 <= i < v.len() implies edges(r)[i] == v[i] by {
        lemma_record_inside(r.len() as int, v.len() as int, 20, i);
        assert(r.subrange(20 * i, 20 * i + 20) == edge_bytes(v[i]));
        lemma_edge_decode(r, 20 * i, v[i]);
    }
    assert(edges(r) =~= v);
}

pub proof fn lemma_way_refs_back(r: Seq<u8>, v: Seq<WayRef>)
    requires
        lays_out(r, v, 16, |w: WayRef| way_ref_bytes(w)),
    ensures
        way_refs(r) == v,
{
    assert forall|i: int| 0 <= i < v.len() implies way_refs(r)[i] == v[i] by {
        lemma_record_inside(r.len() as int, v.len() as int, 16, i);
        assert(r.subrange(16 * i, 16 * i + 16) == way_ref_bytes(v[i]));
        lemma_way_ref_decode(r, 16 * i, v[i]);
    }
    assert(way_refs(r) =~= v);
}

pub proof fn lemma_curvatures_back(r: Seq<u8>, v: Seq<CurvatureMetrics>)
    requires
        lays_out(r, v, 16, |c: CurvatureMetrics| curvature_record(c)),
    ensures
        r.len() / 16 == v.len(),
        forall|k: int| 0 <= k < v.len() ==> curvature_at(#[trigger] v[k], r, k),
{
    assert forall|k: int| 0 <= k < v.len() implies curvature_at(#[trigger] v[k], r, k) by {
        lemma_record_inside(r.len() as int, v.len() as int, 16, k);
        assert(r.subrange(16 * k, 16 * k + 16) == curvature_record(v[k]));
        lemma_curvature_decode(r, 16 * k, v[k]);
    }
}

pub proof fn lemma_grid_meta_back(r: Seq<u8>, g: GridMeta)
    requires
        r == grid_meta_bytes(g),
    ensures
        grid_metas(r).len() == 1,
        grid_metas(r)[0] == g,
{
    assert(r.subrange(0, 24) =~= r);
    lemma_grid_meta_decode(r, 0, g);
}

/// The header's count, timestamp, bounding box and text fields read back
/// as written.
pub proof fn lemma_header_back(b: Seq<u8>, info: RegionInfo, count: u32, builder: Seq<u8>, source: Seq<u8>)
    requires
        b.len() >= 256,
        builder.len() == 32,
        source.len() == 64,
        b.subrange(0, 256) == header_bytes(info, count, builder, source),
    ensures
        le_u32(b, 12) == count,
        le_i64(b, 16) == info.osm_timestamp,
        spec_bbox(b, 24) == info.bbox,
        le_u16(b, 8) == 1,
        b.subrange(0, 8) == spec_magic(),
        b.subrange(40, 72) == builder,
        b.subrange(72, 136) == source,
{
    let h = header_bytes(info, count, builder, source);
    assert(b.subrange(40, 72) =~= h.subrange(40, 72));
    assert(h.subrange(40, 72) =~= builder);
    assert(b.subrange(72, 136) =~= h.subrange(72, 136));
    assert(h.subrange(72, 136) =~= source);
    assert(spec_magic().len() == 8);
    assert(b.subrange(12, 16) =~= h.subrange(12, 16));
    assert(h.subrange(12, 16) =~= u32_bytes(count));
    lemma_u32_round_trip(count, b, 12);
    assert(b.subrange(8, 10) =~= h.subrange(8, 10));
    assert(h.subrange(8, 10) =~= u16_bytes(1));
    lemma_u16_round_trip(1, b, 8);
    assert(b.subrange(0, 8) =~= h.subrange(0, 8));
    assert(h.subrange(0, 8) =~= spec_magic());
    assert(b.subrange(16, 24) =~= h.subrange(16, 24));
    assert(h.subrange(16, 24) =~= i64_bytes(info.osm_timestamp));
    lemma_i64_round_trip(info.osm_timestamp, b, 16);
    assert(b.subrange(24, 28) =~= h.subrange(24, 28));
    assert(h.subrange(24, 28) =~= i32_bytes(info.bbox.min_lat));
    lemma_i32_round_trip(info.bbox.min_lat, b, 24);
    assert(b.subrange(28, 32) =~= h.subrange(28, 32));
    assert(h.subrange(28, 32) =~= i32_bytes(info.bbox.min_lon));
    lemma_i32_round_trip(info.bbox.min_lon, b, 28);
    assert(b.subrange(32, 36) =~= h.subrange(32, 36));
    assert(h.subrange(32, 36) =~= i32_bytes(info.bbox.max_lat));
    lemma_i32_round_trip(info.bbox.max_lat, b, 32);
    assert(b.subrange(36, 40) =~= h.subrange(36, 40));
    assert(h.subrange(36, 40) =~= i32_bytes(info.bbox.max_lon));
    lemma_i32_round_trip(info.bbox.max_lon, b, 36);
}

/// With ids 1, 2, ... in order, section `k` is found again under its id.
pub proof fn lemma_section_back(b: Seq<u8>, sections: Seq<(u32, &[u8])>, k: int)
    requires
        0 <= k < sections.len(),
        forall|i: int| 0 <= i < sections.len() ==> (#[trigger] sections[i]).0 == i + 1,
        le_u32(b, 12) == sections.len(),
        b.len() == offset_of(lens(sections), sections.len() as int),
        b.len() <= u64::MAX,
        forall|i: int| 0 <= i < sections.len() ==> spec_entry(b, 256 + 24 * i) == #[trigger] entry_of(sections, i),
        forall|i: int| 0 <= i < sections.len() ==> b.subrange(
            offset_of(lens(sections), i),
            offset_of(lens(sections), i) + sections[i].1@.len(),
        ) == (#[trigger] sections[i]).1@,
    ensures
        section_bytes(b, sections[k].0) == sections[k].1@,
{
    let t = spec_table(b);
    let ls = lens(sections);
    let id = sections[k].0;
    assert(t[k] == entry_of(sections, k));
    assert(t[k].id == id);
    let i = choose|i: int| 0 <= i < t.len() && #[trigger] t[i].id == id;
    assert(t[i] == entry_of(sections, i));
    assert(i == k);
    lemma_offset_mono(ls, k, sections.len() as int);
    lemma_offset_aligned(ls, k);
    assert(t[k].offset == offset_of(ls, k));
    assert(t[k].len == sections[k].1@.len());
}

/// A file laid out with sections of ids 1, 2, ... in order has a sound
/// table listing each of them.
pub proof fn lemma_layout_table(b: Seq<u8>, sections: Seq<(u32, &[u8])>)
    requires
        1 <= sections.len() <= 160,
        forall|i: int| 0 <= i < sections.len() ==> (#[trigger] sections[i]).0 == i + 1,
        le_u32(b, 12) == sections.len(),
        le_u16(b, 8) == 1,
        b.subrange(0, 8) == spec_magic(),
        b.len() == offset_of(lens(sections), sections.len() as int),
        b.len() <= u64::MAX,
        forall|i: int| 0 <= i < sections.len() ==> spec_entry(b, 256 + 24 * i) == #[trigger] entry_of(sections, i),
    ensures
        table_ok(b),
        forall|id: u32| 1 <= id <= sections.len() ==> #[trigger] has_section(spec_table(b), id),
{
    let t = spec_table(b);
    let ls = lens(sections);
    let n = sections.len() as int;
    lemma_offset_aligned(ls, n);
    assert(header_ok(b));
    assert forall|i: int| 0 <= i < t.len() implies entry_in_bounds(b.len() as int, #[trigger] t[i]) by {
        assert(t[i] == entry_of(sections, i));
        lemma_offset_aligned(ls, i);
        lemma_offset_mono(ls, i, n);
    }
    assert forall|i: int, j: int| 0 <= i < t.len() && 0 <= j < t.len() && i != j implies
        #[trigger] t[i].id != #[trigger] t[j].id by {
        assert(t[i] == entry_of(sections, i));
        assert(t[j] == entry_of(sections, j));
    }
    assert(ids_distinct(t));
    assert forall|i: int, j: int| 0 <= i < t.len() && 0 <= j < t.len() && i != j && #[trigger] placed_before(t, i, j)
        implies t[i].offset + t[i].len <= t[j].offset by {
        assert(t[i] == entry_of(sections, i));
        assert(t[j] == entry_of(sections, j));
        lemma_offset_mono(ls, i, n);
        lemma_offset_mono(ls, j, n);
        lemma_offset_aligned(ls, i);
        lemma_offset_aligned(ls, j);
        assert(ls[i] >= 0 && ls[j] >= 0);
        assert(offset_of(ls, i) <= b.len() && offset_of(ls, j) <= b.len());
        assert(t[i].offset == offset_of(ls, i));
        assert(t[j].offset == offset_of(ls, j));
        assert(t[i].len == ls[i]);
        if i < j {
            lemma_offset_mono(ls, i, j);
        } else {
            lemma_offset_mono(ls, j, i);
        }
    }
    assert(no_overlap(t));
    assert forall|id: u32| 1 <= id <= sections.len() implies #[trigger] has_section(t, id) by {
        let k = id - 1;
        assert(t[k] == entry_of(sections, k));
        assert(t[k].id == id);
    }
}

} // verus!
