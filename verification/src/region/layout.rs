//! What a valid region file is, stated over its bytes: the header, the
//! section table, the typed arrays the sections hold, and the structure
//! the query code relies on.

use vstd::prelude::*;
use crate::le::{le_u16, le_u32};
use super::format::{
    spec_edge, spec_entry, spec_grid_meta, spec_magic, spec_point, spec_way_ref, Edge, GridMeta,
    PointE7, SectionEntry, WayRef,
};

verus! {

// --- header and section table ---

/// The first page holds a header of the format this reader knows.
pub open spec fn header_ok(b: Seq<u8>) -> bool {
    &&& b.len() >= 4096
    &&& b.subrange(0, 8) == spec_magic()
    &&& le_u16(b, 8) == 1
    &&& le_u32(b, 12) <= 160
}

/// The section table as the header announces it.
pub open spec fn spec_table(b: Seq<u8>) -> Seq<SectionEntry> {
    Seq::new(le_u32(b, 12) as nat, |i: int| spec_entry(b, 256 + 24 * i))
}

/// A section lies inside the file, page-aligned after the first page.
pub open spec fn entry_in_bounds(file_len: int, e: SectionEntry) -> bool {
    &&& e.offset + e.len <= u64::MAX
    &&& e.offset >= 4096
    &&& e.offset % 4096 == 0
    &&& e.offset + e.len <= file_len
}

/// No id occurs twice in the table.
pub open spec fn ids_distinct(t: Seq<SectionEntry>) -> bool {
    forall|i: int, j: int|
        0 <= i < t.len() && 0 <= j < t.len() && i != j ==> #[trigger] t[i].id != #[trigger] t[j].id
}

/// Section `i` comes before section `j` in file order (ties in table order).
pub open spec fn placed_before(t: Seq<SectionEntry>, i: int, j: int) -> bool {
    t[i].offset < t[j].offset || (t[i].offset == t[j].offset && i < j)
}

/// Every section ends before the next one in file order starts.
pub open spec fn no_overlap(t: Seq<SectionEntry>) -> bool {
    forall|i: int, j: int|
        0 <= i < t.len() && 0 <= j < t.len() && i != j && #[trigger] placed_before(t, i, j)
            ==> t[i].offset + t[i].len <= t[j].offset
}

/// Header and section table are sound.
pub open spec fn table_ok(b: Seq<u8>) -> bool {
    &&& header_ok(b)
    &&& forall|i: int| 0 <= i < spec_table(b).len() ==> entry_in_bounds(b.len() as int, #[trigger] spec_table(b)[i])
    &&& ids_distinct(spec_table(b))
    &&& no_overlap(spec_table(b))
}

/// The table lists a section with this id.
pub open spec fn has_section(t: Seq<SectionEntry>, id: u32) -> bool {
    exists|i: int| 0 <= i < t.len() && #[trigger] t[i].id == id
}

/// The bytes of section `id`.
pub open spec fn section_bytes(b: Seq<u8>, id: u32) -> Seq<u8> {
    let t = spec_table(b);
    let i = choose|i: int| 0 <= i < t.len() && #[trigger] t[i].id == id;
    b.subrange(t[i].offset as int, t[i].offset + t[i].len)
}

// --- typed arrays ---

pub open spec fn u32s(s: Seq<u8>) -> Seq<u32> {
    Seq::new(s.len() / 4, |i: int| le_u32(s, 4 * i) as u32)
}

pub open spec fn points(s: Seq<u8>) -> Seq<PointE7> {
    Seq::new(s.len() / 8, |i: int| spec_point(s, 8 * i))
}

pub open spec fn edges(s: Seq<u8>) -> Seq<Edge> {
    Seq::new(s.len() / 20, |i: int| spec_edge(s, 20 * i))
}

pub open spec fn way_refs(s: Seq<u8>) -> Seq<WayRef> {
    Seq::new(s.len() / 16, |i: int| spec_way_ref(s, 16 * i))
}

pub open spec fn grid_metas(s: Seq<u8>) -> Seq<GridMeta> {
    Seq::new(s.len() / 24, |i: int| spec_grid_meta(s, 24 * i))
}

// --- structure ---

/// CSR offsets: `count + 1` entries from 0 to `total`, never decreasing.
#[verifier::opaque]
pub open spec fn offsets_ok(o: Seq<u32>, count: int, total: int) -> bool {
    &&& o.len() == count + 1
    &&& o[0] == 0
    &&& o[count] == total
    &&& forall|i: int, j: int| 0 <= i <= j <= count ==> #[trigger] o[i] <= #[trigger] o[j]
}

/// Consecutive offsets bound the range of item `i`, inside `0..total`.
pub proof fn lemma_offsets_step(o: Seq<u32>, count: int, total: int, i: int)
    requires
        offsets_ok(o, count, total),
        0 <= i < count,
    ensures
        o.len() == count + 1,
        o[i] <= o[i + 1] <= total,
{
    reveal(offsets_ok);
    assert(o[i] <= o[i + 1]);
    assert(o[i + 1] <= o[count]);
}

/// Offsets never decrease.
pub proof fn lemma_offsets_mono(o: Seq<u32>, count: int, total: int, i: int, j: int)
    requires
        offsets_ok(o, count, total),
        0 <= i <= j <= count,
    ensures
        o.len() == count + 1,
        o[i] <= o[j] <= total,
{
    reveal(offsets_ok);
    assert(o[i] <= o[j]);
    assert(o[j] <= o[count]);
}

/// Within the valid range of latitudes and longitudes.
pub open spec fn point_in_range(p: PointE7) -> bool {
    -900_000_000 <= p.lat <= 900_000_000 && -1_800_000_000 <= p.lon <= 1_800_000_000
}

/// Edge `e` leaves node `v` and its geometry joins its two nodes (in the
/// geometry's order, or reversed for a reverse edge).
pub open spec fn edge_ok(
    nodes: Seq<PointE7>,
    geom: Seq<u32>,
    shape: Seq<PointE7>,
    v: int,
    e: Edge,
) -> bool {
    &&& e.tail == v
    &&& e.head < nodes.len()
    &&& e.geometry < geom.len() - 1
    &&& e.speed_kmh != 0
    &&& {
        let first = shape[geom[e.geometry as int] as int];
        let last = shape[geom[e.geometry + 1] - 1];
        if e.flags & 1u8 == 0u8 {
            first == nodes[v] && last == nodes[e.head as int]
        } else {
            last == nodes[v] && first == nodes[e.head as int]
        }
    }
}

/// Edge slot `k` is in the forward range of node `v` and is sound.
pub open spec fn fwd_edge_ok(
    nodes: Seq<PointE7>,
    fwd: Seq<u32>,
    edges: Seq<Edge>,
    geom: Seq<u32>,
    shape: Seq<PointE7>,
    v: int,
    k: int,
) -> bool {
    edge_ok(nodes, geom, shape, v, edges[k])
}

/// Backward slot `k` of node `v` names an edge entering `v`.
pub open spec fn bwd_edge_ok(edges: Seq<Edge>, bwd_edges: Seq<u32>, v: int, k: int) -> bool {
    bwd_edges[k] < edges.len() && edges[bwd_edges[k] as int].head == v
}

/// The routing graph is consistent: what lets queries index without
/// checking.
pub open spec fn graph_ok(
    nodes: Seq<PointE7>,
    fwd: Seq<u32>,
    bwd: Seq<u32>,
    bwd_edges: Seq<u32>,
    edges: Seq<Edge>,
    geom: Seq<u32>,
    shape: Seq<PointE7>,
) -> bool {
    &&& nodes.len() < u32::MAX
    &&& edges.len() < u32::MAX
    &&& shape.len() < u32::MAX
    &&& forall|i: int| 0 <= i < nodes.len() ==> point_in_range(#[trigger] nodes[i])
    &&& forall|i: int| 0 <= i < shape.len() ==> point_in_range(#[trigger] shape[i])
    &&& offsets_ok(fwd, nodes.len() as int, edges.len() as int)
    &&& offsets_ok(bwd, nodes.len() as int, bwd_edges.len() as int)
    &&& bwd_edges.len() == edges.len()
    &&& geom.len() >= 1
    &&& offsets_ok(geom, geom.len() - 1, shape.len() as int)
    &&& forall|i: int| 0 <= i < geom.len() - 1 ==> #[trigger] geom[i] + 2 <= geom[i + 1]
    &&& forall|v: int, k: int|
        0 <= v < nodes.len() && fwd[v] <= k < fwd[v + 1] ==> #[trigger] fwd_edge_ok(
            nodes,
            fwd,
            edges,
            geom,
            shape,
            v,
            k,
        )
    &&& forall|v: int, k: int|
        0 <= v < nodes.len() && bwd[v] <= k < bwd[v + 1] ==> #[trigger] bwd_edge_ok(
            edges,
            bwd_edges,
            v,
            k,
        )
}

/// The snapping grid is consistent with the edges.
pub open spec fn grid_ok(meta: GridMeta, cells: Seq<u32>, cell_edges: Seq<u32>, edge_count: int) -> bool {
    &&& meta.cell_lat > 0
    &&& meta.cell_lon > 0
    &&& meta.rows != 0
    &&& meta.cols != 0
    &&& meta.rows * meta.cols <= usize::MAX
    &&& offsets_ok(cells, meta.rows * meta.cols, cell_edges.len() as int)
    &&& forall|i: int| 0 <= i < cell_edges.len() ==> #[trigger] cell_edges[i] < edge_count
}

/// Every section the reader needs is listed.
pub open spec fn sections_present(t: Seq<SectionEntry>) -> bool {
    forall|id: u32| 1 <= id <= 12 ==> #[trigger] has_section(t, id)
}

/// Record size of each known section.
pub open spec fn record_size(id: u32) -> int {
    if id == 1 || id == 7 { 8 }
    else if id == 5 { 20 }
    else if id == 8 || id == 12 { 16 }
    else if id == 9 { 24 }
    else { 4 }
}

/// Each known section holds whole records.
pub open spec fn arrays_whole(b: Seq<u8>) -> bool {
    forall|id: u32| 1 <= id <= 12 ==> (#[trigger] section_bytes(b, id)).len() as int % record_size(id) == 0
}

/// A region file this reader accepts.
pub open spec fn region_bytes_valid(b: Seq<u8>) -> bool {
    &&& table_ok(b)
    &&& sections_present(spec_table(b))
    &&& arrays_whole(b)
    &&& graph_ok(
        points(section_bytes(b, 1)),
        u32s(section_bytes(b, 2)),
        u32s(section_bytes(b, 3)),
        u32s(section_bytes(b, 4)),
        edges(section_bytes(b, 5)),
        u32s(section_bytes(b, 6)),
        points(section_bytes(b, 7)),
    )
    &&& section_bytes(b, 8).len() / 16 == edges(section_bytes(b, 5)).len()
    &&& way_refs(section_bytes(b, 12)).len() == edges(section_bytes(b, 5)).len()
    &&& grid_metas(section_bytes(b, 9)).len() == 1
    &&& grid_ok(
        grid_metas(section_bytes(b, 9))[0],
        u32s(section_bytes(b, 10)),
        u32s(section_bytes(b, 11)),
        edges(section_bytes(b, 5)).len() as int,
    )
}

} // verus!
