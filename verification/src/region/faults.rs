//! What the reader says when it refuses a file: the text of the error for
//! each fault of the header, the section table and the sections, in the
//! order the reader checks them.

use vstd::prelude::*;
use crate::gpx::text::{decimal, hex8};
use crate::le::{le_u16, le_u32};
use super::format::{spec_magic, Edge, GridMeta, PointE7, SectionEntry};
use super::crc32_ieee;
use super::layout::{
    bwd_edge_ok, edge_ok, edges, entry_in_bounds, grid_metas, has_section, no_overlap, offsets_ok, point_in_range,
    points, record_size, section_bytes, spec_table, u32s, way_refs,
};

verus! {

/// The error text for a header that is too short, of another kind, of
/// another major version, or announcing too many sections; `None` for a
/// sound header.
pub open spec fn header_fault(b: Seq<u8>) -> Option<Seq<char>> {
    if b.len() < 4096 {
        Some("file too short for a region header"@)
    } else if b.subrange(0, 8) != spec_magic() {
        Some("not a region file (bad magic)"@)
    } else if le_u16(b, 8) != 1 {
        Some("unsupported region format "@ + decimal(le_u16(b, 8) as nat) + "."@ + decimal(le_u16(b, 10) as nat)
            + " (this app reads 1.x); download a new region file"@)
    } else if le_u32(b, 12) > 160 {
        Some("section table too large ("@ + decimal(le_u32(b, 12) as nat) + ")"@)
    } else {
        None
    }
}

/// The error text for a section that lies outside a file of `file_len`
/// bytes or off a page boundary.
pub open spec fn range_text(file_len: int, s: SectionEntry) -> Seq<char> {
    "section "@ + decimal(s.id as nat) + " out of bounds or misaligned (offset "@ + decimal(s.offset as nat)
        + ", len "@ + decimal(s.len as nat) + ", file "@ + decimal(file_len as nat) + ")"@
}

/// An earlier entry of the table has the id of entry `i`.
pub open spec fn repeats_id(t: Seq<SectionEntry>, i: int) -> bool {
    exists|j: int| 0 <= j < i && #[trigger] t[j].id == t[i].id
}

/// The error text for the first entry, from `i` on, that is out of
/// bounds or repeats an earlier id.
pub open spec fn entries_fault(file_len: int, t: Seq<SectionEntry>, i: int) -> Option<Seq<char>>
    decreases t.len() - i,
{
    if i < 0 || i >= t.len() {
        None
    } else if !entry_in_bounds(file_len, t[i]) {
        Some(range_text(file_len, t[i]))
    } else if repeats_id(t, i) {
        Some("duplicate section "@ + decimal(t[i].id as nat))
    } else {
        entries_fault(file_len, t, i + 1)
    }
}

/// The error text for a section table: its first bad entry, else
/// overlapping sections.
pub open spec fn table_fault(file_len: int, t: Seq<SectionEntry>) -> Option<Seq<char>> {
    match entries_fault(file_len, t, 0) {
        Some(m) => Some(m),
        None => if !no_overlap(t) { Some("sections overlap"@) } else { None },
    }
}

/// The error text for a section the table does not list.
pub open spec fn missing_text(id: u32) -> Seq<char> {
    "missing section "@ + decimal(id as nat)
}

/// The error text for a section that does not hold whole records: the
/// cast of its bytes to records would leave bytes over.
pub open spec fn broken_text(id: u32) -> Seq<char> {
    "section "@ + decimal(id as nat) + " is not a whole array: OutputSliceWouldHaveSlop"@
}

/// Section `id` of `b` holds whole records.
pub open spec fn whole(b: Seq<u8>, id: u32) -> bool {
    section_bytes(b, id).len() as int % record_size(id) == 0
}

/// The error text for the known sections, in the reader's order: every
/// section but the grid meta looked up, the first eight cast to records,
/// then the grid meta looked up and cast, then the last three cast.
pub open spec fn sections_fault(b: Seq<u8>) -> Option<Seq<char>> {
    let t = spec_table(b);
    if !has_section(t, 1u32) {
        Some(missing_text(1))
    } else if !has_section(t, 2u32) {
        Some(missing_text(2))
    } else if !has_section(t, 3u32) {
        Some(missing_text(3))
    } else if !has_section(t, 4u32) {
        Some(missing_text(4))
    } else if !has_section(t, 5u32) {
        Some(missing_text(5))
    } else if !has_section(t, 6u32) {
        Some(missing_text(6))
    } else if !has_section(t, 7u32) {
        Some(missing_text(7))
    } else if !has_section(t, 8u32) {
        Some(missing_text(8))
    } else if !has_section(t, 10u32) {
        Some(missing_text(10))
    } else if !has_section(t, 11u32) {
        Some(missing_text(11))
    } else if !has_section(t, 12u32) {
        Some(missing_text(12))
    } else if !whole(b, 1u32) {
        Some(broken_text(1))
    } else if !whole(b, 2u32) {
        Some(broken_text(2))
    } else if !whole(b, 3u32) {
        Some(broken_text(3))
    } else if !whole(b, 4u32) {
        Some(broken_text(4))
    } else if !whole(b, 5u32) {
        Some(broken_text(5))
    } else if !whole(b, 6u32) {
        Some(broken_text(6))
    } else if !whole(b, 7u32) {
        Some(broken_text(7))
    } else if !whole(b, 8u32) {
        Some(broken_text(8))
    } else if !has_section(t, 9u32) {
        Some(missing_text(9))
    } else if !whole(b, 9u32) {
        Some(broken_text(9))
    } else if !whole(b, 10u32) {
        Some(broken_text(10))
    } else if !whole(b, 11u32) {
        Some(broken_text(11))
    } else if !whole(b, 12u32) {
        Some(broken_text(12))
    } else {
        None
    }
}

/// The error text for edge `e` in the forward range of node `v`.
pub open spec fn edge_fault(nodes: Seq<PointE7>, geom: Seq<u32>, shape: Seq<PointE7>, v: int, e: Edge) -> Option<
    Seq<char>,
> {
    if e.tail != v || e.head >= nodes.len() || e.geometry >= geom.len() - 1 {
        Some("edge "@ + e.shown() + " inconsistent with node "@ + decimal(v as nat))
    } else if e.speed_kmh == 0 {
        Some("edge with zero speed"@)
    } else if !edge_ok(nodes, geom, shape, v, e) {
        Some("edge geometry does not join its nodes"@)
    } else {
        None
    }
}

/// The error text for the first edge, from slot `k` on, of node `v`'s
/// forward range.
pub open spec fn fwd_fault(
    nodes: Seq<PointE7>,
    fwd: Seq<u32>,
    edges: Seq<Edge>,
    geom: Seq<u32>,
    shape: Seq<PointE7>,
    v: int,
    k: int,
) -> Option<Seq<char>>
    decreases fwd[v + 1] - k,
{
    if k < fwd[v] || k >= fwd[v + 1] {
        None
    } else {
        match edge_fault(nodes, geom, shape, v, edges[k]) {
            Some(m) => Some(m),
            None => fwd_fault(nodes, fwd, edges, geom, shape, v, k + 1),
        }
    }
}

/// The error text for the first slot, from `k` on, of node `v`'s backward
/// range that names no edge entering `v`.
pub open spec fn bwd_fault(edges: Seq<Edge>, bwd: Seq<u32>, bwd_edges: Seq<u32>, v: int, k: int) -> Option<Seq<char>>
    decreases bwd[v + 1] - k,
{
    if k < bwd[v] || k >= bwd[v + 1] {
        None
    } else if !bwd_edge_ok(edges, bwd_edges, v, k) {
        Some("backward edge "@ + decimal(bwd_edges[k] as nat) + " does not enter node "@ + decimal(v as nat))
    } else {
        bwd_fault(edges, bwd, bwd_edges, v, k + 1)
    }
}

/// The error text for the first node, from `v` on, with a bad edge
/// leaving or entering it.
pub open spec fn nodes_fault(
    nodes: Seq<PointE7>,
    fwd: Seq<u32>,
    bwd: Seq<u32>,
    bwd_edges: Seq<u32>,
    edges: Seq<Edge>,
    geom: Seq<u32>,
    shape: Seq<PointE7>,
    v: int,
) -> Option<Seq<char>>
    decreases nodes.len() - v,
{
    if v < 0 || v >= nodes.len() {
        None
    } else {
        match fwd_fault(nodes, fwd, edges, geom, shape, v, fwd[v] as int) {
            Some(m) => Some(m),
            None => match bwd_fault(edges, bwd, bwd_edges, v, bwd[v] as int) {
                Some(m) => Some(m),
                None => nodes_fault(nodes, fwd, bwd, bwd_edges, edges, geom, shape, v + 1),
            },
        }
    }
}

/// Some geometry, from `i` on, has fewer than two points.
pub open spec fn short_geometry_from(geom: Seq<u32>, i: int) -> bool {
    exists|j: int| i <= j < geom.len() - 1 && !(#[trigger] geom[j] + 2 <= geom[j + 1])
}

/// The error text for a routing graph: the first of its checks that
/// fails, in the reader's order.
pub open spec fn graph_fault(
    nodes: Seq<PointE7>,
    fwd: Seq<u32>,
    bwd: Seq<u32>,
    bwd_edges: Seq<u32>,
    edges: Seq<Edge>,
    geom: Seq<u32>,
    shape: Seq<PointE7>,
    curvature_count: int,
    way_ref_count: int,
) -> Option<Seq<char>> {
    if nodes.len() >= u32::MAX || edges.len() >= u32::MAX || shape.len() >= u32::MAX {
        Some("arrays too large for 32-bit ids"@)
    } else if !(forall|i: int| 0 <= i < nodes.len() ==> point_in_range(#[trigger] nodes[i]))
        || !(forall|i: int| 0 <= i < shape.len() ==> point_in_range(#[trigger] shape[i])) {
        Some("coordinate out of range"@)
    } else if !offsets_ok(fwd, nodes.len() as int, edges.len() as int) {
        Some("forward CSR offsets are not a valid index"@)
    } else if !offsets_ok(bwd, nodes.len() as int, bwd_edges.len() as int) {
        Some("backward CSR offsets are not a valid index"@)
    } else if bwd_edges.len() != edges.len() || curvature_count != edges.len() || way_ref_count != edges.len() {
        Some("per-edge sections disagree on the edge count"@)
    } else if geom.len() == 0 {
        Some("empty geometry offsets"@)
    } else if !offsets_ok(geom, geom.len() - 1, shape.len() as int) {
        Some("geometry offsets are not a valid index"@)
    } else if short_geometry_from(geom, 0) {
        Some("geometry with fewer than two points"@)
    } else {
        nodes_fault(nodes, fwd, bwd, bwd_edges, edges, geom, shape, 0)
    }
}

/// The error text for a snapping grid over `m` edges.
pub open spec fn grid_fault(meta: GridMeta, cells: Seq<u32>, cell_edges: Seq<u32>, m: int) -> Option<Seq<char>> {
    if meta.cell_lat <= 0 || meta.cell_lon <= 0 || meta.rows == 0 || meta.cols == 0 {
        Some("invalid grid dimensions"@)
    } else if meta.rows * meta.cols > usize::MAX {
        Some("grid too large"@)
    } else if !offsets_ok(cells, meta.rows * meta.cols, cell_edges.len() as int) {
        Some("grid offsets are not a valid index"@)
    } else if exists|i: int| 0 <= i < cell_edges.len() && #[trigger] cell_edges[i] >= m {
        Some("grid refers to a missing edge"@)
    } else {
        None
    }
}

/// The error text for a file whose header, table and sections are sound:
/// the first fault of its graph (with the per-edge sections' counts), or
/// of its grid.
pub open spec fn content_fault(b: Seq<u8>) -> Option<Seq<char>> {
    let m = edges(section_bytes(b, 5)).len();
    match graph_fault(
        points(section_bytes(b, 1)),
        u32s(section_bytes(b, 2)),
        u32s(section_bytes(b, 3)),
        u32s(section_bytes(b, 4)),
        edges(section_bytes(b, 5)),
        u32s(section_bytes(b, 6)),
        points(section_bytes(b, 7)),
        (section_bytes(b, 8).len() / 16) as int,
        way_refs(section_bytes(b, 12)).len() as int,
    ) {
        Some(t) => Some(t),
        None => if grid_metas(section_bytes(b, 9)).len() != 1 {
            Some("grid meta must be exactly one record"@)
        } else {
            grid_fault(grid_metas(section_bytes(b, 9))[0], u32s(section_bytes(b, 10)), u32s(section_bytes(b, 11)), m as int)
        },
    }
}

/// The error text for the first fault of a file's header, section table,
/// sections, routing graph, per-edge sections or grid (`None` for a file
/// the reader accepts).
pub open spec fn region_fault(b: Seq<u8>) -> Option<Seq<char>> {
    match header_fault(b) {
        Some(m) => Some(m),
        None => match table_fault(b.len() as int, spec_table(b)) {
            Some(m) => Some(m),
            None => match sections_fault(b) {
                Some(m) => Some(m),
                None => content_fault(b),
            },
        },
    }
}

/// The error text for the first entry, from `i` on, that is out of
/// bounds or whose bytes do not have the CRC32 the table lists.
pub open spec fn crc_fault_from(b: Seq<u8>, t: Seq<SectionEntry>, i: int) -> Option<Seq<char>>
    decreases t.len() - i,
{
    if i < 0 || i >= t.len() {
        None
    } else if !entry_in_bounds(b.len() as int, t[i]) {
        Some(range_text(b.len() as int, t[i]))
    } else if crc32_ieee(b.subrange(t[i].offset as int, t[i].offset + t[i].len)) != t[i].crc32 {
        Some("checksum mismatch in section "@ + decimal(t[i].id as nat) + " (expected "@ + hex8(t[i].crc32) + ", got "@
            + hex8(crc32_ieee(b.subrange(t[i].offset as int, t[i].offset + t[i].len))) + ")"@)
    } else {
        crc_fault_from(b, t, i + 1)
    }
}

/// The error text for the first fault the checksum pass finds: in the
/// header, else in an entry's bounds or checksum.
pub open spec fn checksum_fault(b: Seq<u8>) -> Option<Seq<char>> {
    match header_fault(b) {
        Some(m) => Some(m),
        None => crc_fault_from(b, spec_table(b), 0),
    }
}

} // verus!
