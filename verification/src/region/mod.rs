//! Region files: validated once when read, so query code can index the
//! typed arrays without checking.
//!
//! [`Region::from_bytes`] checks the whole structure (header, section
//! bounds, array lengths, monotonic offsets, index ranges); the file's
//! CRC32 checksums are verified separately by [`verify_bytes`], once, when
//! a file is installed.

pub mod format;
pub mod layout;
pub mod read;
pub mod check;
pub mod text;
pub mod encode;
pub mod writer;
pub mod grid;
pub mod accept;
pub mod content;
pub mod reread;
pub mod header_text;
pub mod faults;
pub mod sound;

use vstd::prelude::*;
use vstd::utf8::valid_utf8;
use crate::error::{region_error, with_number, CoreError};
use crate::le::le_i64;
use format::spec_bbox;
use format::{BBoxE7, CurvatureMetrics, Edge, GridMeta, PointE7, SectionEntry, WayRef};
use layout::{
    header_ok, arrays_whole, edges, entry_in_bounds, graph_ok, grid_metas, grid_ok, has_section, ids_distinct,
    lemma_offsets_step, offsets_ok, points, record_size, region_bytes_valid, section_bytes,
    sections_present, spec_table, table_ok, u32s, way_refs,
};
use read::{
    check_table, check_whole, curvature_at, decode_curvatures, decode_edges, decode_grid_metas,
    decode_points, decode_u32s, decode_way_refs, find_section, lemma_chosen_entry, parse_header,
};
use check::{check_graph, check_grid};
use faults::{
    broken_text, checksum_fault, content_fault, crc_fault_from, header_fault, missing_text, range_text, region_fault,
    sections_fault, table_fault,
};
use text::{nul_prefix_len, str_field};

verus! {

/// Descriptive fields of the header.
#[derive(Debug, Clone, PartialEq, Default)]
pub struct RegionInfo {
    /// Seconds since the Unix epoch; 0 if unknown.
    pub osm_timestamp: i64,
    pub bbox: BBoxE7,
    /// At most 32 bytes.
    pub builder_version: String,
    /// At most 64 bytes.
    pub source_name: String,
}

/// An open, validated region.
pub struct Region {
    bytes: Vec<u8>,
    info: RegionInfo,
    nodes: Vec<PointE7>,
    fwd: Vec<u32>,
    bwd: Vec<u32>,
    bwd_edges: Vec<u32>,
    edges: Vec<Edge>,
    geom: Vec<u32>,
    shape: Vec<PointE7>,
    curvature: Vec<CurvatureMetrics>,
    way_refs: Vec<WayRef>,
    grid_meta: GridMeta,
    cells: Vec<u32>,
    cell_edges: Vec<u32>,
}

/// Where section `id` lies in the file, when the table is sound.
fn locate(
    bytes: &[u8],
    table: &Vec<SectionEntry>,
    ranges: &Vec<(usize, usize)>,
    id: u32,
) -> (r: Result<(usize, usize), CoreError>)
    requires
        table_ok(bytes@),
        table@ == spec_table(bytes@),
        ranges@.len() == table@.len(),
        forall|i: int| 0 <= i < table@.len() ==> (#[trigger] ranges@[i]).0 == table@[i].offset
            && ranges@[i].1 == table@[i].offset + table@[i].len,
    ensures
        r is Ok <==> has_section(table@, id),
        r is Err ==> (r matches Err(CoreError::Region(m)) && m@ == missing_text(id)),
        r matches Ok((a, b)) ==> a <= b <= bytes@.len() && bytes@.subrange(a as int, b as int) == section_bytes(bytes@, id),
{
    let (a, b) = match find_section(table, ranges, id) {
        Ok(r) => r,
        Err(e) => return Err(e),
    };
    let ghost i = choose|i: int| 0 <= i < table@.len() && #[trigger] table@[i].id == id
        && a == table@[i].offset && b == table@[i].offset + table@[i].len;
    proof {
        lemma_chosen_entry(table@, id, i);
        assert(entry_in_bounds(bytes@.len() as int, table@[i]));
    }
    Ok((a, b))
}

/// The bytes of section `id` at `a..b`, when they hold whole records of
/// `size` bytes.
fn records<'a>(bytes: &'a [u8], a: usize, b: usize, id: u32, size: usize) -> (r: Result<&'a [u8], CoreError>)
    requires
        a <= b <= bytes@.len(),
        size == record_size(id),
    ensures
        r is Ok <==> (b - a) as int % record_size(id) == 0,
        r is Err ==> (r matches Err(CoreError::Region(m)) && m@ == broken_text(id)),
        r matches Ok(s) ==> s@ == bytes@.subrange(a as int, b as int),
{
    match check_whole(id, b - a, size) {
        Ok(()) => {},
        Err(e) => return Err(e),
    }
    Ok(&bytes[a..b])
}

/// Full structural validation: everything the accessors rely on.
fn validate(bytes: &[u8]) -> (r: Result<Region, CoreError>)
    ensures
        r is Ok <==> region_bytes_valid(bytes@),
        r matches Err(e) ==> e is Region,
        r matches Ok(region) ==> region.bytes@ == bytes@,
        region_fault(bytes@) matches Some(t) ==> (r matches Err(CoreError::Region(m)) && m@ == t),
{
    let (header, table) = match parse_header(bytes) {
        Ok(h) => h,
        Err(e) => return Err(e),
    };
    let ranges = match check_table(bytes.len(), &table) {
        Ok(r) => r,
        Err(e) => return Err(e),
    };
    assert(table_ok(bytes@));
    let at1 = match locate(bytes, &table, &ranges, 1) {
        Ok(r) => r,
        Err(e) => return Err(e),
    };
    let at2 = match locate(bytes, &table, &ranges, 2) {
        Ok(r) => r,
        Err(e) => return Err(e),
    };
    let at3 = match locate(bytes, &table, &ranges, 3) {
        Ok(r) => r,
        Err(e) => return Err(e),
    };
    let at4 = match locate(bytes, &table, &ranges, 4) {
        Ok(r) => r,
        Err(e) => return Err(e),
    };
    let at5 = match locate(bytes, &table, &ranges, 5) {
        Ok(r) => r,
        Err(e) => return Err(e),
    };
    let at6 = match locate(bytes, &table, &ranges, 6) {
        Ok(r) => r,
        Err(e) => return Err(e),
    };
    let at7 = match locate(bytes, &table, &ranges, 7) {
        Ok(r) => r,
        Err(e) => return Err(e),
    };
    let at8 = match locate(bytes, &table, &ranges, 8) {
        Ok(r) => r,
        Err(e) => return Err(e),
    };
    let at10 = match locate(bytes, &table, &ranges, 10) {
        Ok(r) => r,
        Err(e) => return Err(e),
    };
    let at11 = match locate(bytes, &table, &ranges, 11) {
        Ok(r) => r,
        Err(e) => return Err(e),
    };
    let at12 = match locate(bytes, &table, &ranges, 12) {
        Ok(r) => r,
        Err(e) => return Err(e),
    };
    let node_pos = match records(bytes, at1.0, at1.1, 1, 8) {
        Ok(s) => s,
        Err(e) => return Err(e),
    };
    let fwd_b = match records(bytes, at2.0, at2.1, 2, 4) {
        Ok(s) => s,
        Err(e) => return Err(e),
    };
    let bwd_b = match records(bytes, at3.0, at3.1, 3, 4) {
        Ok(s) => s,
        Err(e) => return Err(e),
    };
    let bwd_edges_b = match records(bytes, at4.0, at4.1, 4, 4) {
        Ok(s) => s,
        Err(e) => return Err(e),
    };
    let edges_b = match records(bytes, at5.0, at5.1, 5, 20) {
        Ok(s) => s,
        Err(e) => return Err(e),
    };
    let geom_b = match records(bytes, at6.0, at6.1, 6, 4) {
        Ok(s) => s,
        Err(e) => return Err(e),
    };
    let shape_b = match records(bytes, at7.0, at7.1, 7, 8) {
        Ok(s) => s,
        Err(e) => return Err(e),
    };
    let curvature_b = match records(bytes, at8.0, at8.1, 8, 16) {
        Ok(s) => s,
        Err(e) => return Err(e),
    };
    let at9 = match locate(bytes, &table, &ranges, 9) {
        Ok(r) => r,
        Err(e) => return Err(e),
    };
    let meta_b = match records(bytes, at9.0, at9.1, 9, 24) {
        Ok(s) => s,
        Err(e) => return Err(e),
    };
    let cells_b = match records(bytes, at10.0, at10.1, 10, 4) {
        Ok(s) => s,
        Err(e) => return Err(e),
    };
    let cell_edges_b = match records(bytes, at11.0, at11.1, 11, 4) {
        Ok(s) => s,
        Err(e) => return Err(e),
    };
    let way_refs_b = match records(bytes, at12.0, at12.1, 12, 16) {
        Ok(s) => s,
        Err(e) => return Err(e),
    };
    assert(sections_fault(bytes@) is None);
    assert(sections_present(spec_table(bytes@))) by {
        assert forall|id: u32| 1 <= id <= 12 implies #[trigger] has_section(spec_table(bytes@), id) by {
            if id == 1 {} else if id == 2 {} else if id == 3 {} else if id == 4 {} else if id == 5 {}
            else if id == 6 {} else if id == 7 {} else if id == 8 {} else if id == 9 {} else if id == 10 {}
            else if id == 11 {} else {}
        }
    }
    assert(arrays_whole(bytes@)) by {
        assert forall|id: u32| 1 <= id <= 12 implies (#[trigger] section_bytes(bytes@, id)).len() as int
            % record_size(id) == 0 by {
            if id == 1 {} else if id == 2 {} else if id == 3 {} else if id == 4 {} else if id == 5 {}
            else if id == 6 {} else if id == 7 {} else if id == 8 {} else if id == 9 {} else if id == 10 {}
            else if id == 11 {} else {}
        }
    }
    let nodes = decode_points(node_pos);
    let fwd = decode_u32s(fwd_b);
    let bwd = decode_u32s(bwd_b);
    let bwd_edges = decode_u32s(bwd_edges_b);
    let edge_list = decode_edges(edges_b);
    let geom = decode_u32s(geom_b);
    let shape = decode_points(shape_b);
    let curvature = decode_curvatures(curvature_b);
    let metas = decode_grid_metas(meta_b);
    let cells = decode_u32s(cells_b);
    let cell_edges = decode_u32s(cell_edges_b);
    let refs = decode_way_refs(way_refs_b);
    proof {
        assert(region_fault(bytes@) == content_fault(bytes@));
    }
    match check_graph(
        nodes.as_slice(),
        fwd.as_slice(),
        bwd.as_slice(),
        bwd_edges.as_slice(),
        edge_list.as_slice(),
        geom.as_slice(),
        shape.as_slice(),
        curvature.len(),
        refs.len(),
    ) {
        Ok(()) => {},
        Err(e) => return Err(e),
    }
    let m = edge_list.len();
    if metas.len() != 1 {
        return Err(region_error("grid meta must be exactly one record"));
    }
    let meta = metas[0];
    match check_grid(&meta, cells.as_slice(), cell_edges.as_slice(), m) {
        Ok(()) => {},
        Err(e) => return Err(e),
    }
    let info = RegionInfo {
        osm_timestamp: header.osm_timestamp,
        bbox: header.bbox,
        builder_version: str_field(&header.builder_version),
        source_name: str_field(&header.source_name),
    };
    Ok(Region {
        bytes: vstd::slice::slice_to_vec(bytes),
        info,
        nodes,
        fwd,
        bwd,
        bwd_edges,
        edges: edge_list,
        geom,
        shape,
        curvature,
        way_refs: refs,
        grid_meta: meta,
        cells,
        cell_edges,
    })
}

impl Region {
    /// The file this region was read from.
    pub closed spec fn file(&self) -> Seq<u8> {
        self.bytes@
    }

    /// The region's arrays are the file's sections, and sound.
    #[verifier::type_invariant]
    pub closed spec fn wf(&self) -> bool {
        let b = self.bytes@;
        &&& region_bytes_valid(b)
        &&& self.info.osm_timestamp == le_i64(b, 16)
        &&& self.info.bbox == spec_bbox(b, 24)
        &&& self.info.builder_version@ == text::field_text(b.subrange(40, 72))
        &&& self.info.source_name@ == text::field_text(b.subrange(72, 136))
        &&& self.nodes@ == points(section_bytes(b, 1))
        &&& self.fwd@ == u32s(section_bytes(b, 2))
        &&& self.bwd@ == u32s(section_bytes(b, 3))
        &&& self.bwd_edges@ == u32s(section_bytes(b, 4))
        &&& self.edges@ == edges(section_bytes(b, 5))
        &&& self.geom@ == u32s(section_bytes(b, 6))
        &&& self.shape@ == points(section_bytes(b, 7))
        &&& self.curvature@.len() == section_bytes(b, 8).len() / 16
        &&& forall|k: int| 0 <= k < self.curvature@.len() ==> curvature_at(
            #[trigger] self.curvature@[k],
            section_bytes(b, 8),
            k,
        )
        &&& self.grid_meta == grid_metas(section_bytes(b, 9))[0]
        &&& self.cells@ == u32s(section_bytes(b, 10))
        &&& self.cell_edges@ == u32s(section_bytes(b, 11))
        &&& self.way_refs@ == way_refs(section_bytes(b, 12))
    }
}


impl Region {
    /// Validates a region file held in memory.
    pub fn from_bytes(bytes: &[u8]) -> (r: Result<Self, CoreError>)
        ensures
            r is Ok <==> region_bytes_valid(bytes@),
            r matches Err(e) ==> e is Region,
            r matches Ok(region) ==> region.file() == bytes@,
            region_fault(bytes@) matches Some(t) ==> (r matches Err(CoreError::Region(m)) && m@ == t),
    {
        validate(bytes)
    }

    /// Checks every section's CRC32 against the section table.
    pub fn verify_checksums(&self) -> (r: Result<(), CoreError>)
        ensures
            r is Ok <==> checksums_ok(self.file()),
            r matches Err(e) ==> e is Region,
    {
        verify_crcs(self.bytes.as_slice())
    }

    /// The header's descriptive fields as this region holds them.
    pub closed spec fn header_info(&self) -> RegionInfo {
        self.info
    }

    /// The header's descriptive fields: timestamp and box as the file
    /// holds them, and the builder and source texts.
    pub fn info(&self) -> (r: &RegionInfo)
        ensures
            *r == self.header_info(),
            r.osm_timestamp == le_i64(self.file(), 16),
            r.bbox == spec_bbox(self.file(), 24),
            r.builder_version@ == text::field_text(self.file().subrange(40, 72)),
            r.source_name@ == text::field_text(self.file().subrange(72, 136)),
    {
        proof { use_type_invariant(self); }
        &self.info
    }

    /// Routing node positions, indexed by node id.
    pub fn nodes(&self) -> (r: &[PointE7])
        ensures
            r@ == points(section_bytes(self.file(), 1)),
    {
        proof { use_type_invariant(self); }
        self.nodes.as_slice()
    }

    /// Directed edges sorted by tail, indexed by edge id.
    pub fn edges(&self) -> (r: &[Edge])
        ensures
            r@ == edges(section_bytes(self.file(), 5)),
    {
        proof { use_type_invariant(self); }
        self.edges.as_slice()
    }

    /// Node count + 1 offsets into [`Self::edges`].
    pub fn fwd_offsets(&self) -> (r: &[u32])
        ensures
            r@ == u32s(section_bytes(self.file(), 2)),
    {
        proof { use_type_invariant(self); }
        self.fwd.as_slice()
    }

    /// Node count + 1 offsets into [`Self::bwd_edges`].
    pub fn bwd_offsets(&self) -> (r: &[u32])
        ensures
            r@ == u32s(section_bytes(self.file(), 3)),
    {
        proof { use_type_invariant(self); }
        self.bwd.as_slice()
    }

    /// Edge ids sorted by head.
    pub fn bwd_edges(&self) -> (r: &[u32])
        ensures
            r@ == u32s(section_bytes(self.file(), 4)),
    {
        proof { use_type_invariant(self); }
        self.bwd_edges.as_slice()
    }

    pub fn geometry_offsets(&self) -> (r: &[u32])
        ensures
            r@ == u32s(section_bytes(self.file(), 6)),
    {
        proof { use_type_invariant(self); }
        self.geom.as_slice()
    }

    pub fn shape_points(&self) -> (r: &[PointE7])
        ensures
            r@ == points(section_bytes(self.file(), 7)),
    {
        proof { use_type_invariant(self); }
        self.shape.as_slice()
    }

    /// Curvature metrics, indexed by edge id.
    pub fn curvature(&self) -> (r: &[CurvatureMetrics])
        ensures
            r@.len() == section_bytes(self.file(), 8).len() / 16,
            forall|k: int| 0 <= k < r@.len() ==> curvature_at(#[trigger] r@[k], section_bytes(self.file(), 8), k),
    {
        proof { use_type_invariant(self); }
        self.curvature.as_slice()
    }

    /// OSM way references, indexed by edge id.
    pub fn way_refs(&self) -> (r: &[WayRef])
        ensures
            r@ == way_refs(section_bytes(self.file(), 12)),
    {
        proof { use_type_invariant(self); }
        self.way_refs.as_slice()
    }

    pub fn grid_meta(&self) -> (r: &GridMeta)
        ensures
            *r == grid_metas(section_bytes(self.file(), 9))[0],
    {
        proof { use_type_invariant(self); }
        &self.grid_meta
    }

    /// Cell count + 1 offsets into [`Self::grid_edges`], row-major.
    pub fn grid_cells(&self) -> (r: &[u32])
        ensures
            r@ == u32s(section_bytes(self.file(), 10)),
    {
        proof { use_type_invariant(self); }
        self.cells.as_slice()
    }

    pub fn grid_edges(&self) -> (r: &[u32])
        ensures
            r@ == u32s(section_bytes(self.file(), 11)),
    {
        proof { use_type_invariant(self); }
        self.cell_edges.as_slice()
    }

    pub fn node_count(&self) -> (n: usize)
        ensures
            n == points(section_bytes(self.file(), 1)).len(),
    {
        proof { use_type_invariant(self); }
        self.nodes.len()
    }

    pub fn edge_count(&self) -> (m: usize)
        ensures
            m == edges(section_bytes(self.file(), 5)).len(),
    {
        proof { use_type_invariant(self); }
        self.edges.len()
    }

    /// Edge ids leaving `node` (empty for an unknown node); every one
    /// leaves it.
    pub fn out_edges(&self, node: u32) -> (r: std::ops::Range<u32>)
        ensures
            ({
                let o = u32s(section_bytes(self.file(), 2));
                if node < points(section_bytes(self.file(), 1)).len() {
                    r.start == o[node as int] && r.end == o[node + 1]
                } else {
                    r.start == 0 && r.end == 0
                }
            }),
            r.start <= r.end <= edges(section_bytes(self.file(), 5)).len(),
            forall|k: int| r.start <= k < r.end ==> (#[trigger] edges(section_bytes(self.file(), 5))[k]).tail == node,
    {
        proof { use_type_invariant(self); }
        if (node as usize) < self.nodes.len() {
            let v = node as usize;
            proof {
                lemma_offsets_step(self.fwd@, self.nodes@.len() as int, self.edges@.len() as int, v as int);
                assert forall|k: int| self.fwd@[v as int] <= k < self.fwd@[v + 1] implies
                    (#[trigger] self.edges@[k]).tail == node by {
                    assert(layout::fwd_edge_ok(self.nodes@, self.fwd@, self.edges@, self.geom@, self.shape@, v as int, k));
                }
            }
            self.fwd[v]..self.fwd[v + 1]
        } else {
            0..0
        }
    }

    /// Ids of the edges entering `node` (empty for an unknown node); every
    /// one is an edge into it.
    pub fn in_edges(&self, node: u32) -> (r: &[u32])
        ensures
            ({
                let o = u32s(section_bytes(self.file(), 3));
                let ids = u32s(section_bytes(self.file(), 4));
                if node < points(section_bytes(self.file(), 1)).len() {
                    r@ == ids.subrange(o[node as int] as int, o[node + 1] as int)
                } else {
                    r@.len() == 0
                }
            }),
            forall|i: int| 0 <= i < r@.len() ==> (#[trigger] r@[i]) < edges(section_bytes(self.file(), 5)).len()
                && edges(section_bytes(self.file(), 5))[r@[i] as int].head == node,
    {
        proof { use_type_invariant(self); }
        if (node as usize) < self.nodes.len() {
            let v = node as usize;
            proof {
                lemma_offsets_step(self.bwd@, self.nodes@.len() as int, self.bwd_edges@.len() as int, v as int);
            }
            let a = self.bwd[v] as usize;
            let b = self.bwd[v + 1] as usize;
            let r = &self.bwd_edges.as_slice()[a..b];
            proof {
                assert forall|i: int| 0 <= i < r@.len() implies (#[trigger] r@[i]) < self.edges@.len()
                    && self.edges@[r@[i] as int].head == node by {
                    assert(layout::bwd_edge_ok(self.edges@, self.bwd_edges@, v as int, a + i));
                }
            }
            r
        } else {
            &[]
        }
    }

    /// Shape points of a geometry, endpoints included (at least two for a
    /// geometry of the file, none for another).
    pub fn geometry(&self, geometry: u32) -> (r: &[PointE7])
        ensures
            ({
                let o = u32s(section_bytes(self.file(), 6));
                let shape = points(section_bytes(self.file(), 7));
                if geometry + 1 < o.len() {
                    r@ == shape.subrange(o[geometry as int] as int, o[geometry + 1] as int) && r@.len() >= 2
                } else {
                    r@.len() == 0
                }
            }),
    {
        proof { use_type_invariant(self); }
        let g = geometry as usize;
        if g < self.geom.len() && g + 1 < self.geom.len() {
            proof {
                lemma_offsets_step(self.geom@, self.geom@.len() - 1, self.shape@.len() as int, g as int);
            }
            let a = self.geom[g] as usize;
            let b = self.geom[g + 1] as usize;
            &self.shape.as_slice()[a..b]
        } else {
            &[]
        }
    }

    /// Edge ids listed in grid cell (`row`, `col`); every one an edge of
    /// the region.
    pub fn grid_cell(&self, row: u32, col: u32) -> (r: &[u32])
        ensures
            ({
                let meta = grid_metas(section_bytes(self.file(), 9))[0];
                let o = u32s(section_bytes(self.file(), 10));
                let ids = u32s(section_bytes(self.file(), 11));
                if row < meta.rows && col < meta.cols {
                    let cell = row * meta.cols + col;
                    r@ == ids.subrange(o[cell] as int, o[cell + 1] as int)
                } else {
                    r@.len() == 0
                }
            }),
            forall|i: int| 0 <= i < r@.len() ==> (#[trigger] r@[i]) < edges(section_bytes(self.file(), 5)).len(),
    {
        proof { use_type_invariant(self); }
        let meta = self.grid_meta;
        if row >= meta.rows || col >= meta.cols {
            return &[];
        }
        let count = meta.rows as usize * meta.cols as usize;
        proof {
            assert(row * meta.cols + col < meta.rows * meta.cols) by (nonlinear_arith)
                requires row < meta.rows, col < meta.cols;
            assert(row * meta.cols <= (meta.rows - 1) * meta.cols) by (nonlinear_arith)
                requires row < meta.rows;
        }
        let cell = row as usize * meta.cols as usize + col as usize;
        proof {
            lemma_offsets_step(self.cells@, count as int, self.cell_edges@.len() as int, cell as int);
        }
        let a = self.cells[cell] as usize;
        let b = self.cells[cell + 1] as usize;
        &self.cell_edges.as_slice()[a..b]
    }
}

/// Edge `t` runs the other way along the same geometry as edge `id`: it
/// is another edge from `id`'s head back to its tail.
pub open spec fn is_twin(es: Seq<Edge>, id: int, t: int) -> bool {
    t != id && es[t].tail == es[id].head && es[t].head == es[id].tail && es[t].geometry == es[id].geometry
}

/// Offsets from 0 to `total` over `count` items put each `k < total` in the
/// range of some item.
proof fn lemma_in_some_range(o: Seq<u32>, count: int, total: int, k: int, u: int) -> (v: int)
    requires
        offsets_ok(o, count, total),
        0 <= u < count,
        o[u] <= k < total,
    ensures
        u <= v < count,
        o[v] <= k < o[v + 1],
    decreases count - u,
{
    lemma_offsets_step(o, count, total, u);
    reveal(offsets_ok);
    if k < o[u + 1] {
        u
    } else {
        lemma_in_some_range(o, count, total, k, u + 1)
    }
}

/// In a sound graph, every edge lies in the forward range of its tail.
proof fn lemma_out_range(
    nodes: Seq<PointE7>,
    fwd: Seq<u32>,
    bwd: Seq<u32>,
    bwd_edges: Seq<u32>,
    es: Seq<Edge>,
    geom: Seq<u32>,
    shape: Seq<PointE7>,
    k: int,
)
    requires
        graph_ok(nodes, fwd, bwd, bwd_edges, es, geom, shape),
        0 <= k < es.len(),
    ensures
        es[k].tail < nodes.len(),
        fwd[es[k].tail as int] <= k < fwd[es[k].tail + 1],
{
    let n = nodes.len() as int;
    let m = es.len() as int;
    reveal(offsets_ok);
    assert(fwd[0] == 0);
    if n == 0 {
        assert(fwd[0] == m);
    }
    let v = lemma_in_some_range(fwd, n, m, k, 0);
    assert(layout::fwd_edge_ok(nodes, fwd, es, geom, shape, v, k));
}

/// The edge running the other way along the same geometry as edge `id`,
/// if any: the first edge leaving `id`'s head that returns to its tail
/// over the same geometry.
pub fn twin(region: &Region, id: u32) -> (r: Option<u32>)
    requires
        id < edges(section_bytes(region.file(), 5)).len(),
    ensures
        ({
            let es = edges(section_bytes(region.file(), 5));
            match r {
                Some(t) => {
                    &&& t < es.len()
                    &&& is_twin(es, id as int, t as int)
                    &&& forall|k: int| 0 <= k < t && es[k].tail == es[t as int].tail ==> !is_twin(es, id as int, k)
                },
                None => forall|k: int| 0 <= k < es.len() ==> !is_twin(es, id as int, k),
            }
        }),
{
    proof { use_type_invariant(region); }
    let e = region.edges()[id as usize];
    let out = region.out_edges(e.head);
    let ghost es = edges(section_bytes(region.file(), 5));
    let ghost o = u32s(section_bytes(region.file(), 2));
    let mut t = out.start;
    while t < out.end
        invariant
            es == edges(section_bytes(region.file(), 5)),
            o == u32s(section_bytes(region.file(), 2)),
            id < es.len(),
            e == es[id as int],
            out.start <= t <= out.end <= es.len(),
            forall|k: int| out.start <= k < out.end ==> (#[trigger] es[k]).tail == e.head,
            ({
                if e.head < points(section_bytes(region.file(), 1)).len() {
                    out.start == o[e.head as int] && out.end == o[e.head + 1]
                } else {
                    out.start == 0 && out.end == 0
                }
            }),
            forall|k: int| out.start <= k < t ==> !is_twin(es, id as int, k),
        decreases out.end - t,
    {
        let f = region.edges()[t as usize];
        if t != id && f.head == e.tail && f.geometry == e.geometry {
            proof {
                use_type_invariant(region);
                assert forall|k: int| 0 <= k < t && es[k].tail == es[t as int].tail implies !is_twin(es, id as int, k) by {
                    lemma_out_range(region.nodes@, region.fwd@, region.bwd@, region.bwd_edges@, region.edges@,
                        region.geom@, region.shape@, k);
                }
            }
            return Some(t);
        }
        t += 1;
    }
    proof {
        assert forall|k: int| 0 <= k < es.len() implies !is_twin(es, id as int, k) by {
            if is_twin(es, id as int, k) {
                lemma_out_range(region.nodes@, region.fwd@, region.bwd@, region.bwd_edges@, region.edges@,
                    region.geom@, region.shape@, k);
            }
        }
    }
    None
}

/// Every section's CRC32 matches the section table.
pub open spec fn checksums_ok(b: Seq<u8>) -> bool {
    &&& header_ok(b)
    &&& forall|i: int| 0 <= i < spec_table(b).len() ==> {
        let s = #[trigger] spec_table(b)[i];
        entry_in_bounds(b.len() as int, s) && crc32_ieee(b.subrange(s.offset as int, s.offset + s.len)) == s.crc32
    }
}

/// One bit of the CRC32 (IEEE) register: shift it right, and fold in the
/// reflected polynomial `0xEDB88320` when the bit shifted out was set.
pub open spec fn crc_shift(c: u32) -> u32 {
    if c & 1u32 == 1u32 {
        (c >> 1u32) ^ 0xEDB8_8320u32
    } else {
        c >> 1u32
    }
}

/// `crc_shift` applied `k` times.
pub open spec fn crc_shifts(c: u32, k: nat) -> u32
    decreases k,
{
    if k == 0 {
        c
    } else {
        crc_shifts(crc_shift(c), (k - 1) as nat)
    }
}

/// The CRC32 register after the bytes of `data`: it starts with all bits
/// set, and each byte is xored into its low bits, then shifted in bit by bit.
pub open spec fn crc_register(data: Seq<u8>) -> u32
    decreases data.len(),
{
    if data.len() == 0 {
        0xFFFF_FFFFu32
    } else {
        crc_shifts(crc_register(data.drop_last()) ^ (data.last() as u32), 8)
    }
}

/// The CRC32 (IEEE 802.3) of the bytes: the final register with every
/// bit inverted.
pub open spec fn crc32_ieee(data: Seq<u8>) -> u32 {
    crc_register(data) ^ 0xFFFF_FFFFu32
}

/// `crc32fast::hash`: the CRC32 (IEEE) of `data`, as [`crc32_ieee`]
/// states it bit by bit (the crate computes the same value with lookup
/// tables or the CPU's carry-less multiply).
#[verifier::external_body]
pub(crate) fn crc32(data: &[u8]) -> (c: u32)
    ensures
        c == crc32_ieee(data@),
{
    crc32fast::hash(data)
}

/// Checks every section's CRC32 against the section table.
fn verify_crcs(bytes: &[u8]) -> (r: Result<(), CoreError>)
    ensures
        r is Ok <==> checksums_ok(bytes@),
        r matches Err(e) ==> e is Region,
        r is Err ==> (r matches Err(CoreError::Region(m)) && checksum_fault(bytes@) == Some(m@)),
        r is Ok ==> checksum_fault(bytes@) is None,
{
    let (_, table) = match parse_header(bytes) {
        Ok(h) => h,
        Err(e) => return Err(e),
    };
    let mut i: usize = 0;
    while i < table.len()
        invariant
            header_ok(bytes@),
            table@ == spec_table(bytes@),
            i <= table@.len(),
            forall|k: int| 0 <= k < i ==> {
                let s = #[trigger] table@[k];
                entry_in_bounds(bytes@.len() as int, s) && crc32_ieee(bytes@.subrange(s.offset as int, s.offset + s.len)) == s.crc32
            },
            header_fault(bytes@) is None,
            crc_fault_from(bytes@, table@, 0) == crc_fault_from(bytes@, table@, i as int),
        decreases table@.len() - i,
    {
        let s = table[i];
        let (a, b) = match read::section_range(bytes.len(), &s) {
            Ok(r) => r,
            Err(e) => return Err(e),
        };
        let crc = crc32(&bytes[a..b]);
        if crc != s.crc32 {
            let mut text = with_number("checksum mismatch in section ", s.id as u64, " (expected ");
            crate::gpx::text::push_hex8(&mut text, s.crc32);
            let mut text = crate::error::join(text, crate::error::owned(", got "));
            crate::gpx::text::push_hex8(&mut text, crc);
            let text = crate::error::join(text, crate::error::owned(")"));
            proof {
                assert(text@ =~= "checksum mismatch in section "@ + crate::gpx::text::decimal(s.id as nat) + " (expected "@
                    + crate::gpx::text::hex8(s.crc32) + ", got "@ + crate::gpx::text::hex8(crc) + ")"@);
            }
            return Err(CoreError::Region(text));
        }
        i += 1;
    }
    assert(crc_fault_from(bytes@, table@, i as int) is None);
    Ok(())
}

/// Verifies a region file before it is installed: CRC32 of every section,
/// then the same structural checks as [`Region::from_bytes`].
pub fn verify_bytes(bytes: &[u8]) -> (r: Result<(), CoreError>)
    ensures
        r is Ok <==> checksums_ok(bytes@) && region_bytes_valid(bytes@),
        r matches Err(e) ==> e is Region,
        checksum_fault(bytes@) matches Some(t) ==> (r matches Err(CoreError::Region(m)) && m@ == t),
        checksum_fault(bytes@) is None ==> (region_fault(bytes@) matches Some(t)
            ==> (r matches Err(CoreError::Region(m)) && m@ == t)),
{
    match verify_crcs(bytes) {
        Ok(()) => {},
        Err(e) => return Err(e),
    }
    match validate(bytes) {
        Ok(_) => {},
        Err(e) => return Err(e),
    }
    Ok(())
}

} // verus!
