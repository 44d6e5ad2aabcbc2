//! Region content as owned arrays, and its serialisation to the file
//! layout.
//!
//! The writer derives the forward offsets, the backward edge index and the
//! grid's frame and cell index itself. Which cells an edge's polyline
//! crosses is worked out by the caller (it is floating-point geometry) and
//! handed in as (cell, edge) pairs.

use vstd::prelude::*;
use crate::error::{join, owned, region_error, CoreError};
use crate::le::{le_i64, le_u32};
use super::format::{spec_bbox, CurvatureMetrics, Edge, GridMeta, PointE7, WayRef};
use crate::le::u32_bytes;
use super::encode::{
    curvature_record, edge_bytes, encode_curvatures, encode_edges, encode_points, encode_u32s, encode_way_refs,
    grid_meta_bytes, lays_out, point_bytes, push_grid_meta, way_ref_bytes,
};
use super::grid::{bucket_index, cell_list, cell_of, in_cell, strictly_increasing};
use super::layout::{
    edge_ok, edges, grid_metas, lemma_offsets_mono, offsets_ok, point_in_range, points, region_bytes_valid, section_bytes, u32s,
    way_refs,
};
use super::read::curvature_at;
use super::reread::{
    lemma_curvatures_back, lemma_edges_back, lemma_grid_meta_back, lemma_header_back, lemma_points_back,
    lemma_layout_table, lemma_section_back, lemma_u32s_back, lemma_way_refs_back,
};
use super::header_text::{cut_text, lemma_field_reads_back, no_nul};
use super::text::field_text;
use super::accept::{lemma_file_valid, lemma_head_pairs_ascend, lemma_written_sound};
use super::writer::{
    assemble, lemma_offset_aligned, lemma_offset_bound, lemma_offset_mono, lemma_padded, lens, offset_of, padded,
    total_of,
};
use super::{checksums_ok, Region, RegionInfo};

verus! {

/// Everything that goes into a region file, as owned arrays.
#[derive(Debug, PartialEq, Default)]
pub struct RegionData {
    pub info: RegionInfo,
    /// Routing node positions; node ids are indices.
    pub nodes: Vec<PointE7>,
    /// Directed edges, sorted by `tail`; edge ids are indices.
    pub edges: Vec<Edge>,
    /// Geometry count + 1 offsets into `shape_points`, starting at 0.
    pub geometry_offsets: Vec<u32>,
    /// Polylines with both endpoints, in the geometry's own direction.
    pub shape_points: Vec<PointE7>,
    /// One per edge.
    pub curvature: Vec<CurvatureMetrics>,
    /// One per edge.
    pub way_refs: Vec<WayRef>,
    /// Snapping grid cell size in 1e-7 degrees (lat, lon).
    pub grid_cell: (i32, i32),
}

/// Tails never decrease along the edge list.
pub open spec fn tails_sorted(e: Seq<Edge>) -> bool {
    forall|i: int, j: int| 0 <= i < j < e.len() ==> e[i].tail <= e[j].tail
}

/// Both ends of the edge are among `n` nodes.
pub open spec fn edge_nodes_ok(e: Edge, n: int) -> bool {
    e.tail < n && e.head < n
}

/// The edge runs along its geometry (it is not the reverse of another).
pub open spec fn runs_forward(e: Edge) -> bool {
    e.flags & 1u8 == 0u8
}

/// `fwd[v]` is where the edges leaving node `v` start: the number of edges
/// whose tail is below `v`.
pub open spec fn forward_offsets_of(fwd: Seq<u32>, edges: Seq<Edge>, n: int) -> bool {
    &&& fwd.len() == n + 1
    &&& forall|v: int| 0 <= v <= n ==> #[trigger] fwd[v] <= edges.len()
    &&& forall|v: int, k: int| 0 <= v <= n && 0 <= k < edges.len() ==> (k < #[trigger] fwd[v] <==> #[trigger] edges[k].tail < v)
}


/// The polyline of an edge's geometry (endpoints included).
pub open spec fn polyline_of(geom: Seq<u32>, shape: Seq<PointE7>, e: Edge) -> Seq<PointE7> {
    shape.subrange(geom[e.geometry as int] as int, geom[e.geometry + 1] as int)
}

/// The edge's geometry offsets name a range of the shape points.
pub open spec fn polyline_in_range(geom: Seq<u32>, shape: Seq<PointE7>, e: Edge) -> bool {
    geom[e.geometry as int] <= geom[e.geometry + 1] <= shape.len()
}

/// The points the snapping grid covers: the polylines of the edges that
/// run along their geometry, in edge order (one edge per geometry is
/// enough; its reverse is found through the graph).
pub open spec fn grid_points(edges: Seq<Edge>, geom: Seq<u32>, shape: Seq<PointE7>) -> Seq<PointE7>
    decreases edges.len(),
{
    if edges.len() == 0 {
        Seq::empty()
    } else {
        let rest = grid_points(edges.drop_last(), geom, shape);
        if runs_forward(edges.last()) {
            rest + polyline_of(geom, shape, edges.last())
        } else {
            rest
        }
    }
}

pub open spec fn lats(s: Seq<PointE7>) -> Seq<int> {
    s.map_values(|p: PointE7| p.lat as int)
}

pub open spec fn lons(s: Seq<PointE7>) -> Seq<int> {
    s.map_values(|p: PointE7| p.lon as int)
}

/// Cells needed along one axis to cover `lo..=hi`.
pub open spec fn span(lo: int, hi: int, cell: int) -> int {
    (hi - lo) / cell + 1
}

/// The grid over `pts` with cells of `cell_lat` by `cell_lon`: its
/// south-west corner at the points' least latitude and longitude (the
/// origin when there are none), and the rows and columns that reach the
/// greatest.
pub open spec fn frame_of(pts: Seq<PointE7>, cell_lat: i32, cell_lon: i32) -> GridMeta {
    if pts.len() == 0 {
        GridMeta { min_lat: 0, min_lon: 0, cell_lat, cell_lon, rows: 1, cols: 1 }
    } else {
        GridMeta {
            min_lat: lats(pts).min() as i32,
            min_lon: lons(pts).min() as i32,
            cell_lat,
            cell_lon,
            rows: span(lats(pts).min(), lats(pts).max(), cell_lat as int) as u32,
            cols: span(lons(pts).min(), lons(pts).max(), cell_lon as int) as u32,
        }
    }
}

/// The grid's dimensions fit the file: rows and columns in 32 bits, and
/// fewer than `u32::MAX` cells.
pub open spec fn frame_fits(pts: Seq<PointE7>, cell_lat: i32, cell_lon: i32) -> bool {
    pts.len() == 0 || {
        let rows = span(lats(pts).min(), lats(pts).max(), cell_lat as int);
        let cols = span(lons(pts).min(), lons(pts).max(), cell_lon as int);
        rows <= u32::MAX && cols <= u32::MAX && rows * cols < u32::MAX
    }
}


/// `list` names, ascending and once each, the edges that enter node `v`.
pub open spec fn lists_edges_into(list: Seq<u32>, edges: Seq<Edge>, v: int) -> bool {
    &&& strictly_increasing(list)
    &&& forall|e: u32| #[trigger] list.contains(e) <==> e < edges.len() && edges[e as int].head == v
}

/// The (head, id) pair of every edge, whose index by head is the backward
/// edge list.
pub open spec fn head_pairs(edges: Seq<Edge>) -> Seq<(u32, u32)> {
    Seq::new(edges.len(), |k: int| (edges[k].head, k as u32))
}

impl RegionData {
    /// The arrays agree with each other: counts fit the file's 32-bit ids,
    /// one curvature record and way reference per edge, edges sorted by
    /// tail and referring to existing nodes and geometries.
    pub open spec fn arrays_ok(&self) -> bool {
        let n = self.nodes@.len();
        let m = self.edges@.len();
        &&& n <= u32::MAX && n < usize::MAX
        &&& m <= u32::MAX
        &&& self.shape_points@.len() <= u32::MAX
        &&& self.curvature@.len() == m
        &&& self.way_refs@.len() == m
        &&& forall|k: int| 0 <= k < m ==> (#[trigger] self.edges@[k]).tail < n && self.edges@[k].head < n
        &&& tails_sorted(self.edges@)
        &&& forall|k: int| 0 <= k < m ==> (#[trigger] self.edges@[k]).geometry + 1 < self.geometry_offsets@.len()
    }


    /// The writer's text for the first of its array checks that fails, in
    /// its order: too many nodes, edges or points, per-edge arrays of
    /// another length, an edge naming a missing node (the first such edge,
    /// shown as `{:?}` prints it), edges out of tail order, an edge naming a missing
    /// geometry.
    pub open spec fn arrays_fault(&self) -> Option<Seq<char>> {
        let n = self.nodes@.len();
        let m = self.edges@.len();
        if !(n <= u32::MAX && n < usize::MAX) {
            Some("cannot write region: too many nodes"@)
        } else if m > u32::MAX {
            Some("cannot write region: too many edges"@)
        } else if self.shape_points@.len() > u32::MAX {
            Some("cannot write region: too many points"@)
        } else if self.curvature@.len() != m || self.way_refs@.len() != m {
            Some("cannot write region: curvature and way refs need one entry per edge"@)
        } else if exists|k: int| 0 <= k < m && !edge_nodes_ok(self.edges@[k], n as int) {
            let k = choose|k: int| 0 <= k < m && !edge_nodes_ok(self.edges@[k], n as int)
                && forall|j: int| 0 <= j < k ==> edge_nodes_ok(self.edges@[j], n as int);
            Some("cannot write region: edge "@ + self.edges@[k].shown() + " refers to a missing node"@)
        } else if !tails_sorted(self.edges@) {
            Some("cannot write region: edges must be sorted by tail"@)
        } else if exists|k: int| 0 <= k < m && !(self.edges@[k].geometry + 1 < self.geometry_offsets@.len()) {
            Some("cannot write region: edge refers to a missing geometry"@)
        } else {
            None
        }
    }

    /// The writer's text for the first of its grid checks that fails:
    /// cell sizes, the indexed polylines' ranges, the grid's dimensions.
    pub open spec fn frame_fault(&self) -> Option<Seq<char>> {
        let geom = self.geometry_offsets@;
        let shape = self.shape_points@;
        if self.grid_cell.0 <= 0 || self.grid_cell.1 <= 0 {
            Some("cannot write region: grid cell size must be positive"@)
        } else if exists|k: int| 0 <= k < self.edges@.len() && runs_forward(#[trigger] self.edges@[k])
            && !polyline_in_range(geom, shape, self.edges@[k]) {
            Some("cannot write region: geometry offsets out of range"@)
        } else if !frame_fits(grid_points(self.edges@, geom, shape), self.grid_cell.0, self.grid_cell.1) {
            Some("cannot write region: grid too large"@)
        } else {
            None
        }
    }

    /// The snapping grid can be laid over the edges: positive cell sizes,
    /// every indexed polyline inside the shape points, and dimensions that
    /// fit the file.
    pub open spec fn frame_ok(&self) -> bool {
        let geom = self.geometry_offsets@;
        let shape = self.shape_points@;
        &&& self.grid_cell.0 > 0
        &&& self.grid_cell.1 > 0
        &&& forall|k: int| 0 <= k < self.edges@.len() && runs_forward(#[trigger] self.edges@[k])
            ==> polyline_in_range(geom, shape, self.edges@[k])
        &&& frame_fits(grid_points(self.edges@, geom, shape), self.grid_cell.0, self.grid_cell.1)
    }

    /// The grid's meta record.
    pub open spec fn frame(&self) -> GridMeta {
        frame_of(
            grid_points(self.edges@, self.geometry_offsets@, self.shape_points@),
            self.grid_cell.0,
            self.grid_cell.1,
        )
    }


    /// The points the grid covers, checking each indexed polyline's range.
    fn indexed_points(&self) -> (r: Result<Vec<PointE7>, CoreError>)
        requires
            self.arrays_ok(),
        ensures
            r is Ok <==> forall|k: int| 0 <= k < self.edges@.len() && runs_forward(#[trigger] self.edges@[k])
                ==> polyline_in_range(self.geometry_offsets@, self.shape_points@, self.edges@[k]),
            r matches Ok(p) ==> p@ == grid_points(self.edges@, self.geometry_offsets@, self.shape_points@),
            r matches Err(e) ==> e is Region,
            r is Err ==> (r matches Err(CoreError::Region(m)) && m@ == "cannot write region: geometry offsets out of range"@),
    {
        let ghost geom = self.geometry_offsets@;
        let ghost shape = self.shape_points@;
        let m = self.edges.len();
        let mut pts: Vec<PointE7> = Vec::new();
        let mut k: usize = 0;
        while k < m
            invariant
                self.arrays_ok(),
                geom == self.geometry_offsets@,
                shape == self.shape_points@,
                m == self.edges@.len(),
                k <= m,
                pts@ == grid_points(self.edges@.take(k as int), geom, shape),
                forall|j: int| 0 <= j < k && runs_forward(#[trigger] self.edges@[j])
                    ==> polyline_in_range(geom, shape, self.edges@[j]),
            decreases m - k,
        {
            let e = self.edges[k];
            let glen = self.geometry_offsets.len();
            proof {
                assert(e.geometry + 1 < geom.len()) by { assert(self.edges@[k as int] == e); }
                assert(self.edges@.take(k + 1).drop_last() =~= self.edges@.take(k as int));
                assert(self.edges@.take(k + 1).last() == e);
            }
            if e.flags & 1u8 == 0u8 {
                let g = e.geometry as usize;
                let a = self.geometry_offsets[g] as usize;
                let b = self.geometry_offsets[g + 1] as usize;
                if a > b || b > self.shape_points.len() {
                    return Err(region_error("cannot write region: geometry offsets out of range"));
                }
                let ghost before = pts@;
                let mut i: usize = a;
                while i < b
                    invariant
                        a <= i <= b,
                        b <= shape.len(),
                        shape == self.shape_points@,
                        pts@ == before + shape.subrange(a as int, i as int),
                    decreases b - i,
                {
                    pts.push(self.shape_points[i]);
                    i += 1;
                    assert(pts@ =~= before + shape.subrange(a as int, i as int));
                }
            }
            k += 1;
        }
        assert(self.edges@.take(m as int) =~= self.edges@);
        Ok(pts)
    }

    /// The snapping grid's meta record: after the writer's checks of the
    /// arrays, the grid's own (cell sizes, polyline ranges, dimensions).
    pub fn grid_frame(&self) -> (r: Result<GridMeta, CoreError>)
        ensures
            r is Ok <==> self.arrays_ok() && self.frame_ok(),
            r matches Ok(meta) ==> meta == self.frame(),
            r matches Ok(meta) ==> meta.cell_lat == self.grid_cell.0 && meta.cell_lon == self.grid_cell.1
                && meta.rows >= 1 && meta.cols >= 1,
            r matches Err(e) ==> e is Region,
            self.arrays_ok() && (self.grid_cell.0 <= 0 || self.grid_cell.1 <= 0) ==> (r matches Err(
                CoreError::Region(m),
            ) && m@ == "cannot write region: grid cell size must be positive"@),
            self.arrays_fault() matches Some(t) ==> (r matches Err(CoreError::Region(m)) && m@ == t),
            self.arrays_fault() is None ==> (self.frame_fault() matches Some(t) ==> (r matches Err(
                CoreError::Region(m),
            ) && m@ == t)),
            r is Ok ==> self.arrays_fault() is None && self.frame_fault() is None,
    {
        match self.check_arrays() {
            Ok(()) => {},
            Err(e) => return Err(e),
        }
        let (cell_lat, cell_lon) = self.grid_cell;
        if cell_lat <= 0 || cell_lon <= 0 {
            return Err(region_error("cannot write region: grid cell size must be positive"));
        }
        let pts = match self.indexed_points() {
            Ok(p) => p,
            Err(e) => return Err(e),
        };
        let ghost la = lats(pts@);
        let ghost lo = lons(pts@);
        if pts.len() == 0 {
            return Ok(GridMeta { min_lat: 0, min_lon: 0, cell_lat, cell_lon, rows: 1, cols: 1 });
        }
        let mut min_lat: i32 = pts[0].lat;
        let mut min_lon: i32 = pts[0].lon;
        let mut max_lat: i32 = pts[0].lat;
        let mut max_lon: i32 = pts[0].lon;
        assert(la[0] == min_lat && lo[0] == min_lon);
        let mut i: usize = 1;
        while i < pts.len()
            invariant
                1 <= i <= pts@.len(),
                la == lats(pts@),
                lo == lons(pts@),
                forall|j: int| 0 <= j < i ==> min_lat <= #[trigger] la[j] <= max_lat,
                forall|j: int| 0 <= j < i ==> min_lon <= #[trigger] lo[j] <= max_lon,
                exists|j: int| 0 <= j < i && la[j] == min_lat,
                exists|j: int| 0 <= j < i && la[j] == max_lat,
                exists|j: int| 0 <= j < i && lo[j] == min_lon,
                exists|j: int| 0 <= j < i && lo[j] == max_lon,
            decreases pts@.len() - i,
        {
            let p = pts[i];
            assert(la[i as int] == p.lat && lo[i as int] == p.lon);
            if p.lat < min_lat { min_lat = p.lat; }
            if p.lat > max_lat { max_lat = p.lat; }
            if p.lon < min_lon { min_lon = p.lon; }
            if p.lon > max_lon { max_lon = p.lon; }
            i += 1;
        }
        proof {
            la.min_ensures();
            la.max_ensures();
            lo.min_ensures();
            lo.max_ensures();
            let a = choose|j: int| 0 <= j < pts@.len() && la[j] == min_lat;
            let b = choose|j: int| 0 <= j < pts@.len() && la[j] == max_lat;
            let c = choose|j: int| 0 <= j < pts@.len() && lo[j] == min_lon;
            let d = choose|j: int| 0 <= j < pts@.len() && lo[j] == max_lon;
            assert(la.contains(la.min()));
            let x = choose|x: int| 0 <= x < la.len() && la[x] == la.min();
            assert(min_lat <= la[x]);
            assert(la.min() <= la[a]);
            assert(min_lat == la.min());
            let x = choose|x: int| 0 <= x < la.len() && la[x] == la.max();
            assert(max_lat >= la[x]);
            assert(la.max() >= la[b]);
            assert(max_lat == la.max());
            let x = choose|x: int| 0 <= x < lo.len() && lo[x] == lo.min();
            assert(min_lon <= lo[x]);
            assert(lo.min() <= lo[c]);
            assert(min_lon == lo.min());
            let x = choose|x: int| 0 <= x < lo.len() && lo[x] == lo.max();
            assert(max_lon >= lo[x]);
            assert(lo.max() >= lo[d]);
            assert(max_lon == lo.max());
        }
        let rows = (max_lat as i64 - min_lat as i64) as u64 / cell_lat as u64 + 1;
        let cols = (max_lon as i64 - min_lon as i64) as u64 / cell_lon as u64 + 1;
        if rows > u32::MAX as u64 || cols > u32::MAX as u64 {
            return Err(region_error("cannot write region: grid too large"));
        }
        assert(rows * cols <= u32::MAX * u32::MAX) by (nonlinear_arith)
            requires rows <= u32::MAX, cols <= u32::MAX;
        if rows * cols >= u32::MAX as u64 {
            return Err(region_error("cannot write region: grid too large"));
        }
        Ok(GridMeta { min_lat, min_lon, cell_lat, cell_lon, rows: rows as u32, cols: cols as u32 })
    }


    /// What a file `b` written from this content holds, read back through
    /// the reader's own view of the bytes: a valid region with the
    /// header's timestamp and box, the arrays as given, forward offsets and
    /// the backward index derived from the edges, the grid's frame, and
    /// each cell listing the edges `pairs` put in it.
    pub open spec fn written_as(&self, b: Seq<u8>, pairs: Seq<(u32, u32)>) -> bool {
        let n = self.nodes@.len() as int;
        let meta = self.frame();
        &&& region_bytes_valid(b)
        &&& le_i64(b, 16) == self.info.osm_timestamp
        &&& spec_bbox(b, 24) == self.info.bbox
        &&& no_nul(self.info.builder_version@) ==> field_text(b.subrange(40, 72)) == cut_text(self.info.builder_version@, 32)
        &&& no_nul(self.info.source_name@) ==> field_text(b.subrange(72, 136)) == cut_text(self.info.source_name@, 64)
        &&& points(section_bytes(b, 1)) == self.nodes@
        &&& forward_offsets_of(u32s(section_bytes(b, 2)), self.edges@, n)
        &&& u32s(section_bytes(b, 3)).len() == n + 1
        &&& forall|v: int| 0 <= v < n ==> lists_edges_into(
            #[trigger] cell_of(u32s(section_bytes(b, 3)), u32s(section_bytes(b, 4)), v),
            self.edges@,
            v,
        )
        &&& edges(section_bytes(b, 5)) == self.edges@
        &&& u32s(section_bytes(b, 6)) == self.geometry_offsets@
        &&& points(section_bytes(b, 7)) == self.shape_points@
        &&& section_bytes(b, 8).len() / 16 == self.curvature@.len()
        &&& forall|k: int| 0 <= k < self.curvature@.len() ==> curvature_at(
            #[trigger] self.curvature@[k],
            section_bytes(b, 8),
            k,
        )
        &&& grid_metas(section_bytes(b, 9))[0] == meta
        &&& forall|c: int| 0 <= c < meta.rows * meta.cols ==> cell_list(
            #[trigger] cell_of(u32s(section_bytes(b, 10)), u32s(section_bytes(b, 11)), c),
            pairs,
            c,
        )
        &&& way_refs(section_bytes(b, 12)) == self.way_refs@
    }

    /// The writer's text for grid pairs it refuses: a pair outside the
    /// grid or naming no edge, else one naming a reverse edge, else an
    /// edge that runs along its geometry left out of every cell.
    pub open spec fn pairs_fault(&self, pairs: Seq<(u32, u32)>) -> Option<Seq<char>> {
        if exists|j: int| 0 <= j < pairs.len() && !((#[trigger] pairs[j]).0 < self.frame().rows * self.frame().cols
            && pairs[j].1 < self.edges@.len()) {
            Some("cannot write region: grid pair out of range"@)
        } else if exists|j: int| 0 <= j < pairs.len() && !runs_forward(self.edges@[(#[trigger] pairs[j]).1 as int]) {
            Some("cannot write region: a reverse edge is in the grid"@)
        } else if exists|k: int| 0 <= k < self.edges@.len() && runs_forward(#[trigger] self.edges@[k])
            && !exists|j: int| 0 <= j < pairs.len() && pairs[j].1 == k {
            Some("cannot write region: an edge is missing from the grid"@)
        } else {
            None
        }
    }

    /// Every pair names a cell of the grid and an edge that runs along its
    /// geometry (reverse edges are not indexed), and every such edge is in
    /// some cell.
    pub open spec fn pairs_fit(&self, pairs: Seq<(u32, u32)>) -> bool {
        &&& forall|j: int| 0 <= j < pairs.len() ==> (#[trigger] pairs[j]).0 < self.frame().rows * self.frame().cols
            && pairs[j].1 < self.edges@.len() && runs_forward(self.edges@[pairs[j].1 as int])
        &&& forall|k: int| 0 <= k < self.edges@.len() && runs_forward(#[trigger] self.edges@[k])
            ==> exists|j: int| 0 <= j < pairs.len() && pairs[j].1 == k
    }

    /// The ids of the edges the grid indexes, ascending: those that run
    /// along their geometry.
    pub fn grid_edges(&self) -> (ids: Vec<u32>)
        requires
            self.edges@.len() <= u32::MAX,
        ensures
            forall|i: int| 0 <= i < ids@.len() ==> (#[trigger] ids@[i]) < self.edges@.len()
                && runs_forward(self.edges@[ids@[i] as int]),
            forall|i: int, j: int| 0 <= i < j < ids@.len() ==> ids@[i] < ids@[j],
            forall|k: int| 0 <= k < self.edges@.len() && runs_forward(#[trigger] self.edges@[k])
                ==> exists|i: int| 0 <= i < ids@.len() && ids@[i] == k,
    {
        let m = self.edges.len();
        let mut ids: Vec<u32> = Vec::new();
        let mut k: usize = 0;
        while k < m
            invariant
                m == self.edges@.len(),
                m <= u32::MAX,
                k <= m,
                forall|i: int| 0 <= i < ids@.len() ==> (#[trigger] ids@[i]) < k
                    && runs_forward(self.edges@[ids@[i] as int]),
                forall|i: int, j: int| 0 <= i < j < ids@.len() ==> ids@[i] < ids@[j],
                forall|x: int| 0 <= x < k && runs_forward(#[trigger] self.edges@[x])
                    ==> exists|i: int| 0 <= i < ids@.len() && ids@[i] == x,
            decreases m - k,
        {
            let e = self.edges[k];
            let ghost before = ids@;
            if e.flags & 1u8 == 0u8 {
                ids.push(k as u32);
            }
            proof {
                assert(self.edges@[k as int] == e);
                assert forall|x: int| 0 <= x < k + 1 && runs_forward(#[trigger] self.edges@[x])
                    implies exists|i: int| 0 <= i < ids@.len() && ids@[i] == x by {
                    if x < k {
                        let i = choose|i: int| 0 <= i < before.len() && before[i] == x;
                        assert(ids@[i] == before[i]);
                    } else {
                        assert(ids@[ids@.len() - 1] == k);
                    }
                }
            }
            k += 1;
        }
        ids
    }

    /// The content makes a routing graph the reader accepts: ids below
    /// `u32::MAX`, coordinates in range, geometry offsets indexing the
    /// whole shape array with at least two points per geometry, and every
    /// edge with a nonzero speed and a geometry that joins its two nodes.
    pub open spec fn graph_sound(&self) -> bool {
        let nodes = self.nodes@;
        let geom = self.geometry_offsets@;
        let shape = self.shape_points@;
        &&& nodes.len() < u32::MAX
        &&& self.edges@.len() < u32::MAX
        &&& shape.len() < u32::MAX
        &&& forall|i: int| 0 <= i < nodes.len() ==> point_in_range(#[trigger] nodes[i])
        &&& forall|i: int| 0 <= i < shape.len() ==> point_in_range(#[trigger] shape[i])
        &&& geom.len() >= 1
        &&& offsets_ok(geom, geom.len() - 1, shape.len() as int)
        &&& forall|i: int| 0 <= i < geom.len() - 1 ==> #[trigger] geom[i] + 2 <= geom[i + 1]
        &&& forall|k: int| 0 <= k < self.edges@.len()
            ==> edge_ok(nodes, geom, shape, self.edges@[k].tail as int, #[trigger] self.edges@[k])
    }

    /// An upper bound on the size of the file written with `pairs`: a page
    /// for the header and table, each section's records, and under a page
    /// of padding after each section.
    pub open spec fn size_bound(&self, pairs: Seq<(u32, u32)>) -> int {
        let n = self.nodes@.len() as int;
        let m = self.edges@.len() as int;
        let cells = self.frame().rows * self.frame().cols;
        13 * 4096 + 8 * n + 8 * (n + 1) + 56 * m + 4 * self.geometry_offsets@.len()
            + 8 * self.shape_points@.len() + 24 + 4 * (cells + 1) + 4 * pairs.len()
    }

    /// The file written with `pairs` fits the address space, and the pairs
    /// fit the grid index's 32-bit offsets.
    pub open spec fn size_fits(&self, pairs: Seq<(u32, u32)>) -> bool {
        pairs.len() <= u32::MAX && self.size_bound(pairs) <= usize::MAX
    }

    /// Serialises to the file layout, with the grid cells listing the
    /// edges that `cell_pairs` put in them (each pair is a row-major cell
    /// index and an edge id; the caller derives them from the polylines of
    /// the edges that run along their geometry, see [`grid_points`]). The
    /// result is checked by reading it back, so a file this returns is one
    /// the reader accepts.
    pub fn to_bytes(&self, cell_pairs: &[(u32, u32)]) -> (r: Result<Vec<u8>, CoreError>)
        ensures
            r is Ok ==> self.arrays_ok() && self.frame_ok() && self.pairs_fit(cell_pairs@) && self.graph_sound(),
            r matches Ok(b) ==> self.written_as(b@, cell_pairs@) && checksums_ok(b@),
            r matches Ok(b) ==> b@.len() % 4096 == 0,
            r matches Err(e) ==> e is Region,
            self.arrays_fault() matches Some(t) ==> (r matches Err(CoreError::Region(m)) && m@ == t),
            self.arrays_fault() is None ==> (self.frame_fault() matches Some(t) ==> (r matches Err(
                CoreError::Region(m),
            ) && m@ == t)),
            self.arrays_fault() is None && self.frame_fault() is None ==> (self.pairs_fault(cell_pairs@) matches Some(t)
                ==> (r matches Err(CoreError::Region(m)) && m@ == t)),
            self.arrays_ok() && self.frame_ok() && self.pairs_fit(cell_pairs@) && self.graph_sound()
                && self.size_fits(cell_pairs@) ==> r is Ok,
    {
        let meta = match self.grid_frame() {
            Ok(meta) => meta,
            Err(e) => return Err(e),
        };
        let n = self.nodes.len();
        let m = self.edges.len();
        let fwd = forward_offsets(self.edges.as_slice(), n);
        let mut heads: Vec<(u32, u32)> = Vec::with_capacity(m);
        let mut k: usize = 0;
        while k < m
            invariant
                self.arrays_ok(),
                m == self.edges@.len(),
                n == self.nodes@.len(),
                k <= m,
                heads@ == head_pairs(self.edges@).take(k as int),
            decreases m - k,
        {
            let e = self.edges[k];
            assert(e.head < n) by { assert(self.edges@[k as int] == e); }
            heads.push((e.head, k as u32));
            assert(heads@ =~= head_pairs(self.edges@).take(k + 1));
            k += 1;
        }
        assert(heads@ =~= head_pairs(self.edges@));
        let (bwd, bwd_edges) = match bucket_index(heads.as_slice(), n) {
            Some(index) => index,
            None => return Err(region_error("cannot write region: too many edges")),
        };
        proof { lemma_frame_cells(self); }
        let cell_count = meta.rows as usize * meta.cols as usize;
        let mut j: usize = 0;
        while j < cell_pairs.len()
            invariant
                j <= cell_pairs@.len(),
                meta == self.frame(),
                self.arrays_fault() is None,
                self.frame_fault() is None,
                forall|i: int| 0 <= i < j ==> ((#[trigger] cell_pairs@[i]).0 < self.frame().rows * self.frame().cols
                    && cell_pairs@[i].1 < self.edges@.len()),
                cell_count == meta.rows * meta.cols,
                m == self.edges@.len(),
                forall|i: int| 0 <= i < j ==> (#[trigger] cell_pairs@[i]).0 < cell_count && cell_pairs@[i].1 < m,
            decreases cell_pairs@.len() - j,
        {
            let (c, e) = cell_pairs[j];
            if c as usize >= cell_count || e as usize >= m {
                assert(!((cell_pairs@[j as int]).0 < self.frame().rows * self.frame().cols
                    && cell_pairs@[j as int].1 < self.edges@.len()));
                return Err(region_error("cannot write region: grid pair out of range"));
            }
            j += 1;
        }
        let mut seen: Vec<bool> = Vec::new();
        let mut x: usize = 0;
        while x < m
            invariant
                x <= m,
                seen@.len() == x,
                forall|i: int| 0 <= i < x ==> !(#[trigger] seen@[i]),
            decreases m - x,
        {
            seen.push(false);
            x += 1;
        }
        let mut j: usize = 0;
        while j < cell_pairs.len()
            invariant
                j <= cell_pairs@.len(),
                m == self.edges@.len(),
                seen@.len() == m,
                forall|i: int| 0 <= i < cell_pairs@.len() ==> (#[trigger] cell_pairs@[i]).1 < m,
                forall|i: int| 0 <= i < j ==> runs_forward(self.edges@[(#[trigger] cell_pairs@[i]).1 as int]),
                self.arrays_fault() is None,
                self.frame_fault() is None,
                forall|i: int| 0 <= i < cell_pairs@.len() ==> ((#[trigger] cell_pairs@[i]).0 < self.frame().rows * self.frame().cols
                    && cell_pairs@[i].1 < self.edges@.len()),
                forall|k: int| 0 <= k < m ==> (#[trigger] seen@[k] <==> exists|i: int| 0 <= i < j && cell_pairs@[i].1 == k),
            decreases cell_pairs@.len() - j,
        {
            let (_, e) = cell_pairs[j];
            proof { assert(cell_pairs@[j as int].1 == e); }
            if self.edges[e as usize].flags & 1u8 != 0u8 {
                assert(!runs_forward(self.edges@[cell_pairs@[j as int].1 as int]));
                return Err(region_error("cannot write region: a reverse edge is in the grid"));
            }
            seen.set(e as usize, true);
            proof {
                assert forall|k: int| 0 <= k < m implies (#[trigger] seen@[k] <==> exists|i: int| 0 <= i < j + 1 && cell_pairs@[i].1 == k) by {
                    if k == e {
                        assert(cell_pairs@[j as int].1 == k);
                    } else {
                        if exists|i: int| 0 <= i < j + 1 && cell_pairs@[i].1 == k {
                            let i = choose|i: int| 0 <= i < j + 1 && cell_pairs@[i].1 == k;
                            assert(i != j);
                        }
                    }
                }
            }
            j += 1;
        }
        let mut k: usize = 0;
        while k < m
            invariant
                k <= m,
                m == self.edges@.len(),
                seen@.len() == m,
                forall|y: int| 0 <= y < m ==> (#[trigger] seen@[y] <==> exists|i: int| 0 <= i < cell_pairs@.len() && cell_pairs@[i].1 == y),
                forall|y: int| 0 <= y < k && runs_forward(#[trigger] self.edges@[y])
                    ==> exists|i: int| 0 <= i < cell_pairs@.len() && cell_pairs@[i].1 == y,
                self.arrays_fault() is None,
                self.frame_fault() is None,
                forall|i: int| 0 <= i < cell_pairs@.len() ==> ((#[trigger] cell_pairs@[i]).0 < self.frame().rows * self.frame().cols
                    && cell_pairs@[i].1 < self.edges@.len()),
                forall|i: int| 0 <= i < cell_pairs@.len() ==> runs_forward(self.edges@[(#[trigger] cell_pairs@[i]).1 as int]),
            decreases m - k,
        {
            if self.edges[k].flags & 1u8 == 0u8 && !seen[k] {
                assert(runs_forward(self.edges@[k as int]));
                return Err(region_error("cannot write region: an edge is missing from the grid"));
            }
            proof { assert(seen@[k as int] || !runs_forward(self.edges@[k as int])); }
            k += 1;
        }
        let (cells, cell_edges) = match bucket_index(cell_pairs, cell_count) {
            Some(index) => index,
            None => return Err(region_error("cannot write region: grid too large")),
        };
        proof {
            lemma_head_pairs_ascend(self.edges@);
            assert forall|i: int| 0 <= i < cell_edges@.len() implies #[trigger] cell_edges@[i] < self.edges@.len() by {
                let j = choose|j: int| 0 <= j < cell_pairs@.len() && #[trigger] cell_pairs@[j].1 == cell_edges@[i];
                assert(cell_pairs@[j].1 < m);
            }
        }
        let r = self.lay_out(meta, &fwd, &bwd, &bwd_edges, &cells, &cell_edges, Ghost(cell_pairs@));
        proof {
            if r is Ok {
                lemma_written_sound(self, r->Ok_0@, cell_pairs@);
            }
        }
        r
    }


    /// Encodes every section, assembles the file and reads it back.
    #[verifier::spinoff_prover]
    #[verifier::rlimit(40)]
    fn lay_out(
        &self,
        meta: GridMeta,
        fwd: &Vec<u32>,
        bwd: &Vec<u32>,
        bwd_edges: &Vec<u32>,
        cells: &Vec<u32>,
        cell_edges: &Vec<u32>,
        Ghost(pairs): Ghost<Seq<(u32, u32)>>,
    ) -> (r: Result<Vec<u8>, CoreError>)
        requires
            self.arrays_ok(),
            meta == self.frame(),
            forward_offsets_of(fwd@, self.edges@, self.nodes@.len() as int),
            offsets_ok(bwd@, self.nodes@.len() as int, bwd_edges@.len() as int),
            forall|c: int| 0 <= c < self.nodes@.len() ==> cell_list(#[trigger] cell_of(bwd@, bwd_edges@, c), head_pairs(self.edges@), c),
            forall|c: int| 0 <= c < meta.rows * meta.cols ==> cell_list(#[trigger] cell_of(cells@, cell_edges@, c), pairs, c),
            self.frame_ok(),
            bwd_edges@.len() == self.edges@.len(),
            offsets_ok(cells@, meta.rows * meta.cols, cell_edges@.len() as int),
            cell_edges@.len() <= pairs.len(),
            forall|i: int| 0 <= i < cell_edges@.len() ==> #[trigger] cell_edges@[i] < self.edges@.len(),
        ensures
            r matches Ok(b) ==> self.written_as(b@, pairs) && checksums_ok(b@),
            r matches Ok(b) ==> b@.len() % 4096 == 0,
            r matches Err(e) ==> e is Region,
            self.graph_sound() && self.size_fits(pairs) ==> r is Ok,
    {
        let nodes_b = encode_points(self.nodes.as_slice());
        let fwd_b = encode_u32s(fwd.as_slice());
        let bwd_b = encode_u32s(bwd.as_slice());
        let bwd_edges_b = encode_u32s(bwd_edges.as_slice());
        let edges_b = encode_edges(self.edges.as_slice());
        let geom_b = encode_u32s(self.geometry_offsets.as_slice());
        let shape_b = encode_points(self.shape_points.as_slice());
        let curvature_b = encode_curvatures(self.curvature.as_slice());
        let mut meta_b: Vec<u8> = Vec::new();
        push_grid_meta(&mut meta_b, meta);
        let cells_b = encode_u32s(cells.as_slice());
        let cell_edges_b = encode_u32s(cell_edges.as_slice());
        let way_refs_b = encode_way_refs(self.way_refs.as_slice());
        let mut sections: Vec<(u32, &[u8])> = Vec::new();
        sections.push((1, nodes_b.as_slice()));
        sections.push((2, fwd_b.as_slice()));
        sections.push((3, bwd_b.as_slice()));
        sections.push((4, bwd_edges_b.as_slice()));
        sections.push((5, edges_b.as_slice()));
        sections.push((6, geom_b.as_slice()));
        sections.push((7, shape_b.as_slice()));
        sections.push((8, curvature_b.as_slice()));
        sections.push((9, meta_b.as_slice()));
        sections.push((10, cells_b.as_slice()));
        sections.push((11, cell_edges_b.as_slice()));
        sections.push((12, way_refs_b.as_slice()));
        let ghost secs = sections@;
        proof {
            if self.graph_sound() && self.size_fits(pairs) {
                lemma_offsets_mono(cells@, meta.rows * meta.cols, cell_edges@.len() as int, 0, 0);
                lemma_offsets_mono(bwd@, self.nodes@.len() as int, bwd_edges@.len() as int, 0, 0);
                lemma_layout_size(self, secs, pairs, cells@.len() as int, cell_edges@.len() as int);
            }
        }
        if !layout_fits(sections.as_slice()) {
            return Err(region_error("cannot write region: too large"));
        }
        let out = assemble(&self.info, sections.as_slice());
        proof {
            assert forall|i: int| 0 <= i < secs.len() implies (#[trigger] secs[i]).0 == i + 1 by {}
            lemma_assembled(self, out@, secs, fwd@, bwd@, bwd_edges@, meta, cells@, cell_edges@);
            lemma_offset_aligned(lens(secs), secs.len() as int);
        }
        Region::from_bytes(out.as_slice())?;
        proof {
            lemma_file_holds(self, out@, secs, fwd@, bwd@, bwd_edges@, meta, cells@, cell_edges@, pairs);
        }
        Ok(out)
    }

    /// The writer's checks of the arrays, in the order it makes them.
    fn check_arrays(&self) -> (r: Result<(), CoreError>)
        ensures
            r is Ok <==> self.arrays_ok(),
            r is Ok <==> self.arrays_fault() is None,
            r matches Err(e) ==> e is Region,
            r is Err ==> (r matches Err(CoreError::Region(t)) && self.arrays_fault() == Some(t@)),
    {
        let n = self.nodes.len();
        let m = self.edges.len();
        if n > u32::MAX as usize || n == usize::MAX {
            return Err(region_error("cannot write region: too many nodes"));
        }
        if m > u32::MAX as usize {
            return Err(region_error("cannot write region: too many edges"));
        }
        if self.shape_points.len() > u32::MAX as usize {
            return Err(region_error("cannot write region: too many points"));
        }
        if self.curvature.len() != m || self.way_refs.len() != m {
            return Err(region_error("cannot write region: curvature and way refs need one entry per edge"));
        }
        let mut k: usize = 0;
        while k < m
            invariant
                m == self.edges@.len(),
                n == self.nodes@.len(),
                k <= m,
                n <= u32::MAX && n < usize::MAX,
                m <= u32::MAX,
                self.shape_points@.len() <= u32::MAX,
                self.curvature@.len() == m,
                self.way_refs@.len() == m,
                forall|j: int| 0 <= j < k ==> (#[trigger] self.edges@[j]).tail < n && self.edges@[j].head < n,
            decreases m - k,
        {
            let e = self.edges[k];
            if e.tail as usize >= n || e.head as usize >= n {
                let text = join(join(owned("cannot write region: edge "), e.show()), owned(" refers to a missing node"));
                proof {
                    assert(self.edges@[k as int] == e);
                    assert(!edge_nodes_ok(self.edges@[k as int], n as int));
                    assert forall|j: int| 0 <= j < k implies edge_nodes_ok(#[trigger] self.edges@[j], n as int) by {}
                    let c = choose|c: int| 0 <= c < m && !edge_nodes_ok(self.edges@[c], n as int)
                        && forall|j: int| 0 <= j < c ==> edge_nodes_ok(self.edges@[j], n as int);
                    if c < k {
                        assert(edge_nodes_ok(self.edges@[c], n as int));
                    }
                    if c > k {
                        assert(edge_nodes_ok(self.edges@[k as int], n as int));
                    }
                    assert(c == k);
                }
                return Err(CoreError::Region(text));
            }
            k += 1;
        }
        assert forall|j: int| 0 <= j < m implies edge_nodes_ok(#[trigger] self.edges@[j], n as int) by {}
        let mut k: usize = 1;
        while k < m
            invariant
                m == self.edges@.len(),
                n == self.nodes@.len(),
                n <= u32::MAX && n < usize::MAX,
                m <= u32::MAX,
                self.shape_points@.len() <= u32::MAX,
                self.curvature@.len() == m,
                self.way_refs@.len() == m,
                forall|j: int| 0 <= j < m ==> edge_nodes_ok(#[trigger] self.edges@[j], n as int),
                1 <= k,
                k <= m || m == 0,
                forall|i: int, j: int| 0 <= i < j < k && j < m ==> self.edges@[i].tail <= self.edges@[j].tail,
            decreases m - k,
        {
            if self.edges[k - 1].tail > self.edges[k].tail {
                assert(!tails_sorted(self.edges@));
                return Err(region_error("cannot write region: edges must be sorted by tail"));
            }
            proof {
                assert forall|i: int, j: int| 0 <= i < j < k + 1 && j < m implies self.edges@[i].tail <= self.edges@[j].tail by {
                    if j == k && i < k - 1 {
                        assert(self.edges@[i].tail <= self.edges@[k - 1].tail);
                    }
                }
            }
            k += 1;
        }
        let geometries = if self.geometry_offsets.len() == 0 { 0 } else { self.geometry_offsets.len() - 1 };
        let mut k: usize = 0;
        while k < m
            invariant
                m == self.edges@.len(),
                n == self.nodes@.len(),
                n <= u32::MAX && n < usize::MAX,
                m <= u32::MAX,
                self.shape_points@.len() <= u32::MAX,
                self.curvature@.len() == m,
                self.way_refs@.len() == m,
                forall|j: int| 0 <= j < m ==> edge_nodes_ok(#[trigger] self.edges@[j], n as int),
                tails_sorted(self.edges@),
                geometries == (if self.geometry_offsets@.len() == 0 { 0 } else { self.geometry_offsets@.len() - 1 }),
                k <= m,
                forall|j: int| 0 <= j < k ==> (#[trigger] self.edges@[j]).geometry + 1 < self.geometry_offsets@.len(),
            decreases m - k,
        {
            if self.edges[k].geometry as usize >= geometries {
                assert(!(self.edges@[k as int].geometry + 1 < self.geometry_offsets@.len()));
                return Err(region_error("cannot write region: edge refers to a missing geometry"));
            }
            k += 1;
        }
        Ok(())
    }
}

/// Where each node's outgoing edges start in an edge list sorted by tail.
fn forward_offsets(edges: &[Edge], n: usize) -> (fwd: Vec<u32>)
    requires
        edges@.len() <= u32::MAX,
        n < usize::MAX,
        tails_sorted(edges@),
    ensures
        forward_offsets_of(fwd@, edges@, n as int),
{
    let m = edges.len();
    let mut fwd: Vec<u32> = Vec::new();
    let mut k: usize = 0;
    let mut v: usize = 0;
    while v <= n
        invariant
            m == edges@.len(),
            m <= u32::MAX,
            n < usize::MAX,
            tails_sorted(edges@),
            v <= n + 1,
            k <= m,
            fwd@.len() == v,
            forall|j: int| 0 <= j < k ==> (#[trigger] edges@[j]).tail < v,
            forall|u: int| 0 <= u < v ==> #[trigger] fwd@[u] <= m,
            forall|u: int, j: int| 0 <= u < v && 0 <= j < m ==> (j < #[trigger] fwd@[u] <==> #[trigger] edges@[j].tail < u),
        decreases n + 1 - v,
    {
        while k < m && (edges[k].tail as usize) < v
            invariant
                m == edges@.len(),
                k <= m,
                forall|j: int| 0 <= j < k ==> (#[trigger] edges@[j]).tail < v,
            decreases m - k,
        {
            k += 1;
        }
        proof {
            assert forall|j: int| 0 <= j < m implies (j < k <==> #[trigger] edges@[j].tail < v) by {
                if j >= k {
                    assert(edges@[k as int].tail <= edges@[j].tail);
                }
            }
        }
        fwd.push(k as u32);
        proof {
            assert forall|j: int| 0 <= j < k implies (#[trigger] edges@[j]).tail < v + 1 by {}
        }
        v += 1;
    }
    fwd
}

/// The arrays a valid file's sections hold, given how the writer encoded
/// each of them.
proof fn lemma_file_holds(
    d: &RegionData,
    b: Seq<u8>,
    secs: Seq<(u32, &[u8])>,
    fwd: Seq<u32>,
    bwd: Seq<u32>,
    bwd_edges: Seq<u32>,
    meta: GridMeta,
    cells: Seq<u32>,
    cell_edges: Seq<u32>,
    pairs: Seq<(u32, u32)>,
)
    requires
        d.arrays_ok(),
        meta == d.frame(),
        region_bytes_valid(b),
        le_i64(b, 16) == d.info.osm_timestamp,
        spec_bbox(b, 24) == d.info.bbox,
        secs.len() == 12,
        forall|k: int| 0 <= k < 12 ==> section_bytes(b, (k + 1) as u32) == (#[trigger] secs[k]).1@,
        lays_out(secs[0].1@, d.nodes@, 8, |p: PointE7| point_bytes(p)),
        lays_out(secs[1].1@, fwd, 4, |x: u32| u32_bytes(x)),
        lays_out(secs[2].1@, bwd, 4, |x: u32| u32_bytes(x)),
        lays_out(secs[3].1@, bwd_edges, 4, |x: u32| u32_bytes(x)),
        lays_out(secs[4].1@, d.edges@, 20, |e: Edge| edge_bytes(e)),
        lays_out(secs[5].1@, d.geometry_offsets@, 4, |x: u32| u32_bytes(x)),
        lays_out(secs[6].1@, d.shape_points@, 8, |p: PointE7| point_bytes(p)),
        lays_out(secs[7].1@, d.curvature@, 16, |c: CurvatureMetrics| curvature_record(c)),
        secs[8].1@ == grid_meta_bytes(meta),
        lays_out(secs[9].1@, cells, 4, |x: u32| u32_bytes(x)),
        lays_out(secs[10].1@, cell_edges, 4, |x: u32| u32_bytes(x)),
        lays_out(secs[11].1@, d.way_refs@, 16, |w: WayRef| way_ref_bytes(w)),
        forward_offsets_of(fwd, d.edges@, d.nodes@.len() as int),
        offsets_ok(bwd, d.nodes@.len() as int, bwd_edges.len() as int),
        forall|c: int| 0 <= c < d.nodes@.len() ==> cell_list(#[trigger] cell_of(bwd, bwd_edges, c), head_pairs(d.edges@), c),
        forall|c: int| 0 <= c < meta.rows * meta.cols ==> cell_list(#[trigger] cell_of(cells, cell_edges, c), pairs, c),
        no_nul(d.info.builder_version@) ==> field_text(b.subrange(40, 72)) == cut_text(d.info.builder_version@, 32),
        no_nul(d.info.source_name@) ==> field_text(b.subrange(72, 136)) == cut_text(d.info.source_name@, 64),
    ensures
        d.written_as(b, pairs),
{
    assert(section_bytes(b, 1) == secs[0].1@);
    assert(section_bytes(b, 2) == secs[1].1@);
    assert(section_bytes(b, 3) == secs[2].1@);
    assert(section_bytes(b, 4) == secs[3].1@);
    assert(section_bytes(b, 5) == secs[4].1@);
    assert(section_bytes(b, 6) == secs[5].1@);
    assert(section_bytes(b, 7) == secs[6].1@);
    assert(section_bytes(b, 8) == secs[7].1@);
    assert(section_bytes(b, 9) == secs[8].1@);
    assert(section_bytes(b, 10) == secs[9].1@);
    assert(section_bytes(b, 11) == secs[10].1@);
    assert(section_bytes(b, 12) == secs[11].1@);
    lemma_points_back(secs[0].1@, d.nodes@);
    lemma_u32s_back(secs[1].1@, fwd);
    lemma_u32s_back(secs[2].1@, bwd);
    lemma_u32s_back(secs[3].1@, bwd_edges);
    lemma_edges_back(secs[4].1@, d.edges@);
    lemma_u32s_back(secs[5].1@, d.geometry_offsets@);
    lemma_points_back(secs[6].1@, d.shape_points@);
    lemma_curvatures_back(secs[7].1@, d.curvature@);
    lemma_grid_meta_back(secs[8].1@, meta);
    lemma_u32s_back(secs[9].1@, cells);
    lemma_u32s_back(secs[10].1@, cell_edges);
    lemma_way_refs_back(secs[11].1@, d.way_refs@);
    lemma_backward_lists(d.edges@, bwd, bwd_edges, d.nodes@.len() as int);
    reveal(offsets_ok);
}

/// A frame that fits has at least one row and column, and fewer than
/// `u32::MAX` cells.
pub(crate) proof fn lemma_frame_cells(d: &RegionData)
    requires
        d.frame_ok(),
    ensures
        d.frame().rows >= 1,
        d.frame().cols >= 1,
        d.frame().rows * d.frame().cols < u32::MAX,
{
    let pts = grid_points(d.edges@, d.geometry_offsets@, d.shape_points@);
    if pts.len() > 0 {
        let rows = span(lats(pts).min(), lats(pts).max(), d.grid_cell.0 as int);
        let cols = span(lons(pts).min(), lons(pts).max(), d.grid_cell.1 as int);
        lats(pts).min_ensures();
        lats(pts).max_ensures();
        lons(pts).min_ensures();
        lons(pts).max_ensures();
        assert(lats(pts)[0] <= lats(pts).max());
        assert(lats(pts).min() <= lats(pts)[0]);
        assert(lons(pts)[0] <= lons(pts).max());
        assert(lons(pts).min() <= lons(pts)[0]);
        assert(rows >= 1 && cols >= 1);
        assert(d.frame().rows == rows && d.frame().cols == cols);
    }
}

/// What the assembled file holds: the header's fields, each section under
/// its id, and, for sound content, a file the reader accepts.
proof fn lemma_assembled(
    d: &RegionData,
    b: Seq<u8>,
    secs: Seq<(u32, &[u8])>,
    fwd: Seq<u32>,
    bwd: Seq<u32>,
    bwd_edges: Seq<u32>,
    meta: GridMeta,
    cells: Seq<u32>,
    cell_edges: Seq<u32>,
)
    requires
        d.arrays_ok(),
        d.frame_ok(),
        meta == d.frame(),
        secs.len() == 12,
        forall|i: int| 0 <= i < secs.len() ==> (#[trigger] secs[i]).0 == i + 1,
        b.len() == offset_of(lens(secs), secs.len() as int),
        b.len() <= usize::MAX,
        exists|builder: Seq<u8>, source: Seq<u8>| {
            &&& b.subrange(0, 256) == super::writer::header_bytes(d.info, 12, builder, source)
            &&& super::writer::text_field(d.info.builder_version@, 32, builder)
            &&& super::writer::text_field(d.info.source_name@, 64, source)
        },
        forall|i: int| 0 <= i < secs.len() ==> super::format::spec_entry(b, 256 + 24 * i)
            == #[trigger] super::writer::entry_of(secs, i),
        forall|i: int| 0 <= i < secs.len() ==> b.subrange(
            offset_of(lens(secs), i),
            offset_of(lens(secs), i) + secs[i].1@.len(),
        ) == (#[trigger] secs[i]).1@,
        lays_out(secs[0].1@, d.nodes@, 8, |p: PointE7| point_bytes(p)),
        lays_out(secs[1].1@, fwd, 4, |x: u32| u32_bytes(x)),
        lays_out(secs[2].1@, bwd, 4, |x: u32| u32_bytes(x)),
        lays_out(secs[3].1@, bwd_edges, 4, |x: u32| u32_bytes(x)),
        lays_out(secs[4].1@, d.edges@, 20, |e: Edge| edge_bytes(e)),
        lays_out(secs[5].1@, d.geometry_offsets@, 4, |x: u32| u32_bytes(x)),
        lays_out(secs[6].1@, d.shape_points@, 8, |p: PointE7| point_bytes(p)),
        lays_out(secs[7].1@, d.curvature@, 16, |c: CurvatureMetrics| curvature_record(c)),
        secs[8].1@ == grid_meta_bytes(meta),
        lays_out(secs[9].1@, cells, 4, |x: u32| u32_bytes(x)),
        lays_out(secs[10].1@, cell_edges, 4, |x: u32| u32_bytes(x)),
        lays_out(secs[11].1@, d.way_refs@, 16, |w: WayRef| way_ref_bytes(w)),
        forward_offsets_of(fwd, d.edges@, d.nodes@.len() as int),
        offsets_ok(bwd, d.nodes@.len() as int, bwd_edges.len() as int),
        forall|c: int| 0 <= c < d.nodes@.len() ==> cell_list(#[trigger] cell_of(bwd, bwd_edges, c), head_pairs(d.edges@), c),
        bwd_edges.len() == d.edges@.len(),
        offsets_ok(cells, meta.rows * meta.cols, cell_edges.len() as int),
        forall|i: int| 0 <= i < cell_edges.len() ==> #[trigger] cell_edges[i] < d.edges@.len(),
    ensures
        le_i64(b, 16) == d.info.osm_timestamp,
        spec_bbox(b, 24) == d.info.bbox,
        no_nul(d.info.builder_version@) ==> field_text(b.subrange(40, 72)) == cut_text(d.info.builder_version@, 32),
        no_nul(d.info.source_name@) ==> field_text(b.subrange(72, 136)) == cut_text(d.info.source_name@, 64),
        forall|k: int| 0 <= k < 12 ==> section_bytes(b, (k + 1) as u32) == (#[trigger] secs[k]).1@,
        d.graph_sound() ==> region_bytes_valid(b),
        checksums_ok(b),
{
    let hb = choose|builder: Seq<u8>, source: Seq<u8>| {
        &&& b.subrange(0, 256) == super::writer::header_bytes(d.info, 12, builder, source)
        &&& super::writer::text_field(d.info.builder_version@, 32, builder)
        &&& super::writer::text_field(d.info.source_name@, 64, source)
    };
    lemma_offset_aligned_len(b, secs);
    lemma_header_back(b, d.info, 12, hb.0, hb.1);
    if no_nul(d.info.builder_version@) {
        lemma_field_reads_back(d.info.builder_version@, 32, hb.0);
    }
    if no_nul(d.info.source_name@) {
        lemma_field_reads_back(d.info.source_name@, 64, hb.1);
    }
    lemma_sections_back(b, secs);
    lemma_layout_table(b, secs);
    let t = super::layout::spec_table(b);
    let ls = lens(secs);
    assert forall|i: int| 0 <= i < t.len() implies {
        let s = #[trigger] t[i];
        super::layout::entry_in_bounds(b.len() as int, s) && super::crc32_ieee(b.subrange(s.offset as int, s.offset + s.len)) == s.crc32
    } by {
        assert(t[i] == super::writer::entry_of(secs, i));
        super::writer::lemma_offset_aligned(ls, i);
        lemma_offset_mono(ls, i, secs.len() as int);
    }
    if d.graph_sound() {
        lemma_backward_lists(d.edges@, bwd, bwd_edges, d.nodes@.len() as int);
        lemma_file_valid(d, b, secs, fwd, bwd, bwd_edges, meta, cells, cell_edges);
    }
}

/// A laid-out file is at least a page long.
proof fn lemma_offset_aligned_len(b: Seq<u8>, secs: Seq<(u32, &[u8])>)
    requires
        b.len() == offset_of(lens(secs), secs.len() as int),
    ensures
        b.len() >= 4096,
{
    super::writer::lemma_offset_aligned(lens(secs), secs.len() as int);
}

/// Sections of the sizes the writer encodes fit the address space when the
/// content's size bound does.
proof fn lemma_layout_size(d: &RegionData, secs: Seq<(u32, &[u8])>, pairs: Seq<(u32, u32)>, cells: int, cell_edges: int)
    requires
        secs.len() == 12,
        d.size_fits(pairs),
        cells == d.frame().rows * d.frame().cols + 1,
        cell_edges <= pairs.len(),
        secs[0].1@.len() == 8 * d.nodes@.len(),
        secs[1].1@.len() == 4 * (d.nodes@.len() + 1),
        secs[2].1@.len() == 4 * (d.nodes@.len() + 1),
        secs[3].1@.len() == 4 * d.edges@.len(),
        secs[4].1@.len() == 20 * d.edges@.len(),
        secs[5].1@.len() == 4 * d.geometry_offsets@.len(),
        secs[6].1@.len() == 8 * d.shape_points@.len(),
        secs[7].1@.len() == 16 * d.edges@.len(),
        secs[8].1@.len() == 24,
        secs[9].1@.len() == 4 * cells,
        secs[10].1@.len() == 4 * cell_edges,
        secs[11].1@.len() == 16 * d.edges@.len(),
    ensures
        offset_of(lens(secs), 12) <= usize::MAX,
{
    let ls = lens(secs);
    lemma_offset_bound(ls, 12);
    reveal_with_fuel(total_of, 13);
    assert(total_of(ls, 12) == ls[0] + ls[1] + ls[2] + ls[3] + ls[4] + ls[5] + ls[6] + ls[7] + ls[8] + ls[9] + ls[10] + ls[11]);
}

/// The layout of `sections` fits the address space.
fn layout_fits(sections: &[(u32, &[u8])]) -> (ok: bool)
    ensures
        ok <==> offset_of(lens(sections@), sections@.len() as int) <= usize::MAX,
{
    let ghost ls = lens(sections@);
    let n = sections.len();
    let mut offset: usize = 4096;
    let mut i: usize = 0;
    while i < n
        invariant
            n == sections@.len(),
            ls == lens(sections@),
            i <= n,
            offset == offset_of(ls, i as int),
        decreases n - i,
    {
        let len = sections[i].1.len();
        proof {
            lemma_padded(ls[i as int]);
            lemma_offset_mono(ls, i as int, n as int);
        }
        let rem = len % 4096;
        let step = if rem == 0 { len } else { len - rem };
        if offset > usize::MAX - step {
            return false;
        }
        let at = offset + step;
        if rem != 0 {
            if at > usize::MAX - 4096 {
                return false;
            }
            offset = at + 4096;
        } else {
            offset = at;
        }
        i += 1;
    }
    true
}

/// Every section the writer lists is found again under its id.
proof fn lemma_sections_back(b: Seq<u8>, secs: Seq<(u32, &[u8])>)
    requires
        secs.len() == 12,
        forall|i: int| 0 <= i < secs.len() ==> (#[trigger] secs[i]).0 == i + 1,
        le_u32(b, 12) == secs.len(),
        b.len() == offset_of(lens(secs), secs.len() as int),
        b.len() <= usize::MAX,
        forall|i: int| 0 <= i < secs.len() ==> super::format::spec_entry(b, 256 + 24 * i)
            == #[trigger] super::writer::entry_of(secs, i),
        forall|i: int| 0 <= i < secs.len() ==> b.subrange(
            offset_of(lens(secs), i),
            offset_of(lens(secs), i) + secs[i].1@.len(),
        ) == (#[trigger] secs[i]).1@,
    ensures
        forall|k: int| 0 <= k < 12 ==> section_bytes(b, (k + 1) as u32) == (#[trigger] secs[k]).1@,
{
    assert forall|k: int| 0 <= k < 12 implies section_bytes(b, (k + 1) as u32) == (#[trigger] secs[k]).1@ by {
        lemma_section_back(b, secs, k);
    }
}

/// The index of the edges by head lists, for each node, the edges into it.
proof fn lemma_backward_lists(edges: Seq<Edge>, bwd: Seq<u32>, ids: Seq<u32>, n: int)
    requires
        edges.len() <= u32::MAX,
        forall|c: int| 0 <= c < n ==> cell_list(#[trigger] cell_of(bwd, ids, c), head_pairs(edges), c),
    ensures
        forall|v: int| 0 <= v < n ==> lists_edges_into(#[trigger] cell_of(bwd, ids, v), edges, v),
{
    let hp = head_pairs(edges);
    assert forall|v: int| 0 <= v < n implies lists_edges_into(#[trigger] cell_of(bwd, ids, v), edges, v) by {
        let list = cell_of(bwd, ids, v);
        assert(cell_list(list, hp, v));
        assert forall|e: u32| #[trigger] list.contains(e) <==> e < edges.len() && edges[e as int].head == v by {
            if list.contains(e) {
                let j = choose|j: int| 0 <= j < hp.len() && #[trigger] in_cell(hp[j], v, e);
                assert(hp[j] == (edges[j].head, j as u32));
            }
            if e < edges.len() && edges[e as int].head == v {
                assert(in_cell(hp[e as int], v, e));
            }
        }
    }
}

/// The snapping grid of a file written from sound content: its meta record
/// has the content's cell sizes and at least one row and column, its cell
/// offsets index the whole edge list, each cell lists its edges in
/// ascending order once each, every listed edge runs along its geometry,
/// and every such edge is listed in some cell.
pub proof fn written_grid_lists_forward_edges(d: &RegionData, b: Seq<u8>, pairs: Seq<(u32, u32)>)
    requires
        d.frame_ok(),
        d.pairs_fit(pairs),
        d.written_as(b, pairs),
    ensures
        written_grid_ok(d, b, pairs),
{
    lemma_written_grid_facts(d, b, pairs);
    lemma_grid_from_facts(d, b, pairs);
}

/// What a file written from `d` holds of its grid, taken from
/// [`RegionData::written_as`].
proof fn lemma_written_grid_facts(d: &RegionData, b: Seq<u8>, pairs: Seq<(u32, u32)>)
    requires
        d.written_as(b, pairs),
    ensures
        grid_metas(section_bytes(b, 9))[0] == d.frame(),
        crate::region::sound::csr(
            u32s(section_bytes(b, 10)),
            d.frame().rows * d.frame().cols,
            u32s(section_bytes(b, 11)).len() as int,
        ),
        forall|c: int| 0 <= c < d.frame().rows * d.frame().cols ==> cell_list(
            #[trigger] cell_of(u32s(section_bytes(b, 10)), u32s(section_bytes(b, 11)), c),
            pairs,
            c,
        ),
{
    crate::region::sound::accepted_arrays_fit(b);
}

/// The grid law of [`written_grid_lists_forward_edges`], as a predicate.
pub open spec fn written_grid_ok(d: &RegionData, b: Seq<u8>, pairs: Seq<(u32, u32)>) -> bool {
    let meta = grid_metas(section_bytes(b, 9))[0];
    let cells = u32s(section_bytes(b, 10));
    let ids = u32s(section_bytes(b, 11));
    let count = meta.rows * meta.cols;
    &&& meta.cell_lat == d.grid_cell.0 && meta.cell_lon == d.grid_cell.1
    &&& meta.rows >= 1 && meta.cols >= 1
    &&& cells.len() == count + 1 && cells[0] == 0 && cells[count] == ids.len()
    &&& forall|i: int, j: int| 0 <= i <= j <= count ==> #[trigger] cells[i] <= #[trigger] cells[j]
    &&& forall|c: int| 0 <= c < count ==> strictly_increasing(#[trigger] cell_of(cells, ids, c))
    &&& forall|c: int, k: int| 0 <= c < count && 0 <= k < cell_of(cells, ids, c).len()
        ==> #[trigger] cell_of(cells, ids, c)[k] < d.edges@.len()
        && runs_forward(d.edges@[cell_of(cells, ids, c)[k] as int])
    &&& forall|e: int| 0 <= e < d.edges@.len() && runs_forward(#[trigger] d.edges@[e])
        ==> exists|c: int| 0 <= c < count && cell_of(cells, ids, c).contains(e as u32)
}

proof fn lemma_grid_from_facts(d: &RegionData, b: Seq<u8>, pairs: Seq<(u32, u32)>)
    requires
        d.frame_ok(),
        d.pairs_fit(pairs),
        grid_metas(section_bytes(b, 9))[0] == d.frame(),
        crate::region::sound::csr(
            u32s(section_bytes(b, 10)),
            d.frame().rows * d.frame().cols,
            u32s(section_bytes(b, 11)).len() as int,
        ),
        forall|c: int| 0 <= c < d.frame().rows * d.frame().cols ==> cell_list(
            #[trigger] cell_of(u32s(section_bytes(b, 10)), u32s(section_bytes(b, 11)), c),
            pairs,
            c,
        ),
    ensures
        written_grid_ok(d, b, pairs),
{
    let meta = grid_metas(section_bytes(b, 9))[0];
    let cells = u32s(section_bytes(b, 10));
    let ids = u32s(section_bytes(b, 11));
    let count = meta.rows * meta.cols;
    lemma_frame_cells(d);
    assert forall|c: int, k: int| 0 <= c < count && 0 <= k < cell_of(cells, ids, c).len()
        implies #[trigger] cell_of(cells, ids, c)[k] < d.edges@.len()
        && runs_forward(d.edges@[cell_of(cells, ids, c)[k] as int]) by {
        let s = cell_of(cells, ids, c);
        assert(cell_list(s, pairs, c));
        assert(s.contains(s[k]));
        let j = choose|j: int| 0 <= j < pairs.len() && #[trigger] in_cell(pairs[j], c, s[k]);
        assert(pairs[j].1 == s[k]);
    }
    assert forall|e: int| 0 <= e < d.edges@.len() && runs_forward(#[trigger] d.edges@[e])
        implies exists|c: int| 0 <= c < count && cell_of(cells, ids, c).contains(e as u32) by {
        let j = choose|j: int| 0 <= j < pairs.len() && pairs[j].1 == e;
        let c = pairs[j].0 as int;
        assert(in_cell(pairs[j], c, e as u32));
        assert(cell_list(cell_of(cells, ids, c), pairs, c));
        assert(cell_of(cells, ids, c).contains(e as u32));
    }
}

} // verus!
