//! The structural checks a region passes on open, each equal to its
//! statement in [`super::layout`].

use vstd::prelude::*;
use crate::error::{join, owned, region_error, with_number, CoreError};
use crate::le::lemma_slice_len_bound;
use super::format::{Edge, GridMeta, PointE7};
use super::faults::{bwd_fault, edge_fault, fwd_fault, graph_fault, grid_fault, nodes_fault, short_geometry_from};
use super::layout::{
    bwd_edge_ok, edge_ok, fwd_edge_ok, graph_ok, grid_ok, lemma_offsets_step, offsets_ok,
    point_in_range,
};

verus! {

/// CSR offsets: `count + 1` entries from 0 to `total`, never decreasing.
pub fn check_offsets(o: &[u32], count: usize, total: usize) -> (ok: bool)
    ensures
        ok == offsets_ok(o@, count as int, total as int),
{
    proof { lemma_slice_len_bound(o); }
    reveal(offsets_ok);
    if count == usize::MAX || o.len() != count + 1 {
        return false;
    }
    if o[0] != 0 || o[count] as usize != total {
        return false;
    }
    let mut i: usize = 0;
    while i < count
        invariant
            o@.len() == count + 1,
            i <= count,
            forall|a: int, b: int| 0 <= a <= b <= i ==> #[trigger] o@[a] <= #[trigger] o@[b],
        decreases count - i,
    {
        if o[i] > o[i + 1] {
            assert(!(o@[i as int] <= o@[i + 1]));
            reveal(offsets_ok);
            return false;
        }
        assert forall|a: int, b: int| 0 <= a <= b <= i + 1 implies #[trigger] o@[a] <= #[trigger] o@[b] by {
            if b == i + 1 && a <= i {
                assert(o@[a] <= o@[i as int]);
            }
        }
        i += 1;
    }
    reveal(offsets_ok);
    true
}

fn in_range(p: &PointE7) -> (b: bool)
    ensures
        b == point_in_range(*p),
{
    -900_000_000 <= p.lat && p.lat <= 900_000_000 && -1_800_000_000 <= p.lon && p.lon <= 1_800_000_000
}

fn all_in_range(ps: &[PointE7]) -> (b: bool)
    ensures
        b == forall|i: int| 0 <= i < ps@.len() ==> point_in_range(#[trigger] ps@[i]),
{
    let mut i: usize = 0;
    while i < ps.len()
        invariant
            i <= ps@.len(),
            forall|k: int| 0 <= k < i ==> point_in_range(#[trigger] ps@[k]),
        decreases ps@.len() - i,
    {
        if !in_range(&ps[i]) {
            return false;
        }
        i += 1;
    }
    true
}

/// Checks the edges leaving and entering node `v`.
fn check_node(
    nodes: &[PointE7],
    fwd: &[u32],
    bwd: &[u32],
    bwd_edges: &[u32],
    edges: &[Edge],
    geom: &[u32],
    shape: &[PointE7],
    v: usize,
) -> (r: Result<(), CoreError>)
    requires
        v < nodes@.len(),
        offsets_ok(fwd@, nodes@.len() as int, edges@.len() as int),
        offsets_ok(bwd@, nodes@.len() as int, bwd_edges@.len() as int),
        geom@.len() >= 1,
        offsets_ok(geom@, geom@.len() - 1, shape@.len() as int),
        forall|i: int| 0 <= i < geom@.len() - 1 ==> #[trigger] geom@[i] + 2 <= geom@[i + 1],
    ensures
        r is Ok <==> (forall|k: int| fwd@[v as int] <= k < fwd@[v + 1] ==> #[trigger] fwd_edge_ok(
            nodes@,
            fwd@,
            edges@,
            geom@,
            shape@,
            v as int,
            k,
        )) && (forall|k: int| bwd@[v as int] <= k < bwd@[v + 1] ==> #[trigger] bwd_edge_ok(
            edges@,
            bwd_edges@,
            v as int,
            k,
        )),
        r matches Err(e) ==> e is Region,
        r is Err ==> (r matches Err(CoreError::Region(m)) && Some(m@) == match fwd_fault(
            nodes@,
            fwd@,
            edges@,
            geom@,
            shape@,
            v as int,
            fwd@[v as int] as int,
        ) {
            Some(t) => Some(t),
            None => bwd_fault(edges@, bwd@, bwd_edges@, v as int, bwd@[v as int] as int),
        }),
        r is Ok ==> fwd_fault(nodes@, fwd@, edges@, geom@, shape@, v as int, fwd@[v as int] as int) is None
            && bwd_fault(edges@, bwd@, bwd_edges@, v as int, bwd@[v as int] as int) is None,
{
    proof { lemma_slice_len_bound(geom); }
    let n = nodes.len();
    let g = geom.len() - 1;
    proof {
        lemma_offsets_step(fwd@, nodes@.len() as int, edges@.len() as int, v as int);
        lemma_offsets_step(bwd@, nodes@.len() as int, bwd_edges@.len() as int, v as int);
    }
    let lo = fwd[v] as usize;
    let hi = fwd[v + 1] as usize;
    let mut k = lo;
    while k < hi
        invariant
            lo == fwd@[v as int],
            hi == fwd@[v + 1],
            lo <= k <= hi <= edges@.len(),
            n == nodes@.len(),
            v < n,
            g + 1 == geom@.len(),
            offsets_ok(geom@, g as int, shape@.len() as int),
            forall|i: int| 0 <= i < g ==> #[trigger] geom@[i] + 2 <= geom@[i + 1],
            forall|j: int| lo <= j < k ==> #[trigger] fwd_edge_ok(nodes@, fwd@, edges@, geom@, shape@, v as int, j),
            fwd_fault(nodes@, fwd@, edges@, geom@, shape@, v as int, lo as int)
                == fwd_fault(nodes@, fwd@, edges@, geom@, shape@, v as int, k as int),
        decreases hi - k,
    {
        let e = edges[k];
        if e.tail as usize != v || e.head as usize >= n || e.geometry as usize >= g {
            assert(!fwd_edge_ok(nodes@, fwd@, edges@, geom@, shape@, v as int, k as int));
            let shown = join(join(owned("edge "), e.show()), owned(" inconsistent with node "));
            let text = with_number(shown.as_str(), v as u64, "");
            proof {
                reveal_strlit("");
                assert(text@ =~= "edge "@ + e.shown() + " inconsistent with node "@ + crate::gpx::text::decimal(v as nat));
                assert(edges@[k as int] == e);
                assert(fwd_fault(nodes@, fwd@, edges@, geom@, shape@, v as int, k as int) == Some(text@));
            }
            return Err(CoreError::Region(text));
        }
        if e.speed_kmh == 0 {
            assert(!fwd_edge_ok(nodes@, fwd@, edges@, geom@, shape@, v as int, k as int));
            assert(edges@[k as int] == e);
            assert(fwd_fault(nodes@, fwd@, edges@, geom@, shape@, v as int, k as int) == Some("edge with zero speed"@));
            return Err(region_error("edge with zero speed"));
        }
        let gi = e.geometry as usize;
        let a = geom[gi] as usize;
        let b = geom[gi + 1] as usize;
        assert(geom@[gi as int] + 2 <= geom@[gi + 1]);
        proof { lemma_offsets_step(geom@, g as int, shape@.len() as int, gi as int); }
        let first = shape[a];
        let last = shape[b - 1];
        let joins = if e.flags & 1u8 == 0u8 {
            first == nodes[v] && last == nodes[e.head as usize]
        } else {
            last == nodes[v] && first == nodes[e.head as usize]
        };
        if !joins {
            assert(!fwd_edge_ok(nodes@, fwd@, edges@, geom@, shape@, v as int, k as int));
            assert(edges@[k as int] == e);
            assert(fwd_fault(nodes@, fwd@, edges@, geom@, shape@, v as int, k as int)
                == Some("edge geometry does not join its nodes"@));
            return Err(region_error("edge geometry does not join its nodes"));
        }
        assert(fwd_edge_ok(nodes@, fwd@, edges@, geom@, shape@, v as int, k as int));
        assert(edge_fault(nodes@, geom@, shape@, v as int, edges@[k as int]) is None);
        k += 1;
    }
    assert(fwd_fault(nodes@, fwd@, edges@, geom@, shape@, v as int, k as int) is None);
    let lo = bwd[v] as usize;
    let hi = bwd[v + 1] as usize;
    let mut k = lo;
    while k < hi
        invariant
            lo == bwd@[v as int],
            hi == bwd@[v + 1],
            lo <= k <= hi <= bwd_edges@.len(),
            forall|j: int| lo <= j < k ==> #[trigger] bwd_edge_ok(edges@, bwd_edges@, v as int, j),
            bwd_fault(edges@, bwd@, bwd_edges@, v as int, lo as int) == bwd_fault(edges@, bwd@, bwd_edges@, v as int, k as int),
            fwd_fault(nodes@, fwd@, edges@, geom@, shape@, v as int, fwd@[v as int] as int) is None,
        decreases hi - k,
    {
        let id = bwd_edges[k] as usize;
        if id >= edges.len() || edges[id].head as usize != v {
            assert(!bwd_edge_ok(edges@, bwd_edges@, v as int, k as int));
            let head = with_number("backward edge ", id as u64, " does not enter node ");
            let text = join(head, with_number("", v as u64, ""));
            proof {
                reveal_strlit("");
                assert(text@ =~= "backward edge "@ + crate::gpx::text::decimal(bwd_edges@[k as int] as nat)
                    + " does not enter node "@ + crate::gpx::text::decimal(v as nat));
            }
            return Err(CoreError::Region(text));
        }
        assert(bwd_edge_ok(edges@, bwd_edges@, v as int, k as int));
        k += 1;
    }
    assert(bwd_fault(edges@, bwd@, bwd_edges@, v as int, k as int) is None);
    Ok(())
}

/// Checks the routing graph: array sizes, coordinates, the CSR indexes,
/// the per-edge sections' counts (`curvature_count` curvature records and
/// `way_ref_count` way refs), the geometry index and every edge.
pub fn check_graph(
    nodes: &[PointE7],
    fwd: &[u32],
    bwd: &[u32],
    bwd_edges: &[u32],
    edges: &[Edge],
    geom: &[u32],
    shape: &[PointE7],
    curvature_count: usize,
    way_ref_count: usize,
) -> (r: Result<(), CoreError>)
    ensures
        r is Ok <==> graph_ok(nodes@, fwd@, bwd@, bwd_edges@, edges@, geom@, shape@)
            && curvature_count == edges@.len() && way_ref_count == edges@.len(),
        r matches Err(e) ==> e is Region,
        r is Err ==> (r matches Err(CoreError::Region(m))
            && graph_fault(nodes@, fwd@, bwd@, bwd_edges@, edges@, geom@, shape@, curvature_count as int, way_ref_count as int) == Some(m@)),
        r is Ok ==> graph_fault(nodes@, fwd@, bwd@, bwd_edges@, edges@, geom@, shape@, curvature_count as int, way_ref_count as int) is None,
{
    let n = nodes.len();
    let m = edges.len();
    if n >= u32::MAX as usize || m >= u32::MAX as usize || shape.len() >= u32::MAX as usize {
        return Err(region_error("arrays too large for 32-bit ids"));
    }
    if !all_in_range(nodes) || !all_in_range(shape) {
        return Err(region_error("coordinate out of range"));
    }
    if !check_offsets(fwd, n, m) {
        return Err(region_error("forward CSR offsets are not a valid index"));
    }
    if !check_offsets(bwd, n, bwd_edges.len()) {
        return Err(region_error("backward CSR offsets are not a valid index"));
    }
    if bwd_edges.len() != m || curvature_count != m || way_ref_count != m {
        return Err(region_error("per-edge sections disagree on the edge count"));
    }
    if geom.len() == 0 {
        return Err(region_error("empty geometry offsets"));
    }
    let g = geom.len() - 1;
    if !check_offsets(geom, g, shape.len()) {
        return Err(region_error("geometry offsets are not a valid index"));
    }
    let mut i: usize = 0;
    while i < g
        invariant
            g + 1 == geom@.len(),
            i <= g,
            offsets_ok(geom@, g as int, shape@.len() as int),
            forall|j: int| 0 <= j < i ==> #[trigger] geom@[j] + 2 <= geom@[j + 1],
            graph_fault(nodes@, fwd@, bwd@, bwd_edges@, edges@, geom@, shape@, curvature_count as int, way_ref_count as int) == if short_geometry_from(geom@, 0) {
                Some("geometry with fewer than two points"@)
            } else {
                nodes_fault(nodes@, fwd@, bwd@, bwd_edges@, edges@, geom@, shape@, 0)
            },
        decreases g - i,
    {
        proof { lemma_offsets_step(geom@, g as int, shape@.len() as int, i as int); }
        if geom[i + 1] - geom[i] < 2 {
            assert(!(geom@[i as int] + 2 <= geom@[i + 1]));
            assert(short_geometry_from(geom@, 0));
            return Err(region_error("geometry with fewer than two points"));
        }
        i += 1;
    }
    assert(!short_geometry_from(geom@, 0));
    let mut v: usize = 0;
    while v < n
        invariant
            n == nodes@.len(),
            v <= n,
            offsets_ok(fwd@, nodes@.len() as int, edges@.len() as int),
            offsets_ok(bwd@, nodes@.len() as int, bwd_edges@.len() as int),
            geom@.len() >= 1,
            offsets_ok(geom@, geom@.len() - 1, shape@.len() as int),
            forall|i: int| 0 <= i < geom@.len() - 1 ==> #[trigger] geom@[i] + 2 <= geom@[i + 1],
            forall|u: int, k: int| 0 <= u < v && fwd@[u] <= k < fwd@[u + 1] ==> #[trigger] fwd_edge_ok(
                nodes@,
                fwd@,
                edges@,
                geom@,
                shape@,
                u,
                k,
            ),
            forall|u: int, k: int| 0 <= u < v && bwd@[u] <= k < bwd@[u + 1] ==> #[trigger] bwd_edge_ok(
                edges@,
                bwd_edges@,
                u,
                k,
            ),
            graph_fault(nodes@, fwd@, bwd@, bwd_edges@, edges@, geom@, shape@, curvature_count as int, way_ref_count as int)
                == nodes_fault(nodes@, fwd@, bwd@, bwd_edges@, edges@, geom@, shape@, v as int),
            curvature_count == edges@.len(),
            way_ref_count == edges@.len(),
        decreases n - v,
    {
        match check_node(nodes, fwd, bwd, bwd_edges, edges, geom, shape, v) {
            Ok(()) => {},
            Err(e) => return Err(e),
        }
        v += 1;
    }
    Ok(())
}

/// Checks the snapping grid against an edge count of `m`.
pub fn check_grid(meta: &GridMeta, cells: &[u32], cell_edges: &[u32], m: usize) -> (r: Result<(), CoreError>)
    ensures
        r is Ok <==> grid_ok(*meta, cells@, cell_edges@, m as int),
        r matches Err(e) ==> e is Region,
        r is Err ==> (r matches Err(CoreError::Region(t)) && grid_fault(*meta, cells@, cell_edges@, m as int) == Some(t@)),
        r is Ok ==> grid_fault(*meta, cells@, cell_edges@, m as int) is None,
{
    if meta.cell_lat <= 0 || meta.cell_lon <= 0 || meta.rows == 0 || meta.cols == 0 {
        return Err(region_error("invalid grid dimensions"));
    }
    let cell_count = match (meta.rows as usize).checked_mul(meta.cols as usize) {
        Some(c) => c,
        None => return Err(region_error("grid too large")),
    };
    if !check_offsets(cells, cell_count, cell_edges.len()) {
        return Err(region_error("grid offsets are not a valid index"));
    }
    let mut i: usize = 0;
    while i < cell_edges.len()
        invariant
            i <= cell_edges@.len(),
            grid_fault(*meta, cells@, cell_edges@, m as int) == if exists|j: int|
                0 <= j < cell_edges@.len() && #[trigger] cell_edges@[j] >= m {
                Some("grid refers to a missing edge"@)
            } else {
                None
            },
            forall|j: int| 0 <= j < i ==> #[trigger] cell_edges@[j] < m,
        decreases cell_edges@.len() - i,
    {
        if cell_edges[i] as usize >= m {
            assert(cell_edges@[i as int] >= m);
            return Err(region_error("grid refers to a missing edge"));
        }
        i += 1;
    }
    Ok(())
}

} // verus!
