//! What every region file the reader accepts holds, spelled out over its
//! typed sections: the routing graph's indexes and edges, the per-edge
//! arrays, the geometry index, the coordinates and the snapping grid.

use vstd::prelude::*;
use super::format::{Edge, PointE7};
use super::layout::{
    bwd_edge_ok, edges, fwd_edge_ok, graph_ok, grid_metas, grid_ok, offsets_ok, point_in_range, points, region_bytes_valid, section_bytes, u32s,
    way_refs,
};

verus! {

/// `o` indexes `count` ranges covering `0..total`: `count + 1` offsets
/// from 0 to `total`, never decreasing.
pub open spec fn csr(o: Seq<u32>, count: int, total: int) -> bool {
    &&& o.len() == count + 1
    &&& o[0] == 0
    &&& o[count] == total
    &&& forall|i: int, j: int| 0 <= i <= j <= count ==> #[trigger] o[i] <= #[trigger] o[j]
}

/// Edge `e` leaves node `v` of `nodes`, names a geometry and a node that
/// exist, has a speed, and its line's ends (swapped for a reverse edge)
/// are its two nodes.
pub open spec fn edge_leaves(nodes: Seq<PointE7>, geom: Seq<u32>, shape: Seq<PointE7>, v: int, e: Edge) -> bool {
    let first = shape[geom[e.geometry as int] as int];
    let last = shape[geom[e.geometry + 1] - 1];
    &&& e.tail == v
    &&& e.head < nodes.len()
    &&& e.geometry + 1 < geom.len()
    &&& e.speed_kmh > 0
    &&& if e.flags & 1u8 == 0u8 {
        first == nodes[v] && last == nodes[e.head as int]
    } else {
        last == nodes[v] && first == nodes[e.head as int]
    }
}

/// The routing graph of a file the reader accepts is sound: both CSR
/// indexes cover the edges, every edge in node `v`'s forward range leaves
/// `v` and joins its nodes, and every slot of `v`'s backward range names
/// an edge entering `v` ([`bwd_edge_ok`]).
pub proof fn accepted_graph_is_sound(b: Seq<u8>)
    requires
        region_bytes_valid(b),
    ensures
        ({
            let nodes = points(section_bytes(b, 1));
            let fwd = u32s(section_bytes(b, 2));
            let bwd = u32s(section_bytes(b, 3));
            let bwd_edges = u32s(section_bytes(b, 4));
            let es = edges(section_bytes(b, 5));
            let geom = u32s(section_bytes(b, 6));
            let shape = points(section_bytes(b, 7));
            let n = nodes.len() as int;
            let m = es.len() as int;
            &&& csr(fwd, n, m)
            &&& csr(bwd, n, m)
            &&& bwd_edges.len() == m
            &&& forall|v: int, k: int| 0 <= v < n && fwd[v] <= k < fwd[v + 1]
                ==> #[trigger] edge_leaves(nodes, geom, shape, v, es[k])
            &&& forall|v: int, k: int| 0 <= v < n && bwd[v] <= k < bwd[v + 1]
                ==> #[trigger] bwd_edge_ok(es, bwd_edges, v, k)
        }),
{
    let nodes = points(section_bytes(b, 1));
    let fwd = u32s(section_bytes(b, 2));
    let bwd = u32s(section_bytes(b, 3));
    let bwd_edges = u32s(section_bytes(b, 4));
    let es = edges(section_bytes(b, 5));
    let geom = u32s(section_bytes(b, 6));
    let shape = points(section_bytes(b, 7));
    assert(graph_ok(nodes, fwd, bwd, bwd_edges, es, geom, shape));
    reveal(offsets_ok);
    assert forall|v: int, k: int| 0 <= v < nodes.len() && fwd[v] <= k < fwd[v + 1] implies #[trigger] edge_leaves(
        nodes,
        geom,
        shape,
        v,
        es[k],
    ) by {
        assert(fwd_edge_ok(nodes, fwd, es, geom, shape, v, k));
    }
}

/// The arrays of a file the reader accepts fit each other: one curvature
/// record and one way ref per edge, a geometry index over all shape
/// points with at least two points per geometry, coordinates in range,
/// exactly one grid meta record with positive cell sizes and dimensions,
/// grid offsets covering the grid's edge list, and grid entries naming
/// edges.
pub proof fn accepted_arrays_fit(b: Seq<u8>)
    requires
        region_bytes_valid(b),
    ensures
        ({
            let nodes = points(section_bytes(b, 1));
            let es = edges(section_bytes(b, 5));
            let geom = u32s(section_bytes(b, 6));
            let shape = points(section_bytes(b, 7));
            let metas = grid_metas(section_bytes(b, 9));
            let cells = u32s(section_bytes(b, 10));
            let cell_edges = u32s(section_bytes(b, 11));
            let m = es.len() as int;
            &&& section_bytes(b, 8).len() / 16 == m
            &&& way_refs(section_bytes(b, 12)).len() == m
            &&& csr(geom, geom.len() - 1, shape.len() as int)
            &&& forall|i: int| 0 <= i < geom.len() - 1 ==> #[trigger] geom[i] + 2 <= geom[i + 1]
            &&& forall|i: int| 0 <= i < nodes.len() ==> point_in_range(#[trigger] nodes[i])
            &&& forall|i: int| 0 <= i < shape.len() ==> point_in_range(#[trigger] shape[i])
            &&& metas.len() == 1
            &&& metas[0].cell_lat > 0 && metas[0].cell_lon > 0 && metas[0].rows > 0 && metas[0].cols > 0
            &&& csr(cells, metas[0].rows * metas[0].cols, cell_edges.len() as int)
            &&& forall|i: int| 0 <= i < cell_edges.len() ==> #[trigger] cell_edges[i] < m
        }),
{
    let metas = grid_metas(section_bytes(b, 9));
    assert(grid_ok(
        metas[0],
        u32s(section_bytes(b, 10)),
        u32s(section_bytes(b, 11)),
        edges(section_bytes(b, 5)).len() as int,
    ));
    reveal(offsets_ok);
}

} // verus!
