//! Why a file the writer lays out from sound content passes every check
//! the reader makes on open.

use vstd::prelude::*;
use vstd::arithmetic::div_mod::lemma_mod_multiples_basic;
use crate::le::u32_bytes;
use super::content::{forward_offsets_of, head_pairs, lemma_frame_cells, lists_edges_into, RegionData};
use super::encode::{curvature_record, edge_bytes, grid_meta_bytes, lays_out, point_bytes, way_ref_bytes};
use super::format::{CurvatureMetrics, Edge, GridMeta, PointE7, WayRef};
use super::grid::{cell_of, seconds_ascend};
use super::layout::{
    bwd_edge_ok, edge_ok, edges, fwd_edge_ok, graph_ok, grid_metas, grid_ok, lemma_offsets_step, offsets_ok, points,
    record_size, region_bytes_valid, section_bytes, sections_present, spec_table, table_ok, u32s, way_refs,
};
use super::reread::{
    lemma_curvatures_back, lemma_edges_back, lemma_grid_meta_back, lemma_points_back, lemma_u32s_back,
    lemma_way_refs_back,
};

verus! {

/// Forward offsets of tail-sorted edges whose tails are nodes form a valid
/// index over the edges.
pub proof fn lemma_forward_index(fwd: Seq<u32>, es: Seq<Edge>, n: int)
    requires
        n >= 0,
        forward_offsets_of(fwd, es, n),
        forall|k: int| 0 <= k < es.len() ==> (#[trigger] es[k]).tail < n,
    ensures
        offsets_ok(fwd, n, es.len() as int),
{
    reveal(offsets_ok);
    let m = es.len() as int;
    assert(fwd[0] <= m);
    assert(fwd[n] <= m);
    if m > 0 {
        if 0 < fwd[0] {
            assert(es[0].tail < 0);
        }
        assert(es[m - 1].tail < n);
        assert(m - 1 < fwd[n]);
    }
    assert forall|i: int, j: int| 0 <= i <= j <= n implies #[trigger] fwd[i] <= #[trigger] fwd[j] by {
        if fwd[i] > fwd[j] {
            let k = fwd[j] as int;
            assert(fwd[i] <= m);
            assert(k < fwd[i]);
            assert(es[k].tail < i);
            assert(es[k].tail < j);
            assert(k < fwd[j]);
        }
    }
}

/// The (head, id) pairs list the edge ids in ascending order.
pub proof fn lemma_head_pairs_ascend(es: Seq<Edge>)
    requires
        es.len() <= u32::MAX,
    ensures
        seconds_ascend(head_pairs(es)),
{
    let hp = head_pairs(es);
    assert forall|i: int, j: int| 0 <= i < j < hp.len() implies #[trigger] hp[i].1 < #[trigger] hp[j].1 by {
        assert(hp[i].1 == i && hp[j].1 == j);
    }
}

/// Content whose written file the reader accepts is sound.
pub proof fn lemma_written_sound(d: &RegionData, b: Seq<u8>, pairs: Seq<(u32, u32)>)
    requires
        d.arrays_ok(),
        d.written_as(b, pairs),
    ensures
        d.graph_sound(),
{
    let nodes = d.nodes@;
    let es = d.edges@;
    let geom = d.geometry_offsets@;
    let shape = d.shape_points@;
    let fwd = u32s(section_bytes(b, 2));
    let n = nodes.len() as int;
    assert(graph_ok(nodes, fwd, u32s(section_bytes(b, 3)), u32s(section_bytes(b, 4)), es, geom, shape));
    assert forall|k: int| 0 <= k < es.len() implies edge_ok(nodes, geom, shape, es[k].tail as int, #[trigger] es[k]) by {
        let v = es[k].tail as int;
        assert(!(k < fwd[v]));
        assert(k < fwd[v + 1]);
        assert(fwd_edge_ok(nodes, fwd, es, geom, shape, v, k));
    }
}

/// Every section holds whole records of its kind.
proof fn lemma_whole_records(b: Seq<u8>, secs: Seq<(u32, &[u8])>, counts: Seq<int>)
    requires
        secs.len() == 12,
        counts.len() == 12,
        forall|k: int| 0 <= k < 12 ==> section_bytes(b, (k + 1) as u32) == (#[trigger] secs[k]).1@,
        forall|k: int| 0 <= k < 12 ==> (#[trigger] secs[k]).1@.len() == record_size((k + 1) as u32) * counts[k],
    ensures
        forall|id: u32| 1 <= id <= 12 ==> (#[trigger] section_bytes(b, id)).len() as int % record_size(id) == 0,
{
    assert forall|id: u32| 1 <= id <= 12 implies (#[trigger] section_bytes(b, id)).len() as int % record_size(id) == 0 by {
        let k = id - 1;
        assert(secs[k].1@.len() == record_size(id) * counts[k]);
        assert(section_bytes(b, id) == secs[k].1@);
        lemma_mod_multiples_basic(counts[k], record_size(id));
        assert(record_size(id) * counts[k] == counts[k] * record_size(id)) by (nonlinear_arith);
    }
}

/// The routing graph of sound content, with its derived forward and
/// backward indexes, is one the reader accepts.
proof fn lemma_graph_accepted(
    d: &RegionData,
    fwd: Seq<u32>,
    bwd: Seq<u32>,
    bwd_edges: Seq<u32>,
)
    requires
        d.arrays_ok(),
        d.graph_sound(),
        forward_offsets_of(fwd, d.edges@, d.nodes@.len() as int),
        offsets_ok(bwd, d.nodes@.len() as int, bwd_edges.len() as int),
        bwd_edges.len() == d.edges@.len(),
        forall|v: int| 0 <= v < d.nodes@.len() ==> lists_edges_into(#[trigger] cell_of(bwd, bwd_edges, v), d.edges@, v),
    ensures
        graph_ok(d.nodes@, fwd, bwd, bwd_edges, d.edges@, d.geometry_offsets@, d.shape_points@),
{
    let nodes = d.nodes@;
    let es = d.edges@;
    let geom = d.geometry_offsets@;
    let shape = d.shape_points@;
    let n = nodes.len() as int;
    let m = es.len() as int;
    lemma_forward_index(fwd, es, n);
    assert forall|v: int, k: int| 0 <= v < n && fwd[v] <= k < fwd[v + 1] implies #[trigger] fwd_edge_ok(
        nodes,
        fwd,
        es,
        geom,
        shape,
        v,
        k,
    ) by {
        lemma_offsets_step(fwd, n, m, v);
        assert(!(k < fwd[v]));
        assert(es[k].tail >= v);
        assert(es[k].tail < v + 1);
        assert(es[k].tail == v);
    }
    assert forall|v: int, k: int| 0 <= v < n && bwd[v] <= k < bwd[v + 1] implies #[trigger] bwd_edge_ok(
        es,
        bwd_edges,
        v,
        k,
    ) by {
        lemma_offsets_step(bwd, n, bwd_edges.len() as int, v);
        let list = cell_of(bwd, bwd_edges, v);
        assert(list[k - bwd[v]] == bwd_edges[k]);
        assert(list.contains(bwd_edges[k]));
    }
}

/// A file whose table is sound and whose sections hold the encoded arrays
/// of sound content, with the derived indexes and a grid over its edges,
/// passes every check the reader makes on open.
pub proof fn lemma_file_valid(
    d: &RegionData,
    b: Seq<u8>,
    secs: Seq<(u32, &[u8])>,
    fwd: Seq<u32>,
    bwd: Seq<u32>,
    bwd_edges: Seq<u32>,
    meta: GridMeta,
    cells: Seq<u32>,
    cell_edges: Seq<u32>,
)
    requires
        d.arrays_ok(),
        d.frame_ok(),
        d.graph_sound(),
        meta == d.frame(),
        table_ok(b),
        sections_present(spec_table(b)),
        secs.len() == 12,
        forall|k: int| 0 <= k < 12 ==> section_bytes(b, (k + 1) as u32) == (#[trigger] secs[k]).1@,
        lays_out(secs[0].1@, d.nodes@, 8, |p: PointE7| point_bytes(p)),
        lays_out(secs[1].1@, fwd, 4, |x: u32| u32_bytes(x)),
        lays_out(secs[2].1@, bwd, 4, |x: u32| u32_bytes(x)),
        lays_out(secs[3].1@, bwd_edges, 4, |x: u32| u32_bytes(x)),
        lays_out(secs[4].1@, d.edges@, 20, |e: Edge| edge_bytes(e)),
        lays_out(secs[5].1@, d.geometry_offsets@, 4, |x: u32| u32_bytes(x)),
        lays_out(secs[6].1@, d.shape_points@, 8, |p: PointE7| point_bytes(p)),
        lays_out(secs[7].1@, d.curvature@, 16, |c: CurvatureMetrics| curvature_record(c)),
        secs[8].1@ == grid_meta_bytes(meta),
        lays_out(secs[9].1@, cells, 4, |x: u32| u32_bytes(x)),
        lays_out(secs[10].1@, cell_edges, 4, |x: u32| u32_bytes(x)),
        lays_out(secs[11].1@, d.way_refs@, 16, |w: WayRef| way_ref_bytes(w)),
        forward_offsets_of(fwd, d.edges@, d.nodes@.len() as int),
        offsets_ok(bwd, d.nodes@.len() as int, bwd_edges.len() as int),
        bwd_edges.len() == d.edges@.len(),
        forall|v: int| 0 <= v < d.nodes@.len() ==> lists_edges_into(#[trigger] cell_of(bwd, bwd_edges, v), d.edges@, v),
        offsets_ok(cells, meta.rows * meta.cols, cell_edges.len() as int),
        forall|i: int| 0 <= i < cell_edges.len() ==> #[trigger] cell_edges[i] < d.edges@.len(),
    ensures
        region_bytes_valid(b),
{
    assert(section_bytes(b, 1) == secs[0].1@);
    assert(section_bytes(b, 2) == secs[1].1@);
    assert(section_bytes(b, 3) == secs[2].1@);
    assert(section_bytes(b, 4) == secs[3].1@);
    assert(section_bytes(b, 5) == secs[4].1@);
    assert(section_bytes(b, 6) == secs[5].1@);
    assert(section_bytes(b, 7) == secs[6].1@);
    assert(section_bytes(b, 8) == secs[7].1@);
    assert(section_bytes(b, 9) == secs[8].1@);
    assert(section_bytes(b, 10) == secs[9].1@);
    assert(section_bytes(b, 11) == secs[10].1@);
    assert(section_bytes(b, 12) == secs[11].1@);
    lemma_points_back(secs[0].1@, d.nodes@);
    lemma_u32s_back(secs[1].1@, fwd);
    lemma_u32s_back(secs[2].1@, bwd);
    lemma_u32s_back(secs[3].1@, bwd_edges);
    lemma_edges_back(secs[4].1@, d.edges@);
    lemma_u32s_back(secs[5].1@, d.geometry_offsets@);
    lemma_points_back(secs[6].1@, d.shape_points@);
    lemma_curvatures_back(secs[7].1@, d.curvature@);
    lemma_grid_meta_back(secs[8].1@, meta);
    lemma_u32s_back(secs[9].1@, cells);
    lemma_u32s_back(secs[10].1@, cell_edges);
    lemma_way_refs_back(secs[11].1@, d.way_refs@);
    let counts = seq![
        d.nodes@.len() as int,
        fwd.len() as int,
        bwd.len() as int,
        bwd_edges.len() as int,
        d.edges@.len() as int,
        d.geometry_offsets@.len() as int,
        d.shape_points@.len() as int,
        d.curvature@.len() as int,
        1int,
        cells.len() as int,
        cell_edges.len() as int,
        d.way_refs@.len() as int,
    ];
    assert(grid_meta_bytes(meta).len() == 24);
    lemma_whole_records(b, secs, counts);
    lemma_graph_accepted(d, fwd, bwd, bwd_edges);
    lemma_frame_cells(d);
    assert(grid_ok(meta, cells, cell_edges, d.edges@.len() as int));
}

} // verus!
