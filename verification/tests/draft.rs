use moto_core::draft::{join_span, trace_ways, way_node, Piece};
use moto_core::region::format::WayRef;
use moto_core::section::WaySpan;

fn span(way_id: i64, from_idx: u32, to_idx: u32) -> WaySpan {
    WaySpan { way_id, from_idx, to_idx }
}

fn wref(way_id: i64, from_idx: u32, to_idx: u32) -> WayRef {
    WayRef { way_id, from_idx, to_idx }
}

fn piece(edge: u32, first: usize, last: usize) -> Piece {
    Piece { edge, first, last }
}

#[test]
fn shape_points_map_to_way_nodes_within_the_edge() {
    let along = wref(5, 3, 6);
    assert_eq!(way_node(&along, 0), 3);
    assert_eq!(way_node(&along, 2), 5);
    assert_eq!(way_node(&along, 3), 6);
    assert_eq!(way_node(&along, 9), 6);
    let against = wref(5, 6, 3);
    assert_eq!(way_node(&against, 0), 6);
    assert_eq!(way_node(&against, 2), 4);
    assert_eq!(way_node(&against, 7), 3);
    assert_eq!(way_node(&wref(1, u32::MAX - 1, u32::MAX), usize::MAX), u32::MAX);
}

#[test]
fn pieces_of_one_way_that_follow_on_become_one_span() {
    // The north road of a ladder: one OSM way split at its middle node.
    let refs = [wref(1, 0, 1), wref(1, 1, 2)];
    assert_eq!(trace_ways(&refs, &[piece(0, 0, 1), piece(1, 0, 1)]), [span(1, 0, 2)]);
}

#[test]
fn a_path_against_the_way_runs_its_nodes_down() {
    // Westwards along a way that runs east: nodes 1 → 0.
    let refs = [wref(100, 1, 0)];
    assert_eq!(trace_ways(&refs, &[piece(0, 0, 1)]), [span(100, 1, 0)]);
}

#[test]
fn a_new_way_starts_a_new_span() {
    let refs = [wref(7, 0, 1), wref(8, 4, 5)];
    assert_eq!(trace_ways(&refs, &[piece(0, 0, 1), piece(1, 0, 1)]), [span(7, 0, 1), span(8, 4, 5)]);
    // From A–B onto the one-way B–D.
    let refs = [wref(100, 0, 1), wref(300, 0, 1)];
    assert_eq!(trace_ways(&refs, &[piece(0, 0, 1), piece(1, 0, 1)]), [span(100, 0, 1), span(300, 0, 1)]);
}

#[test]
fn a_partly_ridden_bend_covers_the_nodes_around_it() {
    // B–C has one shape node, the bend: both ends rounded outwards.
    let refs = [wref(200, 0, 2)];
    assert_eq!(trace_ways(&refs, &[piece(0, 0, 2)]), [span(200, 0, 2)]);
}

#[test]
fn empty_pieces_add_nothing() {
    let refs = [wref(1, 0, 4)];
    assert_eq!(trace_ways(&refs, &[piece(0, 2, 2), piece(0, 3, 1)]), []);
    assert_eq!(trace_ways(&refs, &[]), []);
}

#[test]
fn pieces_running_opposite_ways_stay_apart() {
    // Out along the way and back: the return does not extend the first span.
    let refs = [wref(9, 0, 3), wref(9, 3, 0)];
    assert_eq!(trace_ways(&refs, &[piece(0, 0, 3), piece(1, 0, 2)]), [span(9, 0, 3), span(9, 3, 1)]);
}

#[test]
fn joining_extends_only_the_last_span() {
    let mut ways = vec![span(1, 0, 2)];
    join_span(&mut ways, span(1, 2, 5));
    assert_eq!(ways, [span(1, 0, 5)]);
    join_span(&mut ways, span(1, 4, 6));
    assert_eq!(ways, [span(1, 0, 5), span(1, 4, 6)]);
    let mut empty = Vec::new();
    join_span(&mut empty, span(3, 1, 0));
    assert_eq!(empty, [span(3, 1, 0)]);
}
