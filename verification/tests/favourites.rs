use moto_core::favourites::{counts, edge_stretch};
use moto_core::region::format::WayRef;
use moto_core::section::{Direction, Status, WaySpan};

fn wref(way_id: i64, from_idx: u32, to_idx: u32) -> WayRef {
    WayRef { way_id, from_idx, to_idx }
}

fn span(way_id: i64, from_idx: u32, to_idx: u32) -> WaySpan {
    WaySpan { way_id, from_idx, to_idx }
}

#[test]
fn only_matched_sections_count() {
    assert!(counts(Status::Matched));
    assert!(!counts(Status::NeedsRematch));
    assert!(!counts(Status::Unmatched));
}

#[test]
fn a_span_covering_an_edge_gives_its_whole_node_range() {
    assert_eq!(edge_stretch(&wref(100, 2, 4), &span(100, 0, 9), Direction::Both), Some((2, 4)));
    // The edge running against the way: still lowest node first.
    assert_eq!(edge_stretch(&wref(100, 4, 2), &span(100, 0, 9), Direction::Both), Some((2, 4)));
}

#[test]
fn a_span_ending_inside_an_edge_gives_the_shared_nodes() {
    assert_eq!(edge_stretch(&wref(7, 0, 5), &span(7, 3, 8), Direction::Both), Some((3, 5)));
    assert_eq!(edge_stretch(&wref(7, 0, 5), &span(7, 4, 1), Direction::Both), Some((1, 4)));
}

#[test]
fn touching_at_one_node_or_another_way_is_no_stretch() {
    assert_eq!(edge_stretch(&wref(7, 0, 3), &span(7, 3, 6), Direction::Both), None);
    assert_eq!(edge_stretch(&wref(7, 0, 3), &span(8, 0, 3), Direction::Both), None);
    assert_eq!(edge_stretch(&wref(7, 2, 2), &span(7, 0, 3), Direction::Both), None);
    assert_eq!(edge_stretch(&wref(7, 0, 3), &span(7, 1, 1), Direction::Both), None);
}

#[test]
fn a_one_way_section_favours_only_edges_running_its_way() {
    let along = span(300, 0, 4);
    assert_eq!(edge_stretch(&wref(300, 0, 2), &along, Direction::Forward), Some((0, 2)));
    assert_eq!(edge_stretch(&wref(300, 2, 0), &along, Direction::Forward), None);
    let against = span(300, 4, 0);
    assert_eq!(edge_stretch(&wref(300, 2, 0), &against, Direction::Forward), Some((0, 2)));
    assert_eq!(edge_stretch(&wref(300, 0, 2), &against, Direction::Forward), None);
    // Two-way: both directions alike.
    assert_eq!(edge_stretch(&wref(300, 2, 0), &along, Direction::Both), Some((0, 2)));
}
