//! The rider's favourite sections as the router sees them: which stretch
//! of a region edge a saved section's way span lies on.
//!
//! Only sections matched to the region count; those waiting for a
//! re-match or that no longer fit are left out. A section rated one way
//! only counts in its direction. How long the stretch is, and the bonus it
//! earns, is measured in metres by the caller.

use vstd::prelude::*;
use crate::region::format::WayRef;
use crate::section::{Direction, Status, WaySpan};

verus! {

pub open spec fn lower(a: u32, b: u32) -> u32 {
    if a <= b { a } else { b }
}

pub open spec fn upper(a: u32, b: u32) -> u32 {
    if a <= b { b } else { a }
}

/// The way node range, lowest first, that an edge or a span covers.
pub open spec fn node_range(from_idx: u32, to_idx: u32) -> (u32, u32) {
    (lower(from_idx, to_idx), upper(from_idx, to_idx))
}

/// The way nodes, lowest first, of the stretch of an edge (way ref `r`)
/// that a section's way span `w` lies on, the section being good in
/// direction `d`: none where the two touch at one node at most, lie on
/// different ways, or where a one-way section runs against the edge.
pub open spec fn stretch_on_edge(r: WayRef, w: WaySpan, d: Direction) -> Option<(u32, u32)> {
    let (elo, ehi) = node_range(r.from_idx, r.to_idx);
    let (slo, shi) = node_range(w.from_idx, w.to_idx);
    let from = upper(elo, slo);
    let to = lower(ehi, shi);
    if r.way_id != w.way_id || elo == ehi || slo == shi {
        None
    } else if d == Direction::Forward && (w.to_idx > w.from_idx) != (r.to_idx > r.from_idx) {
        None
    } else if from >= to {
        None
    } else {
        Some((from, to))
    }
}

/// Whether a section with this status counts as a favourite.
pub fn counts(status: Status) -> (r: bool)
    ensures
        r == (status == Status::Matched),
{
    match status {
        Status::Matched => true,
        _ => false,
    }
}

/// The way nodes, lowest first, of the stretch of the edge with way ref
/// `r` that way span `w` of a section good in direction `d` lies on; the
/// whole edge when the stretch equals its node range.
pub fn edge_stretch(r: &WayRef, w: &WaySpan, d: Direction) -> (s: Option<(u32, u32)>)
    ensures
        s == stretch_on_edge(*r, *w, d),
{
    let (elo, ehi) = if r.from_idx <= r.to_idx { (r.from_idx, r.to_idx) } else { (r.to_idx, r.from_idx) };
    let (slo, shi) = if w.from_idx <= w.to_idx { (w.from_idx, w.to_idx) } else { (w.to_idx, w.from_idx) };
    if r.way_id != w.way_id || elo == ehi || slo == shi {
        return None;
    }
    let one_way = match d {
        Direction::Forward => true,
        Direction::Both => false,
    };
    if one_way && (w.to_idx > w.from_idx) != (r.to_idx > r.from_idx) {
        return None;
    }
    let from = if elo >= slo { elo } else { slo };
    let to = if ehi <= shi { ehi } else { shi };
    if from >= to {
        None
    } else {
        Some((from, to))
    }
}

/// A stretch lies within both the edge and the span, and spans at least
/// two nodes.
pub proof fn stretches_lie_within_edge_and_span(r: WayRef, w: WaySpan, d: Direction)
    requires
        stretch_on_edge(r, w, d) is Some,
    ensures
        ({
            let (from, to) = stretch_on_edge(r, w, d)->0;
            &&& node_range(r.from_idx, r.to_idx).0 <= from < to <= node_range(r.from_idx, r.to_idx).1
            &&& node_range(w.from_idx, w.to_idx).0 <= from < to <= node_range(w.from_idx, w.to_idx).1
        }),
{
}

/// Where an edge and a span on the same way share two or more nodes, the
/// stretch is exactly the shared nodes (the higher of the two low ends to
/// the lower of the two high ends), for a two-way section and for a
/// one-way section running the edge's way.
pub proof fn a_stretch_is_the_shared_nodes(r: WayRef, w: WaySpan, d: Direction)
    requires
        r.way_id == w.way_id,
        d == Direction::Both || (w.to_idx > w.from_idx) == (r.to_idx > r.from_idx),
        ({
            let elo = if r.from_idx <= r.to_idx { r.from_idx } else { r.to_idx };
            let ehi = if r.from_idx <= r.to_idx { r.to_idx } else { r.from_idx };
            let slo = if w.from_idx <= w.to_idx { w.from_idx } else { w.to_idx };
            let shi = if w.from_idx <= w.to_idx { w.to_idx } else { w.from_idx };
            (if elo >= slo { elo } else { slo }) < (if ehi <= shi { ehi } else { shi })
        }),
    ensures
        ({
            let elo = if r.from_idx <= r.to_idx { r.from_idx } else { r.to_idx };
            let ehi = if r.from_idx <= r.to_idx { r.to_idx } else { r.from_idx };
            let slo = if w.from_idx <= w.to_idx { w.from_idx } else { w.to_idx };
            let shi = if w.from_idx <= w.to_idx { w.to_idx } else { w.from_idx };
            stretch_on_edge(r, w, d) == Some(((if elo >= slo { elo } else { slo }), (if ehi <= shi { ehi } else { shi })))
        }),
{
}

/// A stretch is found only where the edge and the span lie on the same
/// way and share two or more nodes.
pub proof fn a_stretch_needs_the_same_way_and_two_shared_nodes(r: WayRef, w: WaySpan, d: Direction)
    requires
        stretch_on_edge(r, w, d) is Some,
    ensures
        r.way_id == w.way_id,
        ({
            let elo = if r.from_idx <= r.to_idx { r.from_idx } else { r.to_idx };
            let ehi = if r.from_idx <= r.to_idx { r.to_idx } else { r.from_idx };
            let slo = if w.from_idx <= w.to_idx { w.from_idx } else { w.to_idx };
            let shi = if w.from_idx <= w.to_idx { w.to_idx } else { w.from_idx };
            (if elo >= slo { elo } else { slo }) < (if ehi <= shi { ehi } else { shi })
        }),
{
}

/// A one-way section whose span runs the same way as the edge favours
/// the same stretch of it as a two-way section over the same span.
pub proof fn a_one_way_section_along_the_edge_favours_as_a_two_way_one(r: WayRef, w: WaySpan)
    requires
        (w.to_idx > w.from_idx) == (r.to_idx > r.from_idx),
    ensures
        stretch_on_edge(r, w, Direction::Forward) == stretch_on_edge(r, w, Direction::Both),
{
}

/// A section rated one way only favours edges that run its way.
pub proof fn a_one_way_section_favours_only_its_direction(r: WayRef, w: WaySpan)
    requires
        stretch_on_edge(r, w, Direction::Forward) is Some,
    ensures
        (w.to_idx > w.from_idx) == (r.to_idx > r.from_idx),
{
}

/// A two-way section favours an edge and the edge running the other way
/// over the same nodes alike.
pub proof fn a_two_way_section_favours_both_directions(r: WayRef, w: WaySpan)
    ensures
        stretch_on_edge(r, w, Direction::Both) == stretch_on_edge(
            WayRef { from_idx: r.to_idx, to_idx: r.from_idx, ..r },
            w,
            Direction::Both,
        ),
{
}

} // verus!
