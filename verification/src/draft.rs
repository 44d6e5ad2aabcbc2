//! Proposing a section from the map: the OSM way spans a path covers.
//!
//! A path is a run of pieces of region edges, in travel order. Shape
//! point `k` of an edge (in travel order) is way node `from_idx ± k` of
//! the edge's way ref. Which shape points a piece reaches is a question of
//! lengths along the edge, measured by the caller; this module turns them
//! into way node ranges, and joins pieces of one way that follow on from
//! each other into one span.

use vstd::prelude::*;
use crate::region::format::WayRef;
use crate::section::WaySpan;

verus! {

/// Way node of shape point `k` of an edge with way ref `r`: `from_idx ±
/// k`, kept within the ref's node range.
pub open spec fn node_at(r: WayRef, k: int) -> u32 {
    if r.to_idx >= r.from_idx {
        if r.from_idx + k <= r.to_idx {
            (r.from_idx + k) as u32
        } else {
            r.to_idx
        }
    } else {
        if r.from_idx - k >= r.to_idx {
            (r.from_idx - k) as u32
        } else {
            r.to_idx
        }
    }
}

/// A span runs along its way's node order (or is empty).
pub open spec fn ascends(s: WaySpan) -> bool {
    s.to_idx >= s.from_idx
}

/// `next` carries on where `prev` stops, on the same way, the same way
/// round.
pub open spec fn follows_on(prev: WaySpan, next: WaySpan) -> bool {
    &&& prev.way_id == next.way_id
    &&& prev.to_idx == next.from_idx
    &&& ascends(prev) == ascends(next)
}

/// The spans `ways` with `span` added at the end: joined onto the last
/// one where it follows on from it.
pub open spec fn joined(ways: Seq<WaySpan>, span: WaySpan) -> Seq<WaySpan> {
    if ways.len() > 0 && follows_on(ways.last(), span) {
        ways.drop_last().push(WaySpan { to_idx: span.to_idx, ..ways.last() })
    } else {
        ways.push(span)
    }
}

/// No span in `ways` is followed by one that carries on from it: every
/// span is as long as the path makes it.
pub open spec fn no_loose_ends(ways: Seq<WaySpan>) -> bool {
    forall|i: int| 0 <= i < ways.len() - 1 ==> !follows_on(#[trigger] ways[i], ways[i + 1])
}

/// A piece of a path: edge `edge`, from shape point `first` to shape point
/// `last` of it (in travel order, rounded outwards).
#[derive(Debug, Clone, Copy, PartialEq, Eq, Structural)]
pub struct Piece {
    pub edge: u32,
    pub first: usize,
    pub last: usize,
}

/// The way span a piece covers, if it covers any node range.
pub open spec fn piece_span(refs: Seq<WayRef>, p: Piece) -> Option<WaySpan> {
    if p.last <= p.first {
        None
    } else {
        let r = refs[p.edge as int];
        Some(WaySpan { way_id: r.way_id, from_idx: node_at(r, p.first as int), to_idx: node_at(r, p.last as int) })
    }
}

/// The way spans of the first pieces of a path.
pub open spec fn traced(refs: Seq<WayRef>, pieces: Seq<Piece>) -> Seq<WaySpan>
    decreases pieces.len(),
{
    if pieces.len() == 0 {
        Seq::empty()
    } else {
        let before = traced(refs, pieces.drop_last());
        match piece_span(refs, pieces.last()) {
            Some(span) => joined(before, span),
            None => before,
        }
    }
}

/// The way node of shape point `k` of an edge with way ref `r`.
pub fn way_node(r: &WayRef, k: usize) -> (n: u32)
    ensures
        n == node_at(*r, k as int),
{
    if r.to_idx >= r.from_idx {
        if k as u64 <= (r.to_idx - r.from_idx) as u64 {
            r.from_idx + k as u32
        } else {
            r.to_idx
        }
    } else {
        if k as u64 <= (r.from_idx - r.to_idx) as u64 {
            r.from_idx - k as u32
        } else {
            r.to_idx
        }
    }
}

/// Adds `span` at the end of `ways`, joining it onto the last span where
/// it follows on from it.
pub fn join_span(ways: &mut Vec<WaySpan>, span: WaySpan)
    ensures
        final(ways)@ == joined(old(ways)@, span),
{
    let n = ways.len();
    if n > 0 {
        let prev = ways[n - 1];
        if prev.way_id == span.way_id && prev.to_idx == span.from_idx
            && (prev.to_idx >= prev.from_idx) == (span.to_idx >= span.from_idx) {
            ways.set(n - 1, WaySpan { to_idx: span.to_idx, ..prev });
            proof {
                assert(final(ways)@ =~= joined(old(ways)@, span));
            }
            return;
        }
    }
    ways.push(span);
}

/// The OSM way spans of a path's pieces (in travel order), given the
/// region's way refs: empty pieces add nothing, and pieces of one way that
/// follow on from each other become one span.
pub fn trace_ways(refs: &[WayRef], pieces: &[Piece]) -> (ways: Vec<WaySpan>)
    requires
        forall|i: int| 0 <= i < pieces.len() ==> (#[trigger] pieces@[i]).edge < refs.len(),
    ensures
        ways@ == traced(refs@, pieces@),
        no_loose_ends(ways@),
{
    let mut ways: Vec<WaySpan> = Vec::new();
    let mut i: usize = 0;
    while i < pieces.len()
        invariant
            i <= pieces.len(),
            forall|t: int| 0 <= t < pieces.len() ==> (#[trigger] pieces@[t]).edge < refs.len(),
            ways@ == traced(refs@, pieces@.take(i as int)),
            no_loose_ends(ways@),
        decreases pieces.len() - i,
    {
        let p = pieces[i];
        proof {
            assert(pieces@.take(i as int + 1).drop_last() == pieces@.take(i as int));
            assert(pieces@.take(i as int + 1).last() == p);
        }
        if p.first < p.last {
            let r = &refs[p.edge as usize];
            let span = WaySpan { way_id: r.way_id, from_idx: way_node(r, p.first), to_idx: way_node(r, p.last) };
            proof {
                lemma_joined_keeps_ends_tied(ways@, span);
            }
            join_span(&mut ways, span);
        }
        i = i + 1;
    }
    proof {
        assert(pieces@.take(pieces.len() as int) == pieces@);
    }
    ways
}

/// Joining a span keeps every span as long as the path makes it.
pub proof fn lemma_joined_keeps_ends_tied(ways: Seq<WaySpan>, span: WaySpan)
    requires
        no_loose_ends(ways),
    ensures
        no_loose_ends(joined(ways, span)),
{
    let out = joined(ways, span);
    if ways.len() > 0 && follows_on(ways.last(), span) {
        let n = ways.len() as int;
        let prev = ways.last();
        let merged = WaySpan { to_idx: span.to_idx, ..prev };
        // The merged span starts where the last one did, the same way round.
        assert(ascends(merged) == ascends(prev));
        assert forall|i: int| 0 <= i < out.len() - 1 implies !follows_on(#[trigger] out[i], out[i + 1]) by {
            if i + 1 == n - 1 {
                assert(out[i] == ways[i]);
                assert(out[i + 1] == merged);
                assert(!follows_on(ways[i], ways[i + 1]));
            } else {
                assert(out[i] == ways[i]);
                assert(out[i + 1] == ways[i + 1]);
            }
        }
    } else {
        assert forall|i: int| 0 <= i < out.len() - 1 implies !follows_on(#[trigger] out[i], out[i + 1]) by {
            assert(out[i] == ways[i]);
            if i + 1 < ways.len() {
                assert(out[i + 1] == ways[i + 1]);
            }
        }
    }
}

/// Adding a span keeps the spans before the last one as they were, and
/// leaves a last span on the added span's way that ends where it ends.
/// Either the span is added as it is, or the last span is on the same way,
/// ends where the added one starts, runs the same way round, and is
/// stretched to end where the added one ends; the latter whenever the
/// last span is such a span.
pub proof fn joining_keeps_each_way_apart(ways: Seq<WaySpan>, span: WaySpan)
    ensures
        ways.len() > 0 && ways.last().way_id == span.way_id && ways.last().to_idx == span.from_idx
            && (ways.last().to_idx >= ways.last().from_idx) == (span.to_idx >= span.from_idx) ==> joined(ways, span)
            == ways.drop_last().push(
            WaySpan { way_id: span.way_id, from_idx: ways.last().from_idx, to_idx: span.to_idx },
        ),
        joined(ways, span).last().way_id == span.way_id,
        joined(ways, span).last().to_idx == span.to_idx,
        joined(ways, span) == ways.push(span) || ({
            &&& ways.len() > 0
            &&& ways.last().way_id == span.way_id
            &&& ways.last().to_idx == span.from_idx
            &&& (ways.last().to_idx >= ways.last().from_idx) == (span.to_idx >= span.from_idx)
            &&& joined(ways, span) == ways.drop_last().push(
                WaySpan { way_id: span.way_id, from_idx: ways.last().from_idx, to_idx: span.to_idx },
            )
        }),
{
}

/// Every span a path is traced into lies on the way of the edge of one of
/// the path's pieces that covers a node range.
pub proof fn traced_spans_come_from_the_pieces(refs: Seq<WayRef>, pieces: Seq<Piece>)
    ensures
        forall|i: int| 0 <= i < traced(refs, pieces).len() ==> exists|k: int| #![trigger pieces[k]]
            0 <= k < pieces.len() && pieces[k].first < pieces[k].last
                && refs[pieces[k].edge as int].way_id == (#[trigger] traced(refs, pieces)[i]).way_id,
    decreases pieces.len(),
{
    if pieces.len() > 0 {
        let rest = pieces.drop_last();
        traced_spans_come_from_the_pieces(refs, rest);
        let before = traced(refs, rest);
        let out = traced(refs, pieces);
        let n = pieces.len() - 1;
        match piece_span(refs, pieces.last()) {
            Some(span) => assert(out == joined(before, span)),
            None => assert(out == before),
        }
        assert forall|i: int| 0 <= i < out.len() implies exists|k: int| #![trigger pieces[k]]
            0 <= k < pieces.len() && pieces[k].first < pieces[k].last
                && refs[pieces[k].edge as int].way_id == (#[trigger] out[i]).way_id by {
            match piece_span(refs, pieces.last()) {
                Some(span) => {
                    joining_keeps_each_way_apart(before, span);
                    if i == out.len() - 1 {
                        assert(pieces[n] == pieces.last());
                        assert(out[i].way_id == span.way_id);
                    } else {
                        assert(out[i] == before[i]);
                        let k = choose|k: int| #![trigger rest[k]]
                            0 <= k < rest.len() && rest[k].first < rest[k].last
                                && refs[rest[k].edge as int].way_id == before[i].way_id;
                        assert(pieces[k] == rest[k]);
                    }
                },
                None => {
                    let k = choose|k: int| #![trigger rest[k]]
                        0 <= k < rest.len() && rest[k].first < rest[k].last
                            && refs[rest[k].edge as int].way_id == before[i].way_id;
                    assert(pieces[k] == rest[k]);
                },
            }
        }
    }
}

/// Shape point `k` of an edge lies on its way `k` nodes on from the
/// edge's first node, in the edge's direction, and never past its last
/// node; a piece's span runs between the nodes of its first and last
/// shape points, on the edge's way.
pub proof fn pieces_map_onto_their_edges_nodes(refs: Seq<WayRef>, p: Piece, k: int)
    requires
        0 <= k,
    ensures
        ({
            let r = refs[p.edge as int];
            let n = node_at(r, k);
            let len = if r.to_idx >= r.from_idx { r.to_idx - r.from_idx } else { r.from_idx - r.to_idx };
            &&& k <= len && r.to_idx >= r.from_idx ==> n == r.from_idx + k
            &&& k <= len && r.to_idx < r.from_idx ==> n == r.from_idx - k
            &&& k > len ==> n == r.to_idx
        }),
        p.first < p.last ==> piece_span(refs, p) == Some(
            WaySpan {
                way_id: refs[p.edge as int].way_id,
                from_idx: node_at(refs[p.edge as int], p.first as int),
                to_idx: node_at(refs[p.edge as int], p.last as int),
            },
        ),
        p.last <= p.first ==> piece_span(refs, p) is None,
{
}

} // verus!
