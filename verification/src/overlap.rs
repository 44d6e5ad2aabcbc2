//! When one section makes another redundant (imports and new sections).
//!
//! A section is dropped only when another one says at least as much about
//! the same road: it covers it, applies in every direction the other does
//! (a two-way section covers either one-way; a one-way section only a
//! one-way in the same direction), and is rated at least as high.
//! Otherwise both are kept: opposite one-ways, a one-way rated higher than
//! a two-way over it, or a short stretch rated higher inside a longer one
//! all carry information.
//!
//! Whether one section lies along another, and which way round, is a
//! question of distances in metres; the caller measures it and hands it
//! in as a [`Fit`].

use vstd::prelude::*;
use crate::section::{rating_code, Direction, Rating};

verus! {

/// How a section lies over another, as measured on their geometry.
#[derive(Debug, Clone, Copy, PartialEq, Eq, Structural)]
pub struct Fit {
    /// Every point of the other section lies within the tolerance of this
    /// one.
    pub along: bool,
    /// The other section starts no later along this one than it ends.
    pub in_order: bool,
}

/// What a section says about its road, as the overlap rules see it.
#[derive(Debug, Clone, Copy, PartialEq, Eq, Structural)]
pub struct Claim {
    pub rating: Rating,
    pub direction: Direction,
}

/// A section good in direction `a` holds wherever one good in direction
/// `b` does; `in_order` says whether `b`'s geometry runs the same way as
/// `a`'s.
pub open spec fn holds_wherever(a: Direction, b: Direction, in_order: bool) -> bool {
    match a {
        Direction::Both => true,
        Direction::Forward => b == Direction::Forward && in_order,
    }
}

/// Section `a` says everything `b` does: it lies along all of `b`, in
/// every direction `b` applies to, rated at least as high.
pub open spec fn says_all(a: Claim, b: Claim, fit: Fit) -> bool {
    &&& rating_code(a.rating) >= rating_code(b.rating)
    &&& fit.along
    &&& holds_wherever(a.direction, b.direction, fit.in_order)
}

/// `a` makes `b` redundant: it says all `b` does, and where each says all
/// the other does, `a` is at least as long.
pub open spec fn makes_redundant(a_covers_b: bool, b_covers_a: bool, a_no_shorter: bool) -> bool {
    a_covers_b && (a_no_shorter || !b_covers_a)
}

/// Whether a section good in direction `a` applies in every direction one
/// good in direction `b` does.
pub fn direction_covers(a: Direction, b: Direction, in_order: bool) -> (r: bool)
    ensures
        r == holds_wherever(a, b, in_order),
{
    match (a, b) {
        (Direction::Both, _) => true,
        (Direction::Forward, Direction::Both) => false,
        (Direction::Forward, Direction::Forward) => in_order,
    }
}

/// Whether section `a`, lying over `b` as `fit` says, says everything `b`
/// does.
pub fn covers(a: Claim, b: Claim, fit: Fit) -> (r: bool)
    ensures
        r == says_all(a, b, fit),
{
    if a.rating.to_i64() < b.rating.to_i64() || !fit.along {
        return false;
    }
    direction_covers(a.direction, b.direction, fit.in_order)
}

/// Whether section `a` makes `b` redundant: it covers `b`, and if they
/// cover each other (the same road, direction and rating, give or take
/// the tolerance) it is at least as long. `a_over_b` is how `a` lies over
/// `b`, `b_over_a` the other way round.
pub fn beats(a: Claim, b: Claim, a_over_b: Fit, b_over_a: Fit, a_no_shorter: bool) -> (r: bool)
    ensures
        r == makes_redundant(says_all(a, b, a_over_b), says_all(b, a, b_over_a), a_no_shorter),
{
    covers(a, b, a_over_b) && (a_no_shorter || !covers(b, a, b_over_a))
}

/// A section is dropped only for one rated at least as high that holds in
/// every direction it does: a one-way never drops a two-way, and a one-way
/// drops only a one-way.
pub proof fn only_a_section_that_says_more_drops_another(
    a: Claim,
    b: Claim,
    a_over_b: Fit,
    b_over_a: Fit,
    a_no_shorter: bool,
)
    requires
        makes_redundant(says_all(a, b, a_over_b), says_all(b, a, b_over_a), a_no_shorter),
    ensures
        rating_code(a.rating) >= rating_code(b.rating),
        a_over_b.along,
        b.direction == Direction::Both ==> a.direction == Direction::Both,
        a.direction == Direction::Forward ==> b.direction == Direction::Forward,
{
}

/// Of two sections that each say everything the other does, the shorter
/// never makes the longer redundant, while the one at least as long makes
/// the other redundant.
pub proof fn of_two_equal_sections_the_longer_wins(a: Claim, b: Claim, a_over_b: Fit, b_over_a: Fit, a_no_shorter: bool)
    requires
        says_all(a, b, a_over_b),
        says_all(b, a, b_over_a),
    ensures
        !a_no_shorter ==> !makes_redundant(says_all(a, b, a_over_b), says_all(b, a, b_over_a), a_no_shorter),
        a_no_shorter ==> makes_redundant(says_all(a, b, a_over_b), says_all(b, a, b_over_a), a_no_shorter),
{
}

/// A section that says everything another does, where the other does not
/// say everything it does, makes the other redundant whatever their
/// lengths; one that does not say everything the other does never does.
pub proof fn a_section_saying_more_drops_the_other_whatever_its_length(
    a: Claim,
    b: Claim,
    a_over_b: Fit,
    b_over_a: Fit,
    a_no_shorter: bool,
)
    ensures
        says_all(a, b, a_over_b) && !says_all(b, a, b_over_a) ==> makes_redundant(
            says_all(a, b, a_over_b),
            says_all(b, a, b_over_a),
            a_no_shorter,
        ),
        !says_all(a, b, a_over_b) ==> !makes_redundant(says_all(a, b, a_over_b), says_all(b, a, b_over_a), a_no_shorter),
{
}

/// Two one-way sections over the same road in opposite directions are
/// both kept, whatever their ratings and lengths.
pub proof fn opposite_one_ways_never_drop_each_other(
    a: Claim,
    b: Claim,
    a_over_b: Fit,
    b_over_a: Fit,
    a_no_shorter: bool,
    b_no_shorter: bool,
)
    requires
        a.direction == Direction::Forward,
        b.direction == Direction::Forward,
        !a_over_b.in_order,
        !b_over_a.in_order,
    ensures
        !makes_redundant(says_all(a, b, a_over_b), says_all(b, a, b_over_a), a_no_shorter),
        !makes_redundant(says_all(b, a, b_over_a), says_all(a, b, a_over_b), b_no_shorter),
{
}

/// A one-way section rated higher than a two-way one over the same road,
/// and the two-way one, are both kept.
pub proof fn a_higher_one_way_and_a_two_way_never_drop_each_other(
    one_way: Claim,
    two_way: Claim,
    one_over_two: Fit,
    two_over_one: Fit,
    one_no_shorter: bool,
    two_no_shorter: bool,
)
    requires
        one_way.direction == Direction::Forward,
        two_way.direction == Direction::Both,
        rating_code(one_way.rating) > rating_code(two_way.rating),
    ensures
        !makes_redundant(
            says_all(one_way, two_way, one_over_two),
            says_all(two_way, one_way, two_over_one),
            one_no_shorter,
        ),
        !makes_redundant(
            says_all(two_way, one_way, two_over_one),
            says_all(one_way, two_way, one_over_two),
            two_no_shorter,
        ),
{
}

/// A stretch rated higher that lies inside a longer section without
/// covering all of it, and the longer section, are both kept.
pub proof fn a_higher_stretch_inside_another_is_kept_with_it(
    inner: Claim,
    outer: Claim,
    inner_over_outer: Fit,
    outer_over_inner: Fit,
    inner_no_shorter: bool,
    outer_no_shorter: bool,
)
    requires
        rating_code(inner.rating) > rating_code(outer.rating),
        !inner_over_outer.along,
    ensures
        !makes_redundant(
            says_all(inner, outer, inner_over_outer),
            says_all(outer, inner, outer_over_inner),
            inner_no_shorter,
        ),
        !makes_redundant(
            says_all(outer, inner, outer_over_inner),
            says_all(inner, outer, inner_over_outer),
            outer_no_shorter,
        ),
{
}

/// Two sections that overlap only in part, neither lying along all of the
/// other, are both kept.
pub proof fn partial_overlaps_never_drop_each_other(
    a: Claim,
    b: Claim,
    a_over_b: Fit,
    b_over_a: Fit,
    a_no_shorter: bool,
    b_no_shorter: bool,
)
    requires
        !a_over_b.along,
        !b_over_a.along,
    ensures
        !makes_redundant(says_all(a, b, a_over_b), says_all(b, a, b_over_a), a_no_shorter),
        !makes_redundant(says_all(b, a, b_over_a), says_all(a, b, a_over_b), b_no_shorter),
{
}

/// What saving a new section under the overlap rules comes to.
#[derive(Debug, Clone, PartialEq, Eq)]
pub enum Verdict {
    /// Not saved: the saved section `by` already says as much.
    Covered { by: i64 },
    /// Saved, removing the saved sections `replaced` (in the same
    /// transaction).
    Save { replaced: Vec<i64> },
}

/// The ids of `ids` whose mark is set, in order.
pub open spec fn marked_ids(ids: Seq<i64>, marks: Seq<bool>) -> Seq<i64>
    decreases ids.len(),
{
    if ids.len() == 0 {
        Seq::empty()
    } else {
        let rest = marked_ids(ids.drop_last(), marks);
        if marks[ids.len() - 1] {
            rest.push(ids.last())
        } else {
            rest
        }
    }
}

/// Decides a new section against the saved ones `ids`: `beaten_by[i]`
/// says whether saved section `i` makes the new one redundant, `drops[i]`
/// whether the new one makes saved section `i` redundant. The first saved
/// section that makes it redundant keeps it out; otherwise it is saved,
/// replacing every saved section it makes redundant.
pub fn judge(ids: &[i64], beaten_by: &[bool], drops: &[bool]) -> (r: Verdict)
    requires
        beaten_by.len() == ids.len(),
        drops.len() == ids.len(),
    ensures
        r is Covered <==> exists|i: int| 0 <= i < ids.len() && beaten_by@[i],
        r matches Verdict::Covered { by } ==> exists|i: int|
            0 <= i < ids.len() && beaten_by@[i] && by == ids@[i] && forall|j: int|
                0 <= j < i ==> !beaten_by@[j],
        r matches Verdict::Save { replaced } ==> replaced@ == marked_ids(ids@, drops@),
{
    let mut i: usize = 0;
    while i < ids.len()
        invariant
            i <= ids.len(),
            beaten_by.len() == ids.len(),
            forall|j: int| 0 <= j < i ==> !beaten_by@[j],
        decreases ids.len() - i,
    {
        if beaten_by[i] {
            return Verdict::Covered { by: ids[i] };
        }
        i = i + 1;
    }
    let mut replaced: Vec<i64> = Vec::new();
    let mut k: usize = 0;
    while k < ids.len()
        invariant
            k <= ids.len(),
            drops.len() == ids.len(),
            replaced@ == marked_ids(ids@.take(k as int), drops@),
        decreases ids.len() - k,
    {
        proof {
            assert(ids@.take(k as int + 1).drop_last() == ids@.take(k as int));
        }
        if drops[k] {
            replaced.push(ids[k]);
        }
        k = k + 1;
    }
    proof {
        assert(ids@.take(ids.len() as int) == ids@);
    }
    Verdict::Save { replaced }
}

} // verus!
