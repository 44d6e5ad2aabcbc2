use moto_core::overlap::{beats, covers, direction_covers, judge, Claim, Fit, Verdict};
use moto_core::section::{Direction, Rating};

use Direction::{Both, Forward};
use Rating::{Epic, Good, Great};

fn claim(rating: Rating, direction: Direction) -> Claim {
    Claim { rating, direction }
}

/// Lies along all of the other, the same way round.
const ALONG: Fit = Fit { along: true, in_order: true };
/// Lies along all of the other, which runs the other way.
const REVERSED: Fit = Fit { along: true, in_order: false };
/// Misses part of the other.
const APART: Fit = Fit { along: false, in_order: true };

/// A section along the road A–B (lat 55.7001) from longitude `from` to
/// `to`, in thousandths of a degree east of 13.2; a one-way section runs
/// from `from` to `to`.
#[derive(Clone, Copy)]
struct Along {
    from: i32,
    to: i32,
    rating: Rating,
    direction: Direction,
}

fn along(from_lon: f64, to_lon: f64, rating: Rating, direction: Direction) -> Along {
    let milli = |lon: f64| ((lon - 13.2) * 1000.0).round() as i32;
    Along { from: milli(from_lon), to: milli(to_lon), rating, direction }
}

/// How `a` lies over `b` on the one road: along all of it where `b`'s
/// stretch is within `a`'s, the same way round where both run the same way.
fn fit(a: Along, b: Along) -> Fit {
    let (alo, ahi) = (a.from.min(a.to), a.from.max(a.to));
    let (blo, bhi) = (b.from.min(b.to), b.from.max(b.to));
    Fit { along: alo <= blo && bhi <= ahi, in_order: (a.to >= a.from) == (b.to >= b.from) }
}

/// Saves `first` (id 1), then decides `second` under the overlap rules.
fn add_after(first: Along, second: Along) -> Verdict {
    let (a, b) = (claim(first.rating, first.direction), claim(second.rating, second.direction));
    let (len_a, len_b) = ((first.to - first.from).abs(), (second.to - second.from).abs());
    let saved_drops_new = beats(a, b, fit(first, second), fit(second, first), len_a >= len_b);
    let new_drops_saved = beats(b, a, fit(second, first), fit(first, second), len_b >= len_a);
    judge(&[1], &[saved_drops_new], &[new_drops_saved])
}

fn kept_both(v: Verdict) {
    assert_eq!(v, Verdict::Save { replaced: vec![] });
}

fn covered(v: Verdict) {
    assert_eq!(v, Verdict::Covered { by: 1 });
}

fn replaced(v: Verdict) {
    assert_eq!(v, Verdict::Save { replaced: vec![1] });
}

#[test]
fn opposite_one_ways_are_both_kept() {
    kept_both(add_after(along(13.201, 13.209, Epic, Forward), along(13.209, 13.201, Good, Forward)));
    // Even rated the same.
    kept_both(add_after(along(13.201, 13.209, Good, Forward), along(13.209, 13.201, Good, Forward)));
}

#[test]
fn a_one_way_rated_higher_than_a_two_way_is_kept() {
    kept_both(add_after(along(13.201, 13.209, Great, Both), along(13.201, 13.209, Epic, Forward)));
    // And the other way round: the two-way doesn't replace it.
    kept_both(add_after(along(13.201, 13.209, Epic, Forward), along(13.201, 13.209, Great, Both)));
}

#[test]
fn a_two_way_rated_as_high_makes_a_one_way_redundant() {
    covered(add_after(along(13.201, 13.209, Epic, Both), along(13.201, 13.209, Good, Forward)));
    replaced(add_after(along(13.201, 13.209, Great, Forward), along(13.201, 13.209, Great, Both)));
}

#[test]
fn a_short_stretch_rated_higher_inside_a_longer_one_is_kept() {
    kept_both(add_after(along(13.201, 13.209, Good, Both), along(13.203, 13.207, Epic, Both)));
    kept_both(add_after(along(13.203, 13.207, Epic, Both), along(13.201, 13.209, Good, Both)));
}

#[test]
fn the_longer_of_two_equal_sections_wins() {
    covered(add_after(along(13.201, 13.209, Great, Both), along(13.203, 13.207, Great, Both)));
    replaced(add_after(along(13.203, 13.207, Great, Both), along(13.201, 13.209, Great, Both)));
    // An exact duplicate is not saved again.
    covered(add_after(along(13.201, 13.209, Good, Both), along(13.201, 13.209, Good, Both)));
    // Rated higher over the same road, it replaces the old one.
    replaced(add_after(along(13.201, 13.209, Good, Both), along(13.201, 13.209, Epic, Both)));
}

#[test]
fn one_ways_cover_only_the_same_way() {
    covered(add_after(along(13.201, 13.209, Great, Forward), along(13.203, 13.207, Good, Forward)));
    kept_both(add_after(along(13.201, 13.209, Great, Forward), along(13.207, 13.203, Good, Forward)));
}

#[test]
fn partial_overlaps_are_both_kept() {
    kept_both(add_after(along(13.201, 13.207, Epic, Both), along(13.204, 13.215, Good, Both)));
}

#[test]
fn a_one_way_covers_only_a_one_way_the_same_way() {
    assert!(covers(claim(Great, Forward), claim(Good, Forward), ALONG));
    assert!(!covers(claim(Great, Forward), claim(Good, Forward), REVERSED));
    assert!(!covers(claim(Great, Forward), claim(Good, Both), ALONG));
    assert!(covers(claim(Great, Both), claim(Good, Forward), REVERSED));
}

#[test]
fn sections_that_overlap_in_part_are_both_kept() {
    let (a, b) = (claim(Epic, Both), claim(Good, Both));
    assert!(!beats(a, b, APART, APART, true));
    assert!(!beats(b, a, APART, APART, true));
}

#[test]
fn a_lower_rating_never_covers() {
    assert!(!covers(claim(Good, Both), claim(Great, Both), ALONG));
    assert!(covers(claim(Great, Both), claim(Great, Both), ALONG));
}

#[test]
fn direction_rule_in_full() {
    assert!(direction_covers(Both, Both, false));
    assert!(direction_covers(Both, Forward, false));
    assert!(!direction_covers(Forward, Both, true));
    assert!(direction_covers(Forward, Forward, true));
    assert!(!direction_covers(Forward, Forward, false));
}

#[test]
fn the_first_saved_section_that_drops_a_new_one_keeps_it_out() {
    let v = judge(&[7, 8, 9], &[false, true, true], &[true, false, false]);
    assert_eq!(v, Verdict::Covered { by: 8 });
}

#[test]
fn a_new_section_replaces_every_saved_one_it_drops() {
    let v = judge(&[7, 8, 9], &[false, false, false], &[true, false, true]);
    assert_eq!(v, Verdict::Save { replaced: vec![7, 9] });
    assert_eq!(judge(&[], &[], &[]), Verdict::Save { replaced: vec![] });
}
