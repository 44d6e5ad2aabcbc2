//! The overlap rules of an import, applied to one imported section at a
//! time so that the file's own duplicates are handled too.
//!
//! Shapes are numbered: the saved sections first (`0..s`), then the
//! imported ones (`s + j` for import `j`). Whether one shape covers another
//! and which is longer is geometry, worked out by the caller and handed in
//! row by row: row `j` says, for every shape before import `j`, whether it
//! covers import `j` and whether import `j` replaces it (covers it and is
//! at least as long).

use vstd::prelude::*;

verus! {

/// What an import does, before touching the store.
#[derive(Debug, PartialEq, Default)]
pub struct Plan {
    /// Imported sections to add (indices into the import), ascending.
    pub add: Vec<usize>,
    /// Saved sections the import replaces.
    pub remove: Vec<i64>,
    /// Imported sections skipped as already covered.
    pub skipped: u64,
}

/// Ascending and without repeats.
pub open spec fn ascending(s: Seq<usize>) -> bool {
    forall|i: int, j: int| 0 <= i < j < s.len() ==> #[trigger] s[i] < #[trigger] s[j]
}

/// The shapes, offset by `base`, for which `row` is false.
pub open spec fn unmarked(row: Seq<bool>, base: int) -> spec_fn(usize) -> bool {
    |x: usize| !row[base + x]
}

/// The shapes, offset by `base`, for which `row` is true.
pub open spec fn marked(row: Seq<bool>, base: int) -> spec_fn(usize) -> bool {
    |x: usize| row[base + x]
}

/// A saved section still kept or an import accepted so far covers
/// import `j`.
pub open spec fn is_covered(row: Seq<bool>, s: int, kept: Seq<usize>, accepted: Seq<usize>) -> bool {
    ||| exists|t: int| 0 <= t < kept.len() && row[kept[t] as int]
    ||| exists|t: int| 0 <= t < accepted.len() && row[s + accepted[t]]
}

/// The plan after deciding the first `k` imports of a file checked
/// against `s` saved sections: the saved sections kept, the imports
/// accepted, the saved sections removed, and the imports skipped.
pub open spec fn plan_after(
    s: int,
    covered: Seq<Vec<bool>>,
    replaces: Seq<Vec<bool>>,
    k: int,
) -> (Seq<usize>, Seq<usize>, Seq<usize>, int)
    decreases k,
{
    if k <= 0 {
        (Seq::new(s as nat, |o: int| o as usize), Seq::empty(), Seq::empty(), 0)
    } else {
        let prev = plan_after(s, covered, replaces, k - 1);
        let j = k - 1;
        if is_covered(covered[j]@, s, prev.0, prev.1) {
            (prev.0, prev.1, prev.2, prev.3 + 1)
        } else {
            let row = replaces[j]@;
            let stay = prev.1.filter(unmarked(row, s));
            (
                prev.0.filter(unmarked(row, 0)),
                stay.push(j as usize),
                prev.2 + prev.0.filter(marked(row, 0)),
                prev.3 + (prev.1.len() - stay.len()),
            )
        }
    }
}

/// The rows fit the shapes before each import.
pub open spec fn rows_fit(s: int, covered: Seq<Vec<bool>>, replaces: Seq<Vec<bool>>) -> bool {
    &&& covered.len() == replaces.len()
    &&& forall|j: int| 0 <= j < covered.len() ==> (#[trigger] covered[j])@.len() == s + j
    &&& forall|j: int| 0 <= j < replaces.len() ==> (#[trigger] replaces[j])@.len() == s + j
}

/// One step of a filter over a prefix.
proof fn lemma_filter_step(v: Seq<usize>, f: spec_fn(usize) -> bool, t: int)
    requires
        0 <= t < v.len(),
    ensures
        v.take(t + 1).filter(f) == (if f(v[t]) { v.take(t).filter(f).push(v[t]) } else { v.take(t).filter(f) }),
{
    reveal(Seq::filter);
    assert(v.take(t + 1).drop_last() =~= v.take(t));
}

/// Filtering keeps an ascending sequence ascending, and keeps only its
/// elements that pass.
proof fn lemma_filter_ascending(v: Seq<usize>, f: spec_fn(usize) -> bool)
    requires
        ascending(v),
    ensures
        ascending(v.filter(f)),
        forall|x: usize| #[trigger] v.filter(f).contains(x) <==> v.contains(x) && f(x),
    decreases v.len(),
{
    reveal(Seq::filter);
    if v.len() > 0 {
        let rest = v.drop_last();
        assert(ascending(rest));
        lemma_filter_ascending(rest, f);
        let r = rest.filter(f);
        assert forall|x: usize| #[trigger] v.filter(f).contains(x) <==> v.contains(x) && f(x) by {
            if v.contains(x) && f(x) {
                let i = choose|i: int| 0 <= i < v.len() && v[i] == x;
                if i < v.len() - 1 {
                    assert(rest[i] == x);
                    assert(rest.contains(x));
                }
            }
            if v.filter(f).contains(x) {
                if x != v.last() || !f(v.last()) {
                    assert(r.contains(x));
                    let i = choose|i: int| 0 <= i < rest.len() && rest[i] == x;
                    assert(v[i] == x);
                }
            }
        }
        if f(v.last()) {
            assert forall|i: int, j: int| 0 <= i < j < r.len() + 1 implies #[trigger] r.push(v.last())[i]
                < #[trigger] r.push(v.last())[j] by {
                if j == r.len() {
                    assert(r.contains(r[i]));
                    let k = choose|k: int| 0 <= k < rest.len() && rest[k] == r[i];
                    assert(v[k] == r[i]);
                }
            }
        }
    }
}

/// What the plan after `k` imports always holds: kept and removed saved
/// sections are distinct and apart, accepted imports ascend, and every
/// import decided so far was either accepted or skipped.
pub proof fn lemma_plan_shape(s: int, covered: Seq<Vec<bool>>, replaces: Seq<Vec<bool>>, k: int)
    requires
        s >= 0,
        0 <= k <= covered.len(),
        s <= usize::MAX,
        k <= usize::MAX,
        rows_fit(s, covered, replaces),
    ensures
        ({
            let p = plan_after(s, covered, replaces, k);
            &&& ascending(p.0)
            &&& forall|t: int| 0 <= t < p.0.len() ==> #[trigger] p.0[t] < s
            &&& ascending(p.1)
            &&& forall|t: int| 0 <= t < p.1.len() ==> #[trigger] p.1[t] < k
            &&& forall|t: int| 0 <= t < p.2.len() ==> #[trigger] p.2[t] < s
            &&& forall|a: int, b: int| 0 <= a < b < p.2.len() ==> #[trigger] p.2[a] != #[trigger] p.2[b]
            &&& forall|a: int, b: int| 0 <= a < p.0.len() && 0 <= b < p.2.len() ==> #[trigger] p.0[a] != #[trigger] p.2[b]
            &&& p.3 + p.1.len() == k
        }),
    decreases k,
{
    if k == 0 {
        let p = plan_after(s, covered, replaces, k);
        assert forall|i: int, j: int| 0 <= i < j < p.0.len() implies #[trigger] p.0[i] < #[trigger] p.0[j] by {}
    } else {
        lemma_plan_shape(s, covered, replaces, k - 1);
        let prev = plan_after(s, covered, replaces, k - 1);
        let j = k - 1;
        if !is_covered(covered[j]@, s, prev.0, prev.1) {
            let row = replaces[j]@;
            let kept = prev.0.filter(unmarked(row, 0));
            let gone = prev.0.filter(marked(row, 0));
            let stay = prev.1.filter(unmarked(row, s));
            lemma_filter_ascending(prev.0, unmarked(row, 0));
            lemma_filter_ascending(prev.0, marked(row, 0));
            lemma_filter_ascending(prev.1, unmarked(row, s));
            let p = plan_after(s, covered, replaces, k);
            assert(p.0 == kept && p.2 == prev.2 + gone);
            assert forall|t: int| 0 <= t < kept.len() implies #[trigger] kept[t] < s by {
                assert(kept.contains(kept[t]));
                let i = choose|i: int| 0 <= i < prev.0.len() && prev.0[i] == kept[t];
            }
            assert forall|t: int| 0 <= t < gone.len() implies #[trigger] gone[t] < s by {
                assert(gone.contains(gone[t]));
                let i = choose|i: int| 0 <= i < prev.0.len() && prev.0[i] == gone[t];
            }
            assert forall|t: int| 0 <= t < stay.push(j as usize).len() implies #[trigger] stay.push(j as usize)[t] < k by {
                if t < stay.len() {
                    assert(stay.contains(stay[t]));
                    let i = choose|i: int| 0 <= i < prev.1.len() && prev.1[i] == stay[t];
                }
            }
            assert(ascending(stay.push(j as usize))) by {
                assert forall|a: int, b: int| 0 <= a < b < stay.len() + 1 implies #[trigger] stay.push(j as usize)[a]
                    < #[trigger] stay.push(j as usize)[b] by {
                    if b == stay.len() {
                        assert(stay.contains(stay[a]));
                        let i = choose|i: int| 0 <= i < prev.1.len() && prev.1[i] == stay[a];
                    }
                }
            }
            assert forall|t: int| 0 <= t < p.2.len() implies #[trigger] p.2[t] < s by {
                if t >= prev.2.len() {
                    assert(p.2[t] == gone[t - prev.2.len()]);
                }
            }
            assert forall|a: int, b: int| 0 <= a < b < p.2.len() implies #[trigger] p.2[a] != #[trigger] p.2[b] by {
                if b >= prev.2.len() {
                    let x = gone[b - prev.2.len()];
                    assert(gone.contains(x));
                    let i = choose|i: int| 0 <= i < prev.0.len() && prev.0[i] == x;
                    if a < prev.2.len() {
                        assert(prev.0[i] != prev.2[a]);
                    } else {
                        assert(gone[a - prev.2.len()] < gone[b - prev.2.len()]);
                    }
                }
            }
            assert forall|a: int, b: int| 0 <= a < p.0.len() && 0 <= b < p.2.len() implies #[trigger] p.0[a]
                != #[trigger] p.2[b] by {
                let x = kept[a];
                assert(kept.contains(x));
                let i = choose|i: int| 0 <= i < prev.0.len() && prev.0[i] == x;
                if b < prev.2.len() {
                    assert(prev.0[i] != prev.2[b]);
                } else {
                    let y = gone[b - prev.2.len()];
                    assert(gone.contains(y));
                    assert(unmarked(row, 0)(x));
                    assert(marked(row, 0)(y));
                }
            }
        }
    }
}

/// Every import is covered by one of the `s` saved sections.
pub open spec fn all_covered_by_saved(s: int, covered: Seq<Vec<bool>>) -> bool {
    forall|j: int| 0 <= j < covered.len() ==> exists|o: int| 0 <= o < s && (#[trigger] covered[j])@[o]
}

/// Importing a file whose every section is covered by one of the saved
/// sections (as when the same file is imported again) changes nothing:
/// every import is skipped, no saved section is removed and none is added.
pub proof fn reimport_changes_nothing(s: int, covered: Seq<Vec<bool>>, replaces: Seq<Vec<bool>>, k: int)
    requires
        s >= 0,
        0 <= k <= covered.len(),
        s <= usize::MAX,
        rows_fit(s, covered, replaces),
        all_covered_by_saved(s, covered),
    ensures
        plan_after(s, covered, replaces, k).0 == Seq::new(s as nat, |o: int| o as usize),
        plan_after(s, covered, replaces, k).1.len() == 0,
        plan_after(s, covered, replaces, k).2.len() == 0,
        plan_after(s, covered, replaces, k).3 == k,
    decreases k,
{
    if k > 0 {
        reimport_changes_nothing(s, covered, replaces, k - 1);
        let prev = plan_after(s, covered, replaces, k - 1);
        let j = k - 1;
        let row = covered[j];
        assert(exists|o: int| 0 <= o < s && row@[o]);
        let o = choose|o: int| 0 <= o < s && row@[o];
        assert(prev.0[o] == o as usize);
        assert(is_covered(covered[j]@, s, prev.0, prev.1));
    }
}

/// An import accepted by the end stays accepted from its own turn on, and
/// a saved section kept by the end was kept all along.
proof fn lemma_plan_persists(s: int, covered: Seq<Vec<bool>>, replaces: Seq<Vec<bool>>, x: int, k1: int, k2: int)
    requires
        s >= 0,
        s <= usize::MAX,
        covered.len() <= usize::MAX,
        rows_fit(s, covered, replaces),
        0 <= k1 <= k2 <= covered.len(),
        0 <= x <= usize::MAX,
    ensures
        x < k1 && plan_after(s, covered, replaces, k2).1.contains(x as usize) ==> plan_after(
            s,
            covered,
            replaces,
            k1,
        ).1.contains(x as usize),
        plan_after(s, covered, replaces, k2).0.contains(x as usize) ==> plan_after(s, covered, replaces, k1).0.contains(
            x as usize,
        ),
    decreases k2 - k1,
{
    if k2 > k1 {
        lemma_plan_persists(s, covered, replaces, x, k1, k2 - 1);
        lemma_plan_shape(s, covered, replaces, k2 - 1);
        let prev = plan_after(s, covered, replaces, k2 - 1);
        let j = k2 - 1;
        if !is_covered(covered[j]@, s, prev.0, prev.1) {
            let row = replaces[j]@;
            let stay = prev.1.filter(unmarked(row, s));
            lemma_filter_ascending(prev.0, unmarked(row, 0));
            lemma_filter_ascending(prev.1, unmarked(row, s));
            let now = plan_after(s, covered, replaces, k2);
            assert(now.1 == stay.push(j as usize));
            if x < k1 && now.1.contains(x as usize) {
                let t = choose|t: int| 0 <= t < now.1.len() && now.1[t] == x as usize;
                if t < stay.len() {
                    assert(stay[t] == now.1[t]);
                    assert(stay.contains(x as usize));
                } else {
                    assert(now.1[t] == j as usize);
                    assert(false);
                }
            }
        }
    }
}

/// An import that, when its turn comes, is covered by an import accepted
/// before it (and still accepted) is not added.
pub proof fn an_import_covered_by_an_accepted_one_is_skipped(
    s: int,
    covered: Seq<Vec<bool>>,
    replaces: Seq<Vec<bool>>,
    j: int,
    t: int,
)
    requires
        s >= 0,
        s <= usize::MAX,
        covered.len() <= usize::MAX,
        rows_fit(s, covered, replaces),
        0 <= j < covered.len(),
        0 <= t < plan_after(s, covered, replaces, j).1.len(),
        covered[j]@[s + plan_after(s, covered, replaces, j).1[t]],
    ensures
        !plan_after(s, covered, replaces, covered.len() as int).1.contains(j as usize),
{
    let prev = plan_after(s, covered, replaces, j);
    assert(is_covered(covered[j]@, s, prev.0, prev.1));
    lemma_skipped_stays_out(s, covered, replaces, j);
}

/// An import that, when its turn comes, is covered by a saved section
/// still kept is not added.
pub proof fn an_import_covered_by_a_kept_saved_section_is_skipped(
    s: int,
    covered: Seq<Vec<bool>>,
    replaces: Seq<Vec<bool>>,
    j: int,
    t: int,
)
    requires
        s >= 0,
        s <= usize::MAX,
        covered.len() <= usize::MAX,
        rows_fit(s, covered, replaces),
        0 <= j < covered.len(),
        0 <= t < plan_after(s, covered, replaces, j).0.len(),
        covered[j]@[plan_after(s, covered, replaces, j).0[t] as int],
    ensures
        !plan_after(s, covered, replaces, covered.len() as int).1.contains(j as usize),
{
    let prev = plan_after(s, covered, replaces, j);
    assert(is_covered(covered[j]@, s, prev.0, prev.1));
    lemma_skipped_stays_out(s, covered, replaces, j);
}

/// An import skipped at its turn is never added.
proof fn lemma_skipped_stays_out(s: int, covered: Seq<Vec<bool>>, replaces: Seq<Vec<bool>>, j: int)
    requires
        s >= 0,
        s <= usize::MAX,
        covered.len() <= usize::MAX,
        rows_fit(s, covered, replaces),
        0 <= j < covered.len(),
        is_covered(covered[j]@, s, plan_after(s, covered, replaces, j).0, plan_after(s, covered, replaces, j).1),
    ensures
        !plan_after(s, covered, replaces, covered.len() as int).1.contains(j as usize),
{
    lemma_plan_shape(s, covered, replaces, j);
    let next = plan_after(s, covered, replaces, j + 1);
    assert(next.1 == plan_after(s, covered, replaces, j).1);
    if next.1.contains(j as usize) {
        let t = choose|t: int| 0 <= t < next.1.len() && next.1[t] == j as usize;
        assert(next.1[t] < j);
    }
    lemma_plan_persists(s, covered, replaces, j, j + 1, covered.len() as int);
}

/// Of the imports a plan adds, none is covered by one added before it or
/// by a saved section the plan keeps.
pub proof fn no_added_import_is_covered_by_what_the_plan_keeps(
    s: int,
    covered: Seq<Vec<bool>>,
    replaces: Seq<Vec<bool>>,
    i: int,
    j: int,
)
    requires
        s >= 0,
        s <= usize::MAX,
        covered.len() <= usize::MAX,
        rows_fit(s, covered, replaces),
        0 <= j < covered.len(),
        plan_after(s, covered, replaces, covered.len() as int).1.contains(j as usize),
    ensures
        0 <= i < j && plan_after(s, covered, replaces, covered.len() as int).1.contains(i as usize) ==> !covered[j]@[s
            + i],
        0 <= i < s && plan_after(s, covered, replaces, covered.len() as int).0.contains(i as usize) ==> !covered[j]@[i],
{
    let n = covered.len() as int;
    if 0 <= i < j || 0 <= i < s {
        lemma_plan_persists(s, covered, replaces, i, j, n);
    }
    lemma_plan_shape(s, covered, replaces, j);
    let prev = plan_after(s, covered, replaces, j);
    if is_covered(covered[j]@, s, prev.0, prev.1) {
        lemma_skipped_stays_out(s, covered, replaces, j);
    }
    if 0 <= i < j && plan_after(s, covered, replaces, n).1.contains(i as usize) {
        let t = choose|t: int| 0 <= t < prev.1.len() && prev.1[t] == i as usize;
        assert(!row_at(covered[j]@, s + prev.1[t]));
    }
    if 0 <= i < s && plan_after(s, covered, replaces, n).0.contains(i as usize) {
        let t = choose|t: int| 0 <= t < prev.0.len() && prev.0[t] == i as usize;
        assert(!row_at(covered[j]@, prev.0[t] as int));
    }
}

/// Removed saved sections stay removed.
proof fn lemma_removed_persist(s: int, covered: Seq<Vec<bool>>, replaces: Seq<Vec<bool>>, x: usize, k1: int, k2: int)
    requires
        0 <= k1 <= k2 <= covered.len(),
        plan_after(s, covered, replaces, k1).2.contains(x),
    ensures
        plan_after(s, covered, replaces, k2).2.contains(x),
    decreases k2 - k1,
{
    if k2 > k1 {
        lemma_removed_persist(s, covered, replaces, x, k1, k2 - 1);
        let prev = plan_after(s, covered, replaces, k2 - 1);
        let j = k2 - 1;
        if !is_covered(covered[j]@, s, prev.0, prev.1) {
            let gone = prev.0.filter(marked(replaces[j]@, 0));
            let t = choose|t: int| 0 <= t < prev.2.len() && prev.2[t] == x;
            assert((prev.2 + gone)[t] == x);
        }
    }
}

/// An import the plan adds removes every saved section it replaces that
/// was still kept when its turn came, and every import accepted before it
/// that it replaces is not added.
pub proof fn an_added_import_removes_what_it_replaces(
    s: int,
    covered: Seq<Vec<bool>>,
    replaces: Seq<Vec<bool>>,
    j: int,
    x: int,
)
    requires
        s >= 0,
        s <= usize::MAX,
        covered.len() <= usize::MAX,
        rows_fit(s, covered, replaces),
        0 <= j < covered.len(),
        plan_after(s, covered, replaces, covered.len() as int).1.contains(j as usize),
    ensures
        plan_after(s, covered, replaces, j).0.contains(x as usize) && 0 <= x < s && replaces[j]@[x] ==> plan_after(
            s,
            covered,
            replaces,
            covered.len() as int,
        ).2.contains(x as usize),
        0 <= x < j && replaces[j]@[s + x] ==> !plan_after(s, covered, replaces, covered.len() as int).1.contains(
            x as usize,
        ),
{
    let n = covered.len() as int;
    lemma_plan_shape(s, covered, replaces, j);
    let prev = plan_after(s, covered, replaces, j);
    if is_covered(covered[j]@, s, prev.0, prev.1) {
        lemma_skipped_stays_out(s, covered, replaces, j);
    }
    let row = replaces[j]@;
    let next = plan_after(s, covered, replaces, j + 1);
    let gone = prev.0.filter(marked(row, 0));
    let stay = prev.1.filter(unmarked(row, s));
    lemma_filter_ascending(prev.0, marked(row, 0));
    lemma_filter_ascending(prev.1, unmarked(row, s));
    assert(next.2 == prev.2 + gone);
    assert(next.1 == stay.push(j as usize));
    if prev.0.contains(x as usize) && 0 <= x < s && row[x] {
        assert(marked(row, 0)(x as usize));
        assert(gone.contains(x as usize));
        let t = choose|t: int| 0 <= t < gone.len() && gone[t] == x as usize;
        assert(next.2[prev.2.len() + t] == x as usize);
        lemma_removed_persist(s, covered, replaces, x as usize, j + 1, n);
    }
    if 0 <= x < j && row[s + x] {
        lemma_plan_persists(s, covered, replaces, x, j + 1, n);
        assert(!unmarked(row, s)(x as usize));
        if next.1.contains(x as usize) {
            let t = choose|t: int| 0 <= t < next.1.len() && next.1[t] == x as usize;
            if t < stay.len() {
                assert(stay[t] == x as usize);
                assert(stay.contains(x as usize));
            }
        }
    }
}

/// Entry `x` of a row.
spec fn row_at(row: Seq<bool>, x: int) -> bool {
    row[x]
}

/// Keeps the items for which `row` (offset by `base`) is false, and lists
/// those for which it is true.
fn split_marked(row: &Vec<bool>, base: usize, items: &Vec<usize>) -> (r: (Vec<usize>, Vec<usize>))
    requires
        forall|t: int| 0 <= t < items@.len() ==> base + #[trigger] items@[t] < row@.len(),
    ensures
        r.0@ == items@.filter(unmarked(row@, base as int)),
        r.1@ == items@.filter(marked(row@, base as int)),
{
    let mut keep: Vec<usize> = Vec::new();
    let mut drop: Vec<usize> = Vec::new();
    let len = row.len();
    let mut t: usize = 0;
    while t < items.len()
        invariant
            len == row@.len(),
            t <= items@.len(),
            forall|i: int| 0 <= i < items@.len() ==> base + #[trigger] items@[i] < row@.len(),
            keep@ == items@.take(t as int).filter(unmarked(row@, base as int)),
            drop@ == items@.take(t as int).filter(marked(row@, base as int)),
        decreases items@.len() - t,
    {
        let x = items[t];
        assert(base + items@[t as int] < len);
        proof {
            lemma_filter_step(items@, unmarked(row@, base as int), t as int);
            lemma_filter_step(items@, marked(row@, base as int), t as int);
        }
        if row[base + x] {
            drop.push(x);
        } else {
            keep.push(x);
        }
        t += 1;
    }
    assert(items@.take(items@.len() as int) =~= items@);
    (keep, drop)
}

/// Whether a kept saved section or an accepted import covers import `j`,
/// whose row is `row`.
fn any_covers(row: &Vec<bool>, s: usize, kept: &Vec<usize>, accepted: &Vec<usize>) -> (b: bool)
    requires
        forall|t: int| 0 <= t < kept@.len() ==> #[trigger] kept@[t] < row@.len(),
        forall|t: int| 0 <= t < accepted@.len() ==> s + #[trigger] accepted@[t] < row@.len(),
    ensures
        b == is_covered(row@, s as int, kept@, accepted@),
{
    let mut t: usize = 0;
    while t < kept.len()
        invariant
            t <= kept@.len(),
            forall|i: int| 0 <= i < kept@.len() ==> #[trigger] kept@[i] < row@.len(),
            forall|i: int| 0 <= i < t ==> !row@[#[trigger] kept@[i] as int],
        decreases kept@.len() - t,
    {
        assert(kept@[t as int] < row@.len());
        if row[kept[t]] {
            return true;
        }
        t += 1;
    }
    let len = row.len();
    let mut t: usize = 0;
    while t < accepted.len()
        invariant
            len == row@.len(),
            t <= accepted@.len(),
            forall|i: int| 0 <= i < accepted@.len() ==> s + #[trigger] accepted@[i] < row@.len(),
            forall|i: int| 0 <= i < t ==> !row@[s + #[trigger] accepted@[i]],
        decreases accepted@.len() - t,
    {
        assert(s + accepted@[t as int] < len);
        if row[s + accepted[t]] {
            return true;
        }
        t += 1;
    }
    false
}

/// Applies the overlap rules to a file of `covered.len()` imported sections
/// against the saved sections `saved_ids`, one import at a time. Row `j` of
/// `covered` says which shapes before import `j` cover it, row `j` of
/// `replaces` which of them import `j` replaces. An import covered by a
/// kept saved section or an accepted import is skipped; otherwise it is
/// accepted, the saved sections it replaces are removed, and the accepted
/// imports it replaces count as skipped.
pub fn plan(saved_ids: &[i64], covered: &[Vec<bool>], replaces: &[Vec<bool>]) -> (p: Plan)
    requires
        rows_fit(saved_ids@.len() as int, covered@, replaces@),
    ensures
        ({
            let s = saved_ids@.len() as int;
            let n = covered@.len() as int;
            let after = plan_after(s, covered@, replaces@, n);
            &&& p.add@ == after.1
            &&& p.remove@ == after.2.map_values(|o: usize| saved_ids@[o as int])
            &&& p.skipped == after.3
            &&& ascending(p.add@)
            &&& forall|t: int| 0 <= t < p.add@.len() ==> #[trigger] p.add@[t] < n
            &&& p.skipped + p.add@.len() == n
            &&& forall|a: int, b: int| 0 <= a < b < after.2.len() ==> #[trigger] after.2[a] != #[trigger] after.2[b]
        }),
{
    let s = saved_ids.len();
    let n = covered.len();
    let ghost cov = covered@;
    let ghost rep = replaces@;
    let mut kept: Vec<usize> = Vec::new();
    let mut o: usize = 0;
    while o < s
        invariant
            o <= s,
            kept@ == Seq::new(o as nat, |x: int| x as usize),
        decreases s - o,
    {
        kept.push(o);
        assert(kept@ =~= Seq::new((o + 1) as nat, |x: int| x as usize));
        o += 1;
    }
    let mut accepted: Vec<usize> = Vec::new();
    let mut removed: Vec<usize> = Vec::new();
    let mut skipped: u64 = 0;
    let mut j: usize = 0;
    while j < n
        invariant
            s == saved_ids@.len(),
            n == cov.len(),
            cov == covered@,
            rep == replaces@,
            rows_fit(s as int, cov, rep),
            j <= n,
            (kept@, accepted@, removed@, skipped as int) == plan_after(s as int, cov, rep, j as int),
        decreases n - j,
    {
        proof {
            lemma_plan_shape(s as int, cov, rep, j as int);
        }
        assert(covered@[j as int]@.len() == s + j);
        let row = &covered[j];
        if any_covers(row, s, &kept, &accepted) {
            skipped += 1;
            j += 1;
            continue;
        }
        let rrow = &replaces[j];
        assert(rrow@.len() == s + j);
        let (still, gone) = split_marked(rrow, 0, &kept);
        let (stay, _) = split_marked(rrow, s, &accepted);
        proof {
            lemma_filter_ascending(accepted@, unmarked(rrow@, s as int));
        }
        let dropped = accepted.len() - stay.len();
        skipped += dropped as u64;
        kept = still;
        let mut r: usize = 0;
        while r < gone.len()
            invariant
                r <= gone@.len(),
                removed@ == plan_after(s as int, cov, rep, j as int).2 + gone@.take(r as int),
            decreases gone@.len() - r,
        {
            removed.push(gone[r]);
            assert(gone@.take(r + 1) =~= gone@.take(r as int).push(gone@[r as int]));
            r += 1;
        }
        assert(gone@.take(gone@.len() as int) =~= gone@);
        accepted = stay;
        accepted.push(j);
        j += 1;
    }
    proof {
        lemma_plan_shape(s as int, cov, rep, n as int);
    }
    let mut remove: Vec<i64> = Vec::new();
    let mut t: usize = 0;
    while t < removed.len()
        invariant
            t <= removed@.len(),
            forall|i: int| 0 <= i < removed@.len() ==> #[trigger] removed@[i] < saved_ids@.len(),
            remove@ == removed@.take(t as int).map_values(|o: usize| saved_ids@[o as int]),
        decreases removed@.len() - t,
    {
        remove.push(saved_ids[removed[t]]);
        assert(removed@.take(t + 1).map_values(|o: usize| saved_ids@[o as int])
            =~= removed@.take(t as int).map_values(|o: usize| saved_ids@[o as int]).push(saved_ids@[removed@[t as int] as int]));
        t += 1;
    }
    assert(removed@.take(removed@.len() as int) =~= removed@);
    Plan { add: accepted, remove, skipped }
}

} // verus!
