//! Bucket indexes in CSR form: which edges pass through each snapping
//! grid cell, and which edges enter each node.

use vstd::prelude::*;
use super::layout::offsets_ok;

verus! {

/// No value occurs twice and values ascend.
pub open spec fn strictly_increasing(s: Seq<u32>) -> bool {
    forall|i: int, j: int| 0 <= i < j < s.len() ==> #[trigger] s[i] < #[trigger] s[j]
}

/// The pair puts edge `e` in cell `c`.
pub open spec fn in_cell(pair: (u32, u32), c: int, e: u32) -> bool {
    pair.0 == c && pair.1 == e
}

/// `s` lists, in ascending order and once each, the edges that `pairs`
/// put in cell `c`.
pub open spec fn cell_list(s: Seq<u32>, pairs: Seq<(u32, u32)>, c: int) -> bool {
    &&& strictly_increasing(s)
    &&& forall|e: u32| s.contains(e) <==> exists|j: int| 0 <= j < pairs.len() && #[trigger] in_cell(pairs[j], c, e)
}

/// The lists' lengths added up.
pub open spec fn total_len(b: Seq<Seq<u32>>) -> int
    decreases b.len(),
{
    if b.len() == 0 { 0 } else { total_len(b.drop_last()) + b.last().len() }
}

/// The contents of each list.
pub open spec fn views(b: Seq<Vec<u32>>) -> Seq<Seq<u32>> {
    b.map_values(|v: Vec<u32>| v@)
}

/// The second components of the pairs ascend.
pub open spec fn seconds_ascend(pairs: Seq<(u32, u32)>) -> bool {
    forall|i: int, j: int| 0 <= i < j < pairs.len() ==> #[trigger] pairs[i].1 < #[trigger] pairs[j].1
}

/// Replacing one list changes the total by the difference.
proof fn lemma_total_update(s: Seq<Seq<u32>>, c: int, l: Seq<u32>)
    requires
        0 <= c < s.len(),
    ensures
        total_len(s.update(c, l)) == total_len(s) - s[c].len() + l.len(),
    decreases s.len(),
{
    let t = s.update(c, l);
    if c == s.len() - 1 {
        assert(t.drop_last() =~= s.drop_last());
    } else {
        lemma_total_update(s.drop_last(), c, l);
        assert(t.drop_last() =~= s.drop_last().update(c, l));
    }
}

/// Empty lists add up to nothing.
proof fn lemma_total_empty(s: Seq<Seq<u32>>)
    requires
        forall|k: int| 0 <= k < s.len() ==> (#[trigger] s[k]).len() == 0,
    ensures
        total_len(s) == 0,
    decreases s.len(),
{
    if s.len() > 0 {
        lemma_total_empty(s.drop_last());
    }
}

/// One more list adds its length.
proof fn lemma_total_push(s: Seq<Seq<u32>>, l: Seq<u32>)
    ensures
        total_len(s.push(l)) == total_len(s) + l.len(),
{
    assert(s.push(l).drop_last() =~= s);
}

/// A prefix of the lists is no longer than all of them.
proof fn lemma_total_prefix(s: Seq<Seq<u32>>, c: int)
    requires
        0 <= c <= s.len(),
    ensures
        total_len(s.take(c)) <= total_len(s),
    decreases s.len() - c,
{
    if c < s.len() {
        lemma_total_prefix(s, c + 1);
        assert(s.take(c + 1).drop_last() =~= s.take(c));
    } else {
        assert(s.take(c) =~= s);
    }
}

/// The edges of cell `c` in a CSR grid index.
pub open spec fn cell_of(cells: Seq<u32>, edges: Seq<u32>, c: int) -> Seq<u32> {
    edges.subrange(cells[c] as int, cells[c + 1] as int)
}

/// Adds `e` to an ascending list of distinct values.
fn insert_sorted(v: &mut Vec<u32>, e: u32)
    requires
        strictly_increasing(old(v)@),
    ensures
        strictly_increasing(final(v)@),
        forall|x: u32| #[trigger] final(v)@.contains(x) <==> old(v)@.contains(x) || x == e,
        final(v)@.len() == old(v)@.len() + if old(v)@.contains(e) { 0int } else { 1int },
{
    let mut p: usize = 0;
    while p < v.len() && v[p] < e
        invariant
            p <= v@.len(),
            forall|k: int| 0 <= k < p ==> v@[k] < e,
        decreases v@.len() - p,
    {
        p += 1;
    }
    if p < v.len() && v[p] == e {
        assert(v@[p as int] == e);
        return;
    }
    proof {
        if v@.contains(e) {
            let k = choose|k: int| 0 <= k < v@.len() && v@[k] == e;
            if k < p {
                assert(v@[k] < e);
            } else if k > p {
                assert(v@[p as int] < v@[k]);
                assert(v@[p as int] > e || v@[p as int] == e);
            }
        }
    }
    let ghost before = v@;
    v.insert(p, e);
    proof {
        assert forall|i: int, j: int| 0 <= i < j < v@.len() implies #[trigger] v@[i] < #[trigger] v@[j] by {
            if j < p {
                assert(v@[i] == before[i] && v@[j] == before[j]);
            } else if j == p {
                assert(v@[i] == before[i]);
            } else if i < p {
                assert(v@[i] == before[i] && v@[j] == before[j - 1]);
                assert(before[i] < e);
                assert(p < before.len());
                assert(before[p as int] > e);
                if j - 1 > p {
                    assert(before[p as int] < before[j - 1]);
                }
            } else if i == p {
                assert(v@[j] == before[j - 1]);
                assert(before[p as int] > e);
                if j - 1 > p {
                    assert(before[p as int] < before[j - 1]);
                }
            } else {
                assert(v@[i] == before[i - 1] && v@[j] == before[j - 1]);
            }
        }
        assert forall|x: u32| #[trigger] v@.contains(x) <==> before.contains(x) || x == e by {
            if v@.contains(x) {
                let k = choose|k: int| 0 <= k < v@.len() && v@[k] == x;
                if k < p {
                    assert(before[k] == x);
                } else if k > p {
                    assert(before[k - 1] == x);
                }
            }
            if before.contains(x) {
                let k = choose|k: int| 0 <= k < before.len() && before[k] == x;
                if k < p {
                    assert(v@[k] == x);
                } else {
                    assert(v@[k + 1] == x);
                }
            }
            if x == e {
                assert(v@[p as int] == e);
            }
        }
    }
}

/// Buckets of the cells: each cell's edges in ascending order, once each.
fn buckets_of(pairs: &[(u32, u32)], cell_count: usize) -> (b: Vec<Vec<u32>>)
    requires
        forall|j: int| 0 <= j < pairs@.len() ==> (#[trigger] pairs@[j]).0 < cell_count,
    ensures
        b@.len() == cell_count,
        forall|c: int| 0 <= c < cell_count ==> cell_list(#[trigger] b@[c]@, pairs@, c),
        total_len(views(b@)) <= pairs@.len(),
        seconds_ascend(pairs@) ==> total_len(views(b@)) == pairs@.len(),
{
    let mut b: Vec<Vec<u32>> = Vec::with_capacity(cell_count);
    let mut c: usize = 0;
    while c < cell_count
        invariant
            c <= cell_count,
            b@.len() == c,
            forall|k: int| 0 <= k < c ==> (#[trigger] b@[k])@.len() == 0,
        decreases cell_count - c,
    {
        b.push(Vec::new());
        c += 1;
    }
    proof {
        assert forall|k: int| 0 <= k < views(b@).len() implies (#[trigger] views(b@)[k]).len() == 0 by {
            assert(b@[k]@.len() == 0);
        }
        lemma_total_empty(views(b@));
    }
    let mut i: usize = 0;
    while i < pairs.len()
        invariant
            i <= pairs@.len(),
            b@.len() == cell_count,
            forall|j: int| 0 <= j < pairs@.len() ==> (#[trigger] pairs@[j]).0 < cell_count,
            forall|k: int| 0 <= k < cell_count ==> cell_list(#[trigger] b@[k]@, pairs@.take(i as int), k),
            total_len(views(b@)) <= i,
            seconds_ascend(pairs@) ==> total_len(views(b@)) == i,
        decreases pairs@.len() - i,
    {
        let (cell, e) = pairs[i];
        let cu = cell as usize;
        let mut list = b[cu].clone();
        proof { assert(cell_list(b@[cu as int]@, pairs@.take(i as int), cu as int)); }
        let ghost before_list = b@[cu as int]@;
        insert_sorted(&mut list, e);
        let ghost old_b = b@;
        b.set(cu, list);
        proof {
            lemma_total_update(views(old_b), cu as int, list@);
            assert(views(b@) =~= views(old_b).update(cu as int, list@));
            if seconds_ascend(pairs@) && before_list.contains(e) {
                let p1 = pairs@.take(i as int);
                let j = choose|j: int| 0 <= j < p1.len() && #[trigger] in_cell(p1[j], cu as int, e);
                assert(pairs@[j].1 < pairs@[i as int].1);
            }
            let p2 = pairs@.take(i + 1);
            assert(p2 =~= pairs@.take(i as int).push(pairs@[i as int]));
            assert forall|k: int| 0 <= k < cell_count implies cell_list(#[trigger] b@[k]@, p2, k) by {
                let p1 = pairs@.take(i as int);
                if k == cu {
                    assert forall|x: u32| b@[k]@.contains(x) <==> exists|j: int| 0 <= j < p2.len() && #[trigger] in_cell(p2[j], k, x) by {
                        if b@[k]@.contains(x) {
                            if x == e {
                                assert(in_cell(p2[i as int], k, x));
                            } else {
                                assert(old_b[k]@.contains(x));
                                let j = choose|j: int| 0 <= j < p1.len() && #[trigger] in_cell(p1[j], k, x);
                                assert(p2[j] == p1[j]);
                            }
                        }
                        if exists|j: int| 0 <= j < p2.len() && #[trigger] in_cell(p2[j], k, x) {
                            let j = choose|j: int| 0 <= j < p2.len() && #[trigger] in_cell(p2[j], k, x);
                            if j < i {
                                assert(p1[j] == p2[j]);
                            }
                        }
                    }
                } else {
                    assert(b@[k] == old_b[k]);
                    assert forall|x: u32| b@[k]@.contains(x) <==> exists|j: int| 0 <= j < p2.len() && #[trigger] in_cell(p2[j], k, x) by {
                        if b@[k]@.contains(x) {
                            let j = choose|j: int| 0 <= j < p1.len() && #[trigger] in_cell(p1[j], k, x);
                            assert(p2[j] == p1[j]);
                        }
                        if exists|j: int| 0 <= j < p2.len() && #[trigger] in_cell(p2[j], k, x) {
                            let j = choose|j: int| 0 <= j < p2.len() && #[trigger] in_cell(p2[j], k, x);
                            if j < i {
                                assert(p1[j] == p2[j]);
                            } else {
                                assert(p2[j] == pairs@[i as int]);
                            }
                        }
                    }
                }
            }
        }
        i += 1;
    }
    assert(pairs@.take(pairs@.len() as int) =~= pairs@);
    b
}

/// An index of `pairs` by their first component: for each bucket
/// `0..count`, the second components of its pairs, ascending and once
/// each, as CSR offsets into one list. `None` only when the list would
/// outgrow 32-bit offsets.
pub fn bucket_index(pairs: &[(u32, u32)], count: usize) -> (r: Option<(Vec<u32>, Vec<u32>)>)
    requires
        forall|j: int| 0 <= j < pairs@.len() ==> (#[trigger] pairs@[j]).0 < count,
    ensures
        r matches Some((cells, items)) ==> {
            &&& offsets_ok(cells@, count as int, items@.len() as int)
            &&& forall|c: int| 0 <= c < count ==> cell_list(#[trigger] cell_of(cells@, items@, c), pairs@, c)
            &&& items@.len() <= pairs@.len()
            &&& seconds_ascend(pairs@) ==> items@.len() == pairs@.len()
            &&& forall|i: int| 0 <= i < items@.len() ==> exists|j: int| 0 <= j < pairs@.len() && #[trigger] pairs@[j].1 == #[trigger] items@[i]
        },
        pairs@.len() <= u32::MAX ==> r is Some,
{
    let cell_count = count;
    let b = buckets_of(pairs, cell_count);
    let mut cells: Vec<u32> = Vec::with_capacity(cell_count);
    let mut edges: Vec<u32> = Vec::new();
    cells.push(0);
    let mut c: usize = 0;
    while c < cell_count
        invariant
            c <= cell_count,
            b@.len() == cell_count,
            forall|k: int| 0 <= k < cell_count ==> cell_list(#[trigger] b@[k]@, pairs@, k),
            cells@.len() == c + 1,
            cells@[0] == 0,
            cells@[c as int] == edges@.len(),
            forall|x: int, y: int| 0 <= x <= y <= c ==> #[trigger] cells@[x] <= #[trigger] cells@[y],
            forall|k: int| 0 <= k < c ==> edges@.subrange(cells@[k] as int, cells@[k + 1] as int) == (#[trigger] b@[k])@,
            edges@.len() == total_len(views(b@).take(c as int)),
            total_len(views(b@)) <= pairs@.len(),
            seconds_ascend(pairs@) ==> total_len(views(b@)) == pairs@.len(),
            forall|i: int| 0 <= i < edges@.len() ==> exists|j: int| 0 <= j < pairs@.len() && #[trigger] pairs@[j].1 == #[trigger] edges@[i],
        decreases cell_count - c,
    {
        let list = &b[c];
        proof {
            let vs = views(b@);
            assert(vs.take(c + 1) =~= vs.take(c as int).push(vs[c as int]));
            lemma_total_push(vs.take(c as int), vs[c as int]);
            lemma_total_prefix(vs, c + 1);
        }
        if list.len() as u64 > u32::MAX as u64 - edges.len() as u64 {
            return None;
        }
        let total = edges.len() as u64 + list.len() as u64;
        let ghost before = edges@;
        let ghost cells_before = cells@;
        crate::region::writer::push_all_u32(&mut edges, list.as_slice());
        cells.push(total as u32);
        proof {
            assert forall|i: int| 0 <= i < edges@.len() implies exists|j: int| 0 <= j < pairs@.len() && #[trigger] pairs@[j].1 == #[trigger] edges@[i] by {
                if i >= before.len() {
                    let x = edges@[i];
                    assert(list@[i - before.len()] == x);
                    assert(list@.contains(x));
                    let j = choose|j: int| 0 <= j < pairs@.len() && #[trigger] in_cell(pairs@[j], c as int, x);
                    assert(pairs@[j].1 == edges@[i]);
                } else {
                    assert(edges@[i] == before[i]);
                }
            }
            assert forall|k: int| 0 <= k < c + 1 implies edges@.subrange(cells@[k] as int, cells@[k + 1] as int)
                == (#[trigger] b@[k])@ by {
                if k < c {
                    assert(cells@[k] == cells_before[k] && cells@[k + 1] == cells_before[k + 1]);
                    assert(cells_before[k] <= cells_before[k + 1] <= cells_before[c as int]);
                    assert(edges@.subrange(cells@[k] as int, cells@[k + 1] as int)
                        =~= before.subrange(cells@[k] as int, cells@[k + 1] as int));
                } else {
                    assert(edges@.subrange(cells@[k] as int, cells@[k + 1] as int) =~= list@);
                }
            }
            assert forall|x: int, y: int| 0 <= x <= y <= c + 1 implies #[trigger] cells@[x] <= #[trigger] cells@[y] by {
                if y == c + 1 && x <= c {
                    assert(cells@[x] == cells_before[x]);
                    assert(cells_before[x] <= cells_before[c as int]);
                } else if y <= c {
                    assert(cells@[x] == cells_before[x] && cells@[y] == cells_before[y]);
                }
            }
        }
        c += 1;
    }
    proof {
        reveal(offsets_ok);
        assert(views(b@).take(cell_count as int) =~= views(b@));
        assert(edges@.len() == total_len(views(b@)));
        assert forall|k: int| 0 <= k < cell_count implies cell_list(#[trigger] cell_of(cells@, edges@, k), pairs@, k) by {
            assert(edges@.subrange(cells@[k] as int, cells@[k + 1] as int) == b@[k]@);
        }
    }
    Some((cells, edges))
}

} // verus!
