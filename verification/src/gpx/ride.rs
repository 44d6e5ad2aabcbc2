//! The fix times of a ride read from a GPX file: its own times when every
//! point has one, never going back; else one second apart.

use vstd::prelude::*;

verus! {

/// `x` held to the range of `i64`, as saturating arithmetic does.
pub open spec fn clamp64(x: int) -> int {
    if x < i64::MIN { i64::MIN as int } else if x > i64::MAX { i64::MAX as int } else { x }
}

/// Every point has a time.
pub open spec fn all_timed(times: Seq<Option<i64>>) -> bool {
    forall|i: int| 0 <= i < times.len() ==> (#[trigger] times[i]) is Some
}

/// The first time any point has, else `now`.
pub open spec fn first_time(times: Seq<Option<i64>>, now: i64) -> int
    decreases times.len(),
{
    if times.len() == 0 {
        now as int
    } else {
        match times[0] {
            Some(t) => t as int,
            None => first_time(times.drop_first(), now),
        }
    }
}

/// The time given to point `i`: with every point timed, its own time but
/// at least 1 ms after the point before; else the first time found (or
/// `now`) plus one second per point before it.
pub open spec fn ride_time(times: Seq<Option<i64>>, now: i64, i: int) -> int
    decreases i,
{
    if all_timed(times) {
        let prev = if i <= 0 { i64::MIN as int } else { ride_time(times, now, i - 1) };
        let t = times[i]->0 as int;
        let next = clamp64(prev + 1);
        if t > next { t } else { next }
    } else {
        clamp64(first_time(times, now) + clamp64(i * 1000))
    }
}

/// `a + b`, held to the range of `i64`.
fn saturating_add(a: i64, b: i64) -> (r: i64)
    ensures
        r == clamp64(a + b),
{
    let s = a as i128 + b as i128;
    if s > i64::MAX as i128 {
        i64::MAX
    } else if s < i64::MIN as i128 {
        i64::MIN
    } else {
        s as i64
    }
}

/// Whether every point has a time, and the first time found (or `now`).
fn scan_times(times: &[Option<i64>], now: i64) -> (r: (bool, i64))
    ensures
        r.0 == all_timed(times@),
        r.1 == first_time(times@, now),
{
    let mut timed = true;
    let mut first: Option<i64> = None;
    let mut i = times.len();
    while i > 0
        invariant
            i <= times@.len(),
            timed == all_timed(times@.skip(i as int)),
            first_time(times@.skip(i as int), now) == match first {
                Some(t) => t as int,
                None => now as int,
            },
        decreases i,
    {
        i -= 1;
        let ghost rest = times@.skip(i as int);
        assert(rest.drop_first() =~= times@.skip(i + 1));
        match times[i] {
            Some(t) => first = Some(t),
            None => timed = false,
        }
        proof {
            if !all_timed(times@.skip(i + 1)) {
                let k = choose|k: int| 0 <= k < times@.skip(i + 1).len() && !((#[trigger] times@.skip(i + 1)[k]) is Some);
                assert(rest[k + 1] == times@.skip(i + 1)[k]);
            }
            if times@[i as int] is Some && all_timed(times@.skip(i + 1)) {
                assert forall|k: int| 0 <= k < rest.len() implies (#[trigger] rest[k]) is Some by {
                    if k > 0 {
                        assert(rest[k] == times@.skip(i + 1)[k - 1]);
                    }
                }
            }
            if times@[i as int] is None {
                assert(!(rest[0] is Some));
            }
        }
    }
    assert(times@.skip(0) =~= times@);
    let start = match first {
        Some(t) => t,
        None => now,
    };
    (timed, start)
}

/// The fix times of a ride read from a GPX file with point times `times`
/// (`None` where a point has none) and `now_ms` as the time of reading:
/// see [`ride_time`].
pub fn ride_times(times: &[Option<i64>], now_ms: i64) -> (r: Vec<i64>)
    ensures
        r@.len() == times@.len(),
        forall|i: int| 0 <= i < times@.len() ==> r@[i] == ride_time(times@, now_ms, i),
{
    let (timed, start) = scan_times(times, now_ms);
    let mut out: Vec<i64> = Vec::with_capacity(times.len());
    let mut last: i64 = i64::MIN;
    let mut i: usize = 0;
    while i < times.len()
        invariant
            i <= times@.len(),
            timed == all_timed(times@),
            start == first_time(times@, now_ms),
            out@.len() == i,
            forall|k: int| 0 <= k < i ==> out@[k] == ride_time(times@, now_ms, k),
            i > 0 ==> last == ride_time(times@, now_ms, i - 1),
            i == 0 ==> last == i64::MIN,
        decreases times@.len() - i,
    {
        let own = times[i];
        let mut t: i64 = 0;
        if timed {
            assert(times@[i as int] is Some);
            let next = saturating_add(last, 1);
            if let Some(v) = own {
                t = if v > next { v } else { next };
            }
        } else {
            let step: i64 = if i as u64 > 9223372036854775u64 { i64::MAX } else { i as i64 * 1000 };
            t = saturating_add(start, step);
        }
        out.push(t);
        last = t;
        i += 1;
    }
    out
}

/// The first time is an `i64`.
proof fn lemma_first_time_fits(times: Seq<Option<i64>>, now: i64)
    ensures
        i64::MIN <= first_time(times, now) <= i64::MAX,
    decreases times.len(),
{
    if times.len() > 0 && times[0] is None {
        lemma_first_time_fits(times.drop_first(), now);
    }
}

/// The first time is that of the lowest-indexed point that has one, or
/// `now` when none has.
proof fn lemma_first_time_is_the_earliest(times: Seq<Option<i64>>, now: i64, j: int)
    requires
        0 <= j <= times.len(),
        forall|k: int| 0 <= k < j ==> (#[trigger] times[k]) is None,
        j < times.len() ==> times[j] is Some,
    ensures
        first_time(times, now) == if j < times.len() { times[j]->0 as int } else { now as int },
    decreases j,
{
    if j > 0 {
        let rest = times.drop_first();
        assert(times[0] is None);
        assert forall|k: int| 0 <= k < j - 1 implies (#[trigger] rest[k]) is None by {
            assert(rest[k] == times[k + 1]);
        }
        if j < times.len() {
            assert(rest[j - 1] == times[j]);
        }
        lemma_first_time_is_the_earliest(rest, now, j - 1);
    }
}

/// When some point has no time, the ride starts at the time of the first
/// point that has one (or `now` when none has) and goes on one second per
/// point: point `i` gets that start plus `i` seconds.
pub proof fn untimed_rides_count_from_the_first_time(times: Seq<Option<i64>>, now: i64, j: int, i: int)
    requires
        exists|k: int| 0 <= k < times.len() && (#[trigger] times[k]) is None,
        0 <= j <= times.len(),
        forall|k: int| 0 <= k < j ==> (#[trigger] times[k]) is None,
        j < times.len() ==> times[j] is Some,
        0 <= i < times.len(),
        i * 1000 <= i64::MAX,
    ensures
        ride_time(times, now, i) == clamp64(
            (if j < times.len() { times[j]->0 as int } else { now as int }) + i * 1000,
        ),
        i == 0 ==> ride_time(times, now, i) == if j < times.len() { times[j]->0 as int } else { now as int },
{
    lemma_first_time_is_the_earliest(times, now, j);
    lemma_first_time_fits(times, now);
    assert(!all_timed(times));
}

/// When every point has a time, the first point keeps its own time and
/// each later one its own time, unless that would not be after the time
/// given to the point before it.
pub proof fn timed_rides_keep_their_times(times: Seq<Option<i64>>, now: i64, i: int)
    requires
        forall|k: int| 0 <= k < times.len() ==> (#[trigger] times[k]) is Some,
        0 <= i < times.len(),
        i == 0 ==> times[0]->0 > i64::MIN,
    ensures
        i == 0 ==> ride_time(times, now, i) == times[0]->0,
        i > 0 && times[i]->0 > ride_time(times, now, i - 1) ==> ride_time(times, now, i) == times[i]->0,
        i > 0 ==> ride_time(times, now, i) >= times[i]->0,
        i > 0 && times[i]->0 <= ride_time(times, now, i - 1) < i64::MAX ==> ride_time(times, now, i) == ride_time(
            times,
            now,
            i - 1,
        ) + 1,
        i > 0 ==> ride_time(times, now, i) > ride_time(times, now, i - 1) || ride_time(times, now, i) == i64::MAX,
{
    assert(all_timed(times));
    if i > 0 {
        ride_time_fits(times, now, i - 1);
    }
}

/// Every time given is an `i64`.
proof fn ride_time_fits(times: Seq<Option<i64>>, now: i64, i: int)
    requires
        0 <= i < times.len(),
    ensures
        i64::MIN <= ride_time(times, now, i) <= i64::MAX,
    decreases i,
{
    if all_timed(times) {
        assert(times[i] is Some);
        if i > 0 {
            ride_time_fits(times, now, i - 1);
        }
    } else {
        lemma_first_time_fits(times, now);
    }
}

/// Later points never go back in time: each time is after the one before,
/// unless it is at the end of the `i64` range (for fewer points than a
/// second-per-point count could overflow).
pub proof fn ride_times_never_go_back(times: Seq<Option<i64>>, now: i64, i: int)
    requires
        0 <= i,
        i + 1 < times.len(),
        (i + 1) * 1000 <= i64::MAX,
    ensures
        ride_time(times, now, i) < ride_time(times, now, i + 1) || ride_time(times, now, i + 1) == i64::MAX,
{
    if all_timed(times) {
        assert(ride_time(times, now, i) <= i64::MAX);
    } else {
        lemma_first_time_fits(times, now);
        assert(clamp64(i * 1000) == i * 1000);
        assert(clamp64((i + 1) * 1000) == (i + 1) * 1000);
    }
}

} // verus!
