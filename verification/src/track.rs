//! Recorded rides: which points of a batch a recording track takes, the
//! limits on a track, and the checks on a ride imported whole.

use vstd::prelude::*;
use crate::error::{owned, signed_decimal, with_number, with_signed, CoreError};
use crate::gpx::text::decimal;
use crate::types::Appended;

verus! {

/// Most points one track may hold: over 55 hours at one fix per second.
pub const MAX_TRACK_POINTS: usize = 200000;
/// Most points one append may carry.
pub const MAX_BATCH_POINTS: usize = 10000;
/// Latest accepted fix time: 2100-01-01, in milliseconds since the epoch.
pub const MAX_TIME_MS: i64 = 4102444800000;

/// The points among the first `k` of a batch with fix times `times` that a
/// track whose last fix is at `last` takes, and its last fix time after
/// them: each point later than every fix before it is taken.
pub open spec fn taken(last: i64, times: Seq<i64>, k: int) -> (Seq<usize>, i64)
    decreases k,
{
    if k <= 0 {
        (Seq::empty(), last)
    } else {
        let prev = taken(last, times, k - 1);
        if times[k - 1] > prev.1 {
            (prev.0.push((k - 1) as usize), times[k - 1])
        } else {
            prev
        }
    }
}

/// Where the scan starts: the track's last fix, or before any time.
pub open spec fn start_of(last_time: Option<i64>) -> i64 {
    match last_time {
        Some(t) => t,
        None => i64::MIN,
    }
}

/// The points of a batch (by fix time) that a track whose last stored fix
/// is at `last_time` takes, in order, and the track's last fix time after
/// them. A point not newer than the track's last fix (or an earlier point
/// of the batch) is skipped.
pub fn fresh_points(last_time: Option<i64>, times: &[i64]) -> (r: (Vec<usize>, i64))
    ensures
        r.0@ == taken(start_of(last_time), times@, times@.len() as int).0,
        r.1 == taken(start_of(last_time), times@, times@.len() as int).1,
{
    let mut last = match last_time {
        Some(t) => t,
        None => i64::MIN,
    };
    let mut fresh: Vec<usize> = Vec::new();
    let mut i: usize = 0;
    while i < times.len()
        invariant
            i <= times@.len(),
            (fresh@, last) == taken(start_of(last_time), times@, i as int),
        decreases times@.len() - i,
    {
        if times[i] > last {
            last = times[i];
            fresh.push(i);
        }
        i += 1;
    }
    (fresh, last)
}

/// What the points taken from a batch are: ascending indices of fixes
/// later than `last` and than each other, and a last fix time no earlier
/// than `last` or any fix of the batch.
pub proof fn lemma_taken_shape(last: i64, times: Seq<i64>, k: int)
    requires
        0 <= k <= times.len(),
        k <= usize::MAX + 1,
    ensures
        ({
            let t = taken(last, times, k);
            &&& forall|a: int| 0 <= a < t.0.len() ==> #[trigger] t.0[a] < k
            &&& forall|a: int, b: int| 0 <= a < b < t.0.len() ==> #[trigger] t.0[a] < #[trigger] t.0[b]
                && times[t.0[a] as int] < times[t.0[b] as int]
            &&& forall|a: int| 0 <= a < t.0.len() ==> last < times[#[trigger] t.0[a] as int] <= t.1
            &&& last <= t.1
            &&& forall|i: int| 0 <= i < k ==> #[trigger] times[i] <= t.1
        }),
    decreases k,
{
    if k > 0 {
        lemma_taken_shape(last, times, k - 1);
    }
}

/// Sending a batch again changes nothing: once a track has taken a batch,
/// none of its points is taken a second time.
pub proof fn a_batch_sent_again_adds_nothing(last: i64, times: Seq<i64>)
    requires
        times.len() <= usize::MAX,
    ensures
        taken(taken(last, times, times.len() as int).1, times, times.len() as int).0.len() == 0,
{
    let n = times.len() as int;
    let after = taken(last, times, n).1;
    lemma_taken_shape(last, times, n);
    lemma_nothing_newer(after, times, n);
}

/// A scan from a time no earlier than any of the first `k` fixes takes none
/// of them and keeps that time.
proof fn lemma_nothing_newer(last: i64, times: Seq<i64>, k: int)
    requires
        0 <= k <= times.len(),
        forall|i: int| 0 <= i < k ==> #[trigger] times[i] <= last,
    ensures
        taken(last, times, k).0.len() == 0,
        taken(last, times, k).1 == last,
    decreases k,
{
    if k > 0 {
        lemma_nothing_newer(last, times, k - 1);
    }
}

/// Refuses a batch of more than [`MAX_BATCH_POINTS`] points.
pub fn check_batch(len: usize) -> (r: Result<(), CoreError>)
    ensures
        r is Ok <==> len <= MAX_BATCH_POINTS,
        r matches Err(e) ==> e is InvalidArgument,
        r is Err ==> (r matches Err(CoreError::InvalidArgument(m))
            && m@ == "at most 10000 points per batch, got "@ + decimal(len as nat)),
{
    if len > MAX_BATCH_POINTS {
        let text = with_number("at most 10000 points per batch, got ", len as u64, "");
        proof {
            reveal_strlit("");
            assert(text@ =~= "at most 10000 points per batch, got "@ + decimal(len as nat));
        }
        return Err(CoreError::InvalidArgument(text));
    }
    Ok(())
}

/// What appending a batch to a track does.
#[derive(Debug, Clone, PartialEq)]
pub struct AppendPlan {
    /// The points of the batch to store, in order.
    pub fresh: Vec<usize>,
    /// The track's last fix time after them.
    pub last_time: i64,
    /// What the append reports.
    pub appended: Appended,
}

/// Plans appending a batch of fixes (by time) to track `id`, as stored:
/// finished or not, `count` points so far, last fix at `last_time`. A
/// finished track takes no more points; a negative stored count is a
/// damaged database; a track may not grow past [`MAX_TRACK_POINTS`].
pub fn plan_append(id: i64, ended: bool, count: i64, last_time: Option<i64>, times: &[i64]) -> (r: Result<
    AppendPlan,
    CoreError,
>)
    ensures
        ({
            let t = taken(start_of(last_time), times@, times@.len() as int);
            &&& ended ==> (r matches Err(CoreError::InvalidArgument(m))
                && m@ == "track "@ + signed_decimal(id as int) + " is finished"@)
            &&& !ended && count < 0 ==> (r matches Err(CoreError::Storage(m))
                && m@ == "track "@ + signed_decimal(id as int) + ": invalid point count"@)
            &&& !ended && count >= 0 && count + t.0.len() > MAX_TRACK_POINTS ==> (r matches Err(
                CoreError::InvalidArgument(m),
            ) && m@ == "a track may have at most 200000 points"@)
            &&& !ended && count >= 0 && count + t.0.len() <= MAX_TRACK_POINTS ==> (r matches Ok(p) && {
                &&& p.fresh@ == t.0
                &&& p.last_time == t.1
                &&& p.appended.added == t.0.len()
                &&& p.appended.point_count == count + t.0.len()
            })
        }),
{
    if ended {
        return Err(CoreError::InvalidArgument(with_signed("track ", id, " is finished")));
    }
    let (fresh, last) = fresh_points(last_time, times);
    if count < 0 {
        return Err(CoreError::Storage(with_signed("track ", id, ": invalid point count")));
    }
    let stored = count as u64;
    let added = fresh.len() as u64;
    if stored > MAX_TRACK_POINTS as u64 || added > MAX_TRACK_POINTS as u64 - stored {
        return Err(CoreError::InvalidArgument(owned("a track may have at most 200000 points")));
    }
    Ok(AppendPlan { fresh, last_time: last, appended: Appended { added, point_count: stored + added } })
}

/// The fix times strictly increase.
pub open spec fn times_increase(times: Seq<i64>) -> bool {
    forall|i: int, j: int| 0 <= i < j < times.len() ==> times[i] < times[j]
}

/// Checks the number of fixes of a ride imported whole: at least two, at
/// most [`MAX_TRACK_POINTS`].
pub fn check_import_count(len: usize) -> (r: Result<(), CoreError>)
    ensures
        r is Ok <==> 2 <= len <= MAX_TRACK_POINTS,
        r matches Err(e) ==> e is InvalidArgument,
        r is Err ==> (r matches Err(CoreError::InvalidArgument(m)) && m@ == if len == 0 {
            "imported ride: no points"@
        } else if len < 2 {
            "imported ride: fewer than two points"@
        } else {
            "imported ride: too many points"@
        }),
{
    if len == 0 {
        return Err(CoreError::InvalidArgument(owned("imported ride: no points")));
    }
    if len < 2 {
        return Err(CoreError::InvalidArgument(owned("imported ride: fewer than two points")));
    }
    if len > MAX_TRACK_POINTS {
        return Err(CoreError::InvalidArgument(owned("imported ride: too many points")));
    }
    Ok(())
}

/// Checks that the fixes of a ride imported whole come strictly one after
/// another.
pub fn check_import_times(times: &[i64]) -> (r: Result<(), CoreError>)
    ensures
        r is Ok <==> times_increase(times@),
        r matches Err(e) ==> e is InvalidArgument,
        r is Err ==> (r matches Err(CoreError::InvalidArgument(m)) && m@ == "imported ride: fix times must increase"@),
{
    let mut i: usize = 1;
    while i < times.len()
        invariant
            1 <= i,
            i <= times@.len() || times@.len() == 0,
            forall|a: int, b: int| 0 <= a < b < i && b < times@.len() ==> times@[a] < times@[b],
        decreases times@.len() - i,
    {
        if times[i] <= times[i - 1] {
            return Err(CoreError::InvalidArgument(owned("imported ride: fix times must increase")));
        }
        proof {
            assert forall|a: int, b: int| 0 <= a < b < i + 1 && b < times@.len() implies times@[a] < times@[b] by {
                if b == i && a < i - 1 {
                    assert(times@[a] < times@[i - 1]);
                }
            }
        }
        i += 1;
    }
    Ok(())
}

} // verus!
