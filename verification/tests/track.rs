use moto_core::error::CoreError;
use moto_core::track::{
    check_batch, check_import_count, check_import_times, fresh_points, plan_append, MAX_BATCH_POINTS,
    MAX_TRACK_POINTS,
};
use moto_core::types::Appended;

#[test]
fn takes_only_points_newer_than_the_last_one() {
    let (fresh, last) = fresh_points(Some(100), &[90, 100, 110, 105, 120, 120, 130]);
    assert_eq!(fresh, vec![2, 4, 6]);
    assert_eq!(last, 130);
    let (fresh, last) = fresh_points(None, &[5, 3, 8]);
    assert_eq!(fresh, vec![0, 2]);
    assert_eq!(last, 8);
    let (fresh, last) = fresh_points(Some(7), &[]);
    assert!(fresh.is_empty());
    assert_eq!(last, 7);
}

#[test]
fn sending_a_batch_again_adds_nothing() {
    let batch = [1_000, 2_000, 1_500, 3_000];
    let first = plan_append(1, false, 0, None, &batch).unwrap();
    assert_eq!(first.appended, Appended { added: 3, point_count: 3 });
    let again = plan_append(1, false, 3, Some(first.last_time), &batch).unwrap();
    assert!(again.fresh.is_empty());
    assert_eq!(again.appended, Appended { added: 0, point_count: 3 });
}

#[test]
fn finished_and_full_tracks_take_no_points() {
    match plan_append(7, true, 0, None, &[1]) {
        Err(CoreError::InvalidArgument(m)) => assert_eq!(m, "track 7 is finished"),
        other => panic!("{other:?}"),
    }
    match plan_append(-3, false, -1, None, &[1]) {
        Err(CoreError::Storage(m)) => assert_eq!(m, "track -3: invalid point count"),
        other => panic!("{other:?}"),
    }
    let full = MAX_TRACK_POINTS as i64;
    assert!(matches!(plan_append(1, false, full, Some(5), &[6]), Err(CoreError::InvalidArgument(_))));
    // Points that are all old add nothing, so even a full track accepts them.
    assert_eq!(plan_append(1, false, full, Some(5), &[4, 5]).unwrap().appended.added, 0);
    assert_eq!(plan_append(1, false, full - 1, Some(5), &[6]).unwrap().appended.point_count, full as u64);
}

#[test]
fn batches_are_capped() {
    assert!(check_batch(MAX_BATCH_POINTS).is_ok());
    assert!(matches!(check_batch(MAX_BATCH_POINTS + 1), Err(CoreError::InvalidArgument(_))));
}

#[test]
fn imported_rides_need_two_to_the_limit_of_increasing_fixes() {
    assert!(matches!(check_import_count(0), Err(CoreError::InvalidArgument(m)) if m == "imported ride: no points"));
    assert!(matches!(check_import_count(1), Err(CoreError::InvalidArgument(m)) if m == "imported ride: fewer than two points"));
    assert!(check_import_count(2).is_ok());
    assert!(check_import_count(MAX_TRACK_POINTS).is_ok());
    assert!(check_import_count(MAX_TRACK_POINTS + 1).is_err());
    assert!(check_import_times(&[1, 2, 5]).is_ok());
    assert!(check_import_times(&[1, 2, 2]).is_err());
    assert!(check_import_times(&[3, 2]).is_err());
    assert!(check_import_times(&[]).is_ok());
}

const MS0: i64 = 1_790_000_000_000;

/// Fix times of a ride of `n` fixes a second apart.
fn ride(n: usize) -> Vec<i64> {
    (0..n as i64).map(|i| MS0 + i * 1000).collect()
}

#[test]
fn a_batch_sent_again_adds_nothing() {
    // The app died after the core stored a batch but before the buffer was
    // cleared: on restart the same points arrive again.
    let times = ride(30);
    let first = plan_append(1, false, 0, None, &times[..20]).unwrap();
    assert_eq!(first.appended, Appended { added: 20, point_count: 20 });
    let again = plan_append(1, false, 20, Some(first.last_time), &times[10..]).unwrap();
    assert_eq!(again.appended, Appended { added: 10, point_count: 30 });
    let stored: Vec<i64> = first.fresh.iter().map(|&i| times[i]).chain(again.fresh.iter().map(|&i| times[10 + i])).collect();
    assert_eq!(stored, times);
}

#[test]
fn batches_and_tracks_have_size_limits() {
    assert!(matches!(check_batch(MAX_BATCH_POINTS + 1), Err(CoreError::InvalidArgument(_))));
    // A track just short of the limit.
    let count = (MAX_TRACK_POINTS - 2) as i64;
    assert!(matches!(plan_append(1, false, count, None, &ride(3)), Err(CoreError::InvalidArgument(_))));
    assert_eq!(plan_append(1, false, count, None, &ride(2)).unwrap().appended.added, 2);
}

#[test]
fn refusals_say_why() {
    assert_eq!(
        check_batch(10_001),
        Err(CoreError::InvalidArgument("at most 10000 points per batch, got 10001".into()))
    );
    assert_eq!(
        plan_append(7, true, 0, None, &[1]),
        Err(CoreError::InvalidArgument("track 7 is finished".into()))
    );
    assert_eq!(
        plan_append(-3, false, -1, None, &[1]),
        Err(CoreError::Storage("track -3: invalid point count".into()))
    );
    assert_eq!(check_import_count(1), Err(CoreError::InvalidArgument("imported ride: fewer than two points".into())));
    assert_eq!(
        check_import_times(&[5, 5]),
        Err(CoreError::InvalidArgument("imported ride: fix times must increase".into()))
    );
}
