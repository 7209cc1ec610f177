use chrono::{Datelike, DurationRound, FixedOffset, NaiveTime, TimeDelta, TimeZone, Timelike};
use std::collections::HashSet;
use vrcx_optimal_time::buckets::{
    build_daily_buckets, register_bucket_date, register_bucket_dates_for_range,
    update_bucket_counts_for_range,
};
use vrcx_optimal_time::dto::{BucketValue, TimeSpan};
use vrcx_optimal_time::local_time::{bucket_key, local_date, BucketKey};

/// Monday, 1 January 2024, 00:00 UTC
const MONDAY: i64 = 1_704_067_200_000;
const MINUTE: i64 = 60_000;
/// days from 1 January 1970 to 1 January 2024
const MONDAY_DATE: i64 = 19_723;

fn at(hour: i64, minute: i64) -> i64 {
    MONDAY + (hour * 60 + minute) * MINUTE
}

fn total_count(buckets: &[Vec<BucketValue>]) -> u64 {
    buckets.iter().flatten().map(|bucket| u64::from(bucket.online_count)).sum()
}

fn total_dates(buckets: &[Vec<BucketValue>]) -> usize {
    buckets.iter().flatten().map(|bucket| bucket.total_dates()).sum()
}

fn consistent(buckets: &[Vec<BucketValue>]) -> bool {
    buckets
        .iter()
        .flatten()
        .all(|bucket| !bucket.vrcx_activity_dates.is_empty() || bucket.online_count == 0)
}

#[test]
fn grid_has_seven_days_of_empty_buckets() {
    let buckets = build_daily_buckets(96);
    assert_eq!(buckets.len(), 7);
    for day in buckets.iter() {
        assert_eq!(day.len(), 96);
        for bucket in day.iter() {
            assert_eq!(bucket.online_count, 0);
            assert_eq!(bucket.total_dates(), 0);
        }
    }
    assert!(build_daily_buckets(0).iter().all(|day| day.is_empty()));
}

#[test]
fn bucket_value_counts_and_remembers_dates() {
    let mut bucket = BucketValue::default();
    bucket.increment();
    bucket.increment();
    bucket.register_date(7);
    bucket.register_date(7);
    bucket.register_date(8);
    assert_eq!(bucket.online_count, 2);
    assert_eq!(bucket.total_dates(), 2);
}

#[test]
fn count_registration_truncates_the_start_and_steps_by_buckets() {
    let mut buckets = build_daily_buckets(96);
    update_bucket_counts_for_range(15, 0, TimeSpan::new(at(0, 7), at(0, 22)), &mut buckets);
    assert_eq!(buckets[0][0].online_count, 1);
    assert_eq!(buckets[0][1].online_count, 1);
    assert_eq!(buckets[0][2].online_count, 0);
    assert_eq!(total_count(&buckets), 2);
    assert!(buckets[0][0].vrcx_activity_dates.contains(&MONDAY_DATE));
    assert!(buckets[0][1].vrcx_activity_dates.contains(&MONDAY_DATE));
    assert_eq!(total_dates(&buckets), 2);
    assert!(consistent(&buckets));
}

#[test]
fn count_registration_stops_before_a_bucket_that_starts_at_the_end() {
    let mut buckets = build_daily_buckets(96);
    update_bucket_counts_for_range(15, 0, TimeSpan::new(at(0, 15), at(0, 30)), &mut buckets);
    assert_eq!(buckets[0][1].online_count, 1);
    assert_eq!(total_count(&buckets), 1);
}

#[test]
fn count_registration_counts_a_sliver() {
    let mut buckets = build_daily_buckets(96);
    update_bucket_counts_for_range(15, 0, TimeSpan::new(at(0, 14), at(0, 14) + 1), &mut buckets);
    assert_eq!(buckets[0][0].online_count, 1);
    assert_eq!(total_count(&buckets), 1);
}

#[test]
fn count_registration_of_the_same_slot_in_two_weeks_counts_twice_on_two_dates() {
    let mut buckets = build_daily_buckets(24);
    let week = 7 * 24 * 60 * MINUTE;
    update_bucket_counts_for_range(60, 0, TimeSpan::new(at(8, 10), at(8, 20)), &mut buckets);
    update_bucket_counts_for_range(
        60,
        0,
        TimeSpan::new(at(8, 30) + week, at(8, 40) + week),
        &mut buckets,
    );
    update_bucket_counts_for_range(60, 0, TimeSpan::new(at(8, 50), at(8, 55)), &mut buckets);
    assert_eq!(buckets[0][8].online_count, 3);
    assert_eq!(buckets[0][8].total_dates(), 2);
    assert_eq!(total_count(&buckets), 3);
}

#[test]
fn count_registration_over_midnight_moves_to_the_next_weekday() {
    let mut buckets = build_daily_buckets(96);
    update_bucket_counts_for_range(15, 0, TimeSpan::new(at(23, 50), at(24, 10)), &mut buckets);
    assert_eq!(buckets[0][95].online_count, 1);
    assert_eq!(buckets[1][0].online_count, 1);
    assert!(buckets[0][95].vrcx_activity_dates.contains(&MONDAY_DATE));
    assert!(buckets[1][0].vrcx_activity_dates.contains(&(MONDAY_DATE + 1)));
    assert_eq!(total_count(&buckets), 2);
}

#[test]
fn count_registration_goes_by_local_time() {
    let mut buckets = build_daily_buckets(96);
    // 23:50 UTC on Monday is 00:50 on Tuesday one hour east
    update_bucket_counts_for_range(15, 3600, TimeSpan::new(at(23, 50), at(23, 55)), &mut buckets);
    assert_eq!(buckets[1][3].online_count, 1);
    assert!(buckets[1][3].vrcx_activity_dates.contains(&(MONDAY_DATE + 1)));
    assert_eq!(total_count(&buckets), 1);
}

#[test]
fn count_registration_of_an_empty_range_does_nothing() {
    let mut buckets = build_daily_buckets(96);
    update_bucket_counts_for_range(15, 0, TimeSpan::new(at(0, 15), at(0, 15)), &mut buckets);
    update_bucket_counts_for_range(15, 0, TimeSpan::new(at(0, 45), at(0, 15)), &mut buckets);
    assert_eq!(total_count(&buckets), 0);
    assert_eq!(total_dates(&buckets), 0);
}

#[test]
fn date_registration_takes_whole_buckets_and_ends_that_are_mostly_covered() {
    let mut buckets = build_daily_buckets(96);
    // 8 of 15 minutes in front, one whole bucket, 10 of 15 minutes behind
    register_bucket_dates_for_range(15, 0, TimeSpan::new(at(0, 7), at(0, 40)), &mut buckets);
    assert_eq!(buckets[0][0].total_dates(), 1);
    assert_eq!(buckets[0][1].total_dates(), 1);
    assert_eq!(buckets[0][2].total_dates(), 1);
    assert_eq!(total_dates(&buckets), 3);
    assert_eq!(total_count(&buckets), 0);
}

#[test]
fn date_registration_leaves_out_ends_that_are_half_covered_or_less() {
    let mut buckets = build_daily_buckets(96);
    // 7 of 15 minutes in front, one whole bucket, 7 of 15 minutes behind
    register_bucket_dates_for_range(15, 0, TimeSpan::new(at(0, 8), at(0, 37)), &mut buckets);
    assert_eq!(buckets[0][0].total_dates(), 0);
    assert_eq!(buckets[0][1].total_dates(), 1);
    assert_eq!(buckets[0][2].total_dates(), 0);
    assert_eq!(total_dates(&buckets), 1);
    // exactly half is not more than half
    let mut buckets = build_daily_buckets(144);
    register_bucket_dates_for_range(10, 0, TimeSpan::new(at(0, 5), at(0, 25)), &mut buckets);
    assert_eq!(buckets[0][0].total_dates(), 0);
    assert_eq!(buckets[0][1].total_dates(), 1);
    assert_eq!(buckets[0][2].total_dates(), 0);
}

#[test]
fn date_registration_within_one_bucket_needs_more_than_half_of_it() {
    let mut buckets = build_daily_buckets(96);
    register_bucket_dates_for_range(15, 0, TimeSpan::new(at(0, 1), at(0, 8)), &mut buckets);
    assert_eq!(total_dates(&buckets), 0);
    register_bucket_dates_for_range(15, 0, TimeSpan::new(at(0, 1), at(0, 9)), &mut buckets);
    assert_eq!(buckets[0][0].total_dates(), 1);
    assert_eq!(total_dates(&buckets), 1);
    register_bucket_dates_for_range(15, 0, TimeSpan::new(at(0, 15), at(0, 23)), &mut buckets);
    assert_eq!(buckets[0][1].total_dates(), 1);
    register_bucket_dates_for_range(15, 0, TimeSpan::new(at(0, 30), at(0, 30)), &mut buckets);
    register_bucket_dates_for_range(15, 0, TimeSpan::new(at(0, 45), at(0, 30)), &mut buckets);
    assert_eq!(total_dates(&buckets), 2);
}

#[test]
fn date_registration_twice_is_registration_once() {
    let mut buckets = build_daily_buckets(96);
    let span = TimeSpan::new(at(3, 0), at(4, 0));
    register_bucket_dates_for_range(15, 0, span, &mut buckets);
    register_bucket_dates_for_range(15, 0, span, &mut buckets);
    assert_eq!(total_dates(&buckets), 4);
    for index in 12..16 {
        assert_eq!(buckets[0][index].total_dates(), 1);
    }
}

#[test]
fn single_date_is_registered_in_its_bucket() {
    let mut buckets = build_daily_buckets(48);
    // Wednesday 3 January 2024, 12:34 UTC, two hours west: 10:34
    let instant = at(48 + 12, 34);
    register_bucket_date(30, -7200, instant, &mut buckets);
    assert_eq!(buckets[2][21].total_dates(), 1);
    assert!(buckets[2][21].vrcx_activity_dates.contains(&(MONDAY_DATE + 2)));
    assert_eq!(buckets[2][21].online_count, 0);
    assert_eq!(total_dates(&buckets), 1);
}

#[test]
fn counts_never_come_without_dates() {
    let mut buckets = build_daily_buckets(96);
    assert!(consistent(&buckets));
    register_bucket_dates_for_range(15, 3600, TimeSpan::new(at(1, 0), at(5, 0)), &mut buckets);
    assert!(consistent(&buckets));
    update_bucket_counts_for_range(15, 3600, TimeSpan::new(at(0, 3), at(30, 0)), &mut buckets);
    assert!(consistent(&buckets));
    update_bucket_counts_for_range(15, -3600, TimeSpan::new(at(100, 3), at(101, 0)), &mut buckets);
    assert!(consistent(&buckets));
    assert_eq!(total_count(&buckets), 120 + 4);
}

#[test]
fn bucket_key_is_weekday_and_slot_of_local_time() {
    assert_eq!(bucket_key(15, 0, at(0, 0)), BucketKey { weekday: 0, bucket_index: 0 });
    assert_eq!(bucket_key(15, 0, at(0, 14)), BucketKey { weekday: 0, bucket_index: 0 });
    assert_eq!(bucket_key(15, 0, at(0, 15)), BucketKey { weekday: 0, bucket_index: 1 });
    assert_eq!(bucket_key(15, 0, at(23, 59)), BucketKey { weekday: 0, bucket_index: 95 });
    assert_eq!(bucket_key(15, 0, at(6 * 24, 0)), BucketKey { weekday: 6, bucket_index: 0 });
    assert_eq!(bucket_key(15, 0, at(7 * 24, 0)), BucketKey { weekday: 0, bucket_index: 0 });
    assert_eq!(bucket_key(60, 19_800, at(20, 0)), BucketKey { weekday: 1, bucket_index: 1 });
    // the first instant of 1970 was a Thursday, the one before it a Wednesday
    assert_eq!(bucket_key(1440, 0, 0), BucketKey { weekday: 3, bucket_index: 0 });
    assert_eq!(bucket_key(720, 0, -1), BucketKey { weekday: 2, bucket_index: 1 });
    assert_eq!(local_date(0, 0), 0);
    assert_eq!(local_date(0, -1), -1);
    assert_eq!(local_date(0, at(0, 0)), MONDAY_DATE);
    assert_eq!(local_date(1800, at(23, 30)), MONDAY_DATE + 1);
    assert_eq!(local_date(-1800, at(0, 29)), MONDAY_DATE - 1);
}

#[test]
fn bucket_key_agrees_with_the_calendar() {
    let instants: [i64; 8] = [
        0,
        -1,
        -86_400_001,
        951_782_400_000,
        1_704_067_199_999,
        1_709_210_096_789,
        4_102_444_800_000,
        -2_208_988_800_000,
    ];
    let offsets: [i32; 5] = [0, 3600, -18_000, 20_700, 50_400];
    let widths: [u32; 4] = [1, 15, 60, 1440];
    for instant in instants {
        for offset in offsets {
            let local = FixedOffset::east_opt(offset)
                .unwrap()
                .timestamp_millis_opt(instant)
                .unwrap();
            let date = i64::from(local.date_naive().num_days_from_ce()) - 719_163;
            assert_eq!(local_date(offset, instant), date);
            for width in widths {
                let key = bucket_key(width, offset, instant);
                assert_eq!(key.weekday, local.weekday().num_days_from_monday() as usize);
                let minute = local.hour() * 60 + local.minute();
                assert_eq!(key.bucket_index, (minute / width) as usize);
            }
        }
    }
}

/// the counts and dates that stepping through the range with the calendar gives
fn counted_by_the_calendar(
    width: u32,
    offset: i32,
    span: TimeSpan,
) -> Vec<Vec<(u32, HashSet<i64>)>> {
    let per_day = (1440 / width) as usize;
    let mut expected = vec![vec![(0u32, HashSet::new()); per_day]; 7];
    let zone = FixedOffset::east_opt(offset).unwrap();
    let bucket_duration = TimeDelta::minutes(i64::from(width));
    let end_time = zone.timestamp_millis_opt(span.stop).unwrap();
    let mut start_time = zone
        .timestamp_millis_opt(span.start)
        .unwrap()
        .duration_trunc(bucket_duration)
        .unwrap();
    while start_time < end_time {
        let day_index = start_time.weekday().num_days_from_monday() as usize;
        let minutes_of_day =
            start_time.time().signed_duration_since(NaiveTime::default()).num_minutes() as u32;
        let bucket_index = (minutes_of_day / width) as usize;
        let date = i64::from(start_time.date_naive().num_days_from_ce()) - 719_163;
        expected[day_index][bucket_index].0 += 1;
        expected[day_index][bucket_index].1.insert(date);
        start_time += bucket_duration;
    }
    expected
}

#[test]
fn count_registration_agrees_with_stepping_through_the_calendar() {
    let spans = [
        TimeSpan::new(at(0, 7), at(0, 22)),
        TimeSpan::new(at(23, 50), at(24, 10)),
        TimeSpan::new(at(5, 0), at(5 + 24 * 15, 1)),
        TimeSpan::new(at(9, 59) + 59_999, at(10, 0) + 1),
        TimeSpan::new(-86_400_000 * 3 - 1, 86_400_000 * 4 + 1),
        TimeSpan::new(at(3, 0), at(3, 0)),
        TimeSpan::new(at(3, 1), at(2, 0)),
    ];
    let offsets: [i32; 4] = [0, 3600, -34_200, 45_900];
    let widths: [u32; 4] = [5, 15, 60, 720];
    for span in spans {
        for offset in offsets {
            for width in widths {
                let mut buckets = build_daily_buckets((1440 / width) as usize);
                update_bucket_counts_for_range(width, offset, span, &mut buckets);
                let expected = counted_by_the_calendar(width, offset, span);
                for day in 0..7 {
                    for index in 0..(1440 / width) as usize {
                        assert_eq!(buckets[day][index].online_count, expected[day][index].0);
                        assert_eq!(buckets[day][index].vrcx_activity_dates, expected[day][index].1);
                    }
                }
            }
        }
    }
}

/// the dates of the buckets of which the range covers more than half, found
/// by looking at every bucket around the range
fn mostly_covered_by_the_calendar(
    width: u32,
    offset: i32,
    span: TimeSpan,
) -> Vec<Vec<HashSet<i64>>> {
    let per_day = (1440 / width) as usize;
    let mut expected = vec![vec![HashSet::new(); per_day]; 7];
    let zone = FixedOffset::east_opt(offset).unwrap();
    let bucket_duration = TimeDelta::minutes(i64::from(width));
    let start_time = zone.timestamp_millis_opt(span.start).unwrap();
    let end_time = zone.timestamp_millis_opt(span.stop).unwrap();
    let mut bucket_start = start_time.duration_trunc(bucket_duration).unwrap() - bucket_duration;
    while bucket_start <= end_time {
        let bucket_end = bucket_start + bucket_duration;
        let covered = end_time.min(bucket_end) - start_time.max(bucket_start);
        if covered * 2 > bucket_duration {
            let day_index = bucket_start.weekday().num_days_from_monday() as usize;
            let minutes_of_day = bucket_start.hour() * 60 + bucket_start.minute();
            let bucket_index = (minutes_of_day / width) as usize;
            let date = i64::from(bucket_start.date_naive().num_days_from_ce()) - 719_163;
            expected[day_index][bucket_index].insert(date);
        }
        bucket_start = bucket_end;
    }
    expected
}

#[test]
fn date_registration_agrees_with_looking_at_every_bucket() {
    let spans = [
        TimeSpan::new(at(0, 7), at(0, 40)),
        TimeSpan::new(at(0, 8), at(0, 37)),
        TimeSpan::new(at(23, 50), at(24, 10)),
        TimeSpan::new(at(5, 2) + 30_000, at(5 + 24 * 9, 57) + 30_001),
        TimeSpan::new(at(9, 59) + 59_999, at(10, 0) + 1),
        TimeSpan::new(-86_400_000 * 3 - 1, 86_400_000 * 4 + 1),
        TimeSpan::new(at(3, 0), at(3, 0)),
        TimeSpan::new(at(3, 1), at(2, 0)),
        TimeSpan::new(at(3, 1), at(3, 4)),
        TimeSpan::new(at(3, 1), at(3, 3) + 30_001),
    ];
    let offsets: [i32; 4] = [0, 3600, -34_200, 45_900];
    let widths: [u32; 4] = [5, 15, 60, 720];
    for span in spans {
        for offset in offsets {
            for width in widths {
                let mut buckets = build_daily_buckets((1440 / width) as usize);
                register_bucket_dates_for_range(width, offset, span, &mut buckets);
                let expected = mostly_covered_by_the_calendar(width, offset, span);
                for day in 0..7 {
                    for index in 0..(1440 / width) as usize {
                        assert_eq!(buckets[day][index].online_count, 0);
                        assert_eq!(buckets[day][index].vrcx_activity_dates, expected[day][index]);
                    }
                }
            }
        }
    }
}
