use vrcx_optimal_time::buckets::build_daily_buckets;
use vrcx_optimal_time::dto::{
    BucketValue, InvalidRow, OnlineOfflineEventType, Row, TimeSpan, UnknownEventType,
    VrcxStartStopEvent,
};
use vrcx_optimal_time::timestamps::{parse_created_at, parse_start_time, InvalidTimestamp};
use vrcx_optimal_time::buckets::{count_steps, counts_have_room};
use vrcx_optimal_time::presence::{
    count_presence_interval, is_user_allowed, process_row, NegativeDuration, NonPositiveClamp,
    OnlineUsers, PresenceFault,
};

/// Monday, 1 January 2024, 00:00 UTC
const MONDAY: i64 = 1_704_067_200_000;
const MINUTE: i64 = 60_000;

fn at(hour: i64, minute: i64) -> i64 {
    MONDAY + (hour * 60 + minute) * MINUTE
}

fn row(created_at: i64, user_id: &str, event_type: OnlineOfflineEventType) -> Row {
    Row {
        created_at,
        user_id: String::from(user_id),
        display_name: format!("name of {user_id}"),
        event_type,
    }
}

fn total_count(buckets: &[Vec<BucketValue>]) -> u64 {
    buckets.iter().flatten().map(|bucket| u64::from(bucket.online_count)).sum()
}

#[test]
fn event_type_is_read_from_its_name() {
    assert_eq!(
        OnlineOfflineEventType::try_from("Online").unwrap(),
        OnlineOfflineEventType::Online
    );
    assert_eq!(
        OnlineOfflineEventType::try_from("Offline").unwrap(),
        OnlineOfflineEventType::Offline
    );
    assert_eq!(OnlineOfflineEventType::try_from("online").unwrap_err().value, "online");
    assert_eq!(OnlineOfflineEventType::try_from("").unwrap_err().value, "");
    assert_eq!(OnlineOfflineEventType::try_from("Offline ").unwrap_err().value, "Offline ");
}

#[test]
fn every_user_is_allowed_without_a_list() {
    assert!(is_user_allowed("usr_a", &None));
    assert!(is_user_allowed("", &None));
}

#[test]
fn only_listed_users_are_allowed_with_a_list() {
    let friends = Some(vec![String::from("usr_a"), String::from("usr_b")]);
    assert!(is_user_allowed("usr_a", &friends));
    assert!(is_user_allowed("usr_b", &friends));
    assert!(!is_user_allowed("usr_c", &friends));
    assert!(!is_user_allowed("usr_", &friends));
    assert!(!is_user_allowed("usr_a", &Some(vec![])));
}

#[test]
fn online_then_offline_completes_an_interval() {
    let mut online = OnlineUsers::new();
    let came = row(at(1, 0), "usr_a", OnlineOfflineEventType::Online);
    let left = row(at(2, 0), "usr_a", OnlineOfflineEventType::Offline);
    assert_eq!(online.observe(&came, None, &None), Ok(None));
    assert_eq!(online.online_since(&String::from("usr_a")), Some(at(1, 0)));
    assert_eq!(online.observe(&left, None, &None), Ok(Some(TimeSpan::new(at(1, 0), at(2, 0)))));
    assert_eq!(online.online_since(&String::from("usr_a")), None);
    assert_eq!(online.observe(&left, None, &None), Ok(None));
}

#[test]
fn second_online_event_replaces_the_first() {
    let mut online = OnlineUsers::new();
    let first = row(at(1, 0), "usr_a", OnlineOfflineEventType::Online);
    let other = row(at(1, 10), "usr_b", OnlineOfflineEventType::Online);
    let second = row(at(1, 30), "usr_a", OnlineOfflineEventType::Online);
    let left = row(at(2, 0), "usr_a", OnlineOfflineEventType::Offline);
    let other_left = row(at(2, 5), "usr_b", OnlineOfflineEventType::Offline);
    assert_eq!(online.observe(&first, None, &None), Ok(None));
    assert_eq!(online.observe(&other, None, &None), Ok(None));
    assert_eq!(online.observe(&second, None, &None), Ok(None));
    assert_eq!(online.users.len(), 2);
    assert_eq!(online.observe(&left, None, &None), Ok(Some(TimeSpan::new(at(1, 30), at(2, 0)))));
    assert_eq!(
        online.observe(&other_left, None, &None),
        Ok(Some(TimeSpan::new(at(1, 10), at(2, 5))))
    );
    assert!(online.users.is_empty());
}

#[test]
fn offline_before_online_is_a_fault() {
    let mut online = OnlineUsers::new();
    let came = row(at(1, 0), "usr_a", OnlineOfflineEventType::Online);
    let left = row(at(0, 59), "usr_a", OnlineOfflineEventType::Offline);
    assert_eq!(online.observe(&came, None, &None), Ok(None));
    assert_eq!(
        online.observe(&left, None, &None),
        Err(NegativeDuration { online_time: at(1, 0), offline_time: at(0, 59) })
    );
}

#[test]
fn offline_at_the_instant_of_online_completes_nothing() {
    let mut online = OnlineUsers::new();
    let came = row(at(1, 0), "usr_a", OnlineOfflineEventType::Online);
    let left = row(at(1, 0), "usr_a", OnlineOfflineEventType::Offline);
    assert_eq!(online.observe(&came, None, &None), Ok(None));
    assert_eq!(online.observe(&left, None, &None), Ok(None));
    assert!(online.users.is_empty());
}

#[test]
fn rows_before_the_start_time_and_of_other_users_are_left_out() {
    let mut online = OnlineUsers::new();
    let friends = Some(vec![String::from("usr_a")]);
    let early = row(at(1, 0), "usr_a", OnlineOfflineEventType::Online);
    assert_eq!(online.observe(&early, Some(at(1, 1)), &friends), Ok(None));
    assert!(online.users.is_empty());
    let stranger = row(at(2, 0), "usr_b", OnlineOfflineEventType::Online);
    assert_eq!(online.observe(&stranger, Some(at(1, 1)), &friends), Ok(None));
    assert!(online.users.is_empty());
    let came = row(at(1, 1), "usr_a", OnlineOfflineEventType::Online);
    assert_eq!(online.observe(&came, Some(at(1, 1)), &friends), Ok(None));
    assert_eq!(online.users.len(), 1);
    let left = row(at(3, 0), "usr_a", OnlineOfflineEventType::Offline);
    assert_eq!(
        online.observe(&left, Some(at(1, 1)), &friends),
        Ok(Some(TimeSpan::new(at(1, 1), at(3, 0))))
    );
}

#[test]
fn presence_is_counted_where_the_observer_was_running() {
    let timeline = vec![
        VrcxStartStopEvent::start(at(23, 55)),
        VrcxStartStopEvent::stop(at(24, 0)),
        VrcxStartStopEvent::start(at(24, 1)),
        VrcxStartStopEvent::stop(at(24, 10)),
    ];
    let mut buckets = build_daily_buckets(96);
    let span = TimeSpan::new(at(23, 58), at(24, 3));
    assert_eq!(count_presence_interval(span, &timeline, 15, 0, &mut buckets), Ok(()));
    // [23:58, 00:00] counts into Monday's last bucket, [00:01, 00:03] into Tuesday's first
    assert_eq!(buckets[0][95].online_count, 1);
    assert_eq!(buckets[1][0].online_count, 1);
    assert_eq!(total_count(&buckets), 2);
}

#[test]
fn presence_during_downtime_is_dropped() {
    let timeline = vec![VrcxStartStopEvent::start(at(1, 0)), VrcxStartStopEvent::stop(at(2, 0))];
    let mut buckets = build_daily_buckets(96);
    let span = TimeSpan::new(at(3, 0), at(4, 0));
    assert_eq!(count_presence_interval(span, &timeline, 15, 0, &mut buckets), Ok(()));
    assert_eq!(count_presence_interval(span, &[], 15, 0, &mut buckets), Ok(()));
    assert_eq!(total_count(&buckets), 0);
}

#[test]
fn part_without_length_is_a_fault_and_nothing_is_counted() {
    // the observer was seen for an instant only
    let timeline = vec![
        VrcxStartStopEvent::start(at(1, 0)),
        VrcxStartStopEvent::stop(at(1, 0)),
        VrcxStartStopEvent::start(at(3, 0)),
        VrcxStartStopEvent::stop(at(4, 0)),
    ];
    let mut buckets = build_daily_buckets(96);
    let span = TimeSpan::new(at(1, 0), at(3, 30));
    assert_eq!(
        count_presence_interval(span, &timeline, 15, 0, &mut buckets),
        Err(NonPositiveClamp { part: TimeSpan::new(at(1, 0), at(1, 0)) })
    );
    assert_eq!(total_count(&buckets), 0);
}

#[test]
fn timestamp_of_a_row_is_read_as_milliseconds() {
    assert_eq!(parse_created_at("2024-01-01T00:00:00.000Z"), Ok(MONDAY));
    assert_eq!(parse_created_at("2024-01-01T00:05:00.123Z"), Ok(at(0, 5) + 123));
    assert_eq!(parse_created_at("2024-01-01 02:00:00+02:00"), Ok(MONDAY));
    assert_eq!(parse_created_at("1970-01-01T00:00:00Z"), Ok(0));
    assert_eq!(
        parse_created_at("2024-01-01"),
        Err(InvalidTimestamp { value: String::from("2024-01-01") })
    );
    assert_eq!(parse_created_at(""), Err(InvalidTimestamp { value: String::new() }));
}

#[test]
fn start_time_is_read_as_milliseconds() {
    assert_eq!(parse_start_time("2024-01-01T00:00:00Z"), Ok(MONDAY));
    assert_eq!(parse_start_time("2024-01-01T05:30:00+05:30"), Ok(MONDAY));
    assert_eq!(
        parse_start_time("2024-01-01T00:00:00"),
        Err(InvalidTimestamp { value: String::from("2024-01-01T00:00:00") })
    );
}

#[test]
fn row_is_read_from_its_columns() {
    let read = Row::try_from(
        "2024-01-01T01:00:00.000Z",
        String::from("usr_a"),
        String::from("A"),
        "Online",
    );
    assert_eq!(
        read,
        Ok(Row {
            created_at: at(1, 0),
            user_id: String::from("usr_a"),
            display_name: String::from("A"),
            event_type: OnlineOfflineEventType::Online,
        })
    );
    let read = Row::try_from(
        "2024-01-01T02:00:00.000Z",
        String::from("usr_a"),
        String::from("A"),
        "Offline",
    );
    assert_eq!(read.unwrap().event_type, OnlineOfflineEventType::Offline);
}

#[test]
fn row_with_a_bad_column_is_refused() {
    let read = Row::try_from(
        "2024-01-01T01:00:00.000Z",
        String::from("usr_a"),
        String::from("A"),
        "Away",
    );
    assert_eq!(
        read,
        Err(InvalidRow::EventType(UnknownEventType { value: String::from("Away") }))
    );
    let read = Row::try_from("noon", String::from("usr_a"), String::from("A"), "Online");
    assert_eq!(
        read,
        Err(InvalidRow::Timestamp(InvalidTimestamp { value: String::from("noon") }))
    );
    // the timestamp is looked at first
    let read = Row::try_from("noon", String::from("usr_a"), String::from("A"), "Away");
    assert_eq!(
        read,
        Err(InvalidRow::Timestamp(InvalidTimestamp { value: String::from("noon") }))
    );
}

#[test]
fn row_takes_the_timestamp_that_was_read() {
    let read =
        Row::from_parsed_columns(Ok(42), String::from("usr_a"), String::from("A"), "Offline");
    assert_eq!(
        read,
        Ok(Row {
            created_at: 42,
            user_id: String::from("usr_a"),
            display_name: String::from("A"),
            event_type: OnlineOfflineEventType::Offline,
        })
    );
    let fault = InvalidTimestamp { value: String::from("never") };
    let read =
        Row::from_parsed_columns(Err(fault), String::from("usr_a"), String::from("A"), "Online");
    assert_eq!(
        read,
        Err(InvalidRow::Timestamp(InvalidTimestamp { value: String::from("never") }))
    );
}

#[test]
fn rows_are_paired_and_counted() {
    let timeline = vec![VrcxStartStopEvent::start(at(1, 0)), VrcxStartStopEvent::stop(at(3, 0))];
    let mut buckets = build_daily_buckets(24);
    let mut online = OnlineUsers::new();
    let rows = vec![
        row(at(1, 10), "usr_a", OnlineOfflineEventType::Online),
        row(at(1, 20), "usr_b", OnlineOfflineEventType::Online),
        row(at(1, 50), "usr_a", OnlineOfflineEventType::Offline),
        row(at(2, 30), "usr_b", OnlineOfflineEventType::Offline),
        row(at(2, 40), "usr_b", OnlineOfflineEventType::Offline),
        row(at(2, 50), "usr_c", OnlineOfflineEventType::Online),
        row(at(3, 30), "usr_c", OnlineOfflineEventType::Offline),
    ];
    for row in rows.iter() {
        assert_eq!(process_row(&mut online, row, None, &None, &timeline, 60, 0, &mut buckets), Ok(()));
    }
    // usr_a from 01:10 to 01:50, usr_b from 01:20 to 02:30, usr_c from 02:50 to 03:00
    assert_eq!(buckets[0][1].online_count, 2);
    assert_eq!(buckets[0][2].online_count, 2);
    assert_eq!(buckets[0][3].online_count, 0);
    assert_eq!(total_count(&buckets), 4);
    assert!(online.users.is_empty());
}

#[test]
fn row_that_answers_a_later_online_event_ends_the_run() {
    let timeline = vec![VrcxStartStopEvent::start(at(1, 0)), VrcxStartStopEvent::stop(at(3, 0))];
    let mut buckets = build_daily_buckets(24);
    let mut online = OnlineUsers::new();
    let came = row(at(2, 0), "usr_a", OnlineOfflineEventType::Online);
    let left = row(at(1, 0), "usr_a", OnlineOfflineEventType::Offline);
    assert_eq!(process_row(&mut online, &came, None, &None, &timeline, 60, 0, &mut buckets), Ok(()));
    assert_eq!(
        process_row(&mut online, &left, None, &None, &timeline, 60, 0, &mut buckets),
        Err(PresenceFault::NegativeDuration(NegativeDuration {
            online_time: at(2, 0),
            offline_time: at(1, 0)
        }))
    );
    assert_eq!(total_count(&buckets), 0);
}

#[test]
fn row_whose_interval_has_a_part_without_length_ends_the_run() {
    let timeline = vec![
        VrcxStartStopEvent::start(at(1, 0)),
        VrcxStartStopEvent::stop(at(1, 0)),
        VrcxStartStopEvent::start(at(3, 0)),
        VrcxStartStopEvent::stop(at(4, 0)),
    ];
    let mut buckets = build_daily_buckets(24);
    let mut online = OnlineUsers::new();
    let came = row(at(1, 0), "usr_a", OnlineOfflineEventType::Online);
    let left = row(at(3, 30), "usr_a", OnlineOfflineEventType::Offline);
    assert_eq!(process_row(&mut online, &came, None, &None, &timeline, 60, 0, &mut buckets), Ok(()));
    assert_eq!(
        process_row(&mut online, &left, None, &None, &timeline, 60, 0, &mut buckets),
        Err(PresenceFault::NonPositiveClamp(NonPositiveClamp {
            part: TimeSpan::new(at(1, 0), at(1, 0))
        }))
    );
    assert_eq!(total_count(&buckets), 0);
}

#[test]
fn row_is_refused_where_the_counts_are_full() {
    let timeline = vec![VrcxStartStopEvent::start(at(1, 0)), VrcxStartStopEvent::stop(at(3, 0))];
    let mut buckets = build_daily_buckets(24);
    buckets[4][7].online_count = u32::MAX - 3;
    let mut online = OnlineUsers::new();
    let came = row(at(1, 10), "usr_a", OnlineOfflineEventType::Online);
    let left = row(at(2, 50), "usr_a", OnlineOfflineEventType::Offline);
    assert_eq!(process_row(&mut online, &came, None, &None, &timeline, 60, 0, &mut buckets), Ok(()));
    // two steps, and room for four is asked for
    assert_eq!(
        process_row(&mut online, &left, None, &None, &timeline, 60, 0, &mut buckets),
        Err(PresenceFault::CountsFull { time_span: TimeSpan::new(at(1, 10), at(2, 50)) })
    );
    assert_eq!(buckets[0][1].online_count, 0);
    buckets[4][7].online_count = u32::MAX - 4;
    assert_eq!(process_row(&mut online, &came, None, &None, &timeline, 60, 0, &mut buckets), Ok(()));
    assert_eq!(process_row(&mut online, &left, None, &None, &timeline, 60, 0, &mut buckets), Ok(()));
    assert_eq!(buckets[0][1].online_count, 1);
    assert_eq!(buckets[0][2].online_count, 1);
}

#[test]
fn steps_of_a_range_are_the_buckets_it_touches() {
    assert_eq!(count_steps(15, 0, TimeSpan::new(at(0, 7), at(0, 22))), 2);
    assert_eq!(count_steps(15, 0, TimeSpan::new(at(0, 0), at(0, 15))), 1);
    assert_eq!(count_steps(15, 0, TimeSpan::new(at(0, 0), at(0, 15) + 1)), 2);
    assert_eq!(count_steps(15, 0, TimeSpan::new(at(0, 14), at(0, 14) + 1)), 1);
    assert_eq!(count_steps(15, 0, TimeSpan::new(at(0, 15), at(0, 15))), 0);
    assert_eq!(count_steps(15, 0, TimeSpan::new(at(0, 16), at(0, 15))), 0);
    assert_eq!(count_steps(1440, 3600, TimeSpan::new(at(22, 0), at(23, 30))), 2);
    assert_eq!(count_steps(1, 0, TimeSpan::new(i64::MIN, i64::MAX)), 307_445_734_561_826);
}

#[test]
fn room_is_room_in_every_bucket() {
    let mut buckets = build_daily_buckets(4);
    assert!(counts_have_room(&buckets, 0));
    assert!(counts_have_room(&buckets, u64::from(u32::MAX)));
    assert!(!counts_have_room(&buckets, u64::from(u32::MAX) + 1));
    assert!(!counts_have_room(&buckets, u64::MAX));
    buckets[6][3].online_count = 10;
    assert!(counts_have_room(&buckets, u64::from(u32::MAX) - 10));
    assert!(!counts_have_room(&buckets, u64::from(u32::MAX) - 9));
    assert!(counts_have_room(&Vec::new(), u64::MAX));
}
