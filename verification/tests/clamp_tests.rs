use vrcx_optimal_time::clamp::{clamp_range_to_vrcx_uptime, NotRecoverable};
use vrcx_optimal_time::dto::{TimeSpan, VrcxStartStopEvent};

/// Monday, 1 January 2024, 00:00 UTC
const MONDAY: i64 = 1_704_067_200_000;
const MINUTE: i64 = 60_000;

fn at(hour: i64, minute: i64) -> i64 {
    MONDAY + (hour * 60 + minute) * MINUTE
}

fn two_windows() -> Vec<VrcxStartStopEvent> {
    vec![
        VrcxStartStopEvent::start(at(23, 55)),
        VrcxStartStopEvent::stop(at(24, 0)),
        VrcxStartStopEvent::start(at(24, 1)),
        VrcxStartStopEvent::stop(at(24, 10)),
    ]
}

#[test]
fn interval_within_one_window_is_returned_unchanged() {
    let timeline = vec![VrcxStartStopEvent::start(at(0, 0)), VrcxStartStopEvent::stop(at(0, 5))];
    let span = TimeSpan::new(at(0, 2), at(0, 4));
    assert_eq!(clamp_range_to_vrcx_uptime(span, &timeline), Ok(vec![span]));
}

#[test]
fn interval_over_a_restart_is_split_in_two() {
    let span = TimeSpan::new(at(23, 58), at(24, 3));
    assert_eq!(
        clamp_range_to_vrcx_uptime(span, &two_windows()),
        Ok(vec![
            TimeSpan::new(at(23, 58), at(24, 0)),
            TimeSpan::new(at(24, 1), at(24, 3)),
        ])
    );
}

#[test]
fn interval_that_starts_during_downtime_keeps_its_tail() {
    let span = TimeSpan::new(at(24, 0) + 30_000, at(24, 5));
    assert_eq!(
        clamp_range_to_vrcx_uptime(span, &two_windows()),
        Ok(vec![TimeSpan::new(at(24, 1), at(24, 5))])
    );
}

#[test]
fn interval_that_ends_during_downtime_keeps_its_head() {
    let span = TimeSpan::new(at(23, 56), at(24, 0) + 30_000);
    assert_eq!(
        clamp_range_to_vrcx_uptime(span, &two_windows()),
        Ok(vec![TimeSpan::new(at(23, 56), at(24, 0))])
    );
}

#[test]
fn interval_that_ends_after_the_last_stop_keeps_its_head() {
    let span = TimeSpan::new(at(24, 2), at(25, 0));
    assert_eq!(
        clamp_range_to_vrcx_uptime(span, &two_windows()),
        Ok(vec![TimeSpan::new(at(24, 2), at(24, 10))])
    );
}

#[test]
fn interval_within_downtime_is_dropped() {
    let span = TimeSpan::new(at(24, 0) + 10_000, at(24, 0) + 50_000);
    assert_eq!(clamp_range_to_vrcx_uptime(span, &two_windows()), Err(NotRecoverable));
}

#[test]
fn interval_after_all_uptime_is_dropped() {
    let span = TimeSpan::new(at(24, 11), at(24, 12));
    assert_eq!(clamp_range_to_vrcx_uptime(span, &two_windows()), Err(NotRecoverable));
}

#[test]
fn interval_that_starts_before_every_event_is_dropped() {
    let span = TimeSpan::new(at(23, 0), at(23, 57));
    assert_eq!(clamp_range_to_vrcx_uptime(span, &two_windows()), Err(NotRecoverable));
}

#[test]
fn interval_on_an_empty_timeline_is_dropped() {
    let span = TimeSpan::new(at(0, 0), at(1, 0));
    assert_eq!(clamp_range_to_vrcx_uptime(span, &[]), Err(NotRecoverable));
}

#[test]
fn interval_that_starts_at_a_start_and_ends_at_a_stop_is_kept() {
    let span = TimeSpan::new(at(24, 1), at(24, 10));
    assert_eq!(clamp_range_to_vrcx_uptime(span, &two_windows()), Ok(vec![span]));
}

#[test]
fn interval_that_starts_at_a_stop_keeps_its_tail() {
    let span = TimeSpan::new(at(24, 0), at(24, 5));
    assert_eq!(
        clamp_range_to_vrcx_uptime(span, &two_windows()),
        Ok(vec![TimeSpan::new(at(24, 1), at(24, 5))])
    );
}

#[test]
fn clamped_parts_lie_within_the_interval_and_a_window() {
    let timeline = two_windows();
    let mut start = at(23, 50);
    while start < at(24, 12) {
        let mut stop = start + 30_000;
        while stop < at(24, 15) {
            let span = TimeSpan::new(start, stop);
            if let Ok(parts) = clamp_range_to_vrcx_uptime(span, &timeline) {
                assert!(parts.len() == 1 || parts.len() == 2);
                for part in parts {
                    assert!(part.start < part.stop);
                    assert!(span.start <= part.start && part.stop <= span.stop);
                    let in_first =
                        timeline[0].timestamp <= part.start && part.stop <= timeline[1].timestamp;
                    let in_second =
                        timeline[2].timestamp <= part.start && part.stop <= timeline[3].timestamp;
                    assert!(in_first || in_second);
                }
            }
            stop += 30_000;
        }
        start += 30_000;
    }
}

#[test]
fn time_span_knows_its_duration() {
    let span = TimeSpan::new(5, 12);
    assert_eq!(span.duration(), 7);
    assert!(!span.is_negative_or_zero());
    assert!(TimeSpan::new(5, 5).is_negative_or_zero());
    assert!(TimeSpan::new(5, 4).is_negative_or_zero());
    assert_eq!(TimeSpan::new(i64::MAX, i64::MIN).duration(), -(u64::MAX as i128));
}
