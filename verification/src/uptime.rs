//! Inferring from a log of activity timestamps when the observer was running.

use crate::buckets::{active_dates, grid_consistent, grid_shape, register_bucket_dates_for_range};
use crate::clamp::{
    timeline_alternates, timeline_ordered, timeline_strictly_ordered, well_formed_timeline,
};
use crate::dto::{BucketValue, TimeSpan, VrcxStartStopEvent, VrcxStartStopEventType};
use crate::local_time::{buckets_per_day, valid_bucket_minutes};
use vstd::prelude::*;

verus! {

/// The log is not ascending: the timestamp after position `index` is earlier
/// than the one at `index`.
#[derive(Clone, Copy, Debug, PartialEq, Eq, Structural)]
pub struct OutOfOrder {
    pub index: usize,
}

/// No timestamp is earlier than one before it.
pub open spec fn ascending(timestamps: Seq<i64>) -> bool {
    forall|i: int, j: int| 0 <= i <= j < timestamps.len() ==> timestamps[i] <= timestamps[j]
}

/// The observer counts as running from timestamp `i` to the next one: they
/// are no further apart than the threshold.
pub open spec fn gap_active(timestamps: Seq<i64>, threshold: int, i: int) -> bool {
    &&& 0 <= i && i + 1 < timestamps.len()
    &&& 0 <= timestamps[i + 1] - timestamps[i] <= threshold
}

/// The observer starts running at timestamp `i`: it runs from there on and
/// did not before.
pub open spec fn is_start_point(timestamps: Seq<i64>, threshold: int, i: int) -> bool {
    gap_active(timestamps, threshold, i) && !gap_active(timestamps, threshold, i - 1)
}

/// The observer stops running at timestamp `i`: it ran up to there and does
/// not from there on. The last timestamp of the log ends whatever runs.
pub open spec fn is_stop_point(timestamps: Seq<i64>, threshold: int, i: int) -> bool {
    gap_active(timestamps, threshold, i - 1) && !gap_active(timestamps, threshold, i)
}

/// The start and stop events at the first `n` timestamps, in their order.
pub open spec fn timeline_up_to(timestamps: Seq<i64>, threshold: int, n: int) -> Seq<
    VrcxStartStopEvent,
>
    decreases n,
{
    if n <= 0 {
        Seq::empty()
    } else {
        let earlier = timeline_up_to(timestamps, threshold, n - 1);
        if is_start_point(timestamps, threshold, n - 1) {
            earlier.push(
                VrcxStartStopEvent {
                    timestamp: timestamps[n - 1],
                    event: VrcxStartStopEventType::Start,
                },
            )
        } else if is_stop_point(timestamps, threshold, n - 1) {
            earlier.push(
                VrcxStartStopEvent {
                    timestamp: timestamps[n - 1],
                    event: VrcxStartStopEventType::Stop,
                },
            )
        } else {
            earlier
        }
    }
}

/// The uptime timeline of a log: a start where a run of active gaps begins
/// and a stop where it ends.
pub open spec fn uptime_timeline(timestamps: Seq<i64>, threshold: int) -> Seq<
    VrcxStartStopEvent,
> {
    timeline_up_to(timestamps, threshold, timestamps.len() as int)
}

/// Gap `i` is active and shows the observer active on `day` in bucket
/// `index` of `weekday`.
pub open spec fn gap_registers(
    timestamps: Seq<i64>,
    threshold: int,
    bucket_minutes: int,
    utc_offset_seconds: int,
    i: int,
    weekday: int,
    index: int,
    day: i64,
) -> bool {
    gap_active(timestamps, threshold, i) && active_dates(
        bucket_minutes,
        utc_offset_seconds,
        TimeSpan { start: timestamps[i], stop: timestamps[i + 1] },
        weekday,
        index,
    ).contains(day)
}

/// The dates that the first `gaps` gaps of the log show the observer active
/// on, for bucket `index` of `weekday`.
pub open spec fn observed_dates(
    timestamps: Seq<i64>,
    threshold: int,
    bucket_minutes: int,
    utc_offset_seconds: int,
    gaps: int,
    weekday: int,
    index: int,
) -> Set<i64> {
    Set::new(
        |day: i64|
            exists|i: int|
                0 <= i < gaps && #[trigger] gap_registers(
                    timestamps,
                    threshold,
                    bucket_minutes,
                    utc_offset_seconds,
                    i,
                    weekday,
                    index,
                    day,
                ),
    )
}

/// The events at the first `n` timestamps begin with a start, alternate, and
/// end on a start exactly where the observer runs on from timestamp `n - 1`.
proof fn lemma_timeline_prefix_alternates(timestamps: Seq<i64>, threshold: int, n: int)
    requires
        0 <= n <= timestamps.len(),
    ensures
        ({
            let events = timeline_up_to(timestamps, threshold, n);
            &&& events.len() > 0 ==> events.first().event == VrcxStartStopEventType::Start
            &&& forall|i: int, j: int|
                0 <= i && j == i + 1 && j < events.len() ==> (#[trigger] events[i]).event != (
                #[trigger] events[j]).event
            &&& (events.len() > 0 && events.last().event == VrcxStartStopEventType::Start)
                <==> gap_active(timestamps, threshold, n - 1)
        }),
    decreases n,
{
    if n > 0 {
        lemma_timeline_prefix_alternates(timestamps, threshold, n - 1);
    }
}

/// Alternation: the uptime timeline of any log begins with a start, changes
/// kind from each event to the next, and ends on a stop.
pub proof fn lemma_timeline_alternates(timestamps: Seq<i64>, threshold: int)
    ensures
        timeline_alternates(uptime_timeline(timestamps, threshold)),
{
    lemma_timeline_prefix_alternates(timestamps, threshold, timestamps.len() as int);
}

/// No event at the first `n` timestamps of an ascending log is later than
/// timestamp `n - 1`, nor earlier than an event before it.
proof fn lemma_timeline_prefix_ordered(timestamps: Seq<i64>, threshold: int, n: int)
    requires
        ascending(timestamps),
        0 <= n <= timestamps.len(),
    ensures
        timeline_ordered(timeline_up_to(timestamps, threshold, n)),
        forall|k: int|
            0 <= k < timeline_up_to(timestamps, threshold, n).len() ==> (
            #[trigger] timeline_up_to(timestamps, threshold, n)[k]).timestamp <= timestamps[n - 1],
    decreases n,
{
    if n > 0 {
        lemma_timeline_prefix_ordered(timestamps, threshold, n - 1);
        let earlier = timeline_up_to(timestamps, threshold, n - 1);
        assert forall|k: int| 0 <= k < earlier.len() implies (#[trigger] earlier[k]).timestamp
            <= timestamps[n - 1] by {
            assert(timestamps[n - 2] <= timestamps[n - 1]);
        }
    }
}

/// The uptime timeline of an ascending log is one that clamping accepts.
pub proof fn lemma_timeline_well_formed(timestamps: Seq<i64>, threshold: int)
    requires
        ascending(timestamps),
    ensures
        well_formed_timeline(uptime_timeline(timestamps, threshold)),
{
    lemma_timeline_alternates(timestamps, threshold);
    lemma_timeline_prefix_ordered(timestamps, threshold, timestamps.len() as int);
}

/// Every timestamp is later than all before it.
pub open spec fn strictly_ascending(timestamps: Seq<i64>) -> bool {
    forall|i: int, j: int| 0 <= i < j < timestamps.len() ==> timestamps[i] < timestamps[j]
}

/// The events at the first `n` timestamps of a strictly ascending log are
/// strictly ordered, and none is later than timestamp `n - 1`.
proof fn lemma_timeline_prefix_strictly_ordered(
    timestamps: Seq<i64>,
    threshold: int,
    n: int,
)
    requires
        strictly_ascending(timestamps),
        0 <= n <= timestamps.len(),
    ensures
        timeline_strictly_ordered(timeline_up_to(timestamps, threshold, n)),
        forall|k: int|
            0 <= k < timeline_up_to(timestamps, threshold, n).len() ==> (
            #[trigger] timeline_up_to(timestamps, threshold, n)[k]).timestamp <= timestamps[n - 1],
    decreases n,
{
    if n > 0 {
        lemma_timeline_prefix_strictly_ordered(timestamps, threshold, n - 1);
        let earlier = timeline_up_to(timestamps, threshold, n - 1);
        assert forall|k: int| 0 <= k < earlier.len() implies (#[trigger] earlier[k]).timestamp
            < timestamps[n - 1] by {
            assert(timestamps[n - 2] < timestamps[n - 1]);
        }
    }
}

/// The uptime timeline of a log without repeated timestamps is strictly
/// ordered: each of its uptime windows is of positive length.
pub proof fn lemma_timeline_strictly_ordered(timestamps: Seq<i64>, threshold: int)
    requires
        strictly_ascending(timestamps),
    ensures
        timeline_strictly_ordered(uptime_timeline(timestamps, threshold)),
{
    lemma_timeline_prefix_strictly_ordered(timestamps, threshold, timestamps.len() as int);
}

/// Reconstructs from the ascending log of activity timestamps when the
/// observer was running.
///
/// Two timestamps no further apart than `threshold_millis` show the
/// observer running from the one to the other. The timeline holds a start
/// where such a run begins and a stop where it ends, and every such pair is
/// registered in `buckets` as a range in which the observer was active. A
/// timestamp that is earlier than the one before it ends the work with an
/// error: the pairs before it have been registered.
pub fn reconstruct_uptime(
    timestamps: &[i64],
    threshold_millis: i64,
    bucket_duration_minutes: u32,
    utc_offset_seconds: i32,
    buckets: &mut Vec<Vec<BucketValue>>,
) -> (outcome: Result<Vec<VrcxStartStopEvent>, OutOfOrder>)
    requires
        valid_bucket_minutes(bucket_duration_minutes as int),
        grid_shape(old(buckets)@, buckets_per_day(bucket_duration_minutes as int)),
    ensures
        outcome is Ok <==> ascending(timestamps@),
        outcome matches Ok(events) ==> events@ == uptime_timeline(
            timestamps@,
            threshold_millis as int,
        ) && well_formed_timeline(events@),
        outcome matches Err(fault) ==> fault.index + 1 < timestamps@.len() && timestamps@[fault.index
            + 1] < timestamps@[fault.index as int] && ascending(
            timestamps@.take(fault.index + 1),
        ),
        grid_shape(final(buckets)@, buckets_per_day(bucket_duration_minutes as int)),
        forall|d: int, b: int|
            0 <= d < 7 && 0 <= b < buckets_per_day(bucket_duration_minutes as int) ==> (
            #[trigger] final(buckets)[d][b]).online_count == old(buckets)[d][b].online_count,
        forall|d: int, b: int|
            0 <= d < 7 && 0 <= b < buckets_per_day(bucket_duration_minutes as int) ==> (
            #[trigger] final(buckets)[d][b]).dates() == old(buckets)[d][b].dates().union(
                observed_dates(
                    timestamps@,
                    threshold_millis as int,
                    bucket_duration_minutes as int,
                    utc_offset_seconds as int,
                    match outcome {
                        Ok(_) => timestamps@.len() - 1,
                        Err(fault) => fault.index as int,
                    },
                    d,
                    b,
                ),
            ),
        grid_consistent(old(buckets)@) ==> grid_consistent(final(buckets)@),
{
    let ghost log = timestamps@;
    let ghost threshold = threshold_millis as int;
    let ghost minutes = bucket_duration_minutes as int;
    let ghost offset = utc_offset_seconds as int;
    let ghost per_day = buckets_per_day(minutes);
    let ghost before = buckets@;
    let mut vrcx_start_stop_events: Vec<VrcxStartStopEvent> = Vec::new();
    let mut vrcx_running: bool = false;
    let mut i: usize = 0;
    proof {
        assert forall|d: int, b: int| 0 <= d < 7 && 0 <= b < per_day implies (
        #[trigger] buckets[d][b]).dates() == before[d][b].dates().union(
            observed_dates(log, threshold, minutes, offset, 0, d, b),
        ) by {
            assert(observed_dates(log, threshold, minutes, offset, 0, d, b) =~= Set::<
                i64,
            >::empty());
            assert(before[d][b].dates().union(Set::<i64>::empty()) =~= before[d][b].dates());
        }
    }
    let count: usize = timestamps.len();
    while count > 0 && i < count - 1
        invariant
            log == timestamps@,
            count == log.len(),
            before == old(buckets)@,
            threshold == threshold_millis,
            minutes == bucket_duration_minutes,
            offset == utc_offset_seconds,
            per_day == buckets_per_day(minutes),
            valid_bucket_minutes(minutes),
            i <= log.len(),
            log.len() > 0 ==> i < log.len(),
            forall|a: int, b: int| 0 <= a <= b <= i && b < log.len() ==> log[a] <= log[b],
            vrcx_start_stop_events@ == timeline_up_to(log, threshold, i as int),
            vrcx_running == gap_active(log, threshold, i - 1),
            grid_shape(before, per_day),
            grid_shape(buckets@, per_day),
            forall|d: int, b: int|
                0 <= d < 7 && 0 <= b < per_day ==> (#[trigger] buckets[d][b]).online_count
                    == before[d][b].online_count,
            forall|d: int, b: int|
                0 <= d < 7 && 0 <= b < per_day ==> (#[trigger] buckets[d][b]).dates()
                    == before[d][b].dates().union(
                    observed_dates(log, threshold, minutes, offset, i as int, d, b),
                ),
            grid_consistent(before) ==> grid_consistent(buckets@),
        decreases log.len() - i,
    {
        let event_timestamp_1: i64 = timestamps[i];
        let event_timestamp_2: i64 = timestamps[i + 1];
        let duration: i128 = event_timestamp_2 as i128 - event_timestamp_1 as i128;
        if duration < 0 {
            // the data is not, in fact, ascending
            proof {
                let upto = log.take(i + 1);
                assert forall|a: int, b: int| 0 <= a <= b < upto.len() implies upto[a]
                    <= upto[b] by {
                    assert(upto[a] == log[a] && upto[b] == log[b]);
                }
            }
            return Err(OutOfOrder { index: i });
        }
        let ghost previous = buckets@;
        if duration <= threshold_millis as i128 {
            // duration between events was within the threshold, so assume the
            // observer is running for this entire time range
            if !vrcx_running {
                // the observer just started running
                vrcx_running = true;
                vrcx_start_stop_events.push(VrcxStartStopEvent::start(event_timestamp_1));
            }
            // use the events to reason that the observer is running during this range
            let time_span = TimeSpan::new(event_timestamp_1, event_timestamp_2);
            register_bucket_dates_for_range(
                bucket_duration_minutes,
                utc_offset_seconds,
                time_span,
                buckets,
            );
        } else if vrcx_running {
            // duration was outside the threshold, so assume the observer is *not*
            // running for this range (which may be quite long); it was running in
            // the previous range, therefore we need to push a stop event
            vrcx_running = false;
            vrcx_start_stop_events.push(VrcxStartStopEvent::stop(event_timestamp_1));
        }
        proof {
            let gap = i as int;
            let span = TimeSpan { start: log[gap], stop: log[gap + 1] };
            assert forall|d: int, b: int| 0 <= d < 7 && 0 <= b < per_day implies (
            #[trigger] buckets[d][b]).dates() == before[d][b].dates().union(
                observed_dates(log, threshold, minutes, offset, gap + 1, d, b),
            ) by {
                let earlier = observed_dates(log, threshold, minutes, offset, gap, d, b);
                let later = observed_dates(log, threshold, minutes, offset, gap + 1, d, b);
                let added = active_dates(minutes, offset, span, d, b);
                assert(previous[d][b].dates() == before[d][b].dates().union(earlier));
                if gap_active(log, threshold, gap) {
                    assert forall|day: i64| later.contains(day) == (earlier.contains(day)
                        || added.contains(day)) by {
                        if added.contains(day) {
                            assert(gap_registers(
                                log,
                                threshold,
                                minutes,
                                offset,
                                gap,
                                d,
                                b,
                                day,
                            ));
                        }
                    }
                    assert(later =~= earlier.union(added));
                    assert(buckets[d][b].dates() == previous[d][b].dates().union(added));
                    assert(buckets[d][b].dates() =~= before[d][b].dates().union(later));
                } else {
                    assert(later =~= earlier);
                    assert(buckets[d][b] == previous[d][b]);
                }
            }
        }
        i = i + 1;
    }
    // push the final stop event, if needed
    if vrcx_running {
        vrcx_start_stop_events.push(VrcxStartStopEvent::stop(timestamps[i]));
    }
    proof {
        if log.len() > 0 {
            assert(i == log.len() - 1);
            assert(!gap_active(log, threshold, i as int));
        }
        assert(vrcx_start_stop_events@ =~= uptime_timeline(log, threshold));
        lemma_timeline_well_formed(log, threshold);
    }
    Ok(vrcx_start_stop_events)
}

} // verus!
