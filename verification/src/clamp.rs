//! Clamping a presence interval to the time the observer was running.

use crate::dto::{TimeSpan, VrcxStartStopEvent, VrcxStartStopEventType};
use vstd::prelude::*;

verus! {

/// The interval began while the observer was down and cannot be matched to
/// any uptime window: it is to be dropped.
#[derive(Clone, Copy, Debug, PartialEq, Eq, Structural)]
pub struct NotRecoverable;

/// The timeline begins with a start, ends with a stop, and no two
/// neighbouring events are of the same kind.
pub open spec fn timeline_alternates(events: Seq<VrcxStartStopEvent>) -> bool {
    &&& events.len() > 0 ==> events.first().event == VrcxStartStopEventType::Start
    &&& events.len() > 0 ==> events.last().event == VrcxStartStopEventType::Stop
    &&& forall|i: int, j: int|
        0 <= i && j == i + 1 && j < events.len() ==> (#[trigger] events[i]).event
            != (#[trigger] events[j]).event
}

/// No event is earlier than one before it.
pub open spec fn timeline_ordered(events: Seq<VrcxStartStopEvent>) -> bool {
    forall|i: int, j: int|
        0 <= i <= j < events.len() ==> events[i].timestamp <= events[j].timestamp
}

/// Every event is later than all before it.
pub open spec fn timeline_strictly_ordered(events: Seq<VrcxStartStopEvent>) -> bool {
    forall|i: int, j: int|
        0 <= i < j < events.len() ==> events[i].timestamp < events[j].timestamp
}

/// What clamping asks of a timeline.
pub open spec fn well_formed_timeline(events: Seq<VrcxStartStopEvent>) -> bool {
    timeline_alternates(events) && timeline_ordered(events)
}

/// The observer ran from event `w`, a start, to event `w + 1`, the stop that follows it.
pub open spec fn is_uptime_window(events: Seq<VrcxStartStopEvent>, w: int) -> bool {
    &&& 0 <= w && w + 1 < events.len()
    &&& events[w].event == VrcxStartStopEventType::Start
    &&& events[w + 1].event == VrcxStartStopEventType::Stop
}

/// The number of events earlier than `key`. In an ordered timeline this is
/// the first index whose timestamp is not less than `key`.
pub open spec fn events_before(events: Seq<VrcxStartStopEvent>, key: int) -> int
    decreases events.len(),
{
    if events.len() == 0 {
        0
    } else {
        events_before(events.drop_last(), key) + if events.last().timestamp < key {
            1int
        } else {
            0int
        }
    }
}

/// Index of the event at or immediately before the start of `span`; -1 where
/// the span starts before every event.
pub open spec fn start_index(events: Seq<VrcxStartStopEvent>, span: TimeSpan) -> int {
    let at = events_before(events, span.start as int);
    if at < events.len() && events[at].timestamp == span.start {
        at
    } else {
        at - 1
    }
}

/// Index of the event at or immediately after the end of `span`; the length
/// of the timeline where the span ends after every event.
pub open spec fn stop_index(events: Seq<VrcxStartStopEvent>, span: TimeSpan) -> int {
    events_before(events, span.stop as int)
}

/// The part of `span` up to the stop that follows event `start_idx`.
pub open spec fn head_part(
    events: Seq<VrcxStartStopEvent>,
    span: TimeSpan,
    start_idx: int,
) -> TimeSpan {
    TimeSpan { start: span.start, stop: events[start_idx + 1].timestamp }
}

/// The part of `span` from the start that precedes event `stop_idx`.
pub open spec fn tail_part(
    events: Seq<VrcxStartStopEvent>,
    span: TimeSpan,
    stop_idx: int,
) -> TimeSpan {
    TimeSpan { start: events[stop_idx - 1].timestamp, stop: span.stop }
}

/// What clamping `span` to the timeline gives: `None` where the span is to be
/// dropped, else the one or two parts of it that are kept.
pub open spec fn clamp_outcome(events: Seq<VrcxStartStopEvent>, span: TimeSpan) -> Option<
    Seq<TimeSpan>,
> {
    let start_idx = start_index(events, span);
    let stop_idx = stop_index(events, span);
    let ends_on_stop = stop_idx < events.len() && events[stop_idx].event
        == VrcxStartStopEventType::Stop;
    if start_idx < 0 {
        None
    } else if events[start_idx].event != VrcxStartStopEventType::Start {
        if ends_on_stop {
            Some(seq![tail_part(events, span, stop_idx)])
        } else {
            None
        }
    } else if !ends_on_stop {
        Some(seq![head_part(events, span, start_idx)])
    } else if start_idx != stop_idx - 1 {
        Some(seq![head_part(events, span, start_idx), tail_part(events, span, stop_idx)])
    } else {
        Some(seq![span])
    }
}

/// In an ordered timeline, `events_before` is between 0 and the length, every
/// event before it is earlier than `key`, and none from it on is.
pub proof fn lemma_events_before_splits(events: Seq<VrcxStartStopEvent>, key: int)
    requires
        timeline_ordered(events),
    ensures
        0 <= events_before(events, key) <= events.len(),
        forall|j: int| 0 <= j < events_before(events, key) ==> events[j].timestamp < key,
        forall|j: int|
            events_before(events, key) <= j < events.len() ==> events[j].timestamp >= key,
    decreases events.len(),
{
    if events.len() > 0 {
        let front = events.drop_last();
        assert forall|i: int, j: int| 0 <= i <= j < front.len() implies front[i].timestamp
            <= front[j].timestamp by {
            assert(front[i] == events[i] && front[j] == events[j]);
        }
        lemma_events_before_splits(front, key);
        assert forall|j: int| 0 <= j < events_before(events, key) implies events[j].timestamp
            < key by {
            if j < front.len() {
                assert(events[j] == front[j]);
                if j >= events_before(front, key) {
                    assert(events[j].timestamp <= events.last().timestamp);
                }
            }
        }
        assert forall|j: int| events_before(events, key) <= j < events.len() implies events[j].timestamp
            >= key by {
            if j < front.len() {
                assert(events[j] == front[j]);
            }
        }
    }
}

/// An index that splits an ordered timeline at `key` is `events_before`.
proof fn lemma_events_before_unique(events: Seq<VrcxStartStopEvent>, key: int, at: int)
    requires
        timeline_ordered(events),
        0 <= at <= events.len(),
        forall|j: int| 0 <= j < at ==> events[j].timestamp < key,
        forall|j: int| at <= j < events.len() ==> events[j].timestamp >= key,
    ensures
        events_before(events, key) == at,
{
    lemma_events_before_splits(events, key);
    let found = events_before(events, key);
    if found < at {
        assert(events[found].timestamp < key);
    } else if at < found {
        assert(events[at].timestamp >= key);
    }
}

/// `part` lies within one uptime window of the timeline.
pub open spec fn within_uptime_window(events: Seq<VrcxStartStopEvent>, part: TimeSpan) -> bool {
    exists|w: int|
        #[trigger] is_uptime_window(events, w) && events[w].timestamp <= part.start && part.stop
            <= events[w + 1].timestamp
}

/// Containment: every part that clamping keeps of an interval of positive
/// length lies within that interval and within one uptime window.
pub proof fn lemma_clamp_containment(events: Seq<VrcxStartStopEvent>, span: TimeSpan)
    requires
        well_formed_timeline(events),
        span.start < span.stop,
    ensures
        clamp_outcome(events, span) matches Some(parts) ==> forall|k: int|
            0 <= k < parts.len() ==> {
                &&& span.start <= (#[trigger] parts[k]).start
                &&& parts[k].stop <= span.stop
                &&& within_uptime_window(events, parts[k])
            },
{
    lemma_events_before_splits(events, span.start as int);
    lemma_events_before_splits(events, span.stop as int);
    let start_idx = start_index(events, span);
    let stop_idx = stop_index(events, span);
    if clamp_outcome(events, span) is Some {
        let parts = clamp_outcome(events, span)->0;
        assert(events[start_idx].timestamp <= span.start);
        assert(start_idx < stop_idx);
        assert(events[stop_idx - 1].timestamp < span.stop);
        if events[start_idx].event != VrcxStartStopEventType::Start {
            assert(events[stop_idx] != events.first());
            assert(events[stop_idx - 1].event != events[stop_idx].event);
            assert(start_idx + 1 <= stop_idx - 1);
            assert(events[start_idx + 1].timestamp <= events[stop_idx - 1].timestamp);
            assert(is_uptime_window(events, stop_idx - 1));
        } else {
            assert(events[start_idx] != events.last());
            assert(events[start_idx].event != events[start_idx + 1].event);
            assert(is_uptime_window(events, start_idx));
            if stop_idx < events.len() && events[stop_idx].event == VrcxStartStopEventType::Stop {
                assert(events[stop_idx - 1].event != events[stop_idx].event);
                assert(is_uptime_window(events, stop_idx - 1));
                if start_idx != stop_idx - 1 {
                    assert(events[start_idx + 1].timestamp <= events[stop_idx - 1].timestamp);
                }
            }
        }
        assert forall|k: int| 0 <= k < parts.len() implies {
            &&& span.start <= (#[trigger] parts[k]).start
            &&& parts[k].stop <= span.stop
            &&& within_uptime_window(events, parts[k])
        } by {}
    }
}

/// Totality: on a strictly ordered timeline, clamping an interval of positive
/// length either fails or keeps one or two parts, each of positive length.
pub proof fn lemma_clamp_totality(events: Seq<VrcxStartStopEvent>, span: TimeSpan)
    requires
        well_formed_timeline(events),
        timeline_strictly_ordered(events),
        span.start < span.stop,
    ensures
        clamp_outcome(events, span) matches Some(parts) ==> {
            &&& 1 <= parts.len() <= 2
            &&& forall|k: int|
                0 <= k < parts.len() ==> (#[trigger] parts[k]).start < parts[k].stop
        },
{
    lemma_events_before_splits(events, span.start as int);
    lemma_events_before_splits(events, span.stop as int);
    let start_idx = start_index(events, span);
    let stop_idx = stop_index(events, span);
    if clamp_outcome(events, span) is Some {
        let parts = clamp_outcome(events, span)->0;
        assert(start_idx < stop_idx);
        assert(events[stop_idx - 1].timestamp < span.stop);
        if events[start_idx].event == VrcxStartStopEventType::Start {
            assert(events[start_idx] != events.last());
            assert(events[start_idx].timestamp < events[start_idx + 1].timestamp);
            assert(span.start < events[start_idx + 1].timestamp);
        }
        assert forall|k: int| 0 <= k < parts.len() implies (#[trigger] parts[k]).start
            < parts[k].stop by {}
    }
}

/// Binary search for the first event that is not earlier than `key`.
fn first_not_before(events: &[VrcxStartStopEvent], key: i64) -> (at: usize)
    requires
        timeline_ordered(events@),
    ensures
        at == events_before(events@, key as int),
        at <= events@.len(),
{
    let mut low: usize = 0;
    let mut high: usize = events.len();
    while low < high
        invariant
            low <= high <= events@.len(),
            timeline_ordered(events@),
            forall|j: int| 0 <= j < low ==> events@[j].timestamp < key,
            forall|j: int| high <= j < events@.len() ==> events@[j].timestamp >= key,
        decreases high - low,
    {
        let mid: usize = low + (high - low) / 2;
        if events[mid].timestamp < key {
            low = mid + 1;
        } else {
            high = mid;
        }
    }
    proof {
        lemma_events_before_unique(events@, key as int, low as int);
    }
    low
}

/// Clamps a time range to when the observer was running.
///
/// If the observer was running for the entire range, returns the input range.
/// Otherwise returns the range truncated to when the observer was known to be
/// running: its head, its tail, or both where the observer restarted within
/// it. If the range cannot be truncated, returns `Err`.
pub fn clamp_range_to_vrcx_uptime(
    time_span: TimeSpan,
    vrcx_start_stop_events: &[VrcxStartStopEvent],
) -> (clamped: Result<Vec<TimeSpan>, NotRecoverable>)
    requires
        well_formed_timeline(vrcx_start_stop_events@),
    ensures
        clamped is Err <==> clamp_outcome(vrcx_start_stop_events@, time_span) is None,
        clamped matches Ok(parts) ==> clamp_outcome(vrcx_start_stop_events@, time_span) == Some(
            parts@,
        ),
{
    let events = vrcx_start_stop_events;
    let at: usize = first_not_before(events, time_span.start);
    let stop_idx: usize = first_not_before(events, time_span.stop);
    let start_idx: usize = if at < events.len() && events[at].timestamp == time_span.start {
        at
    } else if at == 0 {
        return Err(NotRecoverable);
    } else {
        at - 1
    };
    assert(start_idx == start_index(events@, time_span));
    assert(stop_idx == stop_index(events@, time_span));
    let ends_on_stop: bool = stop_idx < events.len() && events[stop_idx].event
        == VrcxStartStopEventType::Stop;

    // the observer was not running at the beginning of the range
    if events[start_idx].event != VrcxStartStopEventType::Start {
        if !ends_on_stop {
            return Err(NotRecoverable);
        }
        // the end is normal: we can use the tail end of this range
        assert(events@[stop_idx as int] != events@.first());
        let event_2_start = &events[stop_idx - 1];
        let parts: Vec<TimeSpan> = vec![TimeSpan::new(event_2_start.timestamp, time_span.stop)];
        assert(parts@ =~= seq![tail_part(events@, time_span, stop_idx as int)]);
        return Ok(parts);
    }
    assert(events@[start_idx as int] != events@.last());

    // the observer was not running at the end, but the start is normal
    if !ends_on_stop {
        let event_1_stop = &events[start_idx + 1];
        let parts: Vec<TimeSpan> = vec![TimeSpan::new(time_span.start, event_1_stop.timestamp)];
        assert(parts@ =~= seq![head_part(events@, time_span, start_idx as int)]);
        return Ok(parts);
    }
    assert(events@[stop_idx as int] != events@.first());

    // the observer restarted during the range
    if start_idx != stop_idx - 1 {
        let event_1_stop = &events[start_idx + 1];
        let event_2_start = &events[stop_idx - 1];
        let parts: Vec<TimeSpan> = vec![
            TimeSpan::new(time_span.start, event_1_stop.timestamp),
            TimeSpan::new(event_2_start.timestamp, time_span.stop),
        ];
        assert(parts@ =~= seq![
            head_part(events@, time_span, start_idx as int),
            tail_part(events@, time_span, stop_idx as int),
        ]);
        return Ok(parts);
    }
    // none of the edge cases occurred
    let parts: Vec<TimeSpan> = vec![time_span];
    assert(parts@ =~= seq![time_span]);
    Ok(parts)
}

/// Whether `events` is a timeline that `clamp_range_to_vrcx_uptime` accepts.
pub fn is_well_formed_timeline(events: &[VrcxStartStopEvent]) -> (well_formed: bool)
    ensures
        well_formed == well_formed_timeline(events@),
{
    let n: usize = events.len();
    if n == 0 {
        return true;
    }
    if events[0].event != VrcxStartStopEventType::Start || events[n - 1].event
        != VrcxStartStopEventType::Stop {
        return false;
    }
    let mut i: usize = 0;
    while i + 1 < n
        invariant
            n == events@.len(),
            i < n,
            forall|k: int, j: int|
                0 <= k && j == k + 1 && j <= i ==> (#[trigger] events@[k]).event
                    != (#[trigger] events@[j]).event,
            forall|k: int, j: int| 0 <= k <= j <= i ==> events@[k].timestamp <= events@[j].timestamp,
        decreases n - i,
    {
        if events[i].event == events[i + 1].event {
            return false;
        }
        if events[i + 1].timestamp < events[i].timestamp {
            return false;
        }
        i = i + 1;
    }
    true
}

} // verus!
