//! The values that the run works on: buckets, rows, events and time spans.

use crate::timestamps::{parse_created_at, parsed_utc_timestamp, InvalidTimestamp};
use std::collections::HashSet;
use vstd::prelude::*;

verus! {

broadcast use vstd::std_specs::hash::group_hash_axioms;

/// Value of a bucket: an n-minute window on a certain day of the week, for
/// example 8:00 to 8:10 on a Monday.
pub struct BucketValue {
    /// total number of online friends seen for this bucket
    pub online_count: u32,
    /// local dates (days since 1 January 1970) on which the observer was
    /// active during this bucket
    pub vrcx_activity_dates: HashSet<i64>,
}

impl BucketValue {
    /// The dates recorded for this bucket, as a mathematical set.
    pub open spec fn dates(&self) -> Set<i64> {
        self.vrcx_activity_dates@
    }

    /// A bucket without any recorded date has seen nobody online.
    pub open spec fn consistent(&self) -> bool {
        self.dates().is_empty() ==> self.online_count == 0
    }

    /// indicate that a friend is online during this bucket
    pub fn increment(&mut self)
        requires
            old(self).online_count < u32::MAX,
        ensures
            final(self).online_count == old(self).online_count + 1,
            final(self).dates() == old(self).dates(),
    {
        self.online_count = self.online_count + 1;
    }

    /// remember that the observer was running on the provided date for this bucket
    pub fn register_date(&mut self, date: i64)
        ensures
            final(self).dates() == old(self).dates().insert(date),
            final(self).online_count == old(self).online_count,
    {
        self.vrcx_activity_dates.insert(date);
    }

    /// number of distinct dates the observer was running on for this bucket
    pub fn total_dates(&self) -> (total: usize)
        ensures
            total == self.dates().len(),
    {
        self.vrcx_activity_dates.len()
    }
}

impl Default for BucketValue {
    fn default() -> (value: BucketValue)
        ensures
            value.online_count == 0,
            value.dates() == Set::<i64>::empty(),
    {
        BucketValue { online_count: 0, vrcx_activity_dates: HashSet::new() }
    }
}

/// the type of an online/offline event
#[derive(Clone, Copy, Debug, PartialEq, Eq, Structural)]
pub enum OnlineOfflineEventType {
    Online,
    Offline,
}

/// The text that was offered as an event type and is neither `Online` nor `Offline`.
#[derive(Debug, PartialEq, Eq)]
pub struct UnknownEventType {
    pub value: String,
}

/// The event type of that name, if there is one.
pub open spec fn event_type_named(value: Seq<char>) -> Option<OnlineOfflineEventType> {
    if value == "Online"@ {
        Some(OnlineOfflineEventType::Online)
    } else if value == "Offline"@ {
        Some(OnlineOfflineEventType::Offline)
    } else {
        None
    }
}

impl OnlineOfflineEventType {
    /// Reads an event type from its name in the presence table.
    pub fn try_from(value: &str) -> (parsed: Result<OnlineOfflineEventType, UnknownEventType>)
        ensures
            event_type_named(value@) matches Some(kind) ==> parsed == Ok::<_, UnknownEventType>(
                kind,
            ),
            event_type_named(value@) is None ==> parsed is Err && parsed->Err_0.value@ == value@,
    {
        let owned: String = value.to_owned();
        if owned == "Online".to_owned() {
            Ok(OnlineOfflineEventType::Online)
        } else if owned == "Offline".to_owned() {
            Ok(OnlineOfflineEventType::Offline)
        } else {
            Err(UnknownEventType { value: owned })
        }
    }
}

/// represents a row from the friend online/offline table
#[derive(Debug, PartialEq, Eq)]
pub struct Row {
    pub created_at: i64,
    pub user_id: String,
    pub display_name: String,
    pub event_type: OnlineOfflineEventType,
}

/// Why the columns of a row of the presence table give no `Row`.
#[derive(Debug, PartialEq, Eq)]
pub enum InvalidRow {
    Timestamp(InvalidTimestamp),
    EventType(UnknownEventType),
}

impl Row {
    /// The row of these columns, where `created_at` is what was read from
    /// the text of the first column. A text that is no timestamp comes
    /// before an unknown event type.
    pub fn from_parsed_columns(
        created_at: Result<i64, InvalidTimestamp>,
        user_id: String,
        display_name: String,
        event_type: &str,
    ) -> (row: Result<Row, InvalidRow>)
        ensures
            created_at matches Err(fault) ==> (row matches Err(InvalidRow::Timestamp(found))
                && found == fault),
            created_at matches Ok(millis) ==> match event_type_named(event_type@) {
                Some(kind) => row matches Ok(assembled) && assembled == (Row {
                    created_at: millis,
                    user_id,
                    display_name,
                    event_type: kind,
                }),
                None => row matches Err(InvalidRow::EventType(found)) && found.value@
                    == event_type@,
            },
    {
        let created_at: i64 = match created_at {
            Ok(millis) => millis,
            Err(fault) => {
                return Err(InvalidRow::Timestamp(fault));
            },
        };
        match OnlineOfflineEventType::try_from(event_type) {
            Ok(event_type) => Ok(Row { created_at, user_id, display_name, event_type }),
            Err(fault) => Err(InvalidRow::EventType(fault)),
        }
    }

    /// The row of these columns of the presence table, as they stand there
    /// as text.
    pub fn try_from(
        created_at: &str,
        user_id: String,
        display_name: String,
        event_type: &str,
    ) -> (row: Result<Row, InvalidRow>)
        ensures
            parsed_utc_timestamp(created_at@) is None ==> (row matches Err(
                InvalidRow::Timestamp(found),
            ) && found.value@ == created_at@),
            parsed_utc_timestamp(created_at@) matches Some(millis) ==> match event_type_named(
                event_type@,
            ) {
                Some(kind) => row matches Ok(assembled) && assembled == (Row {
                    created_at: millis,
                    user_id,
                    display_name,
                    event_type: kind,
                }),
                None => row matches Err(InvalidRow::EventType(found)) && found.value@
                    == event_type@,
            },
    {
        Row::from_parsed_columns(parse_created_at(created_at), user_id, display_name, event_type)
    }
}

/// the kind of an uptime event
#[derive(Clone, Copy, Debug, PartialEq, Eq, Structural)]
pub enum VrcxStartStopEventType {
    Start,
    Stop,
}

/// The observer started or stopped running at `timestamp`.
#[derive(Clone, Copy, Debug, PartialEq, Eq, Structural)]
pub struct VrcxStartStopEvent {
    pub timestamp: i64,
    pub event: VrcxStartStopEventType,
}

impl VrcxStartStopEvent {
    /// The observer started running at `timestamp`.
    pub fn start(timestamp: i64) -> (event: VrcxStartStopEvent)
        ensures
            event == (VrcxStartStopEvent { timestamp, event: VrcxStartStopEventType::Start }),
    {
        VrcxStartStopEvent { timestamp, event: VrcxStartStopEventType::Start }
    }

    /// The observer stopped running at `timestamp`.
    pub fn stop(timestamp: i64) -> (event: VrcxStartStopEvent)
        ensures
            event == (VrcxStartStopEvent { timestamp, event: VrcxStartStopEventType::Stop }),
    {
        VrcxStartStopEvent { timestamp, event: VrcxStartStopEventType::Stop }
    }
}

/// The time from `start` to `stop`.
#[derive(Clone, Copy, Debug, PartialEq, Eq, Structural)]
pub struct TimeSpan {
    pub start: i64,
    pub stop: i64,
}

impl TimeSpan {
    /// The span from `start` to `stop`, whichever comes first.
    pub fn new(start: i64, stop: i64) -> (span: TimeSpan)
        ensures
            span == (TimeSpan { start, stop }),
    {
        TimeSpan { start, stop }
    }

    /// Whether the span ends where it starts, or before.
    pub fn is_negative_or_zero(self) -> (nonpositive: bool)
        ensures
            nonpositive == (self.stop <= self.start),
    {
        self.stop <= self.start
    }

    /// Length of the span in milliseconds; negative where `stop` precedes `start`.
    pub fn duration(self) -> (millis: i128)
        ensures
            millis == self.stop - self.start,
    {
        self.stop as i128 - self.start as i128
    }
}

} // verus!
