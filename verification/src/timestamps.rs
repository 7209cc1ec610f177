//! Reading instants from text.
//!
//! The two parsers of date and time are chrono's. What they read from a text
//! is not spelled out here: it has a name, and the functions that call them
//! say what they return in terms of that name.

use chrono::{DateTime, Utc};
use vstd::prelude::*;

verus! {

/// What chrono's parser for `DateTime<Utc>` reads from `text`, which accepts a
/// relaxed form of RFC 3339: the instant in milliseconds since the Unix
/// epoch, or `None` where the parser refuses the text.
pub uninterp spec fn parsed_utc_timestamp(text: Seq<char>) -> Option<i64>;

/// What chrono's `DateTime::parse_from_rfc3339` reads from `text`: the
/// instant in milliseconds since the Unix epoch, or `None` where the parser
/// refuses the text.
pub uninterp spec fn parsed_rfc3339_timestamp(text: Seq<char>) -> Option<i64>;

/// A text that is no timestamp.
#[derive(Debug, PartialEq, Eq)]
pub struct InvalidTimestamp {
    pub value: String,
}

/// Calls chrono's `FromStr` for `DateTime<Utc>` and, on the instant it
/// gives, `DateTime::timestamp_millis`. Trusted: that the result depends on
/// the text alone. Nothing is claimed of which texts are accepted, nor of
/// the instant that is read.
#[verifier::external_body]
fn chrono_parse_utc(text: &str) -> (instant: Option<i64>)
    ensures
        instant == parsed_utc_timestamp(text@),
{
    match text.parse::<DateTime<Utc>>() {
        Ok(parsed) => Some(parsed.timestamp_millis()),
        Err(_) => None,
    }
}

/// Calls chrono's `DateTime::parse_from_rfc3339` and, on the instant it
/// gives, `DateTime::timestamp_millis`. Trusted: that the result depends on
/// the text alone. Nothing is claimed of which texts are accepted, nor of
/// the instant that is read.
#[verifier::external_body]
fn chrono_parse_rfc3339(text: &str) -> (instant: Option<i64>)
    ensures
        instant == parsed_rfc3339_timestamp(text@),
{
    match DateTime::parse_from_rfc3339(text) {
        Ok(parsed) => Some(parsed.timestamp_millis()),
        Err(_) => None,
    }
}

/// The instant, or the text that gave none.
pub fn timestamp_or_text(instant: Option<i64>, text: &str) -> (outcome: Result<
    i64,
    InvalidTimestamp,
>)
    ensures
        instant matches Some(millis) ==> outcome == Ok::<i64, InvalidTimestamp>(millis),
        instant is None ==> outcome is Err && outcome->Err_0.value@ == text@,
{
    match instant {
        Some(millis) => Ok(millis),
        None => Err(InvalidTimestamp { value: text.to_owned() }),
    }
}

/// parse the timestamp of a row of the event tables
pub fn parse_created_at(created_at: &str) -> (outcome: Result<i64, InvalidTimestamp>)
    ensures
        parsed_utc_timestamp(created_at@) matches Some(millis) ==> outcome == Ok::<
            i64,
            InvalidTimestamp,
        >(millis),
        parsed_utc_timestamp(created_at@) is None ==> outcome is Err && outcome->Err_0.value@
            == created_at@,
{
    timestamp_or_text(chrono_parse_utc(created_at), created_at)
}

/// parse the start time of the configuration
pub fn parse_start_time(start_time: &str) -> (outcome: Result<i64, InvalidTimestamp>)
    ensures
        parsed_rfc3339_timestamp(start_time@) matches Some(millis) ==> outcome == Ok::<
            i64,
            InvalidTimestamp,
        >(millis),
        parsed_rfc3339_timestamp(start_time@) is None ==> outcome is Err && outcome->Err_0.value@
            == start_time@,
{
    timestamp_or_text(chrono_parse_rfc3339(start_time), start_time)
}

} // verus!
