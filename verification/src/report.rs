//! Turning the grid into the values of the report.

use crate::buckets::{grid_consistent, grid_shape};
use crate::constants::DAYS_PER_WEEK;
use crate::dto::BucketValue;
use vstd::prelude::*;
use vstd::string::StringExecFns;

verus! {

/// What the report shows for one bucket.
#[derive(Clone, Copy, Debug, PartialEq, Eq, Structural)]
pub enum BucketOutput {
    /// not enough activity: an empty field
    NoData,
    /// not enough activity: a literal zero
    Zero,
    /// the online count as it is
    Count(u32),
    /// the online count is to be divided by the number of dates on which the
    /// observer was active
    Normalized { online_count: u32, activity_count: usize },
}

/// A time of day, as hours, minutes and seconds since midnight.
#[derive(Clone, Copy, Debug, PartialEq, Eq, Structural)]
pub struct TimeOfDay {
    pub hour: u32,
    pub minute: u32,
    pub second: u32,
}

/// The report's value for a bucket with `online_count` counts on
/// `activity_count` dates.
pub open spec fn projected(
    online_count: u32,
    activity_count: usize,
    normalize: bool,
    minimum_bucket_activations: u32,
    no_data_returns_zero: bool,
) -> BucketOutput {
    if activity_count < minimum_bucket_activations {
        if no_data_returns_zero {
            BucketOutput::Zero
        } else {
            BucketOutput::NoData
        }
    } else if normalize {
        BucketOutput::Normalized { online_count, activity_count }
    } else {
        BucketOutput::Count(online_count)
    }
}

/// The value that the report shows for one bucket.
///
/// With too few dates of activity there is no data. Else the count is shown,
/// as it is or, to account for how often the observer was running during
/// this bucket, to be divided by the number of those dates.
pub fn project_bucket(
    bucket_value: &BucketValue,
    normalize: bool,
    minimum_bucket_activations: u32,
    no_data_returns_zero: bool,
) -> (output: BucketOutput)
    requires
        bucket_value.consistent(),
    ensures
        bucket_value.dates().len() <= usize::MAX,
        output == projected(
            bucket_value.online_count,
            bucket_value.dates().len() as usize,
            normalize,
            minimum_bucket_activations,
            no_data_returns_zero,
        ),
{
    let online_count: u32 = bucket_value.online_count;
    let vrcx_activity_count: usize = bucket_value.total_dates();
    if vrcx_activity_count < minimum_bucket_activations as usize {
        // not enough activity, so return no data
        if no_data_returns_zero {
            BucketOutput::Zero
        } else {
            BucketOutput::NoData
        }
    } else if normalize {
        BucketOutput::Normalized { online_count, activity_count: vrcx_activity_count }
    } else {
        // we aren't normalizing, so we just return the online_count integer
        BucketOutput::Count(online_count)
    }
}

/// The values of the report: one row for each bucket of the day, holding
/// that bucket's value for each day of the week from Monday on.
pub fn project_buckets(
    buckets_per_day: usize,
    normalize: bool,
    minimum_bucket_activations: u32,
    no_data_returns_zero: bool,
    buckets: &Vec<Vec<BucketValue>>,
) -> (rows: Vec<Vec<BucketOutput>>)
    requires
        grid_shape(buckets@, buckets_per_day as int),
        grid_consistent(buckets@),
    ensures
        rows@.len() == buckets_per_day,
        forall|b: int| 0 <= b < buckets_per_day ==> (#[trigger] rows[b]).len() == 7,
        forall|b: int, d: int|
            0 <= b < buckets_per_day && 0 <= d < 7 ==> (#[trigger] rows[b][d]) == projected(
                buckets[d][b].online_count,
                buckets[d][b].dates().len() as usize,
                normalize,
                minimum_bucket_activations,
                no_data_returns_zero,
            ),
{
    let mut rows: Vec<Vec<BucketOutput>> = Vec::new();
    let mut bucket_index: usize = 0;
    while bucket_index < buckets_per_day
        invariant
            bucket_index <= buckets_per_day,
            grid_shape(buckets@, buckets_per_day as int),
            grid_consistent(buckets@),
            rows@.len() == bucket_index,
            forall|b: int| 0 <= b < bucket_index ==> (#[trigger] rows[b]).len() == 7,
            forall|b: int, d: int|
                0 <= b < bucket_index && 0 <= d < 7 ==> (#[trigger] rows[b][d]) == projected(
                    buckets[d][b].online_count,
                    buckets[d][b].dates().len() as usize,
                    normalize,
                    minimum_bucket_activations,
                    no_data_returns_zero,
                ),
        decreases buckets_per_day - bucket_index,
    {
        let mut row: Vec<BucketOutput> = Vec::new();
        let mut day: usize = 0;
        while day < DAYS_PER_WEEK
            invariant
                day <= 7,
                bucket_index < buckets_per_day,
                grid_shape(buckets@, buckets_per_day as int),
                grid_consistent(buckets@),
                row@.len() == day,
                forall|d: int|
                    0 <= d < day ==> (#[trigger] row[d]) == projected(
                        buckets[d][bucket_index as int].online_count,
                        buckets[d][bucket_index as int].dates().len() as usize,
                        normalize,
                        minimum_bucket_activations,
                        no_data_returns_zero,
                    ),
            decreases 7 - day,
        {
            assert(buckets@[day as int].len() == buckets_per_day);
            assert(buckets@[day as int][bucket_index as int].consistent());
            let bucket_value = &buckets[day][bucket_index];
            row.push(
                project_bucket(
                    bucket_value,
                    normalize,
                    minimum_bucket_activations,
                    no_data_returns_zero,
                ),
            );
            day = day + 1;
        }
        rows.push(row);
        bucket_index = bucket_index + 1;
    }
    rows
}

/// convert a bucket index to the time of day
pub fn bucket_index_to_time(bucket_duration_seconds: u32, bucket_index: usize) -> (time: TimeOfDay)
    requires
        bucket_duration_seconds * bucket_index < 86_400,
    ensures
        time.hour == (bucket_duration_seconds * bucket_index) / 3600,
        time.minute == ((bucket_duration_seconds * bucket_index) / 60) % 60,
        time.second == (bucket_duration_seconds * bucket_index) % 60,
        time.hour < 24,
        time.minute < 60,
        time.second < 60,
{
    let seconds_from_midnight: u64 = bucket_duration_seconds as u64 * bucket_index as u64;
    TimeOfDay {
        hour: (seconds_from_midnight / 3600) as u32,
        minute: ((seconds_from_midnight / 60) % 60) as u32,
        second: (seconds_from_midnight % 60) as u32,
    }
}

/// The decimal digit `digit` as a character.
pub open spec fn digit_char(digit: int) -> char {
    if digit == 0 {
        '0'
    } else if digit == 1 {
        '1'
    } else if digit == 2 {
        '2'
    } else if digit == 3 {
        '3'
    } else if digit == 4 {
        '4'
    } else if digit == 5 {
        '5'
    } else if digit == 6 {
        '6'
    } else if digit == 7 {
        '7'
    } else if digit == 8 {
        '8'
    } else {
        '9'
    }
}

/// A number below 100 as two decimal digits.
pub open spec fn two_digits(number: int) -> Seq<char> {
    seq![digit_char(number / 10), digit_char(number % 10)]
}

fn digit_text(digit: u32) -> (text: &'static str)
    requires
        digit < 10,
    ensures
        text@ == seq![digit_char(digit as int)],
{
    proof {
        reveal_strlit("0");
        reveal_strlit("1");
        reveal_strlit("2");
        reveal_strlit("3");
        reveal_strlit("4");
        reveal_strlit("5");
        reveal_strlit("6");
        reveal_strlit("7");
        reveal_strlit("8");
        reveal_strlit("9");
    }
    let text: &'static str = match digit {
        0 => "0",
        1 => "1",
        2 => "2",
        3 => "3",
        4 => "4",
        5 => "5",
        6 => "6",
        7 => "7",
        8 => "8",
        _ => "9",
    };
    assert(text@ =~= seq![digit_char(digit as int)]);
    text
}

/// convert a bucket index into a label string: hours and minutes, two digits each
pub fn bucket_index_to_label(bucket_duration_seconds: u32, bucket_index: usize) -> (label: String)
    requires
        bucket_duration_seconds * bucket_index < 86_400,
    ensures
        label@ == two_digits((bucket_duration_seconds * bucket_index) / 3600) + seq![':']
            + two_digits(((bucket_duration_seconds * bucket_index) / 60) % 60),
{
    let time: TimeOfDay = bucket_index_to_time(bucket_duration_seconds, bucket_index);
    proof {
        reveal_strlit(":");
    }
    let mut label: String = String::new();
    label.append(digit_text(time.hour / 10));
    label.append(digit_text(time.hour % 10));
    label.append(":");
    label.append(digit_text(time.minute / 10));
    label.append(digit_text(time.minute % 10));
    assert(label@ =~= two_digits(time.hour as int) + seq![':'] + two_digits(time.minute as int));
    label
}

} // verus!
