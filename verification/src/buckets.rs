//! The weekly grid of buckets and the two ways of registering a time range in it.

use crate::constants::DAYS_PER_WEEK;
use crate::dto::{BucketValue, TimeSpan};
use crate::local_time::{
    bucket_aligned, bucket_floor, bucket_index_of, bucket_millis, bucket_start, bucket_width,
    buckets_per_day, day_of, lemma_aligned_apart, lemma_aligned_is_bucket_start,
    lemma_bucket_floor, lemma_bucket_start_decomposes, lemma_buckets_fill_day,
    lemma_next_aligned, lemma_quotient_bounds, date_of_local, local_bucket_key, local_in_range,
    local_millis, mod_floor, to_local, valid_bucket_minutes, weekday_of, BucketKey,
};
use vstd::prelude::*;

verus! {

/// Seven days of `per_day` buckets each.
pub open spec fn grid_shape(grid: Seq<Vec<BucketValue>>, per_day: int) -> bool {
    &&& grid.len() == 7
    &&& forall|d: int| 0 <= d < 7 ==> (#[trigger] grid[d]).len() == per_day
}

/// No bucket of the grid has a count without a date.
pub open spec fn grid_consistent(grid: Seq<Vec<BucketValue>>) -> bool {
    forall|d: int, b: int|
        0 <= d < grid.len() && 0 <= b < grid[d].len() ==> (#[trigger] grid[d][b]).consistent()
}

/// Every bucket of `after` but `(weekday, index)` is as in `before`.
pub open spec fn same_but_bucket(
    before: Seq<Vec<BucketValue>>,
    after: Seq<Vec<BucketValue>>,
    weekday: int,
    index: int,
) -> bool {
    &&& after.len() == before.len()
    &&& forall|d: int| 0 <= d < before.len() ==> (#[trigger] after[d]).len() == before[d].len()
    &&& forall|d: int, b: int|
        0 <= d < before.len() && 0 <= b < before[d].len() && (d != weekday || b != index)
            ==> (#[trigger] after[d][b]) == before[d][b]
}

/// build buckets according to configured bucket size
pub fn build_daily_buckets(buckets_per_day: usize) -> (grid: Vec<Vec<BucketValue>>)
    ensures
        grid_shape(grid@, buckets_per_day as int),
        forall|d: int, b: int|
            0 <= d < 7 && 0 <= b < buckets_per_day ==> (#[trigger] grid[d][b]).online_count == 0
                && grid[d][b].dates() == Set::<i64>::empty(),
        grid_consistent(grid@),
{
    let mut grid: Vec<Vec<BucketValue>> = Vec::new();
    let mut day: usize = 0;
    while day < DAYS_PER_WEEK
        invariant
            day <= 7,
            grid@.len() == day,
            forall|d: int| 0 <= d < day ==> (#[trigger] grid[d]).len() == buckets_per_day,
            forall|d: int, b: int|
                0 <= d < day && 0 <= b < buckets_per_day ==> (#[trigger] grid[d][b]).online_count
                    == 0 && grid[d][b].dates() == Set::<i64>::empty(),
        decreases 7 - day,
    {
        let mut row: Vec<BucketValue> = Vec::new();
        let mut index: usize = 0;
        while index < buckets_per_day
            invariant
                index <= buckets_per_day,
                row@.len() == index,
                forall|b: int|
                    0 <= b < index ==> (#[trigger] row[b]).online_count == 0 && row[b].dates()
                        == Set::<i64>::empty(),
            decreases buckets_per_day - index,
        {
            row.push(BucketValue::default());
            index = index + 1;
        }
        grid.push(row);
        day = day + 1;
    }
    grid
}

/// The dates on which bucket `index` of `weekday` starts at or after `from`
/// and before `until`, all in local milliseconds.
pub open spec fn walked_dates(
    from: int,
    until: int,
    bucket_minutes: int,
    weekday: int,
    index: int,
) -> Set<i64> {
    Set::new(
        |day: i64|
            weekday_of(day as int) == weekday && from <= bucket_start(
                day as int,
                index,
                bucket_minutes,
            ) < until,
    )
}

/// How much of the bucket starting at `bucket_from` lies within the span, in
/// milliseconds.
pub open spec fn covered_millis(
    span_start: int,
    span_stop: int,
    bucket_from: int,
    bucket_minutes: int,
) -> int {
    let from = if span_start > bucket_from {
        span_start
    } else {
        bucket_from
    };
    let to = if span_stop < bucket_from + bucket_millis(bucket_minutes) {
        span_stop
    } else {
        bucket_from + bucket_millis(bucket_minutes)
    };
    if to > from {
        to - from
    } else {
        0
    }
}

/// The span covers more than half of the bucket starting at `bucket_from`.
pub open spec fn mostly_covered(
    span_start: int,
    span_stop: int,
    bucket_from: int,
    bucket_minutes: int,
) -> bool {
    2 * covered_millis(span_start, span_stop, bucket_from, bucket_minutes) > bucket_millis(
        bucket_minutes,
    )
}

/// The dates on which the span covers more than half of bucket `index` of
/// `weekday`; only buckets starting at or after `from` are looked at.
pub open spec fn covered_dates_from(
    from: int,
    span_start: int,
    span_stop: int,
    bucket_minutes: int,
    weekday: int,
    index: int,
) -> Set<i64> {
    Set::new(
        |day: i64|
            weekday_of(day as int) == weekday && from <= bucket_start(
                day as int,
                index,
                bucket_minutes,
            ) && mostly_covered(
                span_start,
                span_stop,
                bucket_start(day as int, index, bucket_minutes),
                bucket_minutes,
            ),
    )
}

/// The dates on which the span covers more than half of bucket `index` of `weekday`.
pub open spec fn covered_dates(
    span_start: int,
    span_stop: int,
    bucket_minutes: int,
    weekday: int,
    index: int,
) -> Set<i64> {
    Set::new(
        |day: i64|
            weekday_of(day as int) == weekday && mostly_covered(
                span_start,
                span_stop,
                bucket_start(day as int, index, bucket_minutes),
                bucket_minutes,
            ),
    )
}

/// Of the buckets `index` of all dates, at most the one of the date of `at`
/// starts within the bucket that starts at `at`, and only where `index` is
/// the bucket of `at`.
proof fn lemma_one_bucket_starts_at(at: int, bucket_minutes: int, day: int, index: int)
    requires
        valid_bucket_minutes(bucket_minutes),
        bucket_aligned(at, bucket_minutes),
        0 <= index < buckets_per_day(bucket_minutes),
    ensures
        bucket_start(day, index, bucket_minutes) < at || bucket_start(day, index, bucket_minutes)
            == at || bucket_start(day, index, bucket_minutes) >= at + bucket_millis(
            bucket_minutes,
        ),
        bucket_start(day, index, bucket_minutes) == at <==> day == day_of(at) && index
            == bucket_index_of(at, bucket_minutes),
{
    let begins = bucket_start(day, index, bucket_minutes);
    lemma_bucket_start_decomposes(day, index, bucket_minutes);
    lemma_aligned_is_bucket_start(at, bucket_minutes);
    if at <= begins < at + bucket_millis(bucket_minutes) {
        lemma_aligned_apart(at, begins, bucket_minutes);
    }
}

/// Walking on by one bucket from `at` leaves out the date of `at`, for the
/// bucket of `at` and where `at` is before `until`, and nothing else.
proof fn lemma_walk_step(
    at: int,
    until: int,
    bucket_minutes: int,
    weekday: int,
    index: int,
    date: i64,
)
    requires
        valid_bucket_minutes(bucket_minutes),
        bucket_aligned(at, bucket_minutes),
        0 <= index < buckets_per_day(bucket_minutes),
        date == day_of(at),
    ensures
        index == bucket_index_of(at, bucket_minutes) ==> !walked_dates(
            at + bucket_millis(bucket_minutes),
            until,
            bucket_minutes,
            weekday,
            index,
        ).contains(date),
        walked_dates(at, until, bucket_minutes, weekday, index) == if at < until && weekday
            == weekday_of(day_of(at)) && index == bucket_index_of(at, bucket_minutes) {
            walked_dates(
                at + bucket_millis(bucket_minutes),
                until,
                bucket_minutes,
                weekday,
                index,
            ).insert(date)
        } else {
            walked_dates(at + bucket_millis(bucket_minutes), until, bucket_minutes, weekday, index)
        },
{
    let here = walked_dates(at, until, bucket_minutes, weekday, index);
    let next = walked_dates(
        at + bucket_millis(bucket_minutes),
        until,
        bucket_minutes,
        weekday,
        index,
    );
    let hit = at < until && weekday == weekday_of(day_of(at)) && index == bucket_index_of(
        at,
        bucket_minutes,
    );
    lemma_buckets_fill_day(bucket_minutes);
    lemma_one_bucket_starts_at(at, bucket_minutes, date as int, index);
    assert forall|day: i64| here.contains(day) == (next.contains(day) || (hit && day == date)) by {
        lemma_one_bucket_starts_at(at, bucket_minutes, day as int, index);
    }
    if hit {
        assert(here =~= next.insert(date));
    } else {
        assert(here =~= next);
    }
}

/// The number of buckets that start at or after the aligned local time
/// `from` and before `until`.
pub open spec fn walk_steps(from: int, until: int, bucket_minutes: int) -> int {
    if until > from {
        (until - from + bucket_millis(bucket_minutes) - 1) / bucket_millis(bucket_minutes)
    } else {
        0
    }
}

/// A walk over some buckets has one step more than the walk from the next
/// bucket on.
proof fn lemma_walk_steps_next(from: int, until: int, bucket_minutes: int)
    requires
        valid_bucket_minutes(bucket_minutes),
        from < until,
    ensures
        walk_steps(from, until, bucket_minutes) == 1 + walk_steps(
            from + bucket_millis(bucket_minutes),
            until,
            bucket_minutes,
        ),
        walk_steps(from + bucket_millis(bucket_minutes), until, bucket_minutes) >= 0,
{
    lemma_buckets_fill_day(bucket_minutes);
    let width = bucket_millis(bucket_minutes);
    let ahead = until - from - 1;
    lemma_quotient_bounds(ahead, width);
    vstd::arithmetic::div_mod::lemma_fundamental_div_mod(ahead, width);
    let whole = ahead / width;
    assert(ahead + width == (whole + 1) * width + ahead % width) by (nonlinear_arith)
        requires
            ahead == width * whole + ahead % width,
    ;
    vstd::arithmetic::div_mod::lemma_fundamental_div_mod_converse(
        ahead + width,
        width,
        ahead / width + 1,
        ahead % width,
    );
    if until <= from + width {
        vstd::arithmetic::div_mod::lemma_fundamental_div_mod_converse(ahead, width, 0, ahead);
    }
}

/// No bucket gains more dates from a walk than the walk has steps.
proof fn lemma_walked_dates_bound(
    from: int,
    until: int,
    bucket_minutes: int,
    weekday: int,
    index: int,
)
    requires
        valid_bucket_minutes(bucket_minutes),
        bucket_aligned(from, bucket_minutes),
        0 <= index < buckets_per_day(bucket_minutes),
        -0x1_0000_0000_0000_0000 <= from,
        until <= 0x1_0000_0000_0000_0000,
    ensures
        walked_dates(from, until, bucket_minutes, weekday, index).finite(),
        walked_dates(from, until, bucket_minutes, weekday, index).len() <= walk_steps(
            from,
            until,
            bucket_minutes,
        ),
    decreases
            (if until > from {
                until - from
            } else {
                0
            }),
{
    lemma_buckets_fill_day(bucket_minutes);
    if from >= until {
        assert(walked_dates(from, until, bucket_minutes, weekday, index) =~= Set::<i64>::empty());
    } else {
        lemma_quotient_bounds(from, 86_400_000);
        let date = day_of(from) as i64;
        lemma_next_aligned(from, bucket_minutes);
        lemma_walked_dates_bound(
            from + bucket_millis(bucket_minutes),
            until,
            bucket_minutes,
            weekday,
            index,
        );
        lemma_walk_step(from, until, bucket_minutes, weekday, index, date);
        lemma_walk_steps_next(from, until, bucket_minutes);
    }
}

/// Count one online friend into the bucket that the local time `at` falls
/// into, and register the date of `at` there.
fn count_local_bucket(bucket_duration_minutes: u32, at: i128, buckets: &mut Vec<Vec<BucketValue>>) -> (hit:
    (BucketKey, i64))
    requires
        valid_bucket_minutes(bucket_duration_minutes as int),
        local_in_range(at as int),
        grid_shape(old(buckets)@, buckets_per_day(bucket_duration_minutes as int)),
        old(buckets)[weekday_of(day_of(at as int))][bucket_index_of(
            at as int,
            bucket_duration_minutes as int,
        )].online_count < u32::MAX,
    ensures
        hit.0.weekday == weekday_of(day_of(at as int)),
        hit.0.bucket_index == bucket_index_of(at as int, bucket_duration_minutes as int),
        hit.1 == day_of(at as int),
        same_but_bucket(
            old(buckets)@,
            final(buckets)@,
            hit.0.weekday as int,
            hit.0.bucket_index as int,
        ),
        final(buckets)[hit.0.weekday as int][hit.0.bucket_index as int].online_count == old(
            buckets,
        )[hit.0.weekday as int][hit.0.bucket_index as int].online_count + 1,
        final(buckets)[hit.0.weekday as int][hit.0.bucket_index as int].dates() == old(
            buckets,
        )[hit.0.weekday as int][hit.0.bucket_index as int].dates().insert(hit.1),
{
    let key: BucketKey = local_bucket_key(bucket_duration_minutes, at);
    let date: i64 = date_of_local(at);
    // increment the friend online count
    buckets[key.weekday][key.bucket_index].increment();
    // the observer is taken to be running for this whole range, so update its dates as well
    buckets[key.weekday][key.bucket_index].register_date(date);
    (key, date)
}

/// Register the date of the local time `at` in the bucket that `at` falls into.
fn register_local_bucket_date(
    bucket_duration_minutes: u32,
    at: i128,
    buckets: &mut Vec<Vec<BucketValue>>,
) -> (hit: (BucketKey, i64))
    requires
        valid_bucket_minutes(bucket_duration_minutes as int),
        local_in_range(at as int),
        grid_shape(old(buckets)@, buckets_per_day(bucket_duration_minutes as int)),
    ensures
        hit.0.weekday == weekday_of(day_of(at as int)),
        hit.0.bucket_index == bucket_index_of(at as int, bucket_duration_minutes as int),
        hit.1 == day_of(at as int),
        same_but_bucket(
            old(buckets)@,
            final(buckets)@,
            hit.0.weekday as int,
            hit.0.bucket_index as int,
        ),
        final(buckets)[hit.0.weekday as int][hit.0.bucket_index as int].online_count == old(
            buckets,
        )[hit.0.weekday as int][hit.0.bucket_index as int].online_count,
        final(buckets)[hit.0.weekday as int][hit.0.bucket_index as int].dates() == old(
            buckets,
        )[hit.0.weekday as int][hit.0.bucket_index as int].dates().insert(hit.1),
{
    let key: BucketKey = local_bucket_key(bucket_duration_minutes, at);
    let date: i64 = date_of_local(at);
    buckets[key.weekday][key.bucket_index].register_date(date);
    (key, date)
}

/// Register the local date of `bucket_time` in the bucket that it falls into.
pub fn register_bucket_date(
    bucket_duration_minutes: u32,
    utc_offset_seconds: i32,
    bucket_time: i64,
    buckets: &mut Vec<Vec<BucketValue>>,
)
    requires
        valid_bucket_minutes(bucket_duration_minutes as int),
        grid_shape(old(buckets)@, buckets_per_day(bucket_duration_minutes as int)),
    ensures
        ({
            let local = local_millis(bucket_time as int, utc_offset_seconds as int);
            let weekday = weekday_of(day_of(local));
            let index = bucket_index_of(local, bucket_duration_minutes as int);
            &&& same_but_bucket(old(buckets)@, final(buckets)@, weekday, index)
            &&& final(buckets)[weekday][index].online_count == old(
                buckets,
            )[weekday][index].online_count
            &&& final(buckets)[weekday][index].dates() == old(buckets)[weekday][index].dates().insert(
                day_of(local) as i64,
            )
        }),
        grid_consistent(old(buckets)@) ==> grid_consistent(final(buckets)@),
{
    let ghost before = buckets@;
    let at: i128 = to_local(bucket_time, utc_offset_seconds);
    let hit = register_local_bucket_date(bucket_duration_minutes, at, buckets);
    proof {
        if grid_consistent(before) {
            assert forall|d: int, b: int|
                0 <= d < buckets@.len() && 0 <= b < buckets@[d].len() implies (
            #[trigger] buckets@[d][b]).consistent() by {
                if d == hit.0.weekday && b == hit.0.bucket_index {
                    assert(buckets[d][b].dates().contains(hit.1));
                } else {
                    assert(buckets[d][b] == before[d][b]);
                    assert(before[d][b].consistent());
                }
            }
        }
    }
}

/// The dates that counting `span` registers in bucket `index` of `weekday`:
/// those on which that bucket starts at or after the start of `span`,
/// truncated down to a bucket boundary, and before the end of `span`.
pub open spec fn counted_dates(
    bucket_minutes: int,
    utc_offset_seconds: int,
    span: TimeSpan,
    weekday: int,
    index: int,
) -> Set<i64> {
    walked_dates(
        bucket_floor(local_millis(span.start as int, utc_offset_seconds), bucket_minutes),
        local_millis(span.stop as int, utc_offset_seconds),
        bucket_minutes,
        weekday,
        index,
    )
}

/// update bucket counts that a provided range encompasses
///
/// Every bucket that starts within the range, or that the range starts in,
/// gains one count and the local date on which it starts.
pub fn update_bucket_counts_for_range(
    bucket_duration_minutes: u32,
    utc_offset_seconds: i32,
    time_span: TimeSpan,
    buckets: &mut Vec<Vec<BucketValue>>,
)
    requires
        valid_bucket_minutes(bucket_duration_minutes as int),
        grid_shape(old(buckets)@, buckets_per_day(bucket_duration_minutes as int)),
        forall|d: int, b: int|
            0 <= d < 7 && 0 <= b < buckets_per_day(bucket_duration_minutes as int) ==> (
            #[trigger] old(buckets)[d][b]).online_count + counted_dates(
                bucket_duration_minutes as int,
                utc_offset_seconds as int,
                time_span,
                d,
                b,
            ).len() <= u32::MAX,
    ensures
        grid_shape(final(buckets)@, buckets_per_day(bucket_duration_minutes as int)),
        forall|d: int, b: int|
            0 <= d < 7 && 0 <= b < buckets_per_day(bucket_duration_minutes as int) ==> (
            #[trigger] final(buckets)[d][b]).online_count == old(buckets)[d][b].online_count
                + counted_dates(
                bucket_duration_minutes as int,
                utc_offset_seconds as int,
                time_span,
                d,
                b,
            ).len(),
        forall|d: int, b: int|
            0 <= d < 7 && 0 <= b < buckets_per_day(bucket_duration_minutes as int) ==> (
            #[trigger] final(buckets)[d][b]).dates() == old(buckets)[d][b].dates().union(
                counted_dates(
                    bucket_duration_minutes as int,
                    utc_offset_seconds as int,
                    time_span,
                    d,
                    b,
                ),
            ),
        grid_consistent(old(buckets)@) ==> grid_consistent(final(buckets)@),
{
    let ghost minutes = bucket_duration_minutes as int;
    let ghost per_day = buckets_per_day(minutes);
    let ghost before = buckets@;
    let width: i128 = bucket_width(bucket_duration_minutes);
    let end_time: i128 = to_local(time_span.stop, utc_offset_seconds);
    let start_local: i128 = to_local(time_span.start, utc_offset_seconds);
    proof {
        lemma_buckets_fill_day(minutes);
        lemma_bucket_floor(start_local as int, minutes);
    }
    let mut start_time: i128 = start_local - mod_floor(start_local, width);
    let ghost first = start_time as int;

    while start_time < end_time
        invariant
            valid_bucket_minutes(minutes),
            minutes == bucket_duration_minutes,
            per_day == buckets_per_day(minutes),
            width == bucket_millis(minutes),
            60_000 <= width <= 86_400_000,
            bucket_aligned(start_time as int, minutes),
            -0x8000_0000_0000_0000 - 0x8000_0000 * 1000 - 86_400_000 <= first <= start_time,
            start_time <= 0x8000_0000_0000_0000 + 0x8000_0000 * 1000 + 86_400_000,
            end_time <= 0x8000_0000_0000_0000 + 0x8000_0000 * 1000,
            grid_shape(before, per_day),
            grid_shape(buckets@, per_day),
            forall|d: int, b: int|
                0 <= d < 7 && 0 <= b < per_day ==> (#[trigger] before[d][b]).online_count
                    + walked_dates(first, end_time as int, minutes, d, b).len() <= u32::MAX,
            forall|d: int, b: int|
                0 <= d < 7 && 0 <= b < per_day ==> (#[trigger] buckets[d][b]).online_count
                    + walked_dates(start_time as int, end_time as int, minutes, d, b).len()
                    == before[d][b].online_count + walked_dates(
                    first,
                    end_time as int,
                    minutes,
                    d,
                    b,
                ).len(),
            forall|d: int, b: int|
                0 <= d < 7 && 0 <= b < per_day ==> (#[trigger] buckets[d][b]).dates().union(
                    walked_dates(start_time as int, end_time as int, minutes, d, b),
                ) == before[d][b].dates().union(
                    walked_dates(first, end_time as int, minutes, d, b),
                ),
            grid_consistent(before) ==> grid_consistent(buckets@),
        decreases
                (if start_time < end_time {
                    end_time - start_time
                } else {
                    0
                }),
    {
        let ghost at = start_time as int;
        let ghost previous = buckets@;
        let ghost weekday = weekday_of(day_of(at));
        let ghost index = bucket_index_of(at, minutes);
        proof {
            lemma_aligned_is_bucket_start(at, minutes);
            lemma_quotient_bounds(at, 86_400_000);
            lemma_quotient_bounds(day_of(at) + 3, 7);
            lemma_next_aligned(at, minutes);
            lemma_walk_step(at, end_time as int, minutes, weekday, index, day_of(at) as i64);
            lemma_walked_dates_bound(at + width, end_time as int, minutes, weekday, index);
            assert(previous[weekday][index].online_count < u32::MAX);
        }
        let hit = count_local_bucket(bucket_duration_minutes, start_time, buckets);
        start_time = start_time + width;
        proof {
            let date = hit.1;
            assert forall|d: int, b: int| 0 <= d < 7 && 0 <= b < per_day implies (
            #[trigger] buckets[d][b]).online_count + walked_dates(
                start_time as int,
                end_time as int,
                minutes,
                d,
                b,
            ).len() == before[d][b].online_count + walked_dates(
                first,
                end_time as int,
                minutes,
                d,
                b,
            ).len() && buckets[d][b].dates().union(
                walked_dates(start_time as int, end_time as int, minutes, d, b),
            ) == before[d][b].dates().union(walked_dates(first, end_time as int, minutes, d, b)) by {
                lemma_walk_step(at, end_time as int, minutes, d, b, date);
                lemma_walked_dates_bound(at + width, end_time as int, minutes, d, b);
                let here = walked_dates(at, end_time as int, minutes, d, b);
                let next = walked_dates(start_time as int, end_time as int, minutes, d, b);
                assert(previous[d][b].online_count + here.len() == before[d][b].online_count
                    + walked_dates(first, end_time as int, minutes, d, b).len());
                assert(previous[d][b].dates().union(here) == before[d][b].dates().union(
                    walked_dates(first, end_time as int, minutes, d, b),
                ));
                if d == weekday && b == index {
                    assert(here == next.insert(date));
                    assert(buckets[d][b].dates().union(next) =~= previous[d][b].dates().union(
                        here,
                    ));
                } else {
                    assert(buckets[d][b] == previous[d][b]);
                    assert(here == next);
                }
            }
            if grid_consistent(before) {
                assert forall|d: int, b: int|
                    0 <= d < buckets@.len() && 0 <= b < buckets@[d].len() implies (
                #[trigger] buckets@[d][b]).consistent() by {
                    if d == weekday && b == index {
                        assert(buckets[d][b].dates().contains(date));
                    } else {
                        assert(buckets[d][b] == previous[d][b]);
                        assert(previous[d][b].consistent());
                    }
                }
            }
        }
    }
    proof {
        assert forall|d: int, b: int| 0 <= d < 7 && 0 <= b < per_day implies (
        #[trigger] buckets[d][b]).online_count == before[d][b].online_count + walked_dates(
            first,
            end_time as int,
            minutes,
            d,
            b,
        ).len() && buckets[d][b].dates() == before[d][b].dates().union(
            walked_dates(first, end_time as int, minutes, d, b),
        ) by {
            let rest = walked_dates(start_time as int, end_time as int, minutes, d, b);
            assert(rest =~= Set::<i64>::empty());
            assert(buckets[d][b].dates().union(rest) =~= buckets[d][b].dates());
        }
    }
}

/// Looking on by one bucket from `at` leaves out the date of `at`, for the
/// bucket of `at` and where the span covers most of it, and nothing else.
proof fn lemma_cover_step(
    at: int,
    span_start: int,
    span_stop: int,
    bucket_minutes: int,
    weekday: int,
    index: int,
    date: i64,
)
    requires
        valid_bucket_minutes(bucket_minutes),
        bucket_aligned(at, bucket_minutes),
        0 <= index < buckets_per_day(bucket_minutes),
        date == day_of(at),
    ensures
        covered_dates_from(at, span_start, span_stop, bucket_minutes, weekday, index)
            == if mostly_covered(span_start, span_stop, at, bucket_minutes) && weekday
            == weekday_of(day_of(at)) && index == bucket_index_of(at, bucket_minutes) {
            covered_dates_from(
                at + bucket_millis(bucket_minutes),
                span_start,
                span_stop,
                bucket_minutes,
                weekday,
                index,
            ).insert(date)
        } else {
            covered_dates_from(
                at + bucket_millis(bucket_minutes),
                span_start,
                span_stop,
                bucket_minutes,
                weekday,
                index,
            )
        },
{
    let here = covered_dates_from(at, span_start, span_stop, bucket_minutes, weekday, index);
    let next = covered_dates_from(
        at + bucket_millis(bucket_minutes),
        span_start,
        span_stop,
        bucket_minutes,
        weekday,
        index,
    );
    let hit = mostly_covered(span_start, span_stop, at, bucket_minutes) && weekday == weekday_of(
        day_of(at),
    ) && index == bucket_index_of(at, bucket_minutes);
    lemma_buckets_fill_day(bucket_minutes);
    lemma_one_bucket_starts_at(at, bucket_minutes, date as int, index);
    assert forall|day: i64| here.contains(day) == (next.contains(day) || (hit && day == date)) by {
        lemma_one_bucket_starts_at(at, bucket_minutes, day as int, index);
    }
    if hit {
        assert(here =~= next.insert(date));
    } else {
        assert(here =~= next);
    }
}

/// No bucket that starts before the one in which the span starts, or at or
/// after the end of the span, is covered at all.
proof fn lemma_cover_bounds(
    from: int,
    span_start: int,
    span_stop: int,
    bucket_minutes: int,
    weekday: int,
    index: int,
)
    requires
        valid_bucket_minutes(bucket_minutes),
        bucket_aligned(from, bucket_minutes),
        0 <= index < buckets_per_day(bucket_minutes),
    ensures
        from <= span_start ==> covered_dates_from(
            from,
            span_start,
            span_stop,
            bucket_minutes,
            weekday,
            index,
        ) == covered_dates(span_start, span_stop, bucket_minutes, weekday, index),
        span_stop <= from ==> covered_dates_from(
            from,
            span_start,
            span_stop,
            bucket_minutes,
            weekday,
            index,
        ) == Set::<i64>::empty(),
{
    let later = covered_dates_from(from, span_start, span_stop, bucket_minutes, weekday, index);
    let all = covered_dates(span_start, span_stop, bucket_minutes, weekday, index);
    lemma_buckets_fill_day(bucket_minutes);
    if from <= span_start {
        assert forall|day: i64| all.contains(day) implies later.contains(day) by {
            let begins = bucket_start(day as int, index, bucket_minutes);
            lemma_bucket_start_decomposes(day as int, index, bucket_minutes);
            if begins < from {
                if from < begins + bucket_millis(bucket_minutes) {
                    lemma_aligned_apart(begins, from, bucket_minutes);
                }
            }
        }
        assert(later =~= all);
    }
    if span_stop <= from {
        assert(later =~= Set::<i64>::empty());
    }
}

/// The dates that `span` shows the observer to have been active on, for
/// bucket `index` of `weekday`: those on which `span` covers more than half
/// of that bucket.
pub open spec fn active_dates(
    bucket_minutes: int,
    utc_offset_seconds: int,
    span: TimeSpan,
    weekday: int,
    index: int,
) -> Set<i64> {
    covered_dates(
        local_millis(span.start as int, utc_offset_seconds),
        local_millis(span.stop as int, utc_offset_seconds),
        bucket_minutes,
        weekday,
        index,
    )
}

/// The grid `now` holds what `before` held and, of the dates in which the
/// span covers most of a bucket, those of buckets that start before `at`.
spec fn registered_up_to(
    before: Seq<Vec<BucketValue>>,
    now: Seq<Vec<BucketValue>>,
    at: int,
    span_start: int,
    span_stop: int,
    bucket_minutes: int,
) -> bool {
    &&& grid_shape(now, buckets_per_day(bucket_minutes))
    &&& forall|d: int, b: int|
        0 <= d < 7 && 0 <= b < buckets_per_day(bucket_minutes) ==> (#[trigger] now[d][b]).online_count
            == before[d][b].online_count
    &&& forall|d: int, b: int|
        0 <= d < 7 && 0 <= b < buckets_per_day(bucket_minutes) ==> (#[trigger] now[d][b]).dates().union(
            covered_dates_from(at, span_start, span_stop, bucket_minutes, d, b),
        ) == before[d][b].dates().union(
            covered_dates(span_start, span_stop, bucket_minutes, d, b),
        )
    &&& grid_consistent(before) ==> grid_consistent(now)
}

/// Passing the bucket that starts at `at` keeps `registered_up_to`, where
/// the bucket was registered if and only if the span covers most of it.
proof fn lemma_registered_next(
    before: Seq<Vec<BucketValue>>,
    previous: Seq<Vec<BucketValue>>,
    now: Seq<Vec<BucketValue>>,
    at: int,
    span_start: int,
    span_stop: int,
    bucket_minutes: int,
)
    requires
        valid_bucket_minutes(bucket_minutes),
        bucket_aligned(at, bucket_minutes),
        local_in_range(at),
        grid_shape(before, buckets_per_day(bucket_minutes)),
        registered_up_to(before, previous, at, span_start, span_stop, bucket_minutes),
        if mostly_covered(span_start, span_stop, at, bucket_minutes) {
            let weekday = weekday_of(day_of(at));
            let index = bucket_index_of(at, bucket_minutes);
            &&& same_but_bucket(previous, now, weekday, index)
            &&& now[weekday][index].online_count == previous[weekday][index].online_count
            &&& now[weekday][index].dates() == previous[weekday][index].dates().insert(
                day_of(at) as i64,
            )
        } else {
            now == previous
        },
    ensures
        registered_up_to(
            before,
            now,
            at + bucket_millis(bucket_minutes),
            span_start,
            span_stop,
            bucket_minutes,
        ),
{
    let per_day = buckets_per_day(bucket_minutes);
    let weekday = weekday_of(day_of(at));
    let index = bucket_index_of(at, bucket_minutes);
    let date = day_of(at) as i64;
    let next_at = at + bucket_millis(bucket_minutes);
    let registered = mostly_covered(span_start, span_stop, at, bucket_minutes);
    lemma_aligned_is_bucket_start(at, bucket_minutes);
    lemma_quotient_bounds(at, 86_400_000);
    lemma_quotient_bounds(day_of(at) + 3, 7);
    assert forall|d: int, b: int| 0 <= d < 7 && 0 <= b < per_day implies (#[trigger] now[d][b]).online_count
        == before[d][b].online_count && now[d][b].dates().union(
        covered_dates_from(next_at, span_start, span_stop, bucket_minutes, d, b),
    ) == before[d][b].dates().union(
        covered_dates(span_start, span_stop, bucket_minutes, d, b),
    ) by {
        lemma_cover_step(at, span_start, span_stop, bucket_minutes, d, b, date);
        let here = covered_dates_from(at, span_start, span_stop, bucket_minutes, d, b);
        let next = covered_dates_from(next_at, span_start, span_stop, bucket_minutes, d, b);
        assert(previous[d][b].online_count == before[d][b].online_count);
        assert(previous[d][b].dates().union(here) == before[d][b].dates().union(
            covered_dates(span_start, span_stop, bucket_minutes, d, b),
        ));
        if registered && d == weekday && b == index {
            assert(here == next.insert(date));
            assert(now[d][b].dates().union(next) =~= previous[d][b].dates().union(here));
        } else {
            assert(now[d][b] == previous[d][b]);
            assert(here == next);
        }
    }
    if grid_consistent(before) {
        assert forall|d: int, b: int| 0 <= d < now.len() && 0 <= b < now[d].len() implies (
        #[trigger] now[d][b]).consistent() by {
            assert(previous[d][b].consistent());
            if registered && d == weekday && b == index {
                assert(now[d][b].dates().contains(date));
                assert(now[d][b].online_count == before[d][b].online_count);
                assert(previous[d][b].dates().union(
                    covered_dates_from(at, span_start, span_stop, bucket_minutes, d, b),
                ) == before[d][b].dates().union(
                    covered_dates(span_start, span_stop, bucket_minutes, d, b),
                ));
            } else {
                assert(now[d][b] == previous[d][b]);
            }
        }
    }
}

/// register this range's dates as active for the relevant buckets
///
/// A bucket gains the local date on which it starts if the range covers more
/// than half of it: every bucket that lies within the range, and the buckets
/// at its two ends where they are mostly within it. No count changes.
pub fn register_bucket_dates_for_range(
    bucket_duration_minutes: u32,
    utc_offset_seconds: i32,
    time_span: TimeSpan,
    buckets: &mut Vec<Vec<BucketValue>>,
)
    requires
        valid_bucket_minutes(bucket_duration_minutes as int),
        grid_shape(old(buckets)@, buckets_per_day(bucket_duration_minutes as int)),
    ensures
        grid_shape(final(buckets)@, buckets_per_day(bucket_duration_minutes as int)),
        forall|d: int, b: int|
            0 <= d < 7 && 0 <= b < buckets_per_day(bucket_duration_minutes as int) ==> (
            #[trigger] final(buckets)[d][b]).online_count == old(buckets)[d][b].online_count,
        forall|d: int, b: int|
            0 <= d < 7 && 0 <= b < buckets_per_day(bucket_duration_minutes as int) ==> (
            #[trigger] final(buckets)[d][b]).dates() == old(buckets)[d][b].dates().union(
                active_dates(
                    bucket_duration_minutes as int,
                    utc_offset_seconds as int,
                    time_span,
                    d,
                    b,
                ),
            ),
        grid_consistent(old(buckets)@) ==> grid_consistent(final(buckets)@),
{
    let ghost minutes = bucket_duration_minutes as int;
    let ghost per_day = buckets_per_day(minutes);
    let ghost before = buckets@;
    let width: i128 = bucket_width(bucket_duration_minutes);
    let end_time: i128 = to_local(time_span.stop, utc_offset_seconds);
    let start_time: i128 = to_local(time_span.start, utc_offset_seconds);
    proof {
        lemma_buckets_fill_day(minutes);
        lemma_bucket_floor(start_time as int, minutes);
    }
    let first_bucket_start_time: i128 = start_time - mod_floor(start_time, width);
    proof {
        assert forall|d: int, b: int| 0 <= d < 7 && 0 <= b < per_day implies (
        #[trigger] buckets[d][b]).dates().union(
            covered_dates_from(
                first_bucket_start_time as int,
                start_time as int,
                end_time as int,
                minutes,
                d,
                b,
            ),
        ) == before[d][b].dates().union(
            covered_dates(start_time as int, end_time as int, minutes, d, b),
        ) by {
            lemma_cover_bounds(
                first_bucket_start_time as int,
                start_time as int,
                end_time as int,
                minutes,
                d,
                b,
            );
        }
        assert(registered_up_to(
            before,
            buckets@,
            first_bucket_start_time as int,
            start_time as int,
            end_time as int,
            minutes,
        ));
    }
    // start at first WHOLE bucket
    let mut current_time: i128 = first_bucket_start_time;
    if first_bucket_start_time != start_time {
        // handle the first, partial bucket
        let second_bucket_start_time: i128 = first_bucket_start_time + width;
        let covered_until: i128 = if end_time < second_bucket_start_time {
            end_time
        } else {
            second_bucket_start_time
        };
        let ghost previous = buckets@;
        if 2 * (covered_until - start_time) > width {
            register_local_bucket_date(bucket_duration_minutes, first_bucket_start_time, buckets);
        }
        proof {
            lemma_registered_next(
                before,
                previous,
                buckets@,
                first_bucket_start_time as int,
                start_time as int,
                end_time as int,
                minutes,
            );
            lemma_next_aligned(first_bucket_start_time as int, minutes);
        }
        current_time = second_bucket_start_time;
    }
    // process each WHOLE bucket

    while current_time + width <= end_time
        invariant
            valid_bucket_minutes(minutes),
            minutes == bucket_duration_minutes,
            width == bucket_millis(minutes),
            60_000 <= width <= 86_400_000,
            bucket_aligned(current_time as int, minutes),
            start_time <= current_time,
            current_time <= 0x8000_0000_0000_0000 + 0x8000_0000 * 1000 + 86_400_000,
            -0x8000_0000_0000_0000 - 0x8000_0000 * 1000 <= start_time,
            end_time <= 0x8000_0000_0000_0000 + 0x8000_0000 * 1000,
            grid_shape(before, buckets_per_day(minutes)),
            registered_up_to(
                before,
                buckets@,
                current_time as int,
                start_time as int,
                end_time as int,
                minutes,
            ),
        decreases
                (if current_time < end_time {
                    end_time - current_time
                } else {
                    0
                }),
    {
        let ghost previous = buckets@;
        register_local_bucket_date(bucket_duration_minutes, current_time, buckets);
        proof {
            lemma_registered_next(
                before,
                previous,
                buckets@,
                current_time as int,
                start_time as int,
                end_time as int,
                minutes,
            );
            lemma_next_aligned(current_time as int, minutes);
        }
        current_time = current_time + width;
    }
    // handle any remaining time
    let last_bucket_start_time: i128 = current_time;
    let ghost previous = buckets@;
    if 2 * (end_time - last_bucket_start_time) > width {
        register_local_bucket_date(bucket_duration_minutes, last_bucket_start_time, buckets);
    }
    proof {
        lemma_registered_next(
            before,
            previous,
            buckets@,
            last_bucket_start_time as int,
            start_time as int,
            end_time as int,
            minutes,
        );
        lemma_next_aligned(last_bucket_start_time as int, minutes);
        assert forall|d: int, b: int| 0 <= d < 7 && 0 <= b < per_day implies (
        #[trigger] buckets[d][b]).dates() == before[d][b].dates().union(
            covered_dates(start_time as int, end_time as int, minutes, d, b),
        ) by {
            lemma_cover_bounds(
                last_bucket_start_time + width,
                start_time as int,
                end_time as int,
                minutes,
                d,
                b,
            );
            let rest = covered_dates_from(
                last_bucket_start_time + width,
                start_time as int,
                end_time as int,
                minutes,
                d,
                b,
            );
            assert(buckets[d][b].dates().union(rest) =~= buckets[d][b].dates());
        }
    }
}

/// The number of buckets that counting `span` walks over.
pub open spec fn counted_steps(bucket_minutes: int, utc_offset_seconds: int, span: TimeSpan) -> int {
    walk_steps(
        bucket_floor(local_millis(span.start as int, utc_offset_seconds), bucket_minutes),
        local_millis(span.stop as int, utc_offset_seconds),
        bucket_minutes,
    )
}

/// Counting a span within another walks over no more buckets than counting
/// the other.
pub proof fn lemma_counted_steps_within(
    bucket_minutes: int,
    utc_offset_seconds: int,
    inner: TimeSpan,
    outer: TimeSpan,
)
    requires
        valid_bucket_minutes(bucket_minutes),
        outer.start <= inner.start,
        inner.stop <= outer.stop,
    ensures
        0 <= counted_steps(bucket_minutes, utc_offset_seconds, inner) <= counted_steps(
            bucket_minutes,
            utc_offset_seconds,
            outer,
        ),
{
    lemma_buckets_fill_day(bucket_minutes);
    let width = bucket_millis(bucket_minutes);
    let inner_start = local_millis(inner.start as int, utc_offset_seconds);
    let outer_start = local_millis(outer.start as int, utc_offset_seconds);
    let inner_from = bucket_floor(inner_start, bucket_minutes);
    let outer_from = bucket_floor(outer_start, bucket_minutes);
    let inner_until = local_millis(inner.stop as int, utc_offset_seconds);
    let outer_until = local_millis(outer.stop as int, utc_offset_seconds);
    lemma_bucket_floor(inner_start, bucket_minutes);
    lemma_bucket_floor(outer_start, bucket_minutes);
    if inner_from < outer_from {
        lemma_next_aligned(inner_from, bucket_minutes);
        if outer_from < inner_from + width {
            lemma_aligned_apart(inner_from, outer_from, bucket_minutes);
        }
    }
    if inner_until > inner_from {
        lemma_quotient_bounds(inner_until - inner_from + width - 1, width);
        vstd::arithmetic::div_mod::lemma_div_is_ordered(
            inner_until - inner_from + width - 1,
            outer_until - outer_from + width - 1,
            width,
        );
    } else if outer_until > outer_from {
        lemma_quotient_bounds(outer_until - outer_from + width - 1, width);
    }
}

/// A bucket gains no more counts from a span than counting the span has steps.
pub proof fn lemma_counted_dates_bound(
    bucket_minutes: int,
    utc_offset_seconds: int,
    span: TimeSpan,
    weekday: int,
    index: int,
)
    requires
        valid_bucket_minutes(bucket_minutes),
        -0x8000_0000 <= utc_offset_seconds < 0x8000_0000,
        0 <= index < buckets_per_day(bucket_minutes),
    ensures
        counted_dates(bucket_minutes, utc_offset_seconds, span, weekday, index).finite(),
        counted_dates(bucket_minutes, utc_offset_seconds, span, weekday, index).len()
            <= counted_steps(bucket_minutes, utc_offset_seconds, span),
{
    lemma_buckets_fill_day(bucket_minutes);
    let start = local_millis(span.start as int, utc_offset_seconds);
    lemma_bucket_floor(start, bucket_minutes);
    lemma_walked_dates_bound(
        bucket_floor(start, bucket_minutes),
        local_millis(span.stop as int, utc_offset_seconds),
        bucket_minutes,
        weekday,
        index,
    );
}

/// Every count of the grid can grow by `additional` within its type.
pub open spec fn grid_has_room(grid: Seq<Vec<BucketValue>>, additional: int) -> bool {
    forall|d: int, b: int|
        0 <= d < grid.len() && 0 <= b < grid[d].len() ==> (#[trigger] grid[d][b]).online_count
            + additional <= u32::MAX
}

/// Room for as many counts as counting `span` has steps is room for
/// counting `span`.
pub proof fn lemma_room_for_range(
    grid: Seq<Vec<BucketValue>>,
    bucket_minutes: int,
    utc_offset_seconds: int,
    span: TimeSpan,
)
    requires
        valid_bucket_minutes(bucket_minutes),
        grid_shape(grid, buckets_per_day(bucket_minutes)),
        -0x8000_0000 <= utc_offset_seconds < 0x8000_0000,
        grid_has_room(grid, counted_steps(bucket_minutes, utc_offset_seconds, span)),
    ensures
        forall|d: int, b: int|
            0 <= d < 7 && 0 <= b < buckets_per_day(bucket_minutes) ==> (#[trigger] grid[d][b]).online_count
                + counted_dates(bucket_minutes, utc_offset_seconds, span, d, b).len() <= u32::MAX,
{
    assert forall|d: int, b: int| 0 <= d < 7 && 0 <= b < buckets_per_day(bucket_minutes) implies (
    #[trigger] grid[d][b]).online_count + counted_dates(
        bucket_minutes,
        utc_offset_seconds,
        span,
        d,
        b,
    ).len() <= u32::MAX by {
        lemma_counted_dates_bound(bucket_minutes, utc_offset_seconds, span, d, b);
    }
}

/// The number of buckets that counting `time_span` walks over.
pub fn count_steps(bucket_duration_minutes: u32, utc_offset_seconds: i32, time_span: TimeSpan) -> (steps:
    u64)
    requires
        valid_bucket_minutes(bucket_duration_minutes as int),
    ensures
        steps == counted_steps(
            bucket_duration_minutes as int,
            utc_offset_seconds as int,
            time_span,
        ),
        steps <= 0x4_0000_0000_0000,
{
    let width: i128 = bucket_width(bucket_duration_minutes);
    let end_time: i128 = to_local(time_span.stop, utc_offset_seconds);
    let start_local: i128 = to_local(time_span.start, utc_offset_seconds);
    proof {
        lemma_buckets_fill_day(bucket_duration_minutes as int);
        lemma_bucket_floor(start_local as int, bucket_duration_minutes as int);
    }
    let start_time: i128 = start_local - mod_floor(start_local, width);
    if end_time > start_time {
        let ahead: i128 = end_time - start_time + width - 1;
        let steps: i128 = ahead / width;
        proof {
            lemma_quotient_bounds(ahead as int, width as int);
            vstd::arithmetic::div_mod::lemma_fundamental_div_mod(ahead as int, width as int);
            let rest = ahead as int % width as int;
            assert(steps <= 0x4_0000_0000_0000) by (nonlinear_arith)
                requires
                    ahead == width * steps + rest,
                    0 <= rest,
                    0 <= steps,
                    60_000 <= width,
                    ahead <= 0x2_0000_0000_0000_0000,
            ;
        }
        steps as u64
    } else {
        0
    }
}

/// Whether every count of the grid can grow by `additional` within its type.
pub fn counts_have_room(buckets: &Vec<Vec<BucketValue>>, additional: u64) -> (room: bool)
    ensures
        room == grid_has_room(buckets@, additional as int),
{
    let mut day: usize = 0;
    while day < buckets.len()
        invariant
            day <= buckets@.len(),
            forall|d: int, b: int|
                0 <= d < day && 0 <= b < buckets@[d].len() ==> (#[trigger] buckets@[d][b]).online_count
                    + additional <= u32::MAX,
        decreases buckets@.len() - day,
    {
        let row = &buckets[day];
        let mut index: usize = 0;
        while index < row.len()
            invariant
                day < buckets@.len(),
                *row == buckets@[day as int],
                index <= row@.len(),
                forall|b: int|
                    0 <= b < index ==> (#[trigger] row@[b]).online_count + additional
                        <= u32::MAX,
            decreases row@.len() - index,
        {
            if additional > u32::MAX as u64 || row[index].online_count as u64 > u32::MAX as u64
                - additional {
                assert(buckets@[day as int][index as int].online_count + additional > u32::MAX);
                return false;
            }
            index = index + 1;
        }
        day = day + 1;
    }
    true
}

} // verus!
