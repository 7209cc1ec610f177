//! Local time: the day, the weekday and the bucket of an instant.
//!
//! Local time is UTC shifted by a fixed number of seconds. All arithmetic is
//! on milliseconds; division rounds towards negative infinity, so instants
//! before 1970 are handled like any other.

use crate::constants::{
    EPOCH_WEEKDAY, MILLISECONDS_PER_DAY, MILLISECONDS_PER_MINUTE, MILLISECONDS_PER_SECOND,
};
use vstd::arithmetic::div_mod::{lemma_fundamental_div_mod, lemma_fundamental_div_mod_converse};
use vstd::prelude::*;

verus! {

/// The weekday and the time-of-day slot that an instant falls into.
#[derive(Clone, Copy, Debug, PartialEq, Eq, Structural)]
pub struct BucketKey {
    /// 0 for Monday up to 6 for Sunday
    pub weekday: usize,
    /// which bucket of the day, counted from local midnight
    pub bucket_index: usize,
}

/// A bucket width is a positive number of minutes that divides the day.
pub open spec fn valid_bucket_minutes(bucket_minutes: int) -> bool {
    bucket_minutes > 0 && 1440int % bucket_minutes == 0
}

/// How many buckets of this width a day has.
pub open spec fn buckets_per_day(bucket_minutes: int) -> int {
    1440int / bucket_minutes
}

/// The width of a bucket in milliseconds.
pub open spec fn bucket_millis(bucket_minutes: int) -> int {
    bucket_minutes * 60_000
}

/// Local milliseconds of an instant.
pub open spec fn local_millis(instant: int, utc_offset_seconds: int) -> int {
    instant + utc_offset_seconds * 1000
}

/// The local date: days since 1 January 1970.
pub open spec fn day_of(local: int) -> int {
    local / 86_400_000
}

/// The weekday of a date, 0 for Monday up to 6 for Sunday.
pub open spec fn weekday_of(day: int) -> int {
    (day + 3) % 7
}

/// Whole minutes since local midnight.
pub open spec fn minute_of_day(local: int) -> int {
    (local % 86_400_000) / 60_000
}

/// Which bucket of its day a local time falls into, counted from midnight.
pub open spec fn bucket_index_of(local: int, bucket_minutes: int) -> int {
    minute_of_day(local) / bucket_minutes
}

/// `local` truncated down to the start of its bucket.
pub open spec fn bucket_floor(local: int, bucket_minutes: int) -> int {
    local - local % bucket_millis(bucket_minutes)
}

/// `local` is the start of a bucket.
pub open spec fn bucket_aligned(local: int, bucket_minutes: int) -> bool {
    local % bucket_millis(bucket_minutes) == 0
}

/// Local milliseconds at which bucket `index` of date `day` starts.
pub open spec fn bucket_start(day: int, index: int, bucket_minutes: int) -> int {
    day * 86_400_000 + index * bucket_millis(bucket_minutes)
}

/// Local times that the library computes with: what an instant and an offset
/// can give, and some buckets beyond.
pub open spec fn local_in_range(local: int) -> bool {
    -0x1_0000_0000_0000_0000 <= local <= 0x1_0000_0000_0000_0000
}

/// A quotient is no further from zero than the dividend, and a remainder
/// lies below the divisor.
pub(crate) proof fn lemma_quotient_bounds(x: int, d: int)
    requires
        d > 0,
    ensures
        0 <= x % d < d,
        x >= 0 ==> 0 <= x / d <= x,
        x < 0 ==> x <= x / d < 0,
{
    lemma_fundamental_div_mod(x, d);
    let q = x / d;
    let r = x % d;
    assert((x >= 0 ==> 0 <= q <= x) && (x < 0 ==> x <= q < 0)) by (nonlinear_arith)
        requires
            d > 0,
            x == d * q + r,
            0 <= r < d,
    ;
}

/// The buckets of a day fill it exactly.
pub(crate) proof fn lemma_buckets_fill_day(bucket_minutes: int)
    requires
        valid_bucket_minutes(bucket_minutes),
    ensures
        buckets_per_day(bucket_minutes) * bucket_minutes == 1440,
        buckets_per_day(bucket_minutes) * bucket_millis(bucket_minutes) == 86_400_000,
        1 <= buckets_per_day(bucket_minutes) <= 1440,
        1 <= bucket_minutes <= 1440,
        60_000 <= bucket_millis(bucket_minutes) <= 86_400_000,
{
    lemma_fundamental_div_mod(1440, bucket_minutes);
    let per_day = buckets_per_day(bucket_minutes);
    assert(per_day * bucket_minutes == 1440) by (nonlinear_arith)
        requires
            1440 == bucket_minutes * per_day + 0,
    ;
    assert(per_day * (bucket_minutes * 60_000) == 86_400_000) by (nonlinear_arith)
        requires
            per_day * bucket_minutes == 1440,
    ;
    assert(1 <= per_day <= 1440 && bucket_minutes <= 1440) by (nonlinear_arith)
        requires
            per_day * bucket_minutes == 1440,
            bucket_minutes > 0,
    ;
}

/// The start of bucket `index` on date `day` lies on that date, in that
/// bucket, and is aligned.
pub(crate) proof fn lemma_bucket_start_decomposes(day: int, index: int, bucket_minutes: int)
    requires
        valid_bucket_minutes(bucket_minutes),
        0 <= index < buckets_per_day(bucket_minutes),
    ensures
        day_of(bucket_start(day, index, bucket_minutes)) == day,
        bucket_index_of(bucket_start(day, index, bucket_minutes), bucket_minutes) == index,
        bucket_aligned(bucket_start(day, index, bucket_minutes), bucket_minutes),
{
    lemma_buckets_fill_day(bucket_minutes);
    let per_day = buckets_per_day(bucket_minutes);
    let width = bucket_millis(bucket_minutes);
    let within = index * width;
    let x = bucket_start(day, index, bucket_minutes);
    assert(0 <= within && within + width <= 86_400_000) by (nonlinear_arith)
        requires
            0 <= index < per_day,
            per_day * width == 86_400_000,
            width > 0,
            within == index * width,
    ;
    lemma_fundamental_div_mod_converse(x, 86_400_000, day, within);
    assert(within == 60_000 * (index * bucket_minutes) + 0) by (nonlinear_arith)
        requires
            within == index * (bucket_minutes * 60_000),
    ;
    lemma_fundamental_div_mod_converse(within, 60_000, index * bucket_minutes, 0);
    assert(index * bucket_minutes == bucket_minutes * index + 0) by (nonlinear_arith);
    lemma_fundamental_div_mod_converse(index * bucket_minutes, bucket_minutes, index, 0);
    assert(x == width * (day * per_day + index) + 0) by (nonlinear_arith)
        requires
            x == day * 86_400_000 + index * width,
            per_day * width == 86_400_000,
    ;
    lemma_fundamental_div_mod_converse(x, width, day * per_day + index, 0);
}

/// An aligned local time is the start of the bucket it falls into.
pub(crate) proof fn lemma_aligned_is_bucket_start(local: int, bucket_minutes: int)
    requires
        valid_bucket_minutes(bucket_minutes),
        bucket_aligned(local, bucket_minutes),
    ensures
        0 <= bucket_index_of(local, bucket_minutes) < buckets_per_day(bucket_minutes),
        bucket_start(day_of(local), bucket_index_of(local, bucket_minutes), bucket_minutes)
            == local,
{
    lemma_buckets_fill_day(bucket_minutes);
    let per_day = buckets_per_day(bucket_minutes);
    let width = bucket_millis(bucket_minutes);
    let ordinal = local / width;
    lemma_fundamental_div_mod(local, width);
    lemma_fundamental_div_mod(ordinal, per_day);
    let day = ordinal / per_day;
    let index = ordinal % per_day;
    assert(local == day * 86_400_000 + index * width) by (nonlinear_arith)
        requires
            local == width * ordinal + 0,
            ordinal == per_day * day + index,
            per_day * width == 86_400_000,
    ;
    lemma_bucket_start_decomposes(day, index, bucket_minutes);
}

/// Every local time falls into one of the buckets of its day.
pub(crate) proof fn lemma_bucket_index_bounds(local: int, bucket_minutes: int)
    requires
        valid_bucket_minutes(bucket_minutes),
    ensures
        0 <= bucket_index_of(local, bucket_minutes) < buckets_per_day(bucket_minutes),
        0 <= minute_of_day(local) < 1440,
        0 <= weekday_of(day_of(local)) < 7,
{
    lemma_buckets_fill_day(bucket_minutes);
    let per_day = buckets_per_day(bucket_minutes);
    let minute = minute_of_day(local);
    lemma_fundamental_div_mod(minute, bucket_minutes);
    let index = minute / bucket_minutes;
    let rest = minute % bucket_minutes;
    assert(0 <= index < per_day) by (nonlinear_arith)
        requires
            minute == bucket_minutes * index + rest,
            0 <= rest < bucket_minutes,
            0 <= minute < 1440,
            per_day * bucket_minutes == 1440,
    ;
}

/// The floor of a local time is aligned, not after it, and less than one
/// bucket before it.
pub(crate) proof fn lemma_bucket_floor(local: int, bucket_minutes: int)
    requires
        valid_bucket_minutes(bucket_minutes),
    ensures
        bucket_aligned(bucket_floor(local, bucket_minutes), bucket_minutes),
        bucket_floor(local, bucket_minutes) <= local < bucket_floor(local, bucket_minutes)
            + bucket_millis(bucket_minutes),
{
    let width = bucket_millis(bucket_minutes);
    lemma_fundamental_div_mod(local, width);
    lemma_fundamental_div_mod_converse(bucket_floor(local, bucket_minutes), width, local / width, 0);
}

/// Two aligned local times less than one bucket apart are the same.
pub(crate) proof fn lemma_aligned_apart(a: int, b: int, bucket_minutes: int)
    requires
        valid_bucket_minutes(bucket_minutes),
        bucket_aligned(a, bucket_minutes),
        bucket_aligned(b, bucket_minutes),
        a <= b < a + bucket_millis(bucket_minutes),
    ensures
        a == b,
{
    let width = bucket_millis(bucket_minutes);
    lemma_fundamental_div_mod(a, width);
    lemma_fundamental_div_mod(b, width);
    let qa = a / width;
    let qb = b / width;
    assert(qa == qb) by (nonlinear_arith)
        requires
            a == width * qa,
            b == width * qb,
            a <= b < a + width,
            width > 0,
    ;
}

/// One bucket after an aligned local time is aligned again.
pub(crate) proof fn lemma_next_aligned(local: int, bucket_minutes: int)
    requires
        valid_bucket_minutes(bucket_minutes),
        bucket_aligned(local, bucket_minutes),
    ensures
        bucket_aligned(local + bucket_millis(bucket_minutes), bucket_minutes),
{
    let width = bucket_millis(bucket_minutes);
    lemma_fundamental_div_mod(local, width);
    let q = local / width;
    assert(local + width == width * (q + 1) + 0) by (nonlinear_arith)
        requires
            local == width * q + 0,
    ;
    lemma_fundamental_div_mod_converse(local + width, width, q + 1, 0);
}

/// Local milliseconds of `instant` where local time is `utc_offset_seconds` ahead of UTC.
pub(crate) fn to_local(instant: i64, utc_offset_seconds: i32) -> (local: i128)
    ensures
        local == local_millis(instant as int, utc_offset_seconds as int),
        -0x8000_0000_0000_0000 - 0x8000_0000 * 1000 <= local <= 0x8000_0000_0000_0000
            + 0x8000_0000 * 1000,
{
    instant as i128 + utc_offset_seconds as i128 * MILLISECONDS_PER_SECOND
}

/// Width of a bucket in milliseconds.
pub(crate) fn bucket_width(bucket_duration_minutes: u32) -> (width: i128)
    ensures
        width == bucket_millis(bucket_duration_minutes as int),
{
    bucket_duration_minutes as i128 * MILLISECONDS_PER_MINUTE
}

/// Quotient of a floored division.
pub(crate) fn div_floor(x: i128, d: i128) -> (q: i128)
    requires
        d > 0,
        local_in_range(x as int),
    ensures
        q == x as int / d as int,
{
    proof {
        lemma_quotient_bounds(x as int, d as int);
    }
    match x.checked_div_euclid(d) {
        Some(q) => q,
        None => 0,
    }
}

/// Remainder of a floored division.
pub(crate) fn mod_floor(x: i128, d: i128) -> (r: i128)
    requires
        d > 0,
        local_in_range(x as int),
    ensures
        r == x as int % d as int,
        0 <= r < d,
{
    proof {
        lemma_quotient_bounds(x as int, d as int);
    }
    match x.checked_rem_euclid(d) {
        Some(r) => r,
        None => 0,
    }
}

/// The date of a local time.
pub(crate) fn date_of_local(local: i128) -> (day: i64)
    requires
        local_in_range(local as int),
    ensures
        day == day_of(local as int),
{
    proof {
        lemma_quotient_bounds(local as int, 86_400_000);
    }
    let day: i128 = div_floor(local, MILLISECONDS_PER_DAY);
    assert(-0x8000_0000_0000_0000 <= day <= 0x7fff_ffff_ffff_ffff) by {
        lemma_fundamental_div_mod(local as int, 86_400_000);
    }
    day as i64
}

/// The weekday and bucket that a local time falls into.
pub(crate) fn local_bucket_key(bucket_duration_minutes: u32, local: i128) -> (key: BucketKey)
    requires
        valid_bucket_minutes(bucket_duration_minutes as int),
        local_in_range(local as int),
    ensures
        key.weekday == weekday_of(day_of(local as int)),
        key.bucket_index == bucket_index_of(local as int, bucket_duration_minutes as int),
        key.weekday < 7,
        key.bucket_index < buckets_per_day(bucket_duration_minutes as int),
{
    proof {
        lemma_bucket_index_bounds(local as int, bucket_duration_minutes as int);
        lemma_quotient_bounds(local as int, 86_400_000);
        lemma_fundamental_div_mod(local as int, 86_400_000);
    }
    let day: i128 = div_floor(local, MILLISECONDS_PER_DAY);
    let weekday: i128 = mod_floor(day + EPOCH_WEEKDAY, 7);
    let since_midnight: i128 = mod_floor(local, MILLISECONDS_PER_DAY);
    let minutes_of_day: i128 = since_midnight / MILLISECONDS_PER_MINUTE;
    let bucket_index: i128 = minutes_of_day / (bucket_duration_minutes as i128);
    BucketKey { weekday: weekday as usize, bucket_index: bucket_index as usize }
}

/// The weekday and bucket that `instant` falls into in local time.
pub fn bucket_key(bucket_duration_minutes: u32, utc_offset_seconds: i32, instant: i64) -> (key:
    BucketKey)
    requires
        valid_bucket_minutes(bucket_duration_minutes as int),
    ensures
        key.weekday == weekday_of(
            day_of(local_millis(instant as int, utc_offset_seconds as int)),
        ),
        key.bucket_index == bucket_index_of(
            local_millis(instant as int, utc_offset_seconds as int),
            bucket_duration_minutes as int,
        ),
        key.weekday < 7,
        key.bucket_index < buckets_per_day(bucket_duration_minutes as int),
{
    local_bucket_key(bucket_duration_minutes, to_local(instant, utc_offset_seconds))
}

/// The local date of `instant`: days since 1 January 1970.
pub fn local_date(utc_offset_seconds: i32, instant: i64) -> (day: i64)
    ensures
        day == day_of(local_millis(instant as int, utc_offset_seconds as int)),
{
    date_of_local(to_local(instant, utc_offset_seconds))
}

} // verus!
