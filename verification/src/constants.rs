//! Various time constants.

use vstd::prelude::*;

verus! {

pub const DAYS_PER_WEEK: usize = 7;

pub const HOURS_PER_DAY: u32 = 24;

pub const MINUTES_PER_HOUR: u32 = 60;

pub const SECONDS_PER_MINUTE: u32 = 60;

pub const MINUTES_PER_DAY: u32 = 1440;

pub const SECONDS_PER_DAY: u32 = 86_400;

pub const MILLISECONDS_PER_SECOND: i128 = 1000;

pub const MILLISECONDS_PER_MINUTE: i128 = 60_000;

pub const MILLISECONDS_PER_HOUR: u32 = 3_600_000;

pub const MILLISECONDS_PER_DAY: i128 = 86_400_000;

/// Weekday index (Monday = 0) of local day 0, 1 January 1970, a Thursday.
pub const EPOCH_WEEKDAY: i128 = 3;

} // verus!
