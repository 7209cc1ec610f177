//! The configuration and the settings derived from it.

use crate::constants::{MINUTES_PER_DAY, SECONDS_PER_MINUTE};
use crate::local_time::{buckets_per_day, lemma_buckets_fill_day, valid_bucket_minutes};
use crate::timestamps::{parse_start_time, parsed_rfc3339_timestamp, InvalidTimestamp};
use vstd::prelude::*;

verus! {

/// The configuration of a run, as the user wrote it.
pub struct Configuration {
    pub your_user_id: String,
    pub vrcx_db_path: String,
    /// the users to report on; all users where unset
    pub friend_ids: Option<Vec<String>>,
    pub vrcx_running_detection_threshold_minutes: u32,
    pub bucket_duration_minutes: u32,
    pub normalize: bool,
    /// presence before this time is left out, where set
    pub start_time: Option<String>,
    pub minimum_bucket_activations: Option<u32>,
    pub no_data_returns_zero: Option<bool>,
    pub print_statistics: Option<bool>,
    pub print_runtime: Option<bool>,
}

/// What a run works with, derived from the configuration.
#[derive(Clone, Copy, Debug, PartialEq, Eq, Structural)]
pub struct Settings {
    pub buckets_per_day: usize,
    pub bucket_duration_minutes: u32,
    pub bucket_duration_seconds: u32,
    pub vrcx_running_detection_threshold_millis: i64,
    /// presence before this instant is left out, where set
    pub start_time: Option<i64>,
    pub normalize: bool,
    pub minimum_bucket_activations: u32,
    pub no_data_returns_zero: bool,
    pub should_print_statistics: bool,
    pub should_print_runtime: bool,
}

/// Why a configuration gives no settings.
#[derive(Debug, PartialEq, Eq)]
pub enum InvalidConfiguration {
    /// the bucket duration is zero or does not perfectly divide a day
    BucketDurationDoesNotDivideDay { bucket_duration_minutes: u32 },
    /// the start time is no timestamp
    StartTime(InvalidTimestamp),
}

/// The value of an optional number of the configuration, 1 where it is unset or zero.
pub open spec fn at_least_one(configured: Option<u32>) -> u32 {
    match configured {
        Some(value) => if value >= 1 {
            value
        } else {
            1
        },
        None => 1,
    }
}

/// The value of an optional switch of the configuration, off where it is unset.
pub open spec fn switched_on(configured: Option<bool>) -> bool {
    match configured {
        Some(value) => value,
        None => false,
    }
}

impl Configuration {
    /// What the configuration asks for, where its bucket duration is valid
    /// and its start time, if any, is the instant `start_time`.
    pub open spec fn derived(&self, start_time: Option<i64>) -> Settings {
        Settings {
            buckets_per_day: buckets_per_day(self.bucket_duration_minutes as int) as usize,
            bucket_duration_minutes: self.bucket_duration_minutes,
            bucket_duration_seconds: (self.bucket_duration_minutes * 60) as u32,
            vrcx_running_detection_threshold_millis: (self.vrcx_running_detection_threshold_minutes
                * 60_000) as i64,
            start_time,
            normalize: self.normalize,
            minimum_bucket_activations: at_least_one(self.minimum_bucket_activations),
            no_data_returns_zero: switched_on(self.no_data_returns_zero),
            should_print_statistics: switched_on(self.print_statistics),
            should_print_runtime: switched_on(self.print_runtime),
        }
    }

    /// Derives the settings of a run, where `start_time` is what was read
    /// from the text of the start time, if one is set. A bucket duration that
    /// does not perfectly divide a day is refused, and then a start time
    /// that is no timestamp.
    pub fn settings_with_start_time(
        &self,
        start_time: Option<Result<i64, InvalidTimestamp>>,
    ) -> (outcome: Result<Settings, InvalidConfiguration>)
        ensures
            !valid_bucket_minutes(self.bucket_duration_minutes as int) ==> (outcome matches Err(
                InvalidConfiguration::BucketDurationDoesNotDivideDay { bucket_duration_minutes },
            ) && bucket_duration_minutes == self.bucket_duration_minutes),
            valid_bucket_minutes(self.bucket_duration_minutes as int) ==> match start_time {
                None => outcome matches Ok(settings) && settings == self.derived(None),
                Some(Ok(instant)) => outcome matches Ok(settings) && settings == self.derived(
                    Some(instant),
                ),
                Some(Err(fault)) => outcome matches Err(InvalidConfiguration::StartTime(found))
                    && found == fault,
            },
    {
        if self.bucket_duration_minutes == 0 || MINUTES_PER_DAY % self.bucket_duration_minutes
            != 0 {
            return Err(
                InvalidConfiguration::BucketDurationDoesNotDivideDay {
                    bucket_duration_minutes: self.bucket_duration_minutes,
                },
            );
        }
        let start_time: Option<i64> = match start_time {
            None => None,
            Some(Ok(instant)) => Some(instant),
            Some(Err(fault)) => {
                return Err(InvalidConfiguration::StartTime(fault));
            },
        };
        proof {
            lemma_buckets_fill_day(self.bucket_duration_minutes as int);
        }
        let buckets_per_day: u32 = MINUTES_PER_DAY / self.bucket_duration_minutes;
        let minimum_bucket_activations: u32 = match self.minimum_bucket_activations {
            Some(value) => if value >= 1 {
                value
            } else {
                1
            },
            None => 1,
        };
        Ok(
            Settings {
                buckets_per_day: buckets_per_day as usize,
                bucket_duration_minutes: self.bucket_duration_minutes,
                bucket_duration_seconds: self.bucket_duration_minutes * SECONDS_PER_MINUTE,
                vrcx_running_detection_threshold_millis: self.vrcx_running_detection_threshold_minutes as i64
                    * 60_000,
                start_time,
                normalize: self.normalize,
                minimum_bucket_activations,
                no_data_returns_zero: match self.no_data_returns_zero {
                    Some(value) => value,
                    None => false,
                },
                should_print_statistics: match self.print_statistics {
                    Some(value) => value,
                    None => false,
                },
                should_print_runtime: match self.print_runtime {
                    Some(value) => value,
                    None => false,
                },
            },
        )
    }

    /// Derives the settings of a run from the configuration as it was read.
    pub fn settings(&self) -> (outcome: Result<Settings, InvalidConfiguration>)
        ensures
            !valid_bucket_minutes(self.bucket_duration_minutes as int) ==> (outcome matches Err(
                InvalidConfiguration::BucketDurationDoesNotDivideDay { bucket_duration_minutes },
            ) && bucket_duration_minutes == self.bucket_duration_minutes),
            valid_bucket_minutes(self.bucket_duration_minutes as int) ==> match self.start_time {
                None => outcome matches Ok(settings) && settings == self.derived(None),
                Some(text) => match parsed_rfc3339_timestamp(text@) {
                    Some(instant) => outcome matches Ok(settings) && settings == self.derived(
                        Some(instant),
                    ),
                    None => outcome matches Err(InvalidConfiguration::StartTime(found))
                        && found.value@ == text@,
                },
            },
    {
        let start_time: Option<Result<i64, InvalidTimestamp>> = match &self.start_time {
            Some(text) => Some(parse_start_time(text.as_str())),
            None => None,
        };
        self.settings_with_start_time(start_time)
    }
}

} // verus!
