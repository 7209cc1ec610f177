//! Weekly presence histograms, corrected for observer uptime.
//!
//! A log of activity timestamps tells when the observing application was
//! running; each user's online interval is clamped to that uptime and counted
//! into buckets by weekday and time of day.
//!
//! Instants are milliseconds since the Unix epoch (UTC). Local time is UTC
//! shifted by a fixed offset in seconds, and a calendar date is the number of
//! local days since 1 January 1970.

pub mod buckets;
pub mod clamp;
pub mod config;
pub mod constants;
pub mod dto;
pub mod local_time;
pub mod presence;
pub mod report;
pub mod timestamps;
pub mod uptime;
