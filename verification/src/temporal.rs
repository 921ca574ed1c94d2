//! Dates, times of day and timestamps, held as the counts that their byte forms carry.
//! The calendar library decides which counts are dates and times.
use vstd::prelude::*;

use chrono::{Datelike, NaiveDate, NaiveDateTime, NaiveTime, Timelike};

verus! {

/// The day number of the earliest date, January 1 of the year -262143.
pub const MIN_DAYS_FROM_CE: i32 = -95_746_129;

/// The day number of the latest date, December 31 of the year 262142.
pub const MAX_DAYS_FROM_CE: i32 = 95_745_399;

/// The day number of January 1, 1970.
pub const UNIX_EPOCH_DAYS_FROM_CE: i64 = 719_163;

/// `days` counts to a date that exists, with January 1 of the year 1 as day 1.
pub open spec fn valid_days(days: int) -> bool {
    MIN_DAYS_FROM_CE <= days <= MAX_DAYS_FROM_CE
}

/// `secs` seconds and `nano` nanoseconds after midnight are a time of day. From the last
/// second of a minute on, the nanoseconds may run through a leap second.
pub open spec fn valid_time(secs: int, nano: int) -> bool {
    &&& 0 <= secs < 86_400
    &&& 0 <= nano < 2_000_000_000
    &&& (nano >= 1_000_000_000 ==> secs % 60 == 59)
}

/// `secs` seconds and `nsecs` nanoseconds after the start of 1970 are a timestamp.
pub open spec fn valid_timestamp(secs: int, nsecs: int) -> bool {
    &&& valid_days(secs / 86_400 + UNIX_EPOCH_DAYS_FROM_CE)
    &&& valid_time(secs % 86_400, nsecs)
}

/// `chrono::NaiveDate::from_num_days_from_ce_opt`, and `Datelike::num_days_from_ce` of the
/// date it gives. The former gives a date exactly when the day lies in one of the years
/// -262143 to 262142; the latter counts back to the same day number.
#[verifier::external_body]
fn chrono_date(days: i32) -> (r: Option<i32>)
    ensures
        r == (if valid_days(days as int) {
            Some(days)
        } else {
            None
        }),
{
    NaiveDate::from_num_days_from_ce_opt(days).map(|d| d.num_days_from_ce())
}

/// `chrono::NaiveTime::from_num_seconds_from_midnight_opt`, and the two `Timelike` readings
/// of the time it gives. The former gives a time exactly for a second of the day and less
/// than two seconds of nanoseconds, of which more than one only in the last second of a
/// minute; the readings are the two numbers it was made from.
#[verifier::external_body]
fn chrono_time(secs: u32, nano: u32) -> (r: Option<(u32, u32)>)
    ensures
        r == (if valid_time(secs as int, nano as int) {
            Some((secs, nano))
        } else {
            None
        }),
{
    NaiveTime::from_num_seconds_from_midnight_opt(secs, nano).map(
        |t| (t.num_seconds_from_midnight(), t.nanosecond()),
    )
}

/// `chrono::NaiveDateTime::from_timestamp_opt`, and `timestamp` and `timestamp_subsec_nanos`
/// of the value it gives. The former gives a value exactly when the day that the seconds
/// fall on is a date and the rest of them, with the nanoseconds, is a time of day; the
/// readings are the two numbers it was made from.
#[verifier::external_body]
#[allow(deprecated)]
fn chrono_timestamp(secs: i64, nsecs: u32) -> (r: Option<(i64, u32)>)
    ensures
        r == (if valid_timestamp(secs as int, nsecs as int) {
            Some((secs, nsecs))
        } else {
            None
        }),
{
    NaiveDateTime::from_timestamp_opt(secs, nsecs).map(
        |t| (t.timestamp(), t.timestamp_subsec_nanos()),
    )
}

/// A calendar date: the number of its day, January 1 of the year 1 being day 1.
#[derive(Clone, Copy, Debug, PartialEq, Eq, Hash, Structural)]
pub struct Date {
    pub days: i32,
}

/// A time of day.
#[derive(Clone, Copy, Debug, PartialEq, Eq, Hash, Structural)]
pub struct Time {
    pub secs: u32,
    pub nano: u32,
}

/// A date with a time of day, counted from the start of 1970.
#[derive(Clone, Copy, Debug, PartialEq, Eq, Hash, Structural)]
pub struct Timestamp {
    pub secs: i64,
    pub nsecs: u32,
}

impl Date {
    pub open spec fn wf(&self) -> bool {
        valid_days(self.days as int)
    }

    pub fn with_days(days: i32) -> (r: Option<Self>)
        ensures
            r == (if valid_days(days as int) {
                Some(Date { days })
            } else {
                None
            }),
    {
        match chrono_date(days) {
            Some(days) => Some(Date { days }),
            None => None,
        }
    }
}

impl Time {
    pub open spec fn wf(&self) -> bool {
        valid_time(self.secs as int, self.nano as int)
    }

    pub fn with_secs_nano(secs: u32, nano: u32) -> (r: Option<Self>)
        ensures
            r == (if valid_time(secs as int, nano as int) {
                Some(Time { secs, nano })
            } else {
                None
            }),
    {
        match chrono_time(secs, nano) {
            Some((secs, nano)) => Some(Time { secs, nano }),
            None => None,
        }
    }
}

impl Timestamp {
    pub open spec fn wf(&self) -> bool {
        valid_timestamp(self.secs as int, self.nsecs as int)
    }

    pub fn with_secs_nsecs(secs: i64, nsecs: u32) -> (r: Option<Self>)
        ensures
            r == (if valid_timestamp(secs as int, nsecs as int) {
                Some(Timestamp { secs, nsecs })
            } else {
                None
            }),
    {
        match chrono_timestamp(secs, nsecs) {
            Some((secs, nsecs)) => Some(Timestamp { secs, nsecs }),
            None => None,
        }
    }
}

} // verus!
