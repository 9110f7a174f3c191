//! Points in time: reading them from RFC 3339 text and from the system clock,
//! and comparing them.

use chrono::{DateTime, Utc};
use vstd::prelude::*;

use crate::error::StoreError;

verus! {

/// Seconds in a day.
pub const SECONDS_PER_DAY: i64 = 86_400;

/// A point in time: whole seconds since the Unix epoch and the nanoseconds
/// into that second.
#[derive(Debug, Clone, Copy, PartialEq, Eq, Structural)]
pub struct Instant {
    pub seconds: i64,
    pub nanos: u32,
}

impl Instant {
    /// `self` is strictly later than `other`.
    pub open spec fn later_than(self, other: Instant) -> bool {
        self.seconds > other.seconds || (self.seconds == other.seconds && self.nanos > other.nanos)
    }

    /// Whether `self` is strictly later than `other`.
    pub fn is_later_than(&self, other: &Instant) -> (r: bool)
        ensures
            r == self.later_than(*other),
    {
        self.seconds > other.seconds || (self.seconds == other.seconds && self.nanos > other.nanos)
    }
}

/// The instant that an RFC 3339 date-and-time text denotes, as
/// `chrono::DateTime::parse_from_rfc3339` reads it: the seconds since the Unix
/// epoch and the nanoseconds into that second, or `None` when the text is
/// not accepted.
pub uninterp spec fn rfc3339_instant(text: Seq<char>) -> Option<(int, int)>;

/// Calls `chrono::DateTime::parse_from_rfc3339` and takes the result apart
/// with `timestamp` and `timestamp_subsec_nanos`. Trusted: the result is
/// `rfc3339_instant` of the text, `None` standing for chrono's parse error.
#[verifier::external_body]
fn parse_rfc3339(text: &str) -> (r: Option<Instant>)
    ensures
        rfc3339_instant(text@) == match r {
            Some(at) => Some((at.seconds as int, at.nanos as int)),
            None => None,
        },
{
    match DateTime::parse_from_rfc3339(text) {
        Ok(at) => Some(Instant { seconds: at.timestamp(), nanos: at.timestamp_subsec_nanos() }),
        Err(_) => None,
    }
}

/// The RFC 3339 text that `chrono::DateTime::<Utc>::to_rfc3339` writes for
/// the instant with these seconds since the Unix epoch and nanoseconds into
/// the second; `None` where `chrono::DateTime::from_timestamp` has no date
/// for them.
pub uninterp spec fn rfc3339_text(seconds: int, nanos: int) -> Option<Seq<char>>;

/// Calls `chrono::DateTime::from_timestamp` and, on the date it gives,
/// `to_rfc3339`. Trusted: the result is `rfc3339_text` of the instant.
#[verifier::external_body]
fn format_rfc3339(at: Instant) -> (r: Option<String>)
    ensures
        rfc3339_text(at.seconds as int, at.nanos as int) == match r {
            Some(text) => Some(text@),
            None => None,
        },
{
    match DateTime::from_timestamp(at.seconds, at.nanos) {
        Some(date) => Some(date.to_rfc3339()),
        None => None,
    }
}

/// Calls `chrono::Utc::now` and takes the result apart with `timestamp` and
/// `timestamp_subsec_nanos`. Trusted, and nothing is claimed of the result:
/// it is whatever the system clock says. chrono gives up where the system
/// clock stands before 1970.
#[verifier::external_body]
fn system_now() -> Instant {
    let at = Utc::now();
    Instant { seconds: at.timestamp(), nanos: at.timestamp_subsec_nanos() }
}

/// Reads an RFC 3339 text as an instant; text that is not RFC 3339 is
/// `InvalidInput`.
pub fn parse_instant(text: &str) -> (r: Result<Instant, StoreError>)
    ensures
        match rfc3339_instant(text@) {
            Some(at) => r matches Ok(i) && i.seconds == at.0 && i.nanos == at.1,
            None => r == Err::<Instant, StoreError>(StoreError::InvalidInput),
        },
{
    match parse_rfc3339(text) {
        Some(at) => Ok(at),
        None => Err(StoreError::InvalidInput),
    }
}

/// Reads an RFC 3339 text as whole seconds since the Unix epoch, the unit in
/// which the stores keep time.
pub fn parse_timestamp(text: &str) -> (r: Result<i64, StoreError>)
    ensures
        match rfc3339_instant(text@) {
            Some(at) => r matches Ok(seconds) && seconds == at.0,
            None => r == Err::<i64, StoreError>(StoreError::InvalidInput),
        },
{
    match parse_rfc3339(text) {
        Some(at) => Ok(at.seconds),
        None => Err(StoreError::InvalidInput),
    }
}

/// Writes an instant as RFC 3339 text; an instant for which there is no date
/// is `InvalidInput`.
pub fn format_instant(at: Instant) -> (r: Result<String, StoreError>)
    ensures
        match rfc3339_text(at.seconds as int, at.nanos as int) {
            Some(text) => r matches Ok(t) && t@ == text,
            None => r == Err::<String, StoreError>(StoreError::InvalidInput),
        },
{
    match format_rfc3339(at) {
        Some(text) => Ok(text),
        None => Err(StoreError::InvalidInput),
    }
}

/// The system clock's reading.
pub fn current_instant() -> Instant {
    system_now()
}

/// The system clock's reading in whole seconds since the Unix epoch.
pub fn current_timestamp() -> i64 {
    system_now().seconds
}

} // verus!
