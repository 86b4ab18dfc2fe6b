//! Timestamps of log records, as milliseconds since the Unix epoch.
//!
//! The text of a timestamp is read by `chrono`; what `chrono` makes of a text
//! is not restated here but named, and the rest is proved over those names.

use vstd::prelude::*;

verus! {

/// The instant that `chrono::DateTime::parse_from_rfc3339` reads from `text`,
/// in milliseconds since the Unix epoch; `None` where it rejects the text.
pub uninterp spec fn rfc3339_millis(text: Seq<char>) -> Option<i64>;

/// The date and time that `chrono::NaiveDateTime::parse_from_str` reads from
/// `text` under `format`, taken as UTC, in milliseconds since the Unix epoch;
/// `None` where it rejects the text.
pub uninterp spec fn naive_millis(text: Seq<char>, format: Seq<char>) -> Option<i64>;

/// Calls `chrono::DateTime::parse_from_rfc3339` and converts the instant with
/// `DateTime::timestamp_millis`. Nothing is proved of either: the contract only
/// gives the outcome its name, which is sound because both depend on the text
/// alone.
#[verifier::external_body]
fn parse_rfc3339(text: &str) -> (r: Option<i64>)
    ensures
        r == rfc3339_millis(text@),
{
    match chrono::DateTime::parse_from_rfc3339(text) {
        Ok(instant) => Some(instant.timestamp_millis()),
        Err(_) => None,
    }
}

/// Calls `chrono::NaiveDateTime::parse_from_str`, reads the result as UTC with
/// `NaiveDateTime::and_utc` and converts it with `DateTime::timestamp_millis`.
/// Nothing is proved of them: the contract only gives the outcome its name,
/// which is sound because they depend on the two texts alone.
#[verifier::external_body]
fn parse_naive(text: &str, format: &str) -> (r: Option<i64>)
    ensures
        r == naive_millis(text@, format@),
{
    match chrono::NaiveDateTime::parse_from_str(text, format) {
        Ok(local) => Some(local.and_utc().timestamp_millis()),
        Err(_) => None,
    }
}

/// The format of a timestamp without an offset: date, `T`, time, and an
/// optional fraction of a second.
pub open spec fn local_format() -> Seq<char> {
    "%Y-%m-%dT%H:%M:%S%.f"@
}

/// The instant that a timestamp text stands for: its reading as RFC 3339
/// where it has one, else its reading as a date and time without offset.
pub open spec fn timestamp_millis(text: Seq<char>) -> Option<i64> {
    match rfc3339_millis(text) {
        Some(ms) => Some(ms),
        None => naive_millis(text, local_format()),
    }
}

/// Chooses between the two readings of a timestamp: the RFC 3339 reading
/// stands where there is one, else the reading without offset.
pub fn prefer_rfc3339(rfc3339: Option<i64>, local: Option<i64>) -> (r: Option<i64>)
    ensures
        r == match rfc3339 {
            Some(ms) => Some(ms),
            None => local,
        },
{
    match rfc3339 {
        Some(ms) => Some(ms),
        None => local,
    }
}

/// Reads a timestamp text.
pub fn parse_timestamp(text: &str) -> (r: Option<i64>)
    ensures
        r == timestamp_millis(text@),
{
    let rfc3339 = parse_rfc3339(text);
    if rfc3339.is_some() {
        return rfc3339;
    }
    let local = parse_naive(text, "%Y-%m-%dT%H:%M:%S%.f");
    prefer_rfc3339(rfc3339, local)
}

/// The earliest and the latest of the instants seen so far.
#[derive(Debug, Clone, Copy, PartialEq, Eq, Structural)]
pub struct TimeSpan {
    pub start: Option<i64>,
    pub end: Option<i64>,
}

impl TimeSpan {
    /// The span of no instants.
    pub open spec fn spec_empty() -> TimeSpan {
        TimeSpan { start: None, end: None }
    }

    /// The span widened to hold `ms`.
    pub open spec fn spec_widen(self, ms: i64) -> TimeSpan {
        TimeSpan {
            start: match self.start {
                Some(s) => Some(if ms < s { ms } else { s }),
                None => Some(ms),
            },
            end: match self.end {
                Some(e) => Some(if ms > e { ms } else { e }),
                None => Some(ms),
            },
        }
    }

    /// The span widened by an instant that may be missing.
    pub open spec fn spec_observe(self, stamp: Option<i64>) -> TimeSpan {
        match stamp {
            Some(ms) => self.spec_widen(ms),
            None => self,
        }
    }

    #[verifier::when_used_as_spec(spec_empty)]
    pub fn empty() -> (r: TimeSpan)
        ensures
            r == TimeSpan::spec_empty(),
    {
        TimeSpan { start: None, end: None }
    }

    #[verifier::when_used_as_spec(spec_widen)]
    pub fn widen(self, ms: i64) -> (r: TimeSpan)
        ensures
            r == self.spec_widen(ms),
    {
        let start = match self.start {
            Some(s) => if ms < s { ms } else { s },
            None => ms,
        };
        let end = match self.end {
            Some(e) => if ms > e { ms } else { e },
            None => ms,
        };
        TimeSpan { start: Some(start), end: Some(end) }
    }

    #[verifier::when_used_as_spec(spec_observe)]
    pub fn observe(self, stamp: Option<i64>) -> (r: TimeSpan)
        ensures
            r == self.spec_observe(stamp),
    {
        match stamp {
            Some(ms) => self.widen(ms),
            None => self,
        }
    }
}

} // verus!
