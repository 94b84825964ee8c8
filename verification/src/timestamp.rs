//! Points in time, as the log writes them.

use vstd::prelude::*;

verus! {

/// The layout of a timestamp in the log: a date and a time of day joined by
/// `T`, with milliseconds after a dot.
pub const STAMP_FORMAT: &'static str = "%Y-%m-%dT%H:%M:%S%.3f";

/// A point in time with millisecond precision, counted in milliseconds from
/// the start of 1970 in UTC.
#[derive(Clone, Copy, Debug, PartialEq, Eq, Structural)]
pub struct Timestamp {
    pub millis: i64,
}

/// What chrono reads out of `text` under the layout `format`: the date and
/// time taken as UTC, in milliseconds from the start of 1970, or nothing
/// where chrono rejects the text.
pub uninterp spec fn utc_millis(text: Seq<char>, format: Seq<char>) -> Option<i64>;

/// The point in time that a timestamp of the log stands for.
pub open spec fn timestamp_of(text: Seq<char>) -> Option<Timestamp> {
    match utc_millis(text, STAMP_FORMAT@) {
        Some(millis) => Some(Timestamp { millis }),
        None => None,
    }
}

/// Hands `text` and `format` to chrono's `NaiveDateTime::parse_from_str` and
/// turns an accepted date and time into milliseconds with `and_utc` and
/// `timestamp_millis`. Nothing is proved of it: the contract only gives the
/// outcome its name, `utc_millis`, which depends on the two texts alone.
#[verifier::external_body]
fn read_utc_millis(text: &str, format: &str) -> (r: Option<i64>)
    ensures
        r == utc_millis(text@, format@),
{
    match chrono::NaiveDateTime::parse_from_str(text, format) {
        Ok(naive) => Some(naive.and_utc().timestamp_millis()),
        Err(_) => None,
    }
}

/// The first millisecond that does not lie before an instant, the instant
/// given by its whole milliseconds since 1970 and its nanoseconds past the
/// second: the next millisecond where the instant lies between two, and the
/// last one that can be held where there is no next.
pub open spec fn first_millis_from(millis: i64, subsec_nanos: u32) -> i64 {
    if subsec_nanos % 1_000_000 != 0 && millis < i64::MAX {
        (millis + 1) as i64
    } else {
        millis
    }
}

/// A timestamp lies before the first millisecond from an instant exactly if
/// it lies before the instant.
pub proof fn lemma_before_the_instant(stamp: Timestamp, millis: i64, subsec_nanos: u32)
    requires
        millis < i64::MAX,
    ensures
        stamp.millis < first_millis_from(millis, subsec_nanos) <==> stamp.millis * 1_000_000
            < millis * 1_000_000 + subsec_nanos % 1_000_000,
{
}

impl Timestamp {
    /// The earliest timestamp that does not lie before an instant, the
    /// instant given by its whole milliseconds since 1970 and its
    /// nanoseconds past the second.
    pub fn starting_at(millis: i64, subsec_nanos: u32) -> (r: Timestamp)
        ensures
            r.millis == first_millis_from(millis, subsec_nanos),
    {
        if subsec_nanos % 1_000_000 != 0 && millis < i64::MAX {
            Timestamp { millis: millis + 1 }
        } else {
            Timestamp { millis }
        }
    }

    /// Reads a timestamp in the layout of the log.
    pub fn parse(text: &str) -> (r: Option<Timestamp>)
        ensures
            r == timestamp_of(text@),
    {
        match read_utc_millis(text, STAMP_FORMAT) {
            Some(millis) => Some(Timestamp { millis }),
            None => None,
        }
    }

    /// Whether this point in time lies strictly before `other`.
    pub fn is_before(&self, other: &Timestamp) -> (r: bool)
        ensures
            r == (self.millis < other.millis),
    {
        self.millis < other.millis
    }
}

} // verus!
