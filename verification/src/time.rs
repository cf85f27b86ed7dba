//! Instants in time, and their textual forms.
//!
//! An instant is held as plain integers: whole seconds since the Unix epoch
//! and the nanoseconds within that second. Its textual forms are computed by
//! `chrono` and stand in contracts under names.

use vstd::prelude::*;

verus! {

/// An instant: seconds since 1970-01-01T00:00:00Z and nanoseconds within the
/// second. During a leap second `nanos` runs from 1,000,000,000 upwards.
#[derive(Debug, Clone, Copy, PartialEq, Eq, Structural)]
pub struct Timestamp {
    pub secs: i64,
    pub nanos: u32,
}

/// Whether `a` is strictly earlier than `b`.
pub open spec fn earlier(a: Timestamp, b: Timestamp) -> bool {
    a.secs < b.secs || (a.secs == b.secs && a.nanos < b.nanos)
}

impl Timestamp {
    /// Whether this instant has an RFC 3339 text: it lies in the years 0 to
    /// 9999, and its nanoseconds fit the second.
    pub fn has_rfc3339_text(&self) -> (r: bool)
        ensures
            r == in_common_era(*self),
    {
        if self.secs < -62167219200 || self.secs > 253402300799 {
            return false;
        }
        if self.nanos < 1_000_000_000 {
            return true;
        }
        // 62167219200 seconds are a whole number of minutes
        let since_year_zero: i64 = self.secs + 62167219200;
        assert(since_year_zero % 60 == self.secs % 60);
        self.nanos < 2_000_000_000 && since_year_zero % 60 == 59
    }

    /// Whether this instant is strictly earlier than `other`.
    pub fn is_before(&self, other: &Timestamp) -> (r: bool)
        ensures
            r == earlier(*self, *other),
    {
        self.secs < other.secs || (self.secs == other.secs && self.nanos < other.nanos)
    }
}

/// The instant that an RFC 3339 text denotes, as seconds and nanoseconds in
/// UTC; `None` for a text that `chrono` does not accept.
pub uninterp spec fn rfc3339_instant(text: Seq<char>) -> Option<(i64, u32)>;

/// The RFC 3339 text of an instant; `None` for an instant outside the range
/// of `chrono`.
pub uninterp spec fn rfc3339_text(secs: i64, nanos: u32) -> Option<Seq<char>>;

/// The text of an instant written by the `strftime` pattern `format`;
/// `None` for an instant outside the range of `chrono`, and for a pattern
/// that cannot be written.
pub uninterp spec fn instant_text(secs: i64, nanos: u32, format: Seq<char>) -> Option<Seq<char>>;

/// The instant that `text` denotes when read in UTC by the `strftime`
/// pattern `format`; `None` where the text does not fit the pattern.
pub uninterp spec fn naive_instant(text: Seq<char>, format: Seq<char>) -> Option<(i64, u32)>;

/// The instant as a pair of plain integers.
pub open spec fn as_pair(t: Option<Timestamp>) -> Option<(i64, u32)> {
    match t {
        Some(t) => Some((t.secs, t.nanos)),
        None => None,
    }
}

/// The view of an optional string.
pub open spec fn text_of(s: Option<String>) -> Option<Seq<char>> {
    match s {
        Some(s) => Some(s@),
        None => None,
    }
}

/// `chrono::DateTime::parse_from_rfc3339`, the result moved to UTC and read
/// as seconds and nanoseconds.
#[verifier::external_body]
pub(crate) fn parse_rfc3339(text: &str) -> (r: Option<Timestamp>)
    ensures
        as_pair(r) == rfc3339_instant(text@),
{
    let parsed = chrono::DateTime::parse_from_rfc3339(text).ok()?;
    let utc = parsed.with_timezone(&chrono::Utc);
    Some(Timestamp { secs: utc.timestamp(), nanos: utc.timestamp_subsec_nanos() })
}

/// Whether the instant lies in the years 0 to 9999, from
/// 0000-01-01T00:00:00Z to the end of 9999-12-31T23:59:59Z, and is one that
/// can be written: its nanoseconds stay below a second, or, within a leap
/// second, below two seconds in the last second of a minute. These are the
/// instants that have an RFC 3339 text.
pub open spec fn in_common_era(t: Timestamp) -> bool {
    &&& -62167219200 <= t.secs <= 253402300799
    &&& t.nanos < 1_000_000_000 || (t.nanos < 2_000_000_000 && t.secs % 60 == 59)
}

/// `chrono::DateTime::to_rfc3339` of the instant that
/// `chrono::DateTime::from_timestamp` makes of the two integers. An instant
/// in the years 0 to 9999 has a text, written with a four-digit year, the
/// fraction in full, a leap second as second 60, and the offset `+00:00`;
/// `chrono::DateTime::parse_from_rfc3339` reads that text back as the same
/// instant.
#[verifier::external_body]
pub(crate) fn format_rfc3339(t: Timestamp) -> (r: Option<String>)
    ensures
        text_of(r) == rfc3339_text(t.secs, t.nanos),
        in_common_era(t) ==> r is Some && rfc3339_instant(r->0@) == Some((t.secs, t.nanos)),
{
    let instant = chrono::DateTime::from_timestamp(t.secs, t.nanos)?;
    Some(instant.to_rfc3339())
}

/// `chrono::DateTime::format` with the given pattern, of the instant that
/// `chrono::DateTime::from_timestamp` makes of the two integers.
#[verifier::external_body]
pub(crate) fn format_instant(t: Timestamp, format: &str) -> (r: Option<String>)
    ensures
        text_of(r) == instant_text(t.secs, t.nanos, format@),
{
    let instant = chrono::DateTime::from_timestamp(t.secs, t.nanos)?;
    let mut out = String::new();
    instant.format(format).write_to(&mut out).ok()?;
    Some(out)
}

/// `chrono::NaiveDateTime::parse_from_str`, the result taken as UTC and read
/// as seconds and nanoseconds.
#[verifier::external_body]
pub(crate) fn parse_naive(text: &str, format: &str) -> (r: Option<Timestamp>)
    ensures
        as_pair(r) == naive_instant(text@, format@),
{
    let naive = chrono::NaiveDateTime::parse_from_str(text, format).ok()?;
    let utc = naive.and_utc();
    Some(Timestamp { secs: utc.timestamp(), nanos: utc.timestamp_subsec_nanos() })
}

/// The instant that a date-time text of the index backend denotes: the text
/// is read with a fraction of a second, and failing that without one.
pub open spec fn backend_instant(text: Seq<char>) -> Option<(i64, u32)> {
    match naive_instant(text, "%Y-%m-%d %H:%M:%S%.f"@) {
        Some(t) => Some(t),
        None => naive_instant(text, "%Y-%m-%d %H:%M:%S"@),
    }
}

/// Reads a date-time text of the index backend, such as
/// `2024-05-01 12:30:00.250`, as an instant in UTC. `None` where the text
/// has neither of the two accepted forms.
pub fn parse_clickhouse_datetime(value: &str) -> (r: Option<Timestamp>)
    ensures
        as_pair(r) == backend_instant(value@),
{
    match parse_naive(value, "%Y-%m-%d %H:%M:%S%.f") {
        Some(t) => Some(t),
        None => parse_naive(value, "%Y-%m-%d %H:%M:%S"),
    }
}

} // verus!
