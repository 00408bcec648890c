//! Instants, and how benchmark timestamps are read.
use vstd::prelude::*;

use crate::text::{is_blank, is_blank_spec, split_once_text, string_of, first_occurrence};

verus! {

/// An instant: whole seconds since the Unix epoch (UTC) and the nanoseconds past them.
#[derive(Debug, Clone, Copy, PartialEq, Eq, Structural)]
pub struct Timestamp {
    pub seconds: i64,
    pub nanos: u32,
}

/// `a` is strictly earlier than `b`.
pub open spec fn ts_lt(a: Timestamp, b: Timestamp) -> bool {
    a.seconds < b.seconds || (a.seconds == b.seconds && a.nanos < b.nanos)
}

/// Whether `a` is strictly earlier than `b`.
pub fn earlier(a: Timestamp, b: Timestamp) -> (r: bool)
    ensures
        r == ts_lt(a, b),
{
    a.seconds < b.seconds || (a.seconds == b.seconds && a.nanos < b.nanos)
}

/// The later of two instants.
pub fn later_of(a: Timestamp, b: Timestamp) -> (r: Timestamp)
    ensures
        r == (if ts_lt(a, b) {
            b
        } else {
            a
        }),
{
    if earlier(a, b) {
        b
    } else {
        a
    }
}

/// Seconds and nanoseconds of the instant `secs` whole seconds after `t`, as chrono
/// adds whole seconds to a time: an instant inside a leap second (nanoseconds of a
/// whole second or more) leaves the leap second when anything is added, and is kept as
/// it is when nothing is.
pub open spec fn shift_parts(t: Timestamp, secs: int) -> (int, int) {
    if t.nanos >= 1_000_000_000 && secs == 0 {
        (t.seconds as int, t.nanos as int)
    } else {
        let f: int = if t.nanos >= 1_000_000_000 {
            t.nanos - 1_000_000_000
        } else {
            t.nanos as int
        };
        if f >= 1_000_000_000 {
            (t.seconds + secs + 1, f - 1_000_000_000)
        } else {
            (t.seconds + secs, f)
        }
    }
}

/// The instant `secs` seconds after `t` can be written.
pub open spec fn shift_fits(t: Timestamp, secs: int) -> bool {
    shift_parts(t, secs).0 <= i64::MAX
}

/// The instant `secs` seconds after `t`.
pub open spec fn shifted(t: Timestamp, secs: int) -> Timestamp {
    Timestamp { seconds: shift_parts(t, secs).0 as i64, nanos: shift_parts(t, secs).1 as u32 }
}

/// The instant `secs` seconds after `t`, when it can be written.
pub fn seconds_after(t: Timestamp, secs: i64) -> (r: Option<Timestamp>)
    requires
        secs >= 0,
    ensures
        match r {
            Some(u) => shift_fits(t, secs as int) && u == shifted(t, secs as int),
            None => !shift_fits(t, secs as int),
        },
{
    if t.nanos >= 1_000_000_000 && secs == 0 {
        return Some(t);
    }
    let f: u32 = if t.nanos >= 1_000_000_000 {
        t.nanos - 1_000_000_000
    } else {
        t.nanos
    };
    let carry: i64 = if f >= 1_000_000_000 {
        1
    } else {
        0
    };
    if t.seconds > i64::MAX - secs - carry {
        None
    } else if carry == 1 {
        Some(Timestamp { seconds: t.seconds + secs + 1, nanos: f - 1_000_000_000 })
    } else {
        Some(Timestamp { seconds: t.seconds + secs, nanos: f })
    }
}

/// The instant that an RFC 3339 timestamp denotes, if the text is one.
pub uninterp spec fn rfc3339_instant(value: Seq<char>) -> Option<Timestamp>;

/// The instant, read as UTC, that a `YYYY/MM/DD HH:MM` text denotes, if it is one.
pub uninterp spec fn slash_date_minute_instant(value: Seq<char>) -> Option<Timestamp>;

/// The instant, read as UTC, that a `H:MM am on D Month, YYYY` text denotes, if it is one.
pub uninterp spec fn spoken_date_instant(value: Seq<char>) -> Option<Timestamp>;

/// Reads an RFC 3339 timestamp (`chrono::DateTime::parse_from_rfc3339`) and gives the
/// instant it denotes as Unix seconds and subsecond nanoseconds.
#[verifier::external_body]
fn parse_rfc3339(value: &str) -> (r: Option<Timestamp>)
    ensures
        r == rfc3339_instant(value@),
{
    match chrono::DateTime::parse_from_rfc3339(value) {
        Ok(t) => Some(Timestamp { seconds: t.timestamp(), nanos: t.timestamp_subsec_nanos() }),
        Err(_) => None,
    }
}

/// Reads a text with `chrono::NaiveDateTime::parse_from_str` in the format
/// `%Y/%m/%d %H:%M` and gives the instant it denotes read as UTC.
#[verifier::external_body]
fn parse_slash_date_minute(value: &str) -> (r: Option<Timestamp>)
    ensures
        r == slash_date_minute_instant(value@),
{
    match chrono::NaiveDateTime::parse_from_str(value, "%Y/%m/%d %H:%M") {
        Ok(t) => {
            let u = t.and_utc();
            Some(Timestamp { seconds: u.timestamp(), nanos: u.timestamp_subsec_nanos() })
        },
        Err(_) => None,
    }
}

/// Reads a text with `chrono::NaiveDateTime::parse_from_str` in the format
/// `%I:%M %P on %-d %B, %Y` and gives the instant it denotes read as UTC.
#[verifier::external_body]
fn parse_spoken_date(value: &str) -> (r: Option<Timestamp>)
    ensures
        r == spoken_date_instant(value@),
{
    match chrono::NaiveDateTime::parse_from_str(value, "%I:%M %P on %-d %B, %Y") {
        Ok(t) => {
            let u = t.and_utc();
            Some(Timestamp { seconds: u.timestamp(), nanos: u.timestamp_subsec_nanos() })
        },
        Err(_) => None,
    }
}

/// The `YYYY/MM/DD HH:MM` form of a LongMemEval date such as `2024/01/04 (Thu) 00:00`:
/// the text before the first ` (` and the text after the first `) ` that follows it,
/// joined by a space.
pub open spec fn weekday_stripped(value: Seq<char>) -> Option<Seq<char>> {
    match first_occurrence(value, " ("@) {
        None => None,
        Some(k) => {
            let date = value.subrange(0, k);
            let rest = value.subrange(k + 2, value.len() as int);
            match first_occurrence(rest, ") "@) {
                None => None,
                Some(m) => Some(date + " "@ + rest.subrange(m + 2, rest.len() as int)),
            }
        },
    }
}

/// The instant a benchmark timestamp denotes: RFC 3339 first, then the LongMemEval form
/// with its weekday removed, then the LoCoMo spoken form.
pub open spec fn source_instant(value: Seq<char>) -> Option<Timestamp> {
    if rfc3339_instant(value) is Some {
        rfc3339_instant(value)
    } else if weekday_stripped(value) matches Some(n) && slash_date_minute_instant(n) is Some {
        slash_date_minute_instant(weekday_stripped(value)->0)
    } else {
        spoken_date_instant(value)
    }
}

/// A benchmark timestamp that no supported form reads.
#[derive(Debug, Clone, PartialEq, Eq)]
pub struct UnsupportedTimestamp {
    pub value: String,
}

fn strip_weekday(value: &str) -> (r: Option<String>)
    ensures
        match weekday_stripped(value@) {
            Some(n) => r matches Some(s) && s@ == n,
            None => r is None,
        },
{
    match split_once_text(value, " (") {
        None => None,
        Some((date, rest)) => {
            assert(" ("@.len() == 2) by {
                reveal_strlit(" (");
            }
            match split_once_text(rest.as_str(), ") ") {
                None => None,
                Some((_, time)) => {
                    assert(") "@.len() == 2) by {
                        reveal_strlit(") ");
                    }
                    let mut n = date;
                    n.append(" ");
                    n.append(time.as_str());
                    Some(n)
                },
            }
        },
    }
}

/// Reads a benchmark timestamp in any of its supported forms.
pub fn parse_source_timestamp(value: &str) -> (r: Result<Timestamp, UnsupportedTimestamp>)
    ensures
        match source_instant(value@) {
            Some(t) => r == Ok::<Timestamp, UnsupportedTimestamp>(t),
            None => r matches Err(e) && e.value@ == value@,
        },
{
    if let Some(t) = parse_rfc3339(value) {
        return Ok(t);
    }
    if let Some(n) = strip_weekday(value) {
        if let Some(t) = parse_slash_date_minute(n.as_str()) {
            return Ok(t);
        }
    }
    if let Some(t) = parse_spoken_date(value) {
        return Ok(t);
    }
    Err(UnsupportedTimestamp { value: string_of(value) })
}

/// A timestamp that is present but not RFC 3339.
#[derive(Debug, Clone, PartialEq, Eq)]
pub struct NotRfc3339 {
    pub value: String,
}

/// The instant of an optional RFC 3339 timestamp; an absent or blank one gives none.
pub fn parse_timestamp(value: Option<&str>) -> (r: Result<Option<Timestamp>, NotRfc3339>)
    ensures
        match value {
            None => r == Ok::<Option<Timestamp>, NotRfc3339>(None),
            Some(v) => if is_blank_spec(v@) {
                r == Ok::<Option<Timestamp>, NotRfc3339>(None)
            } else {
                match rfc3339_instant(v@) {
                    Some(t) => r == Ok::<Option<Timestamp>, NotRfc3339>(Some(t)),
                    None => r matches Err(e) && e.value@ == v@,
                }
            },
        },
{
    match value {
        None => Ok(None),
        Some(v) => {
            if is_blank(v) {
                return Ok(None);
            }
            match parse_rfc3339(v) {
                Some(t) => Ok(Some(t)),
                None => Err(NotRfc3339 { value: string_of(v) }),
            }
        },
    }
}

impl NotRfc3339 {
    pub fn message(&self) -> (m: String)
        ensures
            m@ == "parse RFC3339 timestamp "@ + self.value@
                + "; dataset loaders should normalize official benchmark timestamps before live adapter ingestion"@,
    {
        let mut m = String::from_str("parse RFC3339 timestamp ");
        m.append(self.value.as_str());
        m.append(
            "; dataset loaders should normalize official benchmark timestamps before live adapter ingestion",
        );
        m
    }
}

} // verus!
