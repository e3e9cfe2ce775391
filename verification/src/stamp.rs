//! The date and time stamps of a configuration, and the unit that their
//! precision gives to the time stamps of the data.

use crate::record::{DateTime, FormatRevision, TimeUnit};
use crate::text::{chars_of, string_of, trim, trim_chars};
use chrono::{Datelike, NaiveDateTime, Timelike};
use vstd::prelude::*;

verus! {

/// What `chrono::NaiveDateTime::parse_from_str` makes of a text under a
/// format: nothing where it reports an error, else the year, month, day,
/// hour, minute, second and nanosecond of the date and time it returns.
pub uninterp spec fn datetime_parsed(text: Seq<char>, format: Seq<char>) -> Option<
    (i32, u32, u32, u32, u32, u32, u32),
>;

/// Calls `chrono::NaiveDateTime::parse_from_str` and takes the parts of the
/// date and time it returns with `year`, `month`, `day`, `hour`, `minute`,
/// `second` and `nanosecond`. Nothing is claimed of the parts but that they
/// are what chrono makes of this text under this format.
#[verifier::external_body]
fn parse_from_str(text: &str, format: &str) -> (parts: Option<
    (i32, u32, u32, u32, u32, u32, u32),
>)
    ensures
        parts == datetime_parsed(text@, format@),
{
    match NaiveDateTime::parse_from_str(text, format) {
        Ok(t) => Some(
            (t.year(), t.month(), t.day(), t.hour(), t.minute(), t.second(), t.nanosecond()),
        ),
        Err(_) => None,
    }
}

/// The format of the stamps: the month stands before the day in a
/// configuration of 1991, and after it in later ones.
pub open spec fn stamp_format(revision: FormatRevision) -> Seq<char> {
    if revision == FormatRevision::Revision1991 {
        "%m/%d/%Y,%H:%M:%S%.f"@
    } else {
        "%d/%m/%Y,%H:%M:%S%.f"@
    }
}

/// The date and time of the given parts.
pub open spec fn date_time_from(parts: (i32, u32, u32, u32, u32, u32, u32)) -> DateTime {
    DateTime {
        year: parts.0,
        month: parts.1,
        day: parts.2,
        hour: parts.3,
        minute: parts.4,
        second: parts.5,
        nanosecond: parts.6,
    }
}

/// The number of characters that follow the last `.` of a stamp, if it has
/// one.
pub open spec fn fraction_digits(stamp: Seq<char>) -> Option<nat>
    decreases stamp.len(),
{
    if stamp.len() == 0 {
        None
    } else if stamp.last() == '.' {
        Some(0)
    } else {
        match fraction_digits(stamp.drop_last()) {
            Some(n) => Some(n + 1),
            None => None,
        }
    }
}

/// The unit in which the data counts time, given by a stamp of the
/// configuration, whitespace around it ignored: nanoseconds where the stamp
/// has more than six digits after its seconds' point, microseconds
/// otherwise.
pub open spec fn time_unit_of(stamp: Seq<char>) -> TimeUnit {
    match fraction_digits(trim(stamp)) {
        Some(n) => if n <= 6 {
            TimeUnit::Microsecond
        } else {
            TimeUnit::Nanosecond
        },
        None => TimeUnit::Microsecond,
    }
}

/// The finer of two units.
pub open spec fn finer(a: TimeUnit, b: TimeUnit) -> TimeUnit {
    if a == TimeUnit::Nanosecond || b == TimeUnit::Nanosecond {
        TimeUnit::Nanosecond
    } else {
        TimeUnit::Microsecond
    }
}

/// What a stamp line holds, whitespace around it ignored: the date and time
/// that chrono reads under the revision's format, and the unit that the
/// stamp's precision gives.
pub open spec fn stamp_of(line: Seq<char>, revision: FormatRevision) -> Option<
    (DateTime, TimeUnit),
> {
    stamp_from(datetime_parsed(trim(line), stamp_format(revision)), line)
}

/// What a stamp line holds, given what chrono made of it.
pub open spec fn stamp_from(
    parts: Option<(i32, u32, u32, u32, u32, u32, u32)>,
    line: Seq<char>,
) -> Option<(DateTime, TimeUnit)> {
    match parts {
        Some(parts) => Some((date_time_from(parts), time_unit_of(line))),
        None => None,
    }
}

/// The unit in which the data counts time, given by a stamp of the
/// configuration.
pub fn ts_base_unit(datetime_stamp: &str) -> (unit: TimeUnit)
    ensures
        unit == time_unit_of(datetime_stamp@),
{
    let stamp = chars_of(datetime_stamp);
    unit_of_stamp(stamp.as_slice())
}

/// The unit that the precision of a stamp line gives.
fn unit_of_stamp(line: &[char]) -> (unit: TimeUnit)
    ensures
        unit == time_unit_of(line@),
{
    let stamp = trim_chars(line);
    let mut end: usize = stamp.len();
    let mut seen: usize = 0;
    assert(stamp@.take(end as int) == stamp@);
    while end > 0 && stamp[end - 1] != '.'
        invariant
            end <= stamp@.len(),
            seen == stamp@.len() - end,
            fraction_digits(stamp@) == match fraction_digits(stamp@.take(end as int)) {
                Some(n) => Some(n + seen as nat),
                None => None,
            },
        decreases end,
    {
        assert(stamp@.take(end as int).drop_last() == stamp@.take(end - 1));
        end -= 1;
        seen += 1;
    }
    if end == 0 || seen <= 6 {
        TimeUnit::Microsecond
    } else {
        TimeUnit::Nanosecond
    }
}

/// Gives a stamp line's date, time and unit from what chrono made of the
/// line.
pub fn stamp_from_parts(parts: Option<(i32, u32, u32, u32, u32, u32, u32)>, line: &[char]) -> (r:
    Option<(DateTime, TimeUnit)>)
    ensures
        r == stamp_from(parts, line@),
{
    match parts {
        Some(parts) => Some(
            (
                DateTime {
                    year: parts.0,
                    month: parts.1,
                    day: parts.2,
                    hour: parts.3,
                    minute: parts.4,
                    second: parts.5,
                    nanosecond: parts.6,
                },
                unit_of_stamp(line),
            ),
        ),
        None => None,
    }
}

/// Reads a stamp line of a configuration of the given revision.
pub fn read_stamp(line: &[char], revision: FormatRevision) -> (r: Option<(DateTime, TimeUnit)>)
    ensures
        r == stamp_of(line@, revision),
{
    let text = string_of(trim_chars(line));
    let parts = match revision {
        FormatRevision::Revision1991 => parse_from_str(text.as_str(), "%m/%d/%Y,%H:%M:%S%.f"),
        _ => parse_from_str(text.as_str(), "%d/%m/%Y,%H:%M:%S%.f"),
    };
    stamp_from_parts(parts, line)
}

} // verus!
