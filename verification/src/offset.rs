//! The grammar of the offsets from UTC.

use crate::error::{ErrorKind, ParseError, ParseResult, Subject};
use crate::record::UtcOffset;
use crate::text::{
    chars_of, is_word, lowered, parse_i32, signed_of, split, split_chars, trim, trim_chars, views,
};
use vstd::prelude::*;

verus! {

/// The error of an offset token, which names no line.
pub open spec fn offset_error(kind: ErrorKind) -> ParseError {
    ParseError::at(kind, Subject::TimeOffset, 0, 0)
}

/// The offset of so many seconds east of UTC: an offset of a day or more is
/// a semantic error.
pub open spec fn offset_of_seconds(seconds: int) -> ParseResult<Option<UtcOffset>> {
    if -86_400 < seconds < 86_400 {
        Ok(Some(UtcOffset { seconds_east: seconds as i32 }))
    } else {
        Err(offset_error(ErrorKind::Semantic))
    }
}

/// The integer that `token` writes in 32 bits, whitespace around it ignored.
pub open spec fn integer_of(token: Seq<char>) -> Option<int> {
    signed_of(trim(token), i32::MIN as int, i32::MAX as int)
}

/// What an offset token stands for, whitespace around it ignored.
///
/// `x` in either case is no offset. A signed integer is that many hours east
/// of UTC. Hours and minutes with an `h` between them are an offset in which
/// the minutes are added to positive hours and taken from hours that are
/// zero or negative. A token of another shape is an invalid token, hours or
/// minutes that are no 32-bit integers are invalid numbers, and an offset
/// of a day or more is a semantic error.
pub open spec fn time_offset_of(token: Seq<char>) -> ParseResult<Option<UtcOffset>> {
    let word = trim(token);
    let parts = split(word, 'h');
    if lowered(word) == "x"@ {
        Ok(None)
    } else if let Some(hours) = signed_of(word, i32::MIN as int, i32::MAX as int) {
        offset_of_seconds(hours * 3600)
    } else if parts.len() != 2 {
        Err(offset_error(ErrorKind::InvalidToken))
    } else {
        match (integer_of(parts[0]), integer_of(parts[1])) {
            (Some(hours), Some(minutes)) => offset_of_seconds(
                if hours > 0 {
                    hours * 3600 + minutes * 60
                } else {
                    hours * 3600 - minutes * 60
                },
            ),
            _ => Err(offset_error(ErrorKind::InvalidNumber)),
        }
    }
}

/// The offset of so many seconds east of UTC, if it is less than a day.
fn offset_from_seconds(seconds: i64) -> (r: ParseResult<Option<UtcOffset>>)
    ensures
        r == offset_of_seconds(seconds as int),
        r matches Ok(Some(o)) ==> o.wf(),
{
    if -86_400 < seconds && seconds < 86_400 {
        Ok(Some(UtcOffset { seconds_east: seconds as i32 }))
    } else {
        Err(ParseError::new(ErrorKind::Semantic, Subject::TimeOffset, 0, 0))
    }
}

/// Reads an offset from UTC.
pub fn time_offset_from_chars(token: &[char]) -> (r: ParseResult<Option<UtcOffset>>)
    ensures
        r == time_offset_of(token@),
        r matches Ok(Some(o)) ==> o.wf(),
{
    let word = trim_chars(token);
    if is_word(word, "x") {
        return Ok(None);
    }
    if let Some(hours) = parse_i32(word) {
        return offset_from_seconds(hours as i64 * 3600);
    }
    let parts = split_chars(word, 'h');
    if parts.len() != 2 {
        assert(views(parts@).len() == parts@.len());
        return Err(ParseError::new(ErrorKind::InvalidToken, Subject::TimeOffset, 0, 0));
    }
    assert(views(parts@)[0] == parts@[0]@);
    assert(views(parts@)[1] == parts@[1]@);
    let hours = parse_i32(trim_chars(parts[0].as_slice()));
    let minutes = parse_i32(trim_chars(parts[1].as_slice()));
    match (hours, minutes) {
        (Some(hours), Some(minutes)) => {
            let seconds: i64 = if hours > 0 {
                hours as i64 * 3600 + minutes as i64 * 60
            } else {
                hours as i64 * 3600 - minutes as i64 * 60
            };
            offset_from_seconds(seconds)
        },
        _ => Err(ParseError::new(ErrorKind::InvalidNumber, Subject::TimeOffset, 0, 0)),
    }
}

/// Reads an offset from UTC: `x` for none, hours as in `-5`, or hours and
/// minutes as in `+5h30`.
pub fn parse_time_offset(offset_str: &str) -> (r: ParseResult<Option<UtcOffset>>)
    ensures
        r == time_offset_of(offset_str@),
        r matches Ok(Some(o)) ==> o.wf(),
{
    let token = chars_of(offset_str);
    time_offset_from_chars(token.as_slice())
}

} // verus!
