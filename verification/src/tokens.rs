//! The fixed tokens of the format and what each stands for.

use crate::error::{ErrorKind, ParseError, ParseResult, Subject};
use crate::record::{
    AnalogScalingMode, DataFormat, FileType, FormatRevision, LeapSecondStatus, TimeQuality,
};
use crate::text::{chars_of, is_exactly, is_word, lowered, trim, trim_chars};
use vstd::prelude::*;

verus! {

/// The error of a token that its dictionary does not hold.
pub open spec fn unknown_token(subject: Subject) -> ParseError {
    ParseError::at(ErrorKind::InvalidToken, subject, 0, 0)
}

/// `Ok` of what the dictionary gave, or the error of an unknown token.
pub open spec fn found<T>(entry: Option<T>, subject: Subject) -> ParseResult<T> {
    match entry {
        Some(v) => Ok(v),
        None => Err(unknown_token(subject)),
    }
}

impl FileType {
    /// The section that a token names: `cfg`, `dat`, `hdr` or `inf`, in any
    /// ASCII case, with whitespace around it ignored.
    pub open spec fn of(token: Seq<char>) -> Option<FileType> {
        let word = lowered(trim(token));
        if word == "cfg"@ {
            Some(FileType::Cfg)
        } else if word == "dat"@ {
            Some(FileType::Dat)
        } else if word == "hdr"@ {
            Some(FileType::Hdr)
        } else if word == "inf"@ {
            Some(FileType::Inf)
        } else {
            None
        }
    }

    pub fn from_chars(token: &[char]) -> (r: Option<FileType>)
        ensures
            r == FileType::of(token@),
    {
        let word = trim_chars(token);
        if is_word(word, "cfg") {
            Some(FileType::Cfg)
        } else if is_word(word, "dat") {
            Some(FileType::Dat)
        } else if is_word(word, "hdr") {
            Some(FileType::Hdr)
        } else if is_word(word, "inf") {
            Some(FileType::Inf)
        } else {
            None
        }
    }

    pub fn from_str(value: &str) -> (r: ParseResult<FileType>)
        ensures
            r == found(FileType::of(value@), Subject::FileType),
    {
        let token = chars_of(value);
        match FileType::from_chars(token.as_slice()) {
            Some(t) => Ok(t),
            None => Err(ParseError::new(ErrorKind::InvalidToken, Subject::FileType, 0, 0)),
        }
    }
}

impl FormatRevision {
    /// The revision that a year names: exactly `1991`, `1999` or `2013`.
    pub open spec fn of(token: Seq<char>) -> Option<FormatRevision> {
        if token == "1991"@ {
            Some(FormatRevision::Revision1991)
        } else if token == "1999"@ {
            Some(FormatRevision::Revision1999)
        } else if token == "2013"@ {
            Some(FormatRevision::Revision2013)
        } else {
            None
        }
    }

    pub fn from_chars(token: &[char]) -> (r: Option<FormatRevision>)
        ensures
            r == FormatRevision::of(token@),
    {
        if is_exactly(token, "1991") {
            Some(FormatRevision::Revision1991)
        } else if is_exactly(token, "1999") {
            Some(FormatRevision::Revision1999)
        } else if is_exactly(token, "2013") {
            Some(FormatRevision::Revision2013)
        } else {
            None
        }
    }

    pub fn from_str(value: &str) -> (r: ParseResult<FormatRevision>)
        ensures
            r == found(FormatRevision::of(value@), Subject::Revision),
    {
        let token = chars_of(value);
        match FormatRevision::from_chars(token.as_slice()) {
            Some(t) => Ok(t),
            None => Err(ParseError::new(ErrorKind::InvalidToken, Subject::Revision, 0, 0)),
        }
    }
}

impl DataFormat {
    /// The encoding that a token names: `ascii`, `binary` (16 bits),
    /// `binary32` or `float32`, in any ASCII case, with whitespace around it
    /// ignored.
    pub open spec fn of(token: Seq<char>) -> Option<DataFormat> {
        let word = lowered(trim(token));
        if word == "ascii"@ {
            Some(DataFormat::Ascii)
        } else if word == "binary"@ {
            Some(DataFormat::Binary16)
        } else if word == "binary32"@ {
            Some(DataFormat::Binary32)
        } else if word == "float32"@ {
            Some(DataFormat::Float32)
        } else {
            None
        }
    }

    pub fn from_chars(token: &[char]) -> (r: Option<DataFormat>)
        ensures
            r == DataFormat::of(token@),
    {
        let word = trim_chars(token);
        if is_word(word, "ascii") {
            Some(DataFormat::Ascii)
        } else if is_word(word, "binary") {
            Some(DataFormat::Binary16)
        } else if is_word(word, "binary32") {
            Some(DataFormat::Binary32)
        } else if is_word(word, "float32") {
            Some(DataFormat::Float32)
        } else {
            None
        }
    }

    pub fn from_str(value: &str) -> (r: ParseResult<DataFormat>)
        ensures
            r == found(DataFormat::of(value@), Subject::DataFormat),
    {
        let token = chars_of(value);
        match DataFormat::from_chars(token.as_slice()) {
            Some(t) => Ok(t),
            None => Err(ParseError::new(ErrorKind::InvalidToken, Subject::DataFormat, 0, 0)),
        }
    }
}

impl AnalogScalingMode {
    /// The scaling mode that a letter names: `p` or `s`, in either case.
    pub open spec fn of(token: Seq<char>) -> Option<AnalogScalingMode> {
        let word = lowered(token);
        if word == "p"@ {
            Some(AnalogScalingMode::Primary)
        } else if word == "s"@ {
            Some(AnalogScalingMode::Secondary)
        } else {
            None
        }
    }

    pub fn from_chars(token: &[char]) -> (r: Option<AnalogScalingMode>)
        ensures
            r == AnalogScalingMode::of(token@),
    {
        if is_word(token, "p") {
            Some(AnalogScalingMode::Primary)
        } else if is_word(token, "s") {
            Some(AnalogScalingMode::Secondary)
        } else {
            None
        }
    }

    pub fn from_str(value: &str) -> (r: ParseResult<AnalogScalingMode>)
        ensures
            r == found(AnalogScalingMode::of(value@), Subject::ScalingMode),
    {
        let token = chars_of(value);
        match AnalogScalingMode::from_chars(token.as_slice()) {
            Some(t) => Ok(t),
            None => Err(ParseError::new(ErrorKind::InvalidToken, Subject::ScalingMode, 0, 0)),
        }
    }
}

impl TimeQuality {
    /// The clock state that a code names, in either case and with whitespace
    /// around it ignored: `0` is a locked clock, `f` a failed one, and `1` to
    /// `9`, `a`, `b` an unlocked clock reliable to ten to the power -9 to 1.
    pub open spec fn of(token: Seq<char>) -> Option<TimeQuality> {
        let word = lowered(trim(token));
        if word == "f"@ {
            Some(TimeQuality::ClockFailure)
        } else if word == "b"@ {
            Some(TimeQuality::ClockUnlocked(1))
        } else if word == "a"@ {
            Some(TimeQuality::ClockUnlocked(0))
        } else if word == "9"@ {
            Some(TimeQuality::ClockUnlocked(-1i32))
        } else if word == "8"@ {
            Some(TimeQuality::ClockUnlocked(-2i32))
        } else if word == "7"@ {
            Some(TimeQuality::ClockUnlocked(-3i32))
        } else if word == "6"@ {
            Some(TimeQuality::ClockUnlocked(-4i32))
        } else if word == "5"@ {
            Some(TimeQuality::ClockUnlocked(-5i32))
        } else if word == "4"@ {
            Some(TimeQuality::ClockUnlocked(-6i32))
        } else if word == "3"@ {
            Some(TimeQuality::ClockUnlocked(-7i32))
        } else if word == "2"@ {
            Some(TimeQuality::ClockUnlocked(-8i32))
        } else if word == "1"@ {
            Some(TimeQuality::ClockUnlocked(-9i32))
        } else if word == "0"@ {
            Some(TimeQuality::ClockLocked)
        } else {
            None
        }
    }

    pub fn from_chars(token: &[char]) -> (r: Option<TimeQuality>)
        ensures
            r == TimeQuality::of(token@),
    {
        let word = trim_chars(token);
        if is_word(word, "f") {
            Some(TimeQuality::ClockFailure)
        } else if is_word(word, "b") {
            Some(TimeQuality::ClockUnlocked(1))
        } else if is_word(word, "a") {
            Some(TimeQuality::ClockUnlocked(0))
        } else if is_word(word, "9") {
            Some(TimeQuality::ClockUnlocked(-1i32))
        } else if is_word(word, "8") {
            Some(TimeQuality::ClockUnlocked(-2i32))
        } else if is_word(word, "7") {
            Some(TimeQuality::ClockUnlocked(-3i32))
        } else if is_word(word, "6") {
            Some(TimeQuality::ClockUnlocked(-4i32))
        } else if is_word(word, "5") {
            Some(TimeQuality::ClockUnlocked(-5i32))
        } else if is_word(word, "4") {
            Some(TimeQuality::ClockUnlocked(-6i32))
        } else if is_word(word, "3") {
            Some(TimeQuality::ClockUnlocked(-7i32))
        } else if is_word(word, "2") {
            Some(TimeQuality::ClockUnlocked(-8i32))
        } else if is_word(word, "1") {
            Some(TimeQuality::ClockUnlocked(-9i32))
        } else if is_word(word, "0") {
            Some(TimeQuality::ClockLocked)
        } else {
            None
        }
    }

    pub fn parse(value: &str) -> (r: ParseResult<TimeQuality>)
        ensures
            r == found(TimeQuality::of(value@), Subject::TimeQuality),
    {
        let token = chars_of(value);
        match TimeQuality::from_chars(token.as_slice()) {
            Some(t) => Ok(t),
            None => Err(ParseError::new(ErrorKind::InvalidToken, Subject::TimeQuality, 0, 0)),
        }
    }
}

impl LeapSecondStatus {
    /// The leap second state that a code names, with whitespace around it
    /// ignored: `0` none present, `1` added, `2` subtracted, `3` unknown to
    /// the time source.
    pub open spec fn of(token: Seq<char>) -> Option<LeapSecondStatus> {
        let word = trim(token);
        if word == "3"@ {
            Some(LeapSecondStatus::NoCapability)
        } else if word == "2"@ {
            Some(LeapSecondStatus::Subtracted)
        } else if word == "1"@ {
            Some(LeapSecondStatus::Added)
        } else if word == "0"@ {
            Some(LeapSecondStatus::NotPresent)
        } else {
            None
        }
    }

    pub fn from_chars(token: &[char]) -> (r: Option<LeapSecondStatus>)
        ensures
            r == LeapSecondStatus::of(token@),
    {
        let word = trim_chars(token);
        if is_exactly(word, "3") {
            Some(LeapSecondStatus::NoCapability)
        } else if is_exactly(word, "2") {
            Some(LeapSecondStatus::Subtracted)
        } else if is_exactly(word, "1") {
            Some(LeapSecondStatus::Added)
        } else if is_exactly(word, "0") {
            Some(LeapSecondStatus::NotPresent)
        } else {
            None
        }
    }

    pub fn parse(value: &str) -> (r: ParseResult<LeapSecondStatus>)
        ensures
            r == found(LeapSecondStatus::of(value@), Subject::LeapSecond),
    {
        let token = chars_of(value);
        match LeapSecondStatus::from_chars(token.as_slice()) {
            Some(t) => Ok(t),
            None => Err(ParseError::new(ErrorKind::InvalidToken, Subject::LeapSecond, 0, 0)),
        }
    }
}

} // verus!
