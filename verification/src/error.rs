//! The typed error that every decoding stage returns.

use crate::text::views;
use vstd::prelude::*;

verus! {

/// The category a decoding error falls in.
#[derive(Debug, Clone, Copy, PartialEq, Eq, Structural)]
pub enum ErrorKind {
    /// The inputs are not exactly what is required: one is not supplied,
    /// or one is supplied that excludes another.
    MissingInput,
    /// A line does not hold the number of fields its place in the schema asks for.
    MalformedLine,
    /// A token is not one of the fixed tokens of its dictionary.
    InvalidToken,
    /// A field that must hold a number holds something else.
    InvalidNumber,
    /// The input ends too early, or holds content where none may stand.
    Structure,
    /// A value is well-formed but breaks a rule of the format.
    Semantic,
}

/// What was being read when the error was found.
#[derive(Debug, Clone, Copy, PartialEq, Eq, Structural)]
pub enum Subject {
    /// The combined file as a whole.
    CombinedFile,
    /// The configuration as a whole.
    Configuration,
    /// The data as a whole.
    Data,
    /// The file-type token of a section header of a combined file.
    FileType,
    /// The byte size in a section header of a combined file.
    DataSize,
    /// The station line: station name, device id and revision year.
    Station,
    /// The revision year.
    Revision,
    /// The line of channel counts.
    ChannelCounts,
    /// The total number of channels.
    TotalChannels,
    /// The number of analog channels.
    AnalogCount,
    /// The number of status channels.
    StatusCount,
    /// An analog channel row.
    AnalogChannel,
    /// A status channel row.
    StatusChannel,
    /// The index of a channel.
    ChannelIndex,
    /// The multiplier of an analog channel.
    Multiplier,
    /// The offset adder of an analog channel.
    OffsetAdder,
    /// The skew of an analog channel.
    Skew,
    /// The declared minimum of an analog channel.
    MinValue,
    /// The declared maximum of an analog channel.
    MaxValue,
    /// The primary factor of an analog channel.
    PrimaryFactor,
    /// The secondary factor of an analog channel.
    SecondaryFactor,
    /// The scaling-mode letter of an analog channel.
    ScalingMode,
    /// The normal value of a status channel.
    NormalStatus,
    /// The line frequency.
    LineFrequency,
    /// The number of sampling rates.
    RateCount,
    /// A row of the sampling-rate table.
    SamplingRate,
    /// The rate in hertz of a sampling-rate row.
    RateHz,
    /// The last sample number of a sampling-rate row.
    EndSample,
    /// The time stamp of the first sample.
    StartTime,
    /// The time stamp of the trigger.
    TriggerTime,
    /// The data encoding token.
    DataFormat,
    /// The time stamp multiplication factor.
    TimeFactor,
    /// The line of the two time offsets.
    TimeOffsets,
    /// The offset of the recording's time from UTC.
    TimeOffset,
    /// The offset of the local time zone from UTC.
    LocalOffset,
    /// The line of the time quality and leap second codes.
    TimeCodes,
    /// The time quality code.
    TimeQuality,
    /// The leap second code.
    LeapSecond,
    /// A record of the data.
    Sample,
    /// The sample number of a record.
    SampleNumber,
    /// The time stamp of a record.
    Timestamp,
    /// An analog value of a record.
    AnalogValue,
    /// A status value of a record.
    StatusValue,
}

/// A decoding error: its category, what was being read, and where.
#[derive(Debug, Clone, Copy, PartialEq, Eq, Structural)]
pub struct ParseError {
    pub kind: ErrorKind,
    pub subject: Subject,
    /// The 1-based number of the line or record, 0 where none applies.
    pub line: u64,
    /// The 1-based position of the channel among those of its type, 0 where
    /// none applies.
    pub channel: u32,
}

/// What a decoding stage returns.
pub type ParseResult<T> = Result<T, ParseError>;

impl ParseError {
    /// The error of the given parts.
    pub open spec fn at(kind: ErrorKind, subject: Subject, line: u64, channel: u32) -> ParseError {
        ParseError { kind, subject, line, channel }
    }

    /// An error of the given parts.
    pub fn new(kind: ErrorKind, subject: Subject, line: u64, channel: u32) -> (e: ParseError)
        ensures
            e == ParseError::at(kind, subject, line, channel),
    {
        ParseError { kind, subject, line, channel }
    }
}

/// The number of the line that stands at `index`, counting from 1.
pub open spec fn line_number(index: int) -> u64 {
    if 0 <= index < u64::MAX {
        (index + 1) as u64
    } else {
        u64::MAX
    }
}

/// The number of the line that stands at `index`, counting from 1.
pub fn line_number_of(index: usize) -> (n: u64)
    ensures
        n == line_number(index as int),
{
    let wide: u64 = index as u64;
    if wide < u64::MAX {
        wide + 1
    } else {
        u64::MAX
    }
}

/// Whether a result is the one that the grammar gives: the same error, or a
/// value with the view that the grammar asks for.
pub open spec fn decoded<T: View>(r: ParseResult<T>, expected: ParseResult<T::V>) -> bool {
    match r {
        Ok(v) => expected == Ok::<T::V, ParseError>(v@),
        Err(e) => expected == Err::<T::V, ParseError>(e),
    }
}

/// Whether a result is the one that the grammar gives for a table: the same
/// error, or rows with the views that the grammar asks for.
pub open spec fn decoded_rows<T: View>(
    r: ParseResult<Vec<T>>,
    expected: ParseResult<Seq<T::V>>,
) -> bool {
    match r {
        Ok(v) => expected == Ok::<Seq<T::V>, ParseError>(views(v@)),
        Err(e) => expected == Err::<Seq<T::V>, ParseError>(e),
    }
}

} // verus!
