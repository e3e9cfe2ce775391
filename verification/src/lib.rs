//! Decoder for COMTRADE records, the exchange format for recordings of
//! disturbances in power systems.
//!
//! A recording comes as a configuration and its data, with a header and
//! information for people beside them, or as one combined file that holds
//! all four. [`ComtradeParser`] takes the files as bytes and gives a
//! [`Comtrade`] record or a [`ParseError`] that says what is wrong and
//! where.
//!
//! The record holds no floating-point number. A real number of the
//! configuration is kept as the literal that writes it ([`Real`]), an
//! analog sample as the data hold it ([`AnalogSample`]), and the time of a
//! sample as the formula that gives it ([`ElapsedTime`]). The arithmetic is
//! left to the user of the record: the engineering value of a sample is the
//! sample times the multiplier of its channel plus the offset adder of the
//! channel.
//!
//! Every function states what it returns over a grammar of its input, and
//! is verified against it. Four things are taken from elsewhere and
//! believed as stated where they are declared: the little-endian integers
//! of `byteorder` ([`wire`]), the dates and times of `chrono` ([`stamp`]),
//! the regular expressions of `regex` ([`cff`]), and from the standard
//! library the decoding of UTF-8 and the growing of a string ([`text`]).

pub mod ascii;
pub mod binary;
pub mod cff;
pub mod config;
pub mod error;
pub mod offset;
pub mod parser;
pub mod record;
pub mod sample;
pub mod search;
pub mod stamp;
pub mod text;
pub mod timing;
pub mod tokens;
pub mod wire;

pub use error::{ErrorKind, ParseError, ParseResult, Subject};
pub use parser::{ComtradeParser, ComtradeParserBuilder};
pub use record::{
    AnalogChannel, AnalogSample, AnalogScalingMode, Comtrade, DataFormat, DateTime, ElapsedTime,
    FileType, FormatRevision, LeapSecondStatus, Real, SamplingRate, StatusChannel, TimeQuality,
    TimeUnit, UtcOffset,
};
