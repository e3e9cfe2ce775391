//! The parser: the files of a recording are handed over as they were read,
//! and decoded into one record.

use crate::ascii::{ascii_data_of, parse_dat_ascii};
use crate::binary::{binary_data_of, parse_dat_binary};
use crate::cff::{load_cff, streams_of};
use crate::config::{config_of, parse_cfg};
use crate::error::{decoded, ErrorKind, ParseError, ParseResult, Subject};
use crate::record::{Comtrade, ComtradeView, DataFormat};
use crate::text::{chars_of, utf8_text};
use vstd::prelude::*;
use vstd::utf8::{decode_utf8, valid_utf8};

verus! {

/// The error of an input that was not supplied.
pub open spec fn missing(subject: Subject) -> ParseError {
    ParseError::at(ErrorKind::MissingInput, subject, 0, 0)
}

/// The error of an input that should be text and is no UTF-8.
pub open spec fn not_text(subject: Subject) -> ParseError {
    ParseError::at(ErrorKind::Structure, subject, 0, 0)
}

/// The record that the bytes of a configuration describe, before any
/// sample is read.
pub open spec fn config_from(bytes: Seq<u8>) -> ParseResult<ComtradeView> {
    if valid_utf8(bytes) {
        config_of(decode_utf8(bytes))
    } else {
        Err(not_text(Subject::Configuration))
    }
}

/// The record that a configuration and the bytes of its data make: the data
/// are read in the encoding that the configuration names.
pub open spec fn data_of(config: ComtradeView, data: Seq<u8>) -> ParseResult<ComtradeView> {
    if config.data_format != DataFormat::Ascii {
        binary_data_of(config, data)
    } else if valid_utf8(data) {
        ascii_data_of(config, decode_utf8(data))
    } else {
        Err(not_text(Subject::Data))
    }
}

/// The record of a configuration file and a data file.
pub open spec fn record_of_files(config: Seq<u8>, data: Seq<u8>) -> ParseResult<ComtradeView> {
    match config_from(config) {
        Err(e) => Err(e),
        Ok(described) => data_of(described, data),
    }
}

/// The error of a combined file that is supplied together with a
/// configuration or data.
pub open spec fn both_supplied() -> ParseError {
    ParseError::at(ErrorKind::MissingInput, Subject::CombinedFile, 0, 0)
}

/// The record of the files of a recording.
///
/// Exactly one of the two must be supplied: a combined file, or a
/// configuration with its data. What is supplied is looked at before
/// anything is decoded: a combined file together with a configuration or
/// data is an error, and so is, without a combined file, a missing
/// configuration, then missing data.
pub open spec fn record_from(
    combined: Option<Seq<u8>>,
    config: Option<Seq<u8>>,
    data: Option<Seq<u8>>,
) -> ParseResult<ComtradeView> {
    match (combined, config, data) {
        (Some(stream), None, None) => match streams_of(stream) {
            Err(e) => Err(e),
            Ok(streams) => record_of_files(streams.config, streams.data),
        },
        (Some(_), _, _) => Err(both_supplied()),
        (None, None, _) => Err(missing(Subject::Configuration)),
        (None, Some(_), None) => Err(missing(Subject::Data)),
        (None, Some(config), Some(data)) => record_of_files(config, data),
    }
}

/// The bytes of a file that may be absent.
pub open spec fn bytes_of(file: Option<Vec<u8>>) -> Option<Seq<u8>> {
    match file {
        Some(bytes) => Some(bytes@),
        None => None,
    }
}

/// Decoding a recording from its combined file gives the same as decoding
/// it from the configuration and the data that the combined file holds.
pub proof fn lemma_combined_is_split(stream: Seq<u8>)
    requires
        streams_of(stream) is Ok,
    ensures
        record_from(Some(stream), None, None) == record_from(
            None,
            Some(streams_of(stream)->Ok_0.config),
            Some(streams_of(stream)->Ok_0.data),
        ),
{
}

/// Reads the bytes of a configuration into a record that holds no samples
/// yet.
pub fn parse_cfg_bytes(bytes: &[u8]) -> (r: ParseResult<Comtrade>)
    ensures
        decoded(r, config_from(bytes@)),
        r matches Ok(record) ==> record.wf() && record.sample_numbers@.len() == 0,
{
    match utf8_text(bytes) {
        Some(text) => {
            let chars = chars_of(text);
            parse_cfg(chars.as_slice())
        },
        None => Err(ParseError::new(ErrorKind::Structure, Subject::Configuration, 0, 0)),
    }
}

/// Decodes the data of a recording into the record of its configuration,
/// in the encoding that the configuration names.
pub fn parse_dat(record: Comtrade, data: &[u8]) -> (r: ParseResult<Comtrade>)
    requires
        record.wf(),
    ensures
        decoded(r, data_of(record@, data@)),
        r matches Ok(filled) ==> filled.wf(),
{
    match record.data_format {
        DataFormat::Ascii => match utf8_text(data) {
            Some(text) => {
                let chars = chars_of(text);
                parse_dat_ascii(record, chars.as_slice())
            },
            None => Err(ParseError::new(ErrorKind::Structure, Subject::Data, 0, 0)),
        },
        _ => parse_dat_binary(record, data),
    }
}

/// Decodes a configuration file and a data file into a record.
pub fn parse_files(config: &[u8], data: &[u8]) -> (r: ParseResult<Comtrade>)
    ensures
        decoded(r, record_of_files(config@, data@)),
        r matches Ok(record) ==> record.wf(),
{
    match parse_cfg_bytes(config) {
        Ok(record) => parse_dat(record, data),
        Err(e) => Err(e),
    }
}

/// Gathers the files of a recording for a parser.
pub struct ComtradeParserBuilder {
    pub cff_file: Option<Vec<u8>>,
    pub cfg_file: Option<Vec<u8>>,
    pub dat_file: Option<Vec<u8>>,
    pub hdr_file: Option<Vec<u8>>,
    pub inf_file: Option<Vec<u8>>,
}

impl ComtradeParserBuilder {
    /// A builder without files.
    pub fn new() -> (r: Self)
        ensures
            r.cff_file is None,
            r.cfg_file is None,
            r.dat_file is None,
            r.hdr_file is None,
            r.inf_file is None,
    {
        Self { cff_file: None, cfg_file: None, dat_file: None, hdr_file: None, inf_file: None }
    }

    /// The builder with `file` as the combined file.
    pub fn cff_file(self, file: Vec<u8>) -> (r: Self)
        ensures
            r == (Self { cff_file: Some(file), ..self }),
    {
        let mut builder = self;
        builder.cff_file = Some(file);
        builder
    }

    /// The builder with `file` as the configuration file.
    pub fn cfg_file(self, file: Vec<u8>) -> (r: Self)
        ensures
            r == (Self { cfg_file: Some(file), ..self }),
    {
        let mut builder = self;
        builder.cfg_file = Some(file);
        builder
    }

    /// The builder with `file` as the data file.
    pub fn dat_file(self, file: Vec<u8>) -> (r: Self)
        ensures
            r == (Self { dat_file: Some(file), ..self }),
    {
        let mut builder = self;
        builder.dat_file = Some(file);
        builder
    }

    /// The builder with `file` as the header file.
    pub fn hdr_file(self, file: Vec<u8>) -> (r: Self)
        ensures
            r == (Self { hdr_file: Some(file), ..self }),
    {
        let mut builder = self;
        builder.hdr_file = Some(file);
        builder
    }

    /// The builder with `file` as the information file.
    pub fn inf_file(self, file: Vec<u8>) -> (r: Self)
        ensures
            r == (Self { inf_file: Some(file), ..self }),
    {
        let mut builder = self;
        builder.inf_file = Some(file);
        builder
    }

    /// The parser of the files gathered.
    pub fn build(self) -> (r: ComtradeParser)
        ensures
            r.cff_file == self.cff_file,
            r.cfg_file == self.cfg_file,
            r.dat_file == self.dat_file,
            r.hdr_file == self.hdr_file,
            r.inf_file == self.inf_file,
    {
        ComtradeParser::new(self.cff_file, self.cfg_file, self.dat_file, self.hdr_file, self.inf_file)
    }
}

/// Decodes the files of a recording.
pub struct ComtradeParser {
    pub cff_file: Option<Vec<u8>>,
    pub cfg_file: Option<Vec<u8>>,
    pub dat_file: Option<Vec<u8>>,
    pub hdr_file: Option<Vec<u8>>,
    pub inf_file: Option<Vec<u8>>,
}

impl ComtradeParser {
    /// A parser of the given files.
    pub fn new(
        cff_file: Option<Vec<u8>>,
        cfg_file: Option<Vec<u8>>,
        dat_file: Option<Vec<u8>>,
        hdr_file: Option<Vec<u8>>,
        inf_file: Option<Vec<u8>>,
    ) -> (r: Self)
        ensures
            r.cff_file == cff_file,
            r.cfg_file == cfg_file,
            r.dat_file == dat_file,
            r.hdr_file == hdr_file,
            r.inf_file == inf_file,
    {
        Self { cff_file, cfg_file, dat_file, hdr_file, inf_file }
    }

    /// The parser with `file` as the data file.
    pub fn dat_file(self, file: Vec<u8>) -> (r: Self)
        ensures
            r == (Self { dat_file: Some(file), ..self }),
    {
        let mut parser = self;
        parser.dat_file = Some(file);
        parser
    }

    /// The parser with `file` as the header file.
    pub fn hdr_file(self, file: Vec<u8>) -> (r: Self)
        ensures
            r == (Self { hdr_file: Some(file), ..self }),
    {
        let mut parser = self;
        parser.hdr_file = Some(file);
        parser
    }

    /// The parser with `file` as the information file.
    pub fn inf_file(self, file: Vec<u8>) -> (r: Self)
        ensures
            r == (Self { inf_file: Some(file), ..self }),
    {
        let mut parser = self;
        parser.inf_file = Some(file);
        parser
    }

    /// Decodes the files into a record.
    ///
    /// Exactly one of a combined file and a configuration with its data
    /// must have been supplied, else nothing is decoded. The record is the
    /// one that the files describe, and the error is the first that
    /// decoding meets: of the combined file where there is one, else of the
    /// configuration, then of the data. The header and the information are
    /// text for people and are not read. A record that is returned keeps
    /// the record's invariant.
    pub fn parse(self) -> (r: ParseResult<Comtrade>)
        ensures
            decoded(
                r,
                record_from(bytes_of(self.cff_file), bytes_of(self.cfg_file), bytes_of(self.dat_file)),
            ),
            r matches Ok(record) ==> record.wf(),
    {
        match (self.cff_file, self.cfg_file, self.dat_file) {
            (Some(stream), None, None) => match load_cff(stream.as_slice()) {
                Ok(streams) => parse_files(streams.config.as_slice(), streams.data.as_slice()),
                Err(e) => Err(e),
            },
            (Some(_), _, _) => Err(
                ParseError::new(ErrorKind::MissingInput, Subject::CombinedFile, 0, 0),
            ),
            (None, None, _) => Err(
                ParseError::new(ErrorKind::MissingInput, Subject::Configuration, 0, 0),
            ),
            (None, Some(_), None) => Err(
                ParseError::new(ErrorKind::MissingInput, Subject::Data, 0, 0),
            ),
            (None, Some(config), Some(data)) => parse_files(config.as_slice(), data.as_slice()),
        }
    }
}

} // verus!
