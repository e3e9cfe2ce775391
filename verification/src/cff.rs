//! The combined file: one stream that holds the configuration, the data,
//! the header and the information, each after a line that announces it.

use crate::error::{decoded, ErrorKind, ParseError, ParseResult, Subject};
use crate::record::{DataFormat, FileType};
use crate::text::{parse_unsigned, unsigned_of};
use vstd::prelude::*;
use vstd::slice::slice_subrange;

verus! {

/// What `regex::bytes::Regex::captures` finds in a haystack for the regex
/// that `regex::bytes::Regex::new` compiles from a pattern: nothing where
/// the pattern does not compile or the regex does not match, else for each
/// capture group, the whole match first, the bytes it matched, if it took
/// part in the match.
pub uninterp spec fn regex_captures(pattern: Seq<char>, haystack: Seq<u8>) -> Option<
    Seq<Option<Seq<u8>>>,
>;

/// The bytes of the capture groups, as sequences.
pub open spec fn groups_view(groups: Option<Vec<Option<Vec<u8>>>>) -> Option<Seq<Option<Seq<u8>>>> {
    match groups {
        None => None,
        Some(found) => Some(
            Seq::new(
                found@.len(),
                |i: int|
                    match found@[i] {
                        None => None,
                        Some(bytes) => Some(bytes@),
                    },
            ),
        ),
    }
}

/// Compiles the pattern with `regex::bytes::Regex::new`, searches the
/// haystack with `regex::bytes::Regex::captures` and copies what each group
/// of `regex::bytes::Captures::iter` matched. Nothing is claimed of the
/// groups but that they are what the regex crate finds for this pattern in
/// this haystack.
#[verifier::external_body]
fn captures(pattern: &str, haystack: &[u8]) -> (groups: Option<Vec<Option<Vec<u8>>>>)
    ensures
        groups_view(groups) == regex_captures(pattern@, haystack@),
{
    let regex = regex::bytes::Regex::new(pattern).ok()?;
    let found = regex.captures(haystack)?;
    Some(found.iter().map(|group| group.map(|m| m.as_bytes().to_vec())).collect())
}

/// The pattern of a line that announces a section: `--- file type:`, the
/// section's name, optionally the encoding of the data, optionally a colon
/// and the size of the data in bytes, and `---`, in any case, with
/// whitespace allowed between the parts, before them and after them, and
/// nothing else in the line.
pub open spec fn header_pattern() -> Seq<char> {
    "(?i)^\\s*---\\s*file type:\\s*([a-z]+)(?:\\s+([a-z0-9]+))?\\s*(?::\\s*([0-9]+))?\\s*---\\s*$"@
}

/// Whether three hyphens stand side by side in the line.
pub open spec fn holds_rule(line: Seq<u8>) -> bool {
    exists|i: int|
        0 <= i && i + 3 <= line.len() && #[trigger] line[i] == 0x2d && line[i + 1] == 0x2d && line[i
            + 2] == 0x2d
}

/// What a line that announces a section says.
pub struct Header {
    pub file_type: FileType,
    pub data_format: Option<DataFormat>,
    pub data_size: Option<usize>,
}

/// The characters with the codes of the bytes.
pub open spec fn widened(bytes: Seq<u8>) -> Seq<char> {
    Seq::new(bytes.len(), |i: int| bytes[i] as char)
}

/// What the capture groups of the pattern say of a line.
///
/// No groups: the line announces nothing. Otherwise the first group names
/// the section, the second, if it matched, the encoding of the data, and
/// the third, if it matched, the size of the data. A name that is no
/// section's, an encoding that is unknown and a size that does not fit the
/// machine's word are errors, looked for in this order; so are groups of
/// another number, or without the first.
pub open spec fn header_from(groups: Option<Seq<Option<Seq<u8>>>>) -> ParseResult<Option<Header>> {
    match groups {
        None => Ok(None),
        Some(found) => if found.len() != 4 || found[1] is None {
            Err(ParseError::at(ErrorKind::Structure, Subject::FileType, 0, 0))
        } else if FileType::of(widened(found[1]->0)) is None {
            Err(ParseError::at(ErrorKind::InvalidToken, Subject::FileType, 0, 0))
        } else if found[2] is Some && DataFormat::of(widened(found[2]->0)) is None {
            Err(ParseError::at(ErrorKind::InvalidToken, Subject::DataFormat, 0, 0))
        } else if found[3] is Some && unsigned_of(widened(found[3]->0), usize::MAX as nat) is None {
            Err(ParseError::at(ErrorKind::InvalidNumber, Subject::DataSize, 0, 0))
        } else {
            Ok(
                Some(
                    Header {
                        file_type: FileType::of(widened(found[1]->0))->0,
                        data_format: match found[2] {
                            Some(token) => DataFormat::of(widened(token)),
                            None => None,
                        },
                        data_size: match found[3] {
                            Some(token) => Some(
                                unsigned_of(widened(token), usize::MAX as nat)->0 as usize,
                            ),
                            None => None,
                        },
                    },
                ),
            )
        }
    }
}

/// What a line of a combined file announces: nothing unless it holds three
/// hyphens side by side and the pattern matches it.
pub open spec fn header_of(line: Seq<u8>) -> ParseResult<Option<Header>> {
    if holds_rule(line) {
        header_from(regex_captures(header_pattern(), line))
    } else {
        Ok(None)
    }
}

/// The characters with the codes of the bytes.
fn widen(bytes: &Vec<u8>) -> (chars: Vec<char>)
    ensures
        chars@ == widened(bytes@),
{
    let mut chars: Vec<char> = Vec::new();
    let mut i: usize = 0;
    while i < bytes.len()
        invariant
            i <= bytes@.len(),
            chars@.len() == i,
            forall|j: int| 0 <= j < i ==> chars@[j] == bytes@[j] as char,
        decreases bytes.len() - i,
    {
        chars.push(bytes[i] as char);
        i += 1;
    }
    assert(chars@ =~= widened(bytes@));
    chars
}

/// Says what the capture groups of the pattern tell of a line.
pub fn interpret_header(groups: &Option<Vec<Option<Vec<u8>>>>) -> (r: ParseResult<Option<Header>>)
    ensures
        r == header_from(groups_view(*groups)),
{
    let found = match groups {
        None => {
            return Ok(None);
        },
        Some(found) => found,
    };
    let ghost seen = groups_view(*groups)->0;
    if found.len() != 4 {
        return Err(ParseError::new(ErrorKind::Structure, Subject::FileType, 0, 0));
    }
    assert(seen[1] == match found@[1] {
        None => None,
        Some(bytes) => Some(bytes@),
    });
    assert(seen[2] == match found@[2] {
        None => None,
        Some(bytes) => Some(bytes@),
    });
    assert(seen[3] == match found@[3] {
        None => None,
        Some(bytes) => Some(bytes@),
    });
    let file_type = match &found[1] {
        None => {
            return Err(ParseError::new(ErrorKind::Structure, Subject::FileType, 0, 0));
        },
        Some(token) => match FileType::from_chars(widen(token).as_slice()) {
            Some(t) => t,
            None => {
                return Err(ParseError::new(ErrorKind::InvalidToken, Subject::FileType, 0, 0));
            },
        },
    };
    let data_format = match &found[2] {
        None => None,
        Some(token) => match DataFormat::from_chars(widen(token).as_slice()) {
            Some(f) => Some(f),
            None => {
                return Err(ParseError::new(ErrorKind::InvalidToken, Subject::DataFormat, 0, 0));
            },
        },
    };
    let data_size = match &found[3] {
        None => None,
        Some(token) => match parse_unsigned(widen(token).as_slice(), usize::MAX as u64) {
            Some(n) => Some(n as usize),
            None => {
                return Err(ParseError::new(ErrorKind::InvalidNumber, Subject::DataSize, 0, 0));
            },
        },
    };
    Ok(Some(Header { file_type, data_format, data_size }))
}

/// Whether three hyphens stand side by side in the line.
fn has_rule(line: &[u8]) -> (r: bool)
    ensures
        r == holds_rule(line@),
{
    if line.len() < 3 {
        return false;
    }
    let mut i: usize = 0;
    while i <= line.len() - 3
        invariant
            line@.len() >= 3,
            forall|j: int|
                0 <= j < i && j + 3 <= line@.len() ==> !(#[trigger] line@[j] == 0x2d && line@[j + 1]
                    == 0x2d && line@[j + 2] == 0x2d),
        decreases line.len() - i,
    {
        if line[i] == 0x2d && line[i + 1] == 0x2d && line[i + 2] == 0x2d {
            return true;
        }
        i += 1;
    }
    false
}

/// Says what a line of a combined file announces.
pub fn read_header(line: &[u8]) -> (r: ParseResult<Option<Header>>)
    ensures
        r == header_of(line@),
{
    if has_rule(line) {
        let groups = captures(
            "(?i)^\\s*---\\s*file type:\\s*([a-z]+)(?:\\s+([a-z0-9]+))?\\s*(?::\\s*([0-9]+))?\\s*---\\s*$",
            line,
        );
        interpret_header(&groups)
    } else {
        Ok(None)
    }
}

/// The four streams of a combined file, with what the file declares of its
/// data.
#[derive(Debug, Clone, PartialEq, Eq)]
pub struct Streams {
    pub config: Vec<u8>,
    pub data: Vec<u8>,
    pub header: Vec<u8>,
    pub info: Vec<u8>,
    /// The encoding that the data section's line declares.
    pub data_format: Option<DataFormat>,
    /// The size in bytes that the data section's line declares.
    pub data_size: Option<usize>,
}

/// The streams as sequences of bytes.
pub struct StreamsView {
    pub config: Seq<u8>,
    pub data: Seq<u8>,
    pub header: Seq<u8>,
    pub info: Seq<u8>,
    pub data_format: Option<DataFormat>,
    pub data_size: Option<usize>,
}

impl View for Streams {
    type V = StreamsView;

    open spec fn view(&self) -> StreamsView {
        StreamsView {
            config: self.config@,
            data: self.data@,
            header: self.header@,
            info: self.info@,
            data_format: self.data_format,
            data_size: self.data_size,
        }
    }
}

/// The streams of a file that holds nothing.
pub open spec fn no_streams() -> StreamsView {
    StreamsView {
        config: Seq::empty(),
        data: Seq::empty(),
        header: Seq::empty(),
        info: Seq::empty(),
        data_format: None,
        data_size: None,
    }
}

/// The streams with `bytes` added to the stream of a section.
pub open spec fn with_content(streams: StreamsView, section: FileType, bytes: Seq<u8>)
    -> StreamsView {
    match section {
        FileType::Cfg => StreamsView { config: streams.config + bytes, ..streams },
        FileType::Dat => StreamsView { data: streams.data + bytes, ..streams },
        FileType::Hdr => StreamsView { header: streams.header + bytes, ..streams },
        FileType::Inf => StreamsView { info: streams.info + bytes, ..streams },
    }
}

/// The streams with what the line of a data section declares; the line of
/// another section leaves them as they are.
pub open spec fn with_declared(streams: StreamsView, header: Header) -> StreamsView {
    if header.file_type == FileType::Dat {
        StreamsView { data_format: header.data_format, data_size: header.data_size, ..streams }
    } else {
        streams
    }
}

/// Whether a line announces data that are not text: a data section with a
/// declared encoding other than ASCII.
pub open spec fn announces_bytes(header: Header) -> bool {
    header.file_type == FileType::Dat && header.data_format is Some && header.data_format
        != Some(DataFormat::Ascii)
}

/// The number of bytes that belong to data that are not text, of the
/// `available` bytes that follow their line: as many as the line declares,
/// and all where it declares no size or more than there are.
pub open spec fn block_len(header: Header, available: int) -> int {
    match header.data_size {
        Some(size) => if size <= available {
            size as int
        } else {
            available
        },
        None => available,
    }
}

/// The number of bytes that the line of the byte at `from` holds after
/// that byte, its line feed included.
pub open spec fn line_rest(stream: Seq<u8>, from: int) -> nat
    decreases stream.len() - from,
{
    if from < 0 || from + 1 >= stream.len() || stream[from] == 0x0a {
        0
    } else {
        1 + line_rest(stream, from + 1)
    }
}

/// The length of the line that starts at `from`, its line feed included.
pub open spec fn line_len(stream: Seq<u8>, from: int) -> nat {
    1 + line_rest(stream, from)
}

/// The error of content that stands before any section is announced.
pub open spec fn content_before_header(line: u64) -> ParseError {
    ParseError::at(ErrorKind::Structure, Subject::CombinedFile, line, 0)
}

/// What is made of a combined file from the byte at `from` on, where
/// `read` lines have been read, `active` is the section that the last
/// announcing line named, and `streams` holds what was gathered.
///
/// The file is read line by line. A line that announces a section makes it
/// the active one. Where it announces data that are not text, the bytes
/// after it go to the data as they are, as many as it declares, and reading
/// goes on behind them. Any other line goes to the stream of the active
/// section as it is, its line feed included, and is an error where no
/// section is active. An error carries the number of its line.
pub open spec fn demux_from(
    stream: Seq<u8>,
    from: int,
    read: nat,
    active: Option<FileType>,
    streams: StreamsView,
) -> ParseResult<StreamsView>
    decreases
            if from < stream.len() {
                stream.len() - from
            } else {
                0
            },
{
    if from < 0 || from >= stream.len() {
        Ok(streams)
    } else {
        let end = from + 1 + line_rest(stream, from);
        let line = stream.subrange(from, end);
        let number = (read + 1) as u64;
        match header_of(line) {
            Err(e) => Err(ParseError::at(e.kind, e.subject, number, 0)),
            Ok(Some(header)) => if announces_bytes(header) {
                let taken = block_len(header, stream.len() - end);
                demux_from(
                    stream,
                    end + taken,
                    read + 1,
                    Some(header.file_type),
                    with_content(
                        with_declared(streams, header),
                        FileType::Dat,
                        stream.subrange(end, end + taken),
                    ),
                )
            } else {
                demux_from(
                    stream,
                    end,
                    read + 1,
                    Some(header.file_type),
                    with_declared(streams, header),
                )
            },
            Ok(None) => match active {
                None => Err(content_before_header(number)),
                Some(section) => demux_from(
                    stream,
                    end,
                    read + 1,
                    active,
                    with_content(streams, section, line),
                ),
            },
        }
    }
}

/// The four streams of a combined file.
pub open spec fn streams_of(stream: Seq<u8>) -> ParseResult<StreamsView> {
    demux_from(stream, 0, 0, None, no_streams())
}

/// The end of the line that starts at `from`.
fn line_end(stream: &[u8], from: usize) -> (end: usize)
    requires
        from < stream@.len(),
    ensures
        end == from + line_len(stream@, from as int),
        from < end <= stream@.len(),
{
    let mut last: usize = from;
    let length: usize = stream.len();
    while last + 1 < length && stream[last] != 0x0a
        invariant
            length == stream@.len(),
            from <= last < stream@.len(),
            from + line_rest(stream@, from as int) == last + line_rest(stream@, last as int),
        decreases length - last,
    {
        last += 1;
    }
    last + 1
}

/// Splits a combined file into its four streams.
///
/// The streams are those that reading the file from its first byte gives,
/// and the error is the one that reading meets first.
pub fn load_cff(stream: &[u8]) -> (r: ParseResult<Streams>)
    ensures
        decoded(r, streams_of(stream@)),
{
    let mut streams = Streams {
        config: Vec::new(),
        data: Vec::new(),
        header: Vec::new(),
        info: Vec::new(),
        data_format: None,
        data_size: None,
    };
    let mut active: Option<FileType> = None;
    let mut from: usize = 0;
    let mut read: u64 = 0;
    let length: usize = stream.len();
    assert(streams@ == no_streams());
    while from < length
        invariant
            from <= length,
            length == stream@.len(),
            read <= from,
            demux_from(stream@, from as int, read as nat, active, streams@) == streams_of(stream@),
        decreases length - from,
    {
        let ghost before = streams@;
        let end: usize = line_end(stream, from);
        let line = slice_subrange(stream, from, end);
        let number: u64 = read + 1;
        match read_header(line) {
            Err(e) => {
                return Err(ParseError::new(e.kind, e.subject, number, 0));
            },
            Ok(Some(header)) => {
                if let FileType::Dat = header.file_type {
                    streams.data_format = header.data_format;
                    streams.data_size = header.data_size;
                }
                assert(streams@ == with_declared(before, header));
                active = Some(header.file_type);
                let raw: bool = match (header.file_type, header.data_format) {
                    (FileType::Dat, Some(DataFormat::Ascii)) => false,
                    (FileType::Dat, Some(_)) => true,
                    _ => false,
                };
                assert(raw == announces_bytes(header));
                if raw {
                    let available: usize = length - end;
                    let taken: usize = match header.data_size {
                        Some(size) => if size <= available {
                            size
                        } else {
                            available
                        },
                        None => available,
                    };
                    streams.data.extend_from_slice(slice_subrange(stream, end, end + taken));
                    assert(streams@.data =~= with_declared(before, header).data
                        + stream@.subrange(end as int, end + taken));
                    from = end + taken;
                } else {
                    from = end;
                }
            },
            Ok(None) => {
                match active {
                    None => {
                        return Err(
                            ParseError::new(
                                ErrorKind::Structure,
                                Subject::CombinedFile,
                                number,
                                0,
                            ),
                        );
                    },
                    Some(FileType::Cfg) => {
                        streams.config.extend_from_slice(line);
                    },
                    Some(FileType::Dat) => {
                        streams.data.extend_from_slice(line);
                    },
                    Some(FileType::Hdr) => {
                        streams.header.extend_from_slice(line);
                    },
                    Some(FileType::Inf) => {
                        streams.info.extend_from_slice(line);
                    },
                }
                assert(streams@.config =~= with_content(before, active->0, line@).config);
                assert(streams@.data =~= with_content(before, active->0, line@).data);
                assert(streams@.header =~= with_content(before, active->0, line@).header);
                assert(streams@.info =~= with_content(before, active->0, line@).info);
                from = end;
            },
        }
        read = number;
    }
    Ok(streams)
}

} // verus!
