//! The grammar of the configuration: a schema of lines, each a fixed number
//! of comma-separated fields, that branches on the revision of the standard.

use crate::error::{
    decoded, decoded_rows, line_number, line_number_of, ErrorKind, ParseError, ParseResult, Subject,
};
use crate::offset::{time_offset_from_chars, time_offset_of};
use crate::record::{
    AnalogChannel, AnalogChannelView, AnalogScalingMode, Comtrade, ComtradeView, DataFormat,
    DateTime, FormatRevision, LeapSecondStatus, Real, SamplingRate, SamplingRateView,
    StatusChannel, StatusChannelView, TimeQuality, TimeUnit, UtcOffset,
};
use crate::search::{
    first_place, gather, lemma_first_place, lemma_first_place_stays, lemma_gather_error_stays,
    lemma_gather_len,
};
use crate::stamp::{finer, read_stamp, stamp_of};
use crate::text::{
    is_real, is_real_literal, lemma_split_nonempty, parse_unsigned, split, split_chars, string_of,
    trim, trim_chars, unsigned_of, views,
};
use vstd::prelude::*;

verus! {

/// The fields of a line.
pub open spec fn fields_of(line: Seq<char>) -> Seq<Seq<char>> {
    split(line, ',')
}

/// The error of a configuration that ends before the line at `index`.
pub open spec fn early_end(index: int) -> ParseError {
    ParseError::at(ErrorKind::Structure, Subject::Configuration, line_number(index), 0)
}

/// The error of a line that does not hold the fields it should.
pub open spec fn malformed(subject: Subject, line: u64, channel: u32) -> ParseError {
    ParseError::at(ErrorKind::MalformedLine, subject, line, channel)
}

/// The error of a field that does not hold the number it should.
pub open spec fn not_a_number(subject: Subject, line: u64, channel: u32) -> ParseError {
    ParseError::at(ErrorKind::InvalidNumber, subject, line, channel)
}

/// The error of a field that holds a token unknown to its dictionary.
pub open spec fn not_a_token(subject: Subject, line: u64, channel: u32) -> ParseError {
    ParseError::at(ErrorKind::InvalidToken, subject, line, channel)
}

/// The error of a value that breaks a rule of the format.
pub open spec fn against_rule(subject: Subject, line: u64, channel: u32) -> ParseError {
    ParseError::at(ErrorKind::Semantic, subject, line, channel)
}

/// The 32-bit unsigned integer that a field writes, whitespace around it
/// ignored.
pub open spec fn u32_of(field: Seq<char>) -> Option<u32> {
    match unsigned_of(trim(field), u32::MAX as nat) {
        Some(n) => Some(n as u32),
        None => None,
    }
}

/// The literal of the real number that a field writes, whitespace around it
/// ignored.
pub open spec fn real_of(field: Seq<char>) -> Option<Seq<char>> {
    if is_real_literal(trim(field)) {
        Some(trim(field))
    } else {
        None
    }
}

/// A field without its last character.
pub open spec fn without_last(field: Seq<char>) -> Seq<char> {
    if field.len() > 0 {
        field.drop_last()
    } else {
        field
    }
}

/// Reads a 32-bit unsigned integer, whitespace around it ignored.
pub fn read_u32(field: &[char]) -> (r: Option<u32>)
    ensures
        r == u32_of(field@),
{
    match parse_unsigned(trim_chars(field), 0xffff_ffff) {
        Some(n) => Some(n as u32),
        None => None,
    }
}

/// Reads a real number, whitespace around it ignored, and keeps its literal.
pub fn read_real(field: &[char]) -> (r: Option<Real>)
    ensures
        match r {
            Some(x) => real_of(field@) == Some(x@),
            None => real_of(field@) is None,
        },
        r matches Some(x) ==> x.wf(),
{
    let literal = trim_chars(field);
    if is_real(literal) {
        Some(Real::from_chars(literal))
    } else {
        None
    }
}

/// What the station line holds: the station name, the device id and the
/// revision. Two fields are a configuration of 1991; a third field is the
/// revision year.
pub open spec fn station_of(line: Seq<char>) -> ParseResult<(Seq<char>, Seq<char>, FormatRevision)> {
    let fields = fields_of(line);
    if fields.len() == 3 {
        match FormatRevision::of(trim(fields[2])) {
            Some(revision) => Ok((fields[0], fields[1], revision)),
            None => Err(not_a_token(Subject::Revision, 1, 0)),
        }
    } else if fields.len() == 2 {
        Ok((fields[0], fields[1], FormatRevision::Revision1991))
    } else {
        Err(malformed(Subject::Station, 1, 0))
    }
}

/// Reads the station line.
pub fn read_station(line: &[char]) -> (r: ParseResult<(String, String, FormatRevision)>)
    ensures
        match r {
            Ok((name, device, revision)) => station_of(line@) == Ok::<_, ParseError>(
                (name@, device@, revision),
            ),
            Err(e) => station_of(line@) == Err::<(Seq<char>, Seq<char>, FormatRevision), _>(e),
        },
{
    let fields = split_chars(line, ',');
    assert(views(fields@).len() == fields@.len());
    if fields.len() == 3 {
        assert(views(fields@)[0] == fields@[0]@);
        assert(views(fields@)[1] == fields@[1]@);
        assert(views(fields@)[2] == fields@[2]@);
        match FormatRevision::from_chars(trim_chars(fields[2].as_slice())) {
            Some(revision) => Ok(
                (string_of(fields[0].as_slice()), string_of(fields[1].as_slice()), revision),
            ),
            None => Err(ParseError::new(ErrorKind::InvalidToken, Subject::Revision, 1, 0)),
        }
    } else if fields.len() == 2 {
        assert(views(fields@)[0] == fields@[0]@);
        assert(views(fields@)[1] == fields@[1]@);
        Ok(
            (
                string_of(fields[0].as_slice()),
                string_of(fields[1].as_slice()),
                FormatRevision::Revision1991,
            ),
        )
    } else {
        Err(ParseError::new(ErrorKind::MalformedLine, Subject::Station, 1, 0))
    }
}

/// What the line of channel counts holds: the total, the number of analog
/// channels and the number of status channels. The second and third field
/// end, whitespace aside, with the letter of the channel type, which is
/// dropped. The two numbers must add up to the total.
pub open spec fn counts_of(line: Seq<char>) -> ParseResult<(u32, u32, u32)> {
    let fields = fields_of(line);
    if fields.len() != 3 {
        Err(malformed(Subject::ChannelCounts, 2, 0))
    } else {
        match (
            u32_of(fields[0]),
            u32_of(without_last(trim(fields[1]))),
            u32_of(without_last(trim(fields[2]))),
        ) {
            (None, _, _) => Err(not_a_number(Subject::TotalChannels, 2, 0)),
            (Some(_), None, _) => Err(not_a_number(Subject::AnalogCount, 2, 0)),
            (Some(_), Some(_), None) => Err(not_a_number(Subject::StatusCount, 2, 0)),
            (Some(total), Some(analog), Some(status)) => if analog + status == total {
                Ok((total, analog, status))
            } else {
                Err(against_rule(Subject::TotalChannels, 2, 0))
            },
        }
    }
}

/// The field without its last character.
fn drop_last_char(field: &[char]) -> (r: &[char])
    ensures
        r@ == without_last(field@),
{
    if field.len() > 0 {
        let r = vstd::slice::slice_subrange(field, 0, field.len() - 1);
        assert(r@ == field@.drop_last());
        r
    } else {
        field
    }
}

/// Reads the line of channel counts.
pub fn read_counts(line: &[char]) -> (r: ParseResult<(u32, u32, u32)>)
    ensures
        r == counts_of(line@),
{
    let fields = split_chars(line, ',');
    assert(views(fields@).len() == fields@.len());
    if fields.len() != 3 {
        return Err(ParseError::new(ErrorKind::MalformedLine, Subject::ChannelCounts, 2, 0));
    }
    assert(views(fields@)[0] == fields@[0]@);
    assert(views(fields@)[1] == fields@[1]@);
    assert(views(fields@)[2] == fields@[2]@);
    let total: u32 = match read_u32(fields[0].as_slice()) {
        Some(n) => n,
        None => {
            return Err(ParseError::new(ErrorKind::InvalidNumber, Subject::TotalChannels, 2, 0));
        },
    };
    let analog: u32 = match read_u32(drop_last_char(trim_chars(fields[1].as_slice()))) {
        Some(n) => n,
        None => {
            return Err(ParseError::new(ErrorKind::InvalidNumber, Subject::AnalogCount, 2, 0));
        },
    };
    let status: u32 = match read_u32(drop_last_char(trim_chars(fields[2].as_slice()))) {
        Some(n) => n,
        None => {
            return Err(ParseError::new(ErrorKind::InvalidNumber, Subject::StatusCount, 2, 0));
        },
    };
    if analog as u64 + status as u64 == total as u64 {
        Ok((total, analog, status))
    } else {
        Err(ParseError::new(ErrorKind::Semantic, Subject::TotalChannels, 2, 0))
    }
}

/// What the line at `place` of a table that begins at the line `first`
/// holds: the row that `row` reads from it, told the line's number and the
/// row's place in the table, counted from 1. A configuration that ends
/// before the line is in error at the missing line.
pub open spec fn row_at<T>(
    lines: Seq<Seq<char>>,
    first: int,
    row: spec_fn(Seq<char>, u64, u32) -> ParseResult<T>,
    place: int,
) -> ParseResult<Option<T>> {
    let index = first + place;
    if index >= lines.len() {
        Err(early_end(index))
    } else {
        match row(lines[index], line_number(index), (place + 1) as u32) {
            Ok(r) => Ok(Some(r)),
            Err(e) => Err(e),
        }
    }
}

/// The rows of a table: `count` lines from the line at `first` on, each read
/// by `row`. The first row in error gives the table's error.
pub open spec fn rows_of<T>(
    lines: Seq<Seq<char>>,
    first: int,
    count: nat,
    row: spec_fn(Seq<char>, u64, u32) -> ParseResult<T>,
) -> ParseResult<Seq<T>> {
    gather(count, |place: int| row_at(lines, first, row, place))
}

/// A table that is in error after some of its rows is in error after more.
pub proof fn lemma_rows_error_stays<T>(
    lines: Seq<Seq<char>>,
    first: int,
    some: nat,
    more: nat,
    row: spec_fn(Seq<char>, u64, u32) -> ParseResult<T>,
)
    requires
        some <= more,
        rows_of(lines, first, some, row) is Err,
    ensures
        rows_of(lines, first, more, row) == rows_of(lines, first, some, row),
{
    lemma_gather_error_stays(some, more, |place: int| row_at(lines, first, row, place));
}

/// A table that was read holds as many rows as were asked for.
pub proof fn lemma_rows_len<T>(
    lines: Seq<Seq<char>>,
    first: int,
    count: nat,
    row: spec_fn(Seq<char>, u64, u32) -> ParseResult<T>,
)
    ensures
        rows_of(lines, first, count, row) matches Ok(rows) ==> rows.len() == count,
{
    lemma_gather_len(count, |place: int| row_at(lines, first, row, place));
}

/// What an analog channel row holds, in thirteen fields: index, name,
/// phase, monitored component, units, multiplier, offset adder, skew,
/// minimum, maximum, primary factor, secondary factor and the letter of the
/// scaling mode. The channel has no samples yet.
pub open spec fn analog_row_of(line: Seq<char>, number: u64, place: u32) -> ParseResult<
    AnalogChannelView,
> {
    let fields = fields_of(line);
    if fields.len() != 13 {
        Err(malformed(Subject::AnalogChannel, number, place))
    } else if u32_of(fields[0]) is None {
        Err(not_a_number(Subject::ChannelIndex, number, place))
    } else if real_of(fields[5]) is None {
        Err(not_a_number(Subject::Multiplier, number, place))
    } else if real_of(fields[6]) is None {
        Err(not_a_number(Subject::OffsetAdder, number, place))
    } else if real_of(fields[7]) is None {
        Err(not_a_number(Subject::Skew, number, place))
    } else if real_of(fields[8]) is None {
        Err(not_a_number(Subject::MinValue, number, place))
    } else if real_of(fields[9]) is None {
        Err(not_a_number(Subject::MaxValue, number, place))
    } else if real_of(fields[10]) is None {
        Err(not_a_number(Subject::PrimaryFactor, number, place))
    } else if real_of(fields[11]) is None {
        Err(not_a_number(Subject::SecondaryFactor, number, place))
    } else if AnalogScalingMode::of(trim(fields[12])) is None {
        Err(not_a_token(Subject::ScalingMode, number, place))
    } else {
        Ok(
            AnalogChannelView {
                index: u32_of(fields[0])->0,
                name: fields[1],
                phase: fields[2],
                circuit_component_being_monitored: fields[3],
                units: fields[4],
                min_value: real_of(fields[8])->0,
                max_value: real_of(fields[9])->0,
                multiplier: real_of(fields[5])->0,
                offset_adder: real_of(fields[6])->0,
                skew: real_of(fields[7])->0,
                primary_factor: real_of(fields[10])->0,
                secondary_factor: real_of(fields[11])->0,
                scaling_mode: AnalogScalingMode::of(trim(fields[12]))->0,
                data: Seq::empty(),
            },
        )
    }
}

/// The views of fields are the fields' views, place by place.
pub proof fn lemma_field_views(fields: Seq<Vec<char>>)
    ensures
        views(fields).len() == fields.len(),
        forall|i: int| 0 <= i < fields.len() ==> #[trigger] views(fields)[i] == fields[i]@,
{
}

/// Reads an analog channel row, of the given line number and place in
/// the table.
pub fn read_analog_row(line: &[char], number: u64, place: u32) -> (r: ParseResult<AnalogChannel>)
    ensures
        decoded(r, analog_row_of(line@, number, place)),
        r matches Ok(c) ==> c@.wf() && c.data@.len() == 0,
{
    let fields = split_chars(line, ',');
    proof {
        lemma_field_views(fields@);
    }
    if fields.len() != 13 {
        return Err(ParseError::new(ErrorKind::MalformedLine, Subject::AnalogChannel, number, place));
    }
    let index: u32 = match read_u32(fields[0].as_slice()) {
        Some(n) => n,
        None => {
            return Err(
                ParseError::new(ErrorKind::InvalidNumber, Subject::ChannelIndex, number, place),
            );
        },
    };
    let multiplier = match read_real(fields[5].as_slice()) {
        Some(x) => x,
        None => {
            return Err(
                ParseError::new(ErrorKind::InvalidNumber, Subject::Multiplier, number, place),
            );
        },
    };
    let offset_adder = match read_real(fields[6].as_slice()) {
        Some(x) => x,
        None => {
            return Err(
                ParseError::new(ErrorKind::InvalidNumber, Subject::OffsetAdder, number, place),
            );
        },
    };
    let skew = match read_real(fields[7].as_slice()) {
        Some(x) => x,
        None => {
            return Err(ParseError::new(ErrorKind::InvalidNumber, Subject::Skew, number, place));
        },
    };
    let min_value = match read_real(fields[8].as_slice()) {
        Some(x) => x,
        None => {
            return Err(ParseError::new(ErrorKind::InvalidNumber, Subject::MinValue, number, place));
        },
    };
    let max_value = match read_real(fields[9].as_slice()) {
        Some(x) => x,
        None => {
            return Err(ParseError::new(ErrorKind::InvalidNumber, Subject::MaxValue, number, place));
        },
    };
    let primary_factor = match read_real(fields[10].as_slice()) {
        Some(x) => x,
        None => {
            return Err(
                ParseError::new(ErrorKind::InvalidNumber, Subject::PrimaryFactor, number, place),
            );
        },
    };
    let secondary_factor = match read_real(fields[11].as_slice()) {
        Some(x) => x,
        None => {
            return Err(
                ParseError::new(ErrorKind::InvalidNumber, Subject::SecondaryFactor, number, place),
            );
        },
    };
    let scaling_mode = match AnalogScalingMode::from_chars(trim_chars(fields[12].as_slice())) {
        Some(m) => m,
        None => {
            return Err(
                ParseError::new(ErrorKind::InvalidToken, Subject::ScalingMode, number, place),
            );
        },
    };
    let channel = AnalogChannel {
        index,
        name: string_of(fields[1].as_slice()),
        phase: string_of(fields[2].as_slice()),
        circuit_component_being_monitored: string_of(fields[3].as_slice()),
        units: string_of(fields[4].as_slice()),
        min_value,
        max_value,
        multiplier,
        offset_adder,
        skew,
        primary_factor,
        secondary_factor,
        scaling_mode,
        data: Vec::new(),
    };
    assert(channel@.data =~= Seq::empty());
    Ok(channel)
}

/// The line at `index`, or the error of a configuration that ends before it.
fn line_at(lines: &Vec<Vec<char>>, index: usize) -> (r: ParseResult<&[char]>)
    ensures
        match r {
            Ok(line) => index < lines@.len() && line@ == views(lines@)[index as int],
            Err(e) => index >= lines@.len() && e == early_end(index as int),
        },
{
    if index < lines.len() {
        Ok(lines[index].as_slice())
    } else {
        Err(ParseError::new(ErrorKind::Structure, Subject::Configuration, line_number_of(index), 0))
    }
}

/// Reads the table of analog channels: `count` rows from the line at `first`.
fn read_analog_rows(lines: &Vec<Vec<char>>, first: usize, count: u32) -> (r: ParseResult<
    Vec<AnalogChannel>,
>)
    ensures
        decoded_rows(
            r,
            rows_of(
                views(lines@),
                first as int,
                count as nat,
                |l: Seq<char>, n: u64, p: u32| analog_row_of(l, n, p),
            ),
        ),
        r matches Ok(rows) ==> rows@.len() == count && (count > 0 ==> first + count <= lines@.len())
            && forall|
            i: int,
        | 0 <= i < rows@.len() ==> (#[trigger] rows@[i])@.wf() && rows@[i].data@.len() == 0,
{
    let ghost row = |l: Seq<char>, n: u64, p: u32| analog_row_of(l, n, p);
    let ghost all = views(lines@);
    let mut rows: Vec<AnalogChannel> = Vec::new();
    let mut done: u32 = 0;
    let mut cursor: usize = first;
    let total: usize = lines.len();
    assert(views(rows@) =~= Seq::empty());
    while done < count
        invariant
            done <= count,
            total == lines@.len(),
            cursor == first + done,
            done > 0 ==> cursor <= lines@.len(),
            all == views(lines@),
            row == |l: Seq<char>, n: u64, p: u32| analog_row_of(l, n, p),
            rows_of(all, first as int, done as nat, row) == Ok::<_, ParseError>(views(rows@)),
            rows@.len() == done,
            forall|i: int|
                0 <= i < rows@.len() ==> (#[trigger] rows@[i])@.wf() && rows@[i].data@.len() == 0,
        decreases count - done,
    {
        let ghost before = views(rows@);
        let line = match line_at(lines, cursor) {
            Ok(line) => line,
            Err(e) => {
                proof {
                    assert(rows_of(all, first as int, (done + 1) as nat, row) == Err::<
                        Seq<AnalogChannelView>,
                        _,
                    >(e));
                    lemma_rows_error_stays(all, first as int, (done + 1) as nat, count as nat, row);
                }
                return Err(e);
            },
        };
        let channel = match read_analog_row(line, line_number_of(cursor), done + 1) {
            Ok(channel) => channel,
            Err(e) => {
                proof {
                    assert(rows_of(all, first as int, (done + 1) as nat, row) == Err::<
                        Seq<AnalogChannelView>,
                        _,
                    >(e));
                    lemma_rows_error_stays(all, first as int, (done + 1) as nat, count as nat, row);
                }
                return Err(e);
            },
        };
        rows.push(channel);
        assert(views(rows@) == before.push(channel@));
        done += 1;
        cursor += 1;
    }
    Ok(rows)
}

/// Whether the analog channel at `place` has an index that is not greater
/// than the index of the channel before it.
pub open spec fn out_of_order(rows: Seq<AnalogChannelView>, place: int) -> bool {
    place >= 1 && rows[place - 1].index >= rows[place].index
}

/// The place, counted from 0, of the first analog channel whose index is
/// not greater than the index of the channel before it.
pub open spec fn first_disorder(rows: Seq<AnalogChannelView>) -> Option<int> {
    first_place(rows.len(), |place: int| out_of_order(rows, place))
}

/// Channels without disorder have indices that rise with their places.
pub proof fn lemma_ordered_rises(rows: Seq<AnalogChannelView>)
    requires
        first_disorder(rows) is None,
    ensures
        forall|i: int, j: int|
            0 <= i < j < rows.len() ==> (#[trigger] rows[i]).index < (#[trigger] rows[j]).index,
{
    let disorder = |place: int| out_of_order(rows, place);
    lemma_first_place(rows.len(), disorder);
    assert forall|place: int| 0 <= place < rows.len() implies !#[trigger] out_of_order(
        rows,
        place,
    ) by {
        assert(!disorder(place));
    }
    assert forall|i: int, j: int| 0 <= i < j < rows.len() implies (#[trigger] rows[i]).index < (
    #[trigger] rows[j]).index by {
        lemma_rises_between(rows, i, j);
    }
}

/// Indices that rise from each channel to the next rise between any two.
proof fn lemma_rises_between(rows: Seq<AnalogChannelView>, i: int, j: int)
    requires
        0 <= i < j < rows.len(),
        forall|place: int| 0 <= place < rows.len() ==> !#[trigger] out_of_order(rows, place),
    ensures
        rows[i].index < rows[j].index,
    decreases j - i,
{
    assert(!out_of_order(rows, j));
    if i < j - 1 {
        lemma_rises_between(rows, i, j - 1);
    }
}

/// The analog channels of a configuration: the table of their rows, in
/// which each index must be greater than the one before it.
pub open spec fn analog_channels_of(lines: Seq<Seq<char>>, first: int, count: nat) -> ParseResult<
    Seq<AnalogChannelView>,
> {
    match rows_of(lines, first, count, |l: Seq<char>, n: u64, p: u32| analog_row_of(l, n, p)) {
        Err(e) => Err(e),
        Ok(rows) => match first_disorder(rows) {
            Some(place) => Err(
                against_rule(Subject::ChannelIndex, line_number(first + place), (place + 1) as u32),
            ),
            None => Ok(rows),
        },
    }
}

/// Reads the analog channels: `count` rows from the line at `first`, whose
/// indices must rise.
pub fn read_analog_channels(lines: &Vec<Vec<char>>, first: usize, count: u32) -> (r: ParseResult<
    Vec<AnalogChannel>,
>)
    ensures
        decoded_rows(r, analog_channels_of(views(lines@), first as int, count as nat)),
        r matches Ok(rows) ==> rows@.len() == count && (count > 0 ==> first + count <= lines@.len())
            && forall|
            i: int,
        | 0 <= i < rows@.len() ==> (#[trigger] rows@[i])@.wf() && rows@[i].data@.len() == 0,
        r matches Ok(rows) ==> forall|i: int, j: int|
            0 <= i < j < rows@.len() ==> (#[trigger] rows@[i]).index < (#[trigger] rows@[j]).index,
{
    let rows = match read_analog_rows(lines, first, count) {
        Ok(rows) => rows,
        Err(e) => {
            return Err(e);
        },
    };
    let ghost all = views(rows@);
    let ghost disorder = |place: int| out_of_order(all, place);
    let total: usize = lines.len();
    if rows.len() == 0 {
        return Ok(rows);
    }
    let mut place: usize = 1;
    assert(first_place(0, disorder) is None);
    assert(!disorder(0));
    while place < rows.len()
        invariant
            1 <= place <= rows@.len(),
            all == views(rows@),
            disorder == |place: int| out_of_order(all, place),
            rows@.len() == count,
            total == lines@.len(),
            count > 0 ==> first + count <= lines@.len(),
            first_place(place as nat, disorder) is None,
            rows_of(
                views(lines@),
                first as int,
                count as nat,
                |l: Seq<char>, n: u64, p: u32| analog_row_of(l, n, p),
            ) == Ok::<_, ParseError>(all),
        decreases rows.len() - place,
    {
        assert(all[place - 1] == rows@[place - 1]@);
        assert(all[place as int] == rows@[place as int]@);
        if rows[place - 1].index >= rows[place].index {
            proof {
                assert(disorder(place as int));
                assert(first_place((place + 1) as nat, disorder) == Some(place as int));
                lemma_first_place_stays((place + 1) as nat, all.len(), disorder);
            }
            return Err(
                ParseError::new(
                    ErrorKind::Semantic,
                    Subject::ChannelIndex,
                    line_number_of(first + place),
                    (place + 1) as u32,
                ),
            );
        }
        assert(!disorder(place as int));
        place += 1;
    }
    proof {
        lemma_ordered_rises(all);
        assert forall|i: int, j: int| 0 <= i < j < rows@.len() implies (#[trigger] rows@[i]).index < (
        #[trigger] rows@[j]).index by {
            assert(all[i].index < all[j].index);
        }
    }
    Ok(rows)
}

/// What a status channel row holds, in five fields: index, name, phase,
/// monitored component and the normal value, which is 0 or 1. The channel
/// has no samples yet.
pub open spec fn status_row_of(line: Seq<char>, number: u64, place: u32) -> ParseResult<
    StatusChannelView,
> {
    let fields = fields_of(line);
    if fields.len() != 5 {
        Err(malformed(Subject::StatusChannel, number, place))
    } else if u32_of(fields[0]) is None {
        Err(not_a_number(Subject::ChannelIndex, number, place))
    } else {
        match unsigned_of(trim(fields[4]), u8::MAX as nat) {
            None => Err(not_a_number(Subject::NormalStatus, number, place)),
            Some(normal) => if normal > 1 {
                Err(against_rule(Subject::NormalStatus, number, place))
            } else {
                Ok(
                    StatusChannelView {
                        index: u32_of(fields[0])->0,
                        name: fields[1],
                        phase: fields[2],
                        circuit_component_being_monitored: fields[3],
                        normal_status_value: normal as u8,
                        data: Seq::empty(),
                    },
                )
            },
        }
    }
}

/// Reads a status channel row, of the given line number and place in the
/// table.
pub fn read_status_row(line: &[char], number: u64, place: u32) -> (r: ParseResult<StatusChannel>)
    ensures
        decoded(r, status_row_of(line@, number, place)),
        r matches Ok(c) ==> c@.wf() && c.data@.len() == 0,
{
    let fields = split_chars(line, ',');
    proof {
        lemma_field_views(fields@);
    }
    if fields.len() != 5 {
        return Err(ParseError::new(ErrorKind::MalformedLine, Subject::StatusChannel, number, place));
    }
    let index: u32 = match read_u32(fields[0].as_slice()) {
        Some(n) => n,
        None => {
            return Err(
                ParseError::new(ErrorKind::InvalidNumber, Subject::ChannelIndex, number, place),
            );
        },
    };
    let normal: u64 = match parse_unsigned(trim_chars(fields[4].as_slice()), 255) {
        Some(n) => n,
        None => {
            return Err(
                ParseError::new(ErrorKind::InvalidNumber, Subject::NormalStatus, number, place),
            );
        },
    };
    if normal > 1 {
        return Err(ParseError::new(ErrorKind::Semantic, Subject::NormalStatus, number, place));
    }
    let channel = StatusChannel {
        index,
        name: string_of(fields[1].as_slice()),
        phase: string_of(fields[2].as_slice()),
        circuit_component_being_monitored: string_of(fields[3].as_slice()),
        normal_status_value: normal as u8,
        data: Vec::new(),
    };
    Ok(channel)
}

/// The status channels of a configuration: the table of their rows.
pub open spec fn status_channels_of(lines: Seq<Seq<char>>, first: int, count: nat) -> ParseResult<
    Seq<StatusChannelView>,
> {
    rows_of(lines, first, count, |l: Seq<char>, n: u64, p: u32| status_row_of(l, n, p))
}

/// Reads the status channels: `count` rows from the line at `first`.
pub fn read_status_channels(lines: &Vec<Vec<char>>, first: usize, count: u32) -> (r: ParseResult<
    Vec<StatusChannel>,
>)
    ensures
        decoded_rows(r, status_channels_of(views(lines@), first as int, count as nat)),
        r matches Ok(rows) ==> rows@.len() == count && (count > 0 ==> first + count <= lines@.len())
            && forall|
            i: int,
        | 0 <= i < rows@.len() ==> (#[trigger] rows@[i])@.wf() && rows@[i].data@.len() == 0,
{
    let ghost row = |l: Seq<char>, n: u64, p: u32| status_row_of(l, n, p);
    let ghost all = views(lines@);
    let mut rows: Vec<StatusChannel> = Vec::new();
    let mut done: u32 = 0;
    let mut cursor: usize = first;
    let total: usize = lines.len();
    assert(views(rows@) =~= Seq::empty());
    while done < count
        invariant
            done <= count,
            total == lines@.len(),
            cursor == first + done,
            done > 0 ==> cursor <= lines@.len(),
            all == views(lines@),
            row == |l: Seq<char>, n: u64, p: u32| status_row_of(l, n, p),
            rows_of(all, first as int, done as nat, row) == Ok::<_, ParseError>(views(rows@)),
            rows@.len() == done,
            forall|i: int|
                0 <= i < rows@.len() ==> (#[trigger] rows@[i])@.wf() && rows@[i].data@.len() == 0,
        decreases count - done,
    {
        let ghost before = views(rows@);
        let line = match line_at(lines, cursor) {
            Ok(line) => line,
            Err(e) => {
                proof {
                    assert(rows_of(all, first as int, (done + 1) as nat, row) == Err::<
                        Seq<StatusChannelView>,
                        _,
                    >(e));
                    lemma_rows_error_stays(all, first as int, (done + 1) as nat, count as nat, row);
                }
                return Err(e);
            },
        };
        let channel = match read_status_row(line, line_number_of(cursor), done + 1) {
            Ok(channel) => channel,
            Err(e) => {
                proof {
                    assert(rows_of(all, first as int, (done + 1) as nat, row) == Err::<
                        Seq<StatusChannelView>,
                        _,
                    >(e));
                    lemma_rows_error_stays(all, first as int, (done + 1) as nat, count as nat, row);
                }
                return Err(e);
            },
        };
        rows.push(channel);
        assert(views(rows@) == before.push(channel@));
        done += 1;
        cursor += 1;
    }
    Ok(rows)
}

/// What a row of the sampling-rate table holds, in two fields: the rate in
/// hertz and the number of the last sample taken at it.
pub open spec fn rate_row_of(line: Seq<char>, number: u64) -> ParseResult<SamplingRateView> {
    let fields = fields_of(line);
    if fields.len() != 2 {
        Err(malformed(Subject::SamplingRate, number, 0))
    } else {
        match (real_of(fields[0]), u32_of(fields[1])) {
            (None, _) => Err(not_a_number(Subject::RateHz, number, 0)),
            (Some(_), None) => Err(not_a_number(Subject::EndSample, number, 0)),
            (Some(rate_hz), Some(end_sample_number)) => Ok(
                SamplingRateView { rate_hz, end_sample_number },
            ),
        }
    }
}

/// Reads a row of the sampling-rate table, of the given line number.
pub fn read_rate_row(line: &[char], number: u64) -> (r: ParseResult<SamplingRate>)
    ensures
        decoded(r, rate_row_of(line@, number)),
        r matches Ok(rate) ==> rate.rate_hz.wf(),
{
    let fields = split_chars(line, ',');
    proof {
        lemma_field_views(fields@);
    }
    if fields.len() != 2 {
        return Err(ParseError::new(ErrorKind::MalformedLine, Subject::SamplingRate, number, 0));
    }
    let rate_hz = match read_real(fields[0].as_slice()) {
        Some(x) => x,
        None => {
            return Err(ParseError::new(ErrorKind::InvalidNumber, Subject::RateHz, number, 0));
        },
    };
    let end_sample_number: u32 = match read_u32(fields[1].as_slice()) {
        Some(n) => n,
        None => {
            return Err(ParseError::new(ErrorKind::InvalidNumber, Subject::EndSample, number, 0));
        },
    };
    Ok(SamplingRate { rate_hz, end_sample_number })
}

/// The sampling-rate table of a configuration.
pub open spec fn sampling_rates_of(lines: Seq<Seq<char>>, first: int, count: nat) -> ParseResult<
    Seq<SamplingRateView>,
> {
    rows_of(lines, first, count, |l: Seq<char>, n: u64, p: u32| rate_row_of(l, n))
}

/// Reads the sampling-rate table: `count` rows from the line at `first`.
pub fn read_sampling_rates(lines: &Vec<Vec<char>>, first: usize, count: u32) -> (r: ParseResult<
    Vec<SamplingRate>,
>)
    ensures
        decoded_rows(r, sampling_rates_of(views(lines@), first as int, count as nat)),
        r matches Ok(rows) ==> rows@.len() == count && (count > 0 ==> first + count <= lines@.len())
            && forall|
            i: int,
        | 0 <= i < rows@.len() ==> (#[trigger] rows@[i]).rate_hz.wf(),
{
    let ghost row = |l: Seq<char>, n: u64, p: u32| rate_row_of(l, n);
    let ghost all = views(lines@);
    let mut rows: Vec<SamplingRate> = Vec::new();
    let mut done: u32 = 0;
    let mut cursor: usize = first;
    let total: usize = lines.len();
    assert(views(rows@) =~= Seq::empty());
    while done < count
        invariant
            done <= count,
            total == lines@.len(),
            cursor == first + done,
            done > 0 ==> cursor <= lines@.len(),
            all == views(lines@),
            row == |l: Seq<char>, n: u64, p: u32| rate_row_of(l, n),
            rows_of(all, first as int, done as nat, row) == Ok::<_, ParseError>(views(rows@)),
            rows@.len() == done,
            forall|i: int| 0 <= i < rows@.len() ==> (#[trigger] rows@[i]).rate_hz.wf(),
        decreases count - done,
    {
        let ghost before = views(rows@);
        let line = match line_at(lines, cursor) {
            Ok(line) => line,
            Err(e) => {
                proof {
                    assert(rows_of(all, first as int, (done + 1) as nat, row) == Err::<
                        Seq<SamplingRateView>,
                        _,
                    >(e));
                    lemma_rows_error_stays(all, first as int, (done + 1) as nat, count as nat, row);
                }
                return Err(e);
            },
        };
        let rate = match read_rate_row(line, line_number_of(cursor)) {
            Ok(rate) => rate,
            Err(e) => {
                proof {
                    assert(rows_of(all, first as int, (done + 1) as nat, row) == Err::<
                        Seq<SamplingRateView>,
                        _,
                    >(e));
                    lemma_rows_error_stays(all, first as int, (done + 1) as nat, count as nat, row);
                }
                return Err(e);
            },
        };
        rows.push(rate);
        assert(views(rows@) == before.push(rate@));
        done += 1;
        cursor += 1;
    }
    Ok(rows)
}

/// What the lines from the line frequency to the end of the sampling-rate
/// table hold: the line frequency, the table, and the place of the line
/// after them. The table is announced by a line that holds the number of its
/// rows; a table of no rows is followed by one line that is passed over.
pub open spec fn rates_of(lines: Seq<Seq<char>>, first: int) -> ParseResult<
    (Seq<char>, Seq<SamplingRateView>, int),
> {
    if first >= lines.len() {
        Err(early_end(first))
    } else if real_of(lines[first]) is None {
        Err(not_a_number(Subject::LineFrequency, line_number(first), 0))
    } else if first + 1 >= lines.len() {
        Err(early_end(first + 1))
    } else if fields_of(lines[first + 1]).len() != 1 {
        Err(malformed(Subject::RateCount, line_number(first + 1), 0))
    } else {
        match u32_of(fields_of(lines[first + 1])[0]) {
            None => Err(not_a_number(Subject::RateCount, line_number(first + 1), 0)),
            Some(count) => match sampling_rates_of(lines, first + 2, count as nat) {
                Err(e) => Err(e),
                Ok(rates) => if count > 0 {
                    Ok((real_of(lines[first])->0, rates, first + 2 + count))
                } else if first + 2 >= lines.len() {
                    Err(early_end(first + 2))
                } else {
                    Ok((real_of(lines[first])->0, rates, first + 3))
                },
            },
        }
    }
}

/// Reads the line frequency and the sampling-rate table from the line at
/// `first`, and says where the next line stands.
pub fn read_rates(lines: &Vec<Vec<char>>, first: usize) -> (r: ParseResult<
    (Real, Vec<SamplingRate>, usize),
>)
    ensures
        match r {
            Ok((frequency, rates, next)) => rates_of(views(lines@), first as int) == Ok::<
                _,
                ParseError,
            >((frequency@, views(rates@), next as int)) && next <= lines@.len() && frequency.wf()
                && forall|i: int| 0 <= i < rates@.len() ==> (#[trigger] rates@[i]).rate_hz.wf(),
            Err(e) => rates_of(views(lines@), first as int) == Err::<
                (Seq<char>, Seq<SamplingRateView>, int),
                _,
            >(e),
        },
{
    let frequency = match line_at(lines, first) {
        Ok(line) => match read_real(line) {
            Some(x) => x,
            None => {
                return Err(
                    ParseError::new(
                        ErrorKind::InvalidNumber,
                        Subject::LineFrequency,
                        line_number_of(first),
                        0,
                    ),
                );
            },
        },
        Err(e) => {
            return Err(e);
        },
    };
    let total: usize = lines.len();
    let count_line = match line_at(lines, first + 1) {
        Ok(line) => line,
        Err(e) => {
            return Err(e);
        },
    };
    let fields = split_chars(count_line, ',');
    proof {
        lemma_field_views(fields@);
    }
    if fields.len() != 1 {
        return Err(
            ParseError::new(
                ErrorKind::MalformedLine,
                Subject::RateCount,
                line_number_of(first + 1),
                0,
            ),
        );
    }
    let count: u32 = match read_u32(fields[0].as_slice()) {
        Some(n) => n,
        None => {
            return Err(
                ParseError::new(
                    ErrorKind::InvalidNumber,
                    Subject::RateCount,
                    line_number_of(first + 1),
                    0,
                ),
            );
        },
    };
    let rates = match read_sampling_rates(lines, first + 2, count) {
        Ok(rates) => rates,
        Err(e) => {
            return Err(e);
        },
    };
    if count > 0 {
        Ok((frequency, rates, first + 2 + count as usize))
    } else {
        match line_at(lines, first + 2) {
            Ok(_) => Ok((frequency, rates, first + 3)),
            Err(e) => Err(e),
        }
    }
}

/// What the lines after the sampling-rate table hold.
pub struct Closing {
    pub start_time: DateTime,
    pub trigger_time: DateTime,
    pub timestamp_unit: TimeUnit,
    pub data_format: DataFormat,
    pub timestamp_multiplication_factor: Real,
    pub time_offset: Option<UtcOffset>,
    pub local_offset: Option<UtcOffset>,
    pub time_quality: Option<TimeQuality>,
    pub leap_second_status: Option<LeapSecondStatus>,
}

/// The closing lines' content, with the factor as its literal.
pub struct ClosingView {
    pub start_time: DateTime,
    pub trigger_time: DateTime,
    pub timestamp_unit: TimeUnit,
    pub data_format: DataFormat,
    pub timestamp_multiplication_factor: Seq<char>,
    pub time_offset: Option<UtcOffset>,
    pub local_offset: Option<UtcOffset>,
    pub time_quality: Option<TimeQuality>,
    pub leap_second_status: Option<LeapSecondStatus>,
}

impl View for Closing {
    type V = ClosingView;

    open spec fn view(&self) -> ClosingView {
        ClosingView {
            start_time: self.start_time,
            trigger_time: self.trigger_time,
            timestamp_unit: self.timestamp_unit,
            data_format: self.data_format,
            timestamp_multiplication_factor: self.timestamp_multiplication_factor@,
            time_offset: self.time_offset,
            local_offset: self.local_offset,
            time_quality: self.time_quality,
            leap_second_status: self.leap_second_status,
        }
    }
}

impl ClosingView {
    pub open spec fn wf(&self) -> bool {
        &&& is_real_literal(self.timestamp_multiplication_factor)
        &&& (self.time_offset matches Some(o) ==> o.wf())
        &&& (self.local_offset matches Some(o) ==> o.wf())
    }
}

/// What the two lines that only a configuration of 2013 has hold: the two
/// offsets from UTC, then the codes of the time quality and the leap second.
pub open spec fn newest_fields_of(lines: Seq<Seq<char>>, first: int) -> ParseResult<
    (Option<UtcOffset>, Option<UtcOffset>, TimeQuality, LeapSecondStatus),
> {
    let offsets = fields_of(lines[first]);
    let codes = fields_of(lines[first + 1]);
    if first >= lines.len() {
        Err(early_end(first))
    } else if offsets.len() != 2 {
        Err(malformed(Subject::TimeOffsets, line_number(first), 0))
    } else if let Err(e) = time_offset_of(offsets[0]) {
        Err(ParseError::at(e.kind, Subject::TimeOffset, line_number(first), 0))
    } else if let Err(e) = time_offset_of(offsets[1]) {
        Err(ParseError::at(e.kind, Subject::LocalOffset, line_number(first), 0))
    } else if first + 1 >= lines.len() {
        Err(early_end(first + 1))
    } else if codes.len() != 2 {
        Err(malformed(Subject::TimeCodes, line_number(first + 1), 0))
    } else if TimeQuality::of(codes[0]) is None {
        Err(not_a_token(Subject::TimeQuality, line_number(first + 1), 0))
    } else if LeapSecondStatus::of(codes[1]) is None {
        Err(not_a_token(Subject::LeapSecond, line_number(first + 1), 0))
    } else {
        Ok(
            (
                time_offset_of(offsets[0])->Ok_0,
                time_offset_of(offsets[1])->Ok_0,
                TimeQuality::of(codes[0])->0,
                LeapSecondStatus::of(codes[1])->0,
            ),
        )
    }
}

/// Reads the two lines that only a configuration of 2013 has, from the
/// line at `first`.
pub fn read_newest_fields(lines: &Vec<Vec<char>>, first: usize) -> (r: ParseResult<
    (Option<UtcOffset>, Option<UtcOffset>, TimeQuality, LeapSecondStatus),
>)
    ensures
        r == newest_fields_of(views(lines@), first as int),
        r matches Ok(f) ==> (f.0 matches Some(o) ==> o.wf()) && (f.1 matches Some(o) ==> o.wf()),
{
    let total: usize = lines.len();
    let offsets_line = match line_at(lines, first) {
        Ok(line) => line,
        Err(e) => {
            return Err(e);
        },
    };
    let offsets = split_chars(offsets_line, ',');
    proof {
        lemma_field_views(offsets@);
    }
    if offsets.len() != 2 {
        return Err(
            ParseError::new(
                ErrorKind::MalformedLine,
                Subject::TimeOffsets,
                line_number_of(first),
                0,
            ),
        );
    }
    let time_offset = match time_offset_from_chars(offsets[0].as_slice()) {
        Ok(o) => o,
        Err(e) => {
            return Err(ParseError::new(e.kind, Subject::TimeOffset, line_number_of(first), 0));
        },
    };
    let local_offset = match time_offset_from_chars(offsets[1].as_slice()) {
        Ok(o) => o,
        Err(e) => {
            return Err(ParseError::new(e.kind, Subject::LocalOffset, line_number_of(first), 0));
        },
    };
    let codes_line = match line_at(lines, first + 1) {
        Ok(line) => line,
        Err(e) => {
            return Err(e);
        },
    };
    let codes = split_chars(codes_line, ',');
    proof {
        lemma_field_views(codes@);
    }
    if codes.len() != 2 {
        return Err(
            ParseError::new(
                ErrorKind::MalformedLine,
                Subject::TimeCodes,
                line_number_of(first + 1),
                0,
            ),
        );
    }
    let quality = match TimeQuality::from_chars(codes[0].as_slice()) {
        Some(q) => q,
        None => {
            return Err(
                ParseError::new(
                    ErrorKind::InvalidToken,
                    Subject::TimeQuality,
                    line_number_of(first + 1),
                    0,
                ),
            );
        },
    };
    let leap = match LeapSecondStatus::from_chars(codes[1].as_slice()) {
        Some(l) => l,
        None => {
            return Err(
                ParseError::new(
                    ErrorKind::InvalidToken,
                    Subject::LeapSecond,
                    line_number_of(first + 1),
                    0,
                ),
            );
        },
    };
    Ok((time_offset, local_offset, quality, leap))
}

/// What the lines after the sampling-rate table hold: the stamps of the
/// first sample and of the trigger, whose finer precision gives the unit of
/// the data's time stamps, and the data encoding. A configuration of 1991
/// ends there, with a time stamp multiplication factor of 1. Later ones go
/// on with that factor, and a configuration of 2013 with its own two lines.
pub open spec fn closing_of(lines: Seq<Seq<char>>, first: int, revision: FormatRevision)
    -> ParseResult<ClosingView> {
    let start = stamp_of(lines[first], revision);
    let trigger = stamp_of(lines[first + 1], revision);
    let format = DataFormat::of(lines[first + 2]);
    let factor = real_of(lines[first + 3]);
    let newest = newest_fields_of(lines, first + 4);
    if first >= lines.len() {
        Err(early_end(first))
    } else if start is None {
        Err(not_a_number(Subject::StartTime, line_number(first), 0))
    } else if first + 1 >= lines.len() {
        Err(early_end(first + 1))
    } else if trigger is None {
        Err(not_a_number(Subject::TriggerTime, line_number(first + 1), 0))
    } else if first + 2 >= lines.len() {
        Err(early_end(first + 2))
    } else if format is None {
        Err(not_a_token(Subject::DataFormat, line_number(first + 2), 0))
    } else {
        let oldest = ClosingView {
            start_time: start.unwrap().0,
            trigger_time: trigger.unwrap().0,
            timestamp_unit: finer(start.unwrap().1, trigger.unwrap().1),
            data_format: format->0,
            timestamp_multiplication_factor: "1"@,
            time_offset: None,
            local_offset: None,
            time_quality: None,
            leap_second_status: None,
        };
        if revision == FormatRevision::Revision1991 {
            Ok(oldest)
        } else if first + 3 >= lines.len() {
            Err(early_end(first + 3))
        } else if factor is None {
            Err(not_a_number(Subject::TimeFactor, line_number(first + 3), 0))
        } else if revision == FormatRevision::Revision1999 {
            Ok(ClosingView { timestamp_multiplication_factor: factor->0, ..oldest })
        } else {
            match newest {
                Err(e) => Err(e),
                Ok(fields) => Ok(
                    ClosingView {
                        timestamp_multiplication_factor: factor->0,
                        time_offset: fields.0,
                        local_offset: fields.1,
                        time_quality: Some(fields.2),
                        leap_second_status: Some(fields.3),
                        ..oldest
                    },
                ),
            }
        }
    }
}

/// Reads the lines after the sampling-rate table, from the line at
/// `first`, as the revision asks.
pub fn read_closing(lines: &Vec<Vec<char>>, first: usize, revision: FormatRevision) -> (r:
    ParseResult<Closing>)
    ensures
        decoded(r, closing_of(views(lines@), first as int, revision)),
        r matches Ok(c) ==> c@.wf(),
{
    let total: usize = lines.len();
    let (start_time, start_unit) = match line_at(lines, first) {
        Ok(line) => match read_stamp(line, revision) {
            Some(s) => s,
            None => {
                return Err(
                    ParseError::new(
                        ErrorKind::InvalidNumber,
                        Subject::StartTime,
                        line_number_of(first),
                        0,
                    ),
                );
            },
        },
        Err(e) => {
            return Err(e);
        },
    };
    let (trigger_time, trigger_unit) = match line_at(lines, first + 1) {
        Ok(line) => match read_stamp(line, revision) {
            Some(s) => s,
            None => {
                return Err(
                    ParseError::new(
                        ErrorKind::InvalidNumber,
                        Subject::TriggerTime,
                        line_number_of(first + 1),
                        0,
                    ),
                );
            },
        },
        Err(e) => {
            return Err(e);
        },
    };
    let timestamp_unit = match (start_unit, trigger_unit) {
        (TimeUnit::Microsecond, TimeUnit::Microsecond) => TimeUnit::Microsecond,
        _ => TimeUnit::Nanosecond,
    };
    let data_format = match line_at(lines, first + 2) {
        Ok(line) => match DataFormat::from_chars(line) {
            Some(f) => f,
            None => {
                return Err(
                    ParseError::new(
                        ErrorKind::InvalidToken,
                        Subject::DataFormat,
                        line_number_of(first + 2),
                        0,
                    ),
                );
            },
        },
        Err(e) => {
            return Err(e);
        },
    };
    let mut closing = Closing {
        start_time,
        trigger_time,
        timestamp_unit,
        data_format,
        timestamp_multiplication_factor: Real::one(),
        time_offset: None,
        local_offset: None,
        time_quality: None,
        leap_second_status: None,
    };
    if let FormatRevision::Revision1991 = revision {
        return Ok(closing);
    }
    closing.timestamp_multiplication_factor = match line_at(lines, first + 3) {
        Ok(line) => match read_real(line) {
            Some(x) => x,
            None => {
                return Err(
                    ParseError::new(
                        ErrorKind::InvalidNumber,
                        Subject::TimeFactor,
                        line_number_of(first + 3),
                        0,
                    ),
                );
            },
        },
        Err(e) => {
            return Err(e);
        },
    };
    if let FormatRevision::Revision1999 = revision {
        return Ok(closing);
    }
    match read_newest_fields(lines, first + 4) {
        Ok(fields) => {
            closing.time_offset = fields.0;
            closing.local_offset = fields.1;
            closing.time_quality = Some(fields.2);
            closing.leap_second_status = Some(fields.3);
            Ok(closing)
        },
        Err(e) => Err(e),
    }
}

/// The record that a configuration describes, before any sample is read.
///
/// The text is cut into lines at each line feed and read in the order of
/// the schema: the station line, the channel counts, the analog channel
/// rows, the status channel rows, the line frequency and the sampling-rate
/// table, and the closing lines that the revision asks for. The first line
/// that breaks the schema gives the error, with its number.
pub open spec fn config_of(text: Seq<char>) -> ParseResult<ComtradeView> {
    let lines = split(text, '\n');
    match station_of(lines[0]) {
        Err(e) => Err(e),
        Ok((station_name, recording_device_id, revision)) => if lines.len() < 2 {
            Err(early_end(1))
        } else {
            match counts_of(lines[1]) {
                Err(e) => Err(e),
                Ok((total, analog, status)) => match analog_channels_of(lines, 2, analog as nat) {
                    Err(e) => Err(e),
                    Ok(analog_channels) => match status_channels_of(
                        lines,
                        2 + analog,
                        status as nat,
                    ) {
                        Err(e) => Err(e),
                        Ok(status_channels) => match rates_of(lines, 2 + analog + status) {
                            Err(e) => Err(e),
                            Ok((line_frequency, sampling_rates, next)) => match closing_of(
                                lines,
                                next,
                                revision,
                            ) {
                                Err(e) => Err(e),
                                Ok(closing) => Ok(
                                    ComtradeView {
                                        station_name,
                                        recording_device_id,
                                        revision,
                                        num_total_channels: total,
                                        num_analog_channels: analog,
                                        num_status_channels: status,
                                        sample_numbers: Seq::empty(),
                                        timestamps: Seq::empty(),
                                        analog_channels,
                                        status_channels,
                                        line_frequency,
                                        sampling_rates,
                                        start_time: closing.start_time,
                                        trigger_time: closing.trigger_time,
                                        data_format: closing.data_format,
                                        timestamp_unit: closing.timestamp_unit,
                                        timestamp_multiplication_factor:
                                            closing.timestamp_multiplication_factor,
                                        time_offset: closing.time_offset,
                                        local_offset: closing.local_offset,
                                        time_quality: closing.time_quality,
                                        leap_second_status: closing.leap_second_status,
                                    },
                                ),
                            },
                        },
                    },
                },
            }
        },
    }
}

/// Reads a configuration into a record that holds no samples yet.
///
/// The record is the one that the grammar gives for the text, and the error
/// is the grammar's. A record that is returned holds as many analog and
/// status channels as the configuration counts, and keeps the record's
/// invariant.
pub fn parse_cfg(text: &[char]) -> (r: ParseResult<Comtrade>)
    ensures
        decoded(r, config_of(text@)),
        r matches Ok(record) ==> {
            &&& record.wf()
            &&& record.analog_channels@.len() == record.num_analog_channels
            &&& record.status_channels@.len() == record.num_status_channels
            &&& record.sample_numbers@.len() == 0
        },
{
    let lines = split_chars(text, '\n');
    proof {
        lemma_split_nonempty(text@, '\n');
        lemma_field_views(lines@);
    }
    let (station_name, recording_device_id, revision) = match read_station(lines[0].as_slice()) {
        Ok(station) => station,
        Err(e) => {
            return Err(e);
        },
    };
    let (total, analog, status) = match line_at(&lines, 1) {
        Ok(line) => match read_counts(line) {
            Ok(counts) => counts,
            Err(e) => {
                return Err(e);
            },
        },
        Err(e) => {
            return Err(e);
        },
    };
    let analog_channels = match read_analog_channels(&lines, 2, analog) {
        Ok(channels) => channels,
        Err(e) => {
            return Err(e);
        },
    };
    let status_channels = match read_status_channels(&lines, 2 + analog as usize, status) {
        Ok(channels) => channels,
        Err(e) => {
            return Err(e);
        },
    };
    let (line_frequency, sampling_rates, next) = match read_rates(
        &lines,
        2 + analog as usize + status as usize,
    ) {
        Ok(rates) => rates,
        Err(e) => {
            return Err(e);
        },
    };
    let closing = match read_closing(&lines, next, revision) {
        Ok(closing) => closing,
        Err(e) => {
            return Err(e);
        },
    };
    let record = Comtrade {
        station_name,
        recording_device_id,
        revision,
        num_total_channels: total,
        num_analog_channels: analog,
        num_status_channels: status,
        sample_numbers: Vec::new(),
        timestamps: Vec::new(),
        analog_channels,
        status_channels,
        line_frequency,
        sampling_rates,
        start_time: closing.start_time,
        trigger_time: closing.trigger_time,
        data_format: closing.data_format,
        timestamp_unit: closing.timestamp_unit,
        timestamp_multiplication_factor: closing.timestamp_multiplication_factor,
        time_offset: closing.time_offset,
        local_offset: closing.local_offset,
        time_quality: closing.time_quality,
        leap_second_status: closing.leap_second_status,
    };
    proof {
        assert(record@.sample_numbers =~= Seq::empty());
        assert(record@.timestamps =~= Seq::empty());
        let view = record@;
        assert forall|i: int| 0 <= i < view.analog_channels.len() implies {
            &&& (#[trigger] view.analog_channels[i]).wf()
            &&& view.analog_channels[i].data.len() == view.sample_numbers.len()
        } by {
            assert(view.analog_channels[i] == record.analog_channels@[i]@);
        }
        assert forall|i: int, j: int| 0 <= i < j < view.analog_channels.len() implies (
        #[trigger] view.analog_channels[i]).index < (#[trigger] view.analog_channels[j]).index by {
            assert(view.analog_channels[i] == record.analog_channels@[i]@);
            assert(view.analog_channels[j] == record.analog_channels@[j]@);
        }
        assert forall|i: int| 0 <= i < view.status_channels.len() implies {
            &&& (#[trigger] view.status_channels[i]).wf()
            &&& view.status_channels[i].data.len() == view.sample_numbers.len()
        } by {
            assert(view.status_channels[i] == record.status_channels@[i]@);
        }
        assert forall|i: int| 0 <= i < view.sampling_rates.len() implies is_real_literal(
            (#[trigger] view.sampling_rates[i]).rate_hz,
        ) by {
            assert(view.sampling_rates[i] == record.sampling_rates@[i]@);
        }
    }
    Ok(record)
}

/// A record that a configuration describes holds as many analog channels
/// and as many status channels as the configuration counts, and the two
/// counts add up to the total.
pub proof fn lemma_config_counts(text: Seq<char>)
    ensures
        config_of(text) matches Ok(record) ==> {
            &&& record.analog_channels.len() == record.num_analog_channels
            &&& record.status_channels.len() == record.num_status_channels
            &&& record.num_analog_channels + record.num_status_channels
                == record.num_total_channels
            &&& record.sample_numbers.len() == 0
        },
{
    let lines = split(text, '\n');
    if let Ok(record) = config_of(text) {
        lemma_rows_len(
            lines,
            2,
            record.num_analog_channels as nat,
            |l: Seq<char>, n: u64, p: u32| analog_row_of(l, n, p),
        );
        lemma_rows_len(
            lines,
            2 + record.num_analog_channels,
            record.num_status_channels as nat,
            |l: Seq<char>, n: u64, p: u32| status_row_of(l, n, p),
        );
    }
}

/// An analog channel row that does not hold thirteen fields, after a
/// station line, a line of channel counts and earlier rows that are in
/// order, makes the configuration malformed at the line of that row, for
/// the channel of that row.
pub proof fn lemma_short_analog_row(text: Seq<char>, place: nat)
    requires
        station_of(split(text, '\n')[0]) is Ok,
        split(text, '\n').len() > 2 + place,
        counts_of(split(text, '\n')[1]) matches Ok(counts) && place < counts.1,
        rows_of(
            split(text, '\n'),
            2,
            place,
            |l: Seq<char>, n: u64, p: u32| analog_row_of(l, n, p),
        ) is Ok,
        fields_of(split(text, '\n')[2 + place as int]).len() != 13,
    ensures
        config_of(text) == Err::<ComtradeView, _>(
            malformed(Subject::AnalogChannel, line_number(2 + place as int), (place + 1) as u32),
        ),
{
    let lines = split(text, '\n');
    let row = |l: Seq<char>, n: u64, p: u32| analog_row_of(l, n, p);
    let analog = counts_of(lines[1])->Ok_0.1;
    assert(rows_of(lines, 2, place + 1, row) is Err);
    lemma_rows_error_stays(lines, 2, place + 1, analog as nat, row);
}

/// A configuration of 1991 ends with the line of the data encoding: what
/// its closing lines hold does not depend on any line after that one, the
/// time stamp multiplication factor is one, and the record has no offsets
/// from UTC, no time quality and no leap second state.
pub proof fn lemma_oldest_revision_closes_early(lines: Seq<Seq<char>>, first: int)
    requires
        0 <= first,
        first + 3 <= lines.len(),
    ensures
        closing_of(lines.take(first + 3), first, FormatRevision::Revision1991) == closing_of(
            lines,
            first,
            FormatRevision::Revision1991,
        ),
        closing_of(lines, first, FormatRevision::Revision1991) matches Ok(closing) ==> {
            &&& closing.timestamp_multiplication_factor == "1"@
            &&& closing.time_offset is None
            &&& closing.local_offset is None
            &&& closing.time_quality is None
            &&& closing.leap_second_status is None
        },
{
}

/// A record of the revision of 1991 has a time stamp multiplication factor
/// of one, and no offsets from UTC, no time quality and no leap second
/// state; a record of 1999 has none of the last four.
pub proof fn lemma_revision_gates(text: Seq<char>)
    ensures
        config_of(text) matches Ok(record) ==> {
            &&& record.revision == FormatRevision::Revision1991
                ==> record.timestamp_multiplication_factor == "1"@
            &&& record.revision != FormatRevision::Revision2013 ==> {
                &&& record.time_offset is None
                &&& record.local_offset is None
                &&& record.time_quality is None
                &&& record.leap_second_status is None
            }
            &&& record.revision == FormatRevision::Revision2013 ==> {
                &&& record.time_quality is Some
                &&& record.leap_second_status is Some
            }
        },
{
}

} // verus!
