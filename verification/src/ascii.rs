//! The ASCII encoding of the data: one line for each sample, its fields
//! separated by commas.

use crate::config::{
    against_rule, fields_of, lemma_field_views, malformed, not_a_number, read_real, read_u32,
    real_of, u32_of,
};
use crate::error::{
    decoded, line_number, line_number_of, ErrorKind, ParseError, ParseResult, Subject,
};
use crate::record::{
    AnalogSample, AnalogSampleView, Comtrade, ComtradeView, SamplingRate, SamplingRateView,
};
use crate::sample::{append_sample, record_of, Sample, SampleView};
use crate::search::{first_place, gather, lemma_first_place_stays, lemma_gather_error_stays};
use crate::text::{parse_unsigned, split, split_chars, trim, trim_chars, unsigned_of, views};
use crate::timing::{elapsed_of, real_time};
use vstd::prelude::*;

verus! {

/// The status value that a field writes, whitespace around it ignored: 0 or
/// 1. Another number is a semantic error, and a field that writes no
/// number of eight bits holds an invalid number.
pub open spec fn status_value_of(field: Seq<char>) -> Result<u8, ErrorKind> {
    match unsigned_of(trim(field), u8::MAX as nat) {
        None => Err(ErrorKind::InvalidNumber),
        Some(value) => if value > 1 {
            Err(ErrorKind::Semantic)
        } else {
            Ok(value as u8)
        },
    }
}

/// The time stamp that a field writes: none where the field is blank.
pub open spec fn timestamp_of(field: Seq<char>) -> Option<u32> {
    if trim(field).len() == 0 {
        None
    } else {
        u32_of(field)
    }
}

/// Whether the field of the analog channel at `place` writes no real number.
pub open spec fn bad_analog_field(fields: Seq<Seq<char>>, place: int) -> bool {
    real_of(fields[2 + place]) is None
}

/// Whether the field of the status channel at `place` writes no status
/// value.
pub open spec fn bad_status_field(fields: Seq<Seq<char>>, analog: nat, place: int) -> bool {
    status_value_of(fields[2 + analog + place]) is Err
}

/// The sample that a line holds: the sample number, the time stamp, which
/// may be blank, then a real number for each analog channel and 0 or 1 for
/// each status channel. The first field in error gives the line's error,
/// with the line's number and, for a value, the channel's place.
pub open spec fn ascii_sample_of(
    line: Seq<char>,
    number: u64,
    analog: nat,
    status: nat,
    rates: Seq<SamplingRateView>,
) -> ParseResult<SampleView> {
    let fields = fields_of(line);
    let time = elapsed_of(rates, u32_of(fields[0])->0, timestamp_of(fields[1]));
    let bad_analog = first_place(analog, |j: int| bad_analog_field(fields, j));
    let bad_status = first_place(status, |j: int| bad_status_field(fields, analog, j));
    if fields.len() != analog + status + 2 {
        Err(malformed(Subject::Sample, number, 0))
    } else if u32_of(fields[0]) is None {
        Err(not_a_number(Subject::SampleNumber, number, 0))
    } else if trim(fields[1]).len() > 0 && u32_of(fields[1]) is None {
        Err(not_a_number(Subject::Timestamp, number, 0))
    } else if time is None {
        Err(against_rule(Subject::Timestamp, number, 0))
    } else if let Some(place) = bad_analog {
        Err(not_a_number(Subject::AnalogValue, number, (place + 1) as u32))
    } else if let Some(place) = bad_status {
        Err(
            ParseError::at(
                status_value_of(fields[2 + analog + place])->Err_0,
                Subject::StatusValue,
                number,
                (place + 1) as u32,
            ),
        )
    } else {
        Ok(
            SampleView {
                number: u32_of(fields[0])->0,
                time: time->0,
                analog: Seq::new(
                    analog,
                    |j: int| AnalogSampleView::Literal(real_of(fields[2 + j])->0),
                ),
                status: Seq::new(status, |j: int| status_value_of(fields[2 + analog + j])->Ok_0),
            },
        )
    }
}

/// What the line at `place` of ASCII data holds: no sample where the line
/// is blank, else the sample that the line writes.
pub open spec fn ascii_item(
    lines: Seq<Seq<char>>,
    analog: nat,
    status: nat,
    rates: Seq<SamplingRateView>,
    place: int,
) -> ParseResult<Option<SampleView>> {
    if trim(lines[place]).len() == 0 {
        Ok(None)
    } else {
        match ascii_sample_of(lines[place], line_number(place), analog, status, rates) {
            Ok(sample) => Ok(Some(sample)),
            Err(e) => Err(e),
        }
    }
}

/// The samples of ASCII data: those of its lines that are not blank, in
/// their order.
pub open spec fn ascii_samples_of(
    text: Seq<char>,
    analog: nat,
    status: nat,
    rates: Seq<SamplingRateView>,
) -> ParseResult<Seq<SampleView>> {
    let lines = split(text, '\n');
    gather(lines.len(), |i: int| ascii_item(lines, analog, status, rates, i))
}

/// The record that a configuration and its ASCII data make.
pub open spec fn ascii_data_of(config: ComtradeView, text: Seq<char>) -> ParseResult<ComtradeView> {
    match ascii_samples_of(
        text,
        config.num_analog_channels as nat,
        config.num_status_channels as nat,
        config.sampling_rates,
    ) {
        Ok(samples) => Ok(record_of(config, samples)),
        Err(e) => Err(e),
    }
}

/// Reads a status value: 0 or 1.
fn read_status_value(field: &[char]) -> (r: Result<u8, ErrorKind>)
    ensures
        r == status_value_of(field@),
{
    match parse_unsigned(trim_chars(field), 255) {
        None => Err(ErrorKind::InvalidNumber),
        Some(value) => if value > 1 {
            Err(ErrorKind::Semantic)
        } else {
            Ok(value as u8)
        },
    }
}

/// Decodes one line of ASCII data.
#[verifier::loop_isolation(false)]
pub fn read_ascii_sample(
    line: &[char],
    number: u64,
    analog: u32,
    status: u32,
    rates: &Vec<SamplingRate>,
) -> (r: ParseResult<Sample>)
    ensures
        decoded(r, ascii_sample_of(line@, number, analog as nat, status as nat, views(rates@))),
        r matches Ok(sample) ==> sample@.wf(analog as nat, status as nat, rates@.len()),
{
    let fields = split_chars(line, ',');
    let ghost all = views(fields@);
    proof {
        lemma_field_views(fields@);
    }
    if fields.len() as u64 != analog as u64 + status as u64 + 2 {
        return Err(ParseError::new(ErrorKind::MalformedLine, Subject::Sample, number, 0));
    }
    let sample_number: u32 = match read_u32(fields[0].as_slice()) {
        Some(n) => n,
        None => {
            return Err(ParseError::new(ErrorKind::InvalidNumber, Subject::SampleNumber, number, 0));
        },
    };
    let timestamp: Option<u32> = if trim_chars(fields[1].as_slice()).len() == 0 {
        None
    } else {
        match read_u32(fields[1].as_slice()) {
            Some(t) => Some(t),
            None => {
                return Err(
                    ParseError::new(ErrorKind::InvalidNumber, Subject::Timestamp, number, 0),
                );
            },
        }
    };
    let time = match real_time(rates, sample_number, timestamp) {
        Ok(time) => time,
        Err(e) => {
            return Err(ParseError::new(e.kind, e.subject, number, 0));
        },
    };
    let ghost bad_analog = |j: int| bad_analog_field(all, j);
    let mut values: Vec<AnalogSample> = Vec::new();
    let mut done: u32 = 0;
    while done < analog
        invariant
            done <= analog,
            all == views(fields@),
            fields@.len() == analog + status + 2,
            bad_analog == |j: int| bad_analog_field(all, j),
            first_place(done as nat, bad_analog) is None,
            values@.len() == done,
            forall|j: int|
                0 <= j < done ==> (#[trigger] values@[j])@ == AnalogSampleView::Literal(
                    real_of(all[2 + j])->0,
                ) && values@[j]@.wf(),
        decreases analog - done,
    {
        assert(all[2 + done] == fields@[2 + done]@);
        let value = match read_real(fields[2 + done as usize].as_slice()) {
            Some(x) => x,
            None => {
                proof {
                    assert(bad_analog(done as int));
                    assert(first_place((done + 1) as nat, bad_analog) == Some(done as int));
                    lemma_first_place_stays((done + 1) as nat, analog as nat, bad_analog);
                }
                return Err(
                    ParseError::new(
                        ErrorKind::InvalidNumber,
                        Subject::AnalogValue,
                        number,
                        done + 1,
                    ),
                );
            },
        };
        assert(!bad_analog(done as int));
        values.push(AnalogSample::Literal(value));
        done += 1;
    }
    let ghost bad_status = |j: int| bad_status_field(all, analog as nat, j);
    let mut states: Vec<u8> = Vec::new();
    let mut seen: u32 = 0;
    while seen < status
        invariant
            seen <= status,
            all == views(fields@),
            fields@.len() == analog + status + 2,
            bad_status == |j: int| bad_status_field(all, analog as nat, j),
            first_place(seen as nat, bad_status) is None,
            states@.len() == seen,
            forall|j: int|
                0 <= j < seen ==> #[trigger] states@[j] == status_value_of(
                    all[2 + analog + j],
                )->Ok_0 && states@[j] <= 1,
        decreases status - seen,
    {
        assert(all[2 + analog + seen] == fields@[2 + analog + seen]@);
        let state = match read_status_value(fields[2 + analog as usize + seen as usize].as_slice()) {
            Ok(state) => state,
            Err(kind) => {
                proof {
                    assert(bad_status(seen as int));
                    assert(first_place((seen + 1) as nat, bad_status) == Some(seen as int));
                    lemma_first_place_stays((seen + 1) as nat, status as nat, bad_status);
                }
                return Err(ParseError::new(kind, Subject::StatusValue, number, seen + 1));
            },
        };
        assert(!bad_status(seen as int));
        states.push(state);
        seen += 1;
    }
    let sample = Sample { number: sample_number, time, analog: values, status: states };
    proof {
        let expected = ascii_sample_of(
            line@,
            number,
            analog as nat,
            status as nat,
            views(rates@),
        );
        assert(sample@.analog =~= expected->Ok_0.analog);
        assert(sample@.status =~= expected->Ok_0.status);
    }
    Ok(sample)
}

/// Decodes ASCII data into the record of their configuration.
///
/// The record returned is the configuration's with the samples of the data
/// added, one for each line that is not blank. The first line in error
/// gives the error, with its number.
pub fn parse_dat_ascii(record: Comtrade, text: &[char]) -> (r: ParseResult<Comtrade>)
    requires
        record.wf(),
    ensures
        decoded(r, ascii_data_of(record@, text@)),
        r matches Ok(filled) ==> filled.wf(),
{
    let ghost config = record@;
    let mut filled = record;
    let analog: u32 = filled.num_analog_channels;
    let status: u32 = filled.num_status_channels;
    let lines = split_chars(text, '\n');
    let ghost all = views(lines@);
    let ghost item = |i: int|
        ascii_item(all, analog as nat, status as nat, config.sampling_rates, i);
    let ghost mut samples: Seq<SampleView> = Seq::empty();
    proof {
        lemma_field_views(lines@);
    }
    let mut place: usize = 0;
    while place < lines.len()
        invariant
            place <= lines@.len(),
            all == views(lines@),
            all == split(text@, '\n'),
            config == record@,
            filled.wf(),
            filled@ == record_of(config, samples),
            filled@.sampling_rates == config.sampling_rates,
            filled.num_analog_channels == analog,
            filled.num_status_channels == status,
            analog == config.num_analog_channels,
            status == config.num_status_channels,
            gather(place as nat, item) == Ok::<Seq<SampleView>, ParseError>(samples),
            item == |i: int|
                ascii_item(all, analog as nat, status as nat, config.sampling_rates, i),
        decreases lines.len() - place,
    {
        let line = lines[place].as_slice();
        assert(all[place as int] == line@);
        if trim_chars(line).len() > 0 {
            let sample = match read_ascii_sample(
                line,
                line_number_of(place),
                analog,
                status,
                &filled.sampling_rates,
            ) {
                Ok(sample) => sample,
                Err(e) => {
                    proof {
                        assert(item(place as int) == Err::<Option<SampleView>, _>(e));
                        assert(gather((place + 1) as nat, item) == Err::<Seq<SampleView>, _>(e));
                        lemma_gather_error_stays((place + 1) as nat, lines@.len(), item);
                    }
                    return Err(e);
                },
            };
            proof {
                assert(item(place as int) == Ok::<_, ParseError>(Some(sample@)));
                assert((samples.push(sample@)).drop_last() == samples);
                samples = samples.push(sample@);
            }
            append_sample(&mut filled, sample);
        } else {
            assert(item(place as int) == Ok::<Option<SampleView>, ParseError>(None));
        }
        place += 1;
    }
    Ok(filled)
}

} // verus!
