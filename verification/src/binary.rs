//! The three binary encodings of the data: records of a fixed size, each a
//! sample number, a time stamp, one value for each analog channel and the
//! status channels packed sixteen to a group.

use crate::error::{decoded, ErrorKind, ParseError, ParseResult, Subject};
use crate::record::{
    total_samples, AnalogSample, AnalogSampleView, Comtrade, ComtradeView, DataFormat,
    SamplingRate, SamplingRateView,
};
use crate::sample::{append_sample, lemma_record_sample_count, record_of, Sample, SampleView};
use crate::search::{gather, lemma_gather_error_stays, lemma_gather_len};
use crate::text::views;
use crate::timing::{elapsed_of, real_time, total_sample_count};
use crate::wire::{
    le_i16_of, le_i32_of, le_u16_of, le_u32_of, read_i16, read_i32, read_u16, read_u32,
};
use vstd::prelude::*;
use vstd::slice::slice_subrange;

verus! {

/// The time stamp that stands for none.
pub const TIMESTAMP_MISSING: u32 = 0xffff_ffff;

/// The value of a status channel in its group: the bit at the channel's
/// place, the lowest bit first.
pub open spec fn bit_of(group: u16, bit: u16) -> u8 {
    ((group >> bit) & 1u16) as u8
}

/// The status values that groups of sixteen hold, the first group first
/// and in each the lowest bit first, cut off after `count` values.
pub open spec fn unpacked(groups: Seq<u16>, count: nat) -> Seq<u8> {
    Seq::new(
        if count <= 16 * groups.len() {
            count
        } else {
            16 * groups.len()
        },
        |j: int| bit_of(groups[j / 16], (j % 16) as u16),
    )
}

/// Unpacks the status values of a sample from its groups, and keeps the
/// first `count` of them.
pub fn unpack_status(groups: &[u16], count: usize) -> (values: Vec<u8>)
    ensures
        values@ == unpacked(groups@, count as nat),
        forall|j: int| 0 <= j < values@.len() ==> #[trigger] values@[j] <= 1,
{
    let mut values: Vec<u8> = Vec::new();
    let mut place: usize = 0;
    while place < count && place / 16 < groups.len()
        invariant
            place <= count,
            place <= 16 * groups@.len(),
            values@.len() == place,
            forall|j: int|
                0 <= j < place ==> #[trigger] values@[j] == bit_of(groups@[j / 16], (j % 16) as u16),
            forall|j: int| 0 <= j < place ==> #[trigger] values@[j] <= 1,
        decreases count - place,
    {
        let group: u16 = groups[place / 16];
        let bit: u16 = (place % 16) as u16;
        let value: u16 = (group >> bit) & 1;
        assert(value <= 1) by (bit_vector)
            requires
                value == (group >> bit) & 1u16,
        ;
        values.push(value as u8);
        place += 1;
    }
    assert(values@ =~= unpacked(groups@, count as nat));
    values
}

/// The number of bytes that an analog value takes.
pub open spec fn analog_width(format: DataFormat) -> nat {
    if format == DataFormat::Binary16 {
        2
    } else {
        4
    }
}

/// The number of groups that hold so many status channels.
pub open spec fn group_count(status: nat) -> nat {
    (status + 15) / 16
}

/// The number of bytes of a record.
pub open spec fn record_size(format: DataFormat, analog: nat, status: nat) -> nat {
    8 + analog * analog_width(format) + 2 * group_count(status)
}

/// The analog value that the bytes of its field hold: a signed integer of
/// 16 or 32 bits, or the bits of a 32-bit floating-point number.
pub open spec fn binary_value_of(bytes: Seq<u8>, format: DataFormat) -> AnalogSampleView {
    match format {
        DataFormat::Binary16 => AnalogSampleView::Integer(le_i16_of(bytes) as i32),
        DataFormat::Binary32 => AnalogSampleView::Integer(le_i32_of(bytes)),
        _ => AnalogSampleView::FloatBits(le_u32_of(bytes)),
    }
}

/// The groups of status values that a record holds after its analog
/// values.
pub open spec fn groups_of(record: Seq<u8>, format: DataFormat, analog: nat, status: nat) -> Seq<
    u16,
> {
    let base = 8 + analog * analog_width(format);
    Seq::new(group_count(status), |g: int| le_u16_of(record.subrange(base + 2 * g, base + 2 * g + 2)))
}

/// The sample that a record holds, all integers little-endian: the sample
/// number in four bytes, the time stamp in four bytes, where `0xFFFFFFFF`
/// stands for none, the analog values, and the status groups. The record
/// is told its place in the data, counted from 1, for the error of a
/// sample that needs a time stamp and has none.
pub open spec fn binary_sample_of(
    record: Seq<u8>,
    format: DataFormat,
    analog: nat,
    status: nat,
    rates: Seq<SamplingRateView>,
    place: u64,
) -> ParseResult<SampleView> {
    let number = le_u32_of(record.subrange(0, 4));
    let stamp = le_u32_of(record.subrange(4, 8));
    let timestamp = if stamp == TIMESTAMP_MISSING {
        None
    } else {
        Some(stamp)
    };
    let width = analog_width(format) as int;
    match elapsed_of(rates, number, timestamp) {
        None => Err(ParseError::at(ErrorKind::Semantic, Subject::Timestamp, place, 0)),
        Some(time) => Ok(
            SampleView {
                number,
                time,
                analog: Seq::new(
                    analog,
                    |j: int|
                        binary_value_of(record.subrange(8 + j * width, 8 + j * width + width), format),
                ),
                status: unpacked(groups_of(record, format, analog, status), status),
            },
        ),
    }
}

/// The error of data that end within the record at `place`, counted from 1.
pub open spec fn truncated(place: u64) -> ParseError {
    ParseError::at(ErrorKind::Structure, Subject::Sample, place, 0)
}

/// What binary data hold at the place `k`, counted from 0: the sample of
/// the record that stands there, or the error of data that end within it.
pub open spec fn binary_item(
    data: Seq<u8>,
    format: DataFormat,
    analog: nat,
    status: nat,
    rates: Seq<SamplingRateView>,
    k: int,
) -> ParseResult<Option<SampleView>> {
    let size = record_size(format, analog, status) as int;
    if (k + 1) * size > data.len() {
        Err(truncated((k + 1) as u64))
    } else {
        match binary_sample_of(
            data.subrange(k * size, (k + 1) * size),
            format,
            analog,
            status,
            rates,
            (k + 1) as u64,
        ) {
            Ok(sample) => Ok(Some(sample)),
            Err(e) => Err(e),
        }
    }
}

/// The samples of binary data: as many records as the sampling-rate table
/// announces, one after the other from the first byte. Bytes after the last
/// record are not read.
pub open spec fn binary_samples_of(
    data: Seq<u8>,
    format: DataFormat,
    analog: nat,
    status: nat,
    rates: Seq<SamplingRateView>,
) -> ParseResult<Seq<SampleView>> {
    gather(
        total_samples(rates) as nat,
        |k: int| binary_item(data, format, analog, status, rates, k),
    )
}

/// The record that a configuration and its binary data make.
pub open spec fn binary_data_of(config: ComtradeView, data: Seq<u8>) -> ParseResult<ComtradeView> {
    match binary_samples_of(
        data,
        config.data_format,
        config.num_analog_channels as nat,
        config.num_status_channels as nat,
        config.sampling_rates,
    ) {
        Ok(samples) => Ok(record_of(config, samples)),
        Err(e) => Err(e),
    }
}

/// Binary data that are decoded give as many samples as the sampling-rate
/// table of their configuration announces.
pub proof fn lemma_binary_sample_count(config: ComtradeView, data: Seq<u8>)
    requires
        config.sample_numbers.len() == 0,
    ensures
        binary_data_of(config, data) matches Ok(record) ==> record.sample_numbers.len()
            == total_samples(config.sampling_rates),
{
    let item = |k: int|
        binary_item(
            data,
            config.data_format,
            config.num_analog_channels as nat,
            config.num_status_channels as nat,
            config.sampling_rates,
            k,
        );
    lemma_gather_len(total_samples(config.sampling_rates) as nat, item);
    if let Ok(samples) = gather(total_samples(config.sampling_rates) as nat, item) {
        lemma_record_sample_count(config, samples);
    }
}

/// The number of bytes of a record.
pub fn binary_record_size(format: DataFormat, analog: u32, status: u32) -> (size: u64)
    ensures
        size == record_size(format, analog as nat, status as nat),
{
    let groups: u64 = (status as u64 + 15) / 16;
    match format {
        DataFormat::Binary16 => 8 + analog as u64 * 2 + 2 * groups,
        _ => 8 + analog as u64 * 4 + 2 * groups,
    }
}

/// Decodes one record of binary data.
pub fn read_binary_sample(
    record: &[u8],
    format: DataFormat,
    analog: u32,
    status: u32,
    rates: &Vec<SamplingRate>,
    place: u64,
) -> (r: ParseResult<Sample>)
    requires
        record@.len() == record_size(format, analog as nat, status as nat),
    ensures
        decoded(
            r,
            binary_sample_of(record@, format, analog as nat, status as nat, views(rates@), place),
        ),
        r matches Ok(sample) ==> sample@.wf(analog as nat, status as nat, rates@.len()),
{
    let number: u32 = read_u32(slice_subrange(record, 0, 4));
    let stamp: u32 = read_u32(slice_subrange(record, 4, 8));
    let timestamp: Option<u32> = if stamp == TIMESTAMP_MISSING {
        None
    } else {
        Some(stamp)
    };
    let time = match real_time(rates, number, timestamp) {
        Ok(time) => time,
        Err(e) => {
            return Err(ParseError::new(e.kind, e.subject, place, 0));
        },
    };
    let width: usize = match format {
        DataFormat::Binary16 => 2,
        _ => 4,
    };
    let ghost wide = width as int;
    let ghost groups_total = group_count(status as nat) as int;
    let length: usize = record.len();
    let mut values: Vec<AnalogSample> = Vec::new();
    let mut done: u32 = 0;
    let mut at: usize = 8;
    while done < analog
        invariant
            done <= analog,
            wide == width,
            wide == analog_width(format),
            at == 8 + done * wide,
            length == record@.len(),
            record@.len() == 8 + analog * wide + 2 * groups_total,
            groups_total >= 0,
            values@.len() == done,
            forall|j: int|
                0 <= j < done ==> (#[trigger] values@[j])@ == binary_value_of(
                    record@.subrange(8 + j * wide, 8 + j * wide + wide),
                    format,
                ),
        decreases analog - done,
    {
        proof {
            assert((done + 1) * wide == done * wide + wide) by (nonlinear_arith);
            assert((done + 1) * wide <= analog * wide) by (nonlinear_arith)
                requires
                    done + 1 <= analog,
                    wide >= 0,
            ;
        }
        let bytes = slice_subrange(record, at, at + width);
        let value = match format {
            DataFormat::Binary16 => AnalogSample::Integer(read_i16(bytes) as i32),
            DataFormat::Binary32 => AnalogSample::Integer(read_i32(bytes)),
            _ => AnalogSample::FloatBits(read_u32(bytes)),
        };
        values.push(value);
        done += 1;
        at += width;
    }
    let group_total: u32 = ((status as u64 + 15) / 16) as u32;
    let ghost base = at as int;
    let mut groups: Vec<u16> = Vec::new();
    let mut group: u32 = 0;
    while group < group_total
        invariant
            group <= group_total,
            group_total == groups_total,
            base == 8 + analog * analog_width(format),
            at == base + 2 * group,
            length == record@.len(),
            record@.len() == base + 2 * groups_total,
            groups@.len() == group,
            forall|g: int|
                0 <= g < group ==> #[trigger] groups@[g] == le_u16_of(
                    record@.subrange(base + 2 * g, base + 2 * g + 2),
                ),
        decreases group_total - group,
    {
        groups.push(read_u16(slice_subrange(record, at, at + 2)));
        group += 1;
        at += 2;
    }
    assert(groups@ =~= groups_of(record@, format, analog as nat, status as nat));
    let states = unpack_status(groups.as_slice(), status as usize);
    let sample = Sample { number, time, analog: values, status: states };
    proof {
        let expected = binary_sample_of(
            record@,
            format,
            analog as nat,
            status as nat,
            views(rates@),
            place,
        );
        assert(sample@.analog =~= expected->Ok_0.analog);
    }
    Ok(sample)
}

/// Decodes binary data into the record of their configuration.
///
/// The record returned is the configuration's with the samples of the data
/// added. Data that end before the last record that the sampling-rate table
/// announces are in error at the record that is cut short.
pub fn parse_dat_binary(record: Comtrade, data: &[u8]) -> (r: ParseResult<Comtrade>)
    requires
        record.wf(),
    ensures
        decoded(r, binary_data_of(record@, data@)),
        r matches Ok(filled) ==> filled.wf(),
{
    let ghost config = record@;
    let mut filled = record;
    let format = filled.data_format;
    let analog: u32 = filled.num_analog_channels;
    let status: u32 = filled.num_status_channels;
    let size: u64 = binary_record_size(format, analog, status);
    let total: u32 = total_sample_count(&filled.sampling_rates);
    let ghost wide = size as int;
    let ghost item = |k: int|
        binary_item(data@, format, analog as nat, status as nat, config.sampling_rates, k);
    let ghost mut samples: Seq<SampleView> = Seq::empty();
    let mut done: u32 = 0;
    let mut at: usize = 0;
    let length: usize = data.len();
    while done < total
        invariant
            done <= total,
            total == total_samples(config.sampling_rates),
            wide == size,
            wide == record_size(format, analog as nat, status as nat),
            at == done * wide,
            at <= data@.len(),
            length == data@.len(),
            config == record@,
            filled.wf(),
            filled@ == record_of(config, samples),
            format == config.data_format,
            analog == config.num_analog_channels,
            status == config.num_status_channels,
            gather(done as nat, item) == Ok::<Seq<SampleView>, ParseError>(samples),
            item == |k: int|
                binary_item(data@, format, analog as nat, status as nat, config.sampling_rates, k),
            filled@.sampling_rates == config.sampling_rates,
            filled.num_analog_channels == analog,
            filled.num_status_channels == status,
        decreases total - done,
    {
        proof {
            assert((done + 1) * wide == done * wide + wide) by (nonlinear_arith);
        }
        let place: u64 = done as u64 + 1;
        if ((data.len() - at) as u64) < size {
            proof {
                assert(item(done as int) == Err::<Option<SampleView>, _>(truncated(place)));
                assert(gather((done + 1) as nat, item) == Err::<Seq<SampleView>, _>(
                    truncated(place),
                ));
                lemma_gather_error_stays((done + 1) as nat, total as nat, item);
            }
            return Err(ParseError::new(ErrorKind::Structure, Subject::Sample, place, 0));
        }
        let bytes = slice_subrange(data, at, at + size as usize);
        let sample = match read_binary_sample(
            bytes,
            format,
            analog,
            status,
            &filled.sampling_rates,
            place,
        ) {
            Ok(sample) => sample,
            Err(e) => {
                proof {
                    assert(item(done as int) == Err::<Option<SampleView>, _>(e));
                    assert(gather((done + 1) as nat, item) == Err::<Seq<SampleView>, _>(e));
                    lemma_gather_error_stays((done + 1) as nat, total as nat, item);
                }
                return Err(e);
            },
        };
        proof {
            assert(item(done as int) == Ok::<_, ParseError>(Some(sample@)));
            assert((samples.push(sample@)).drop_last() == samples);
            samples = samples.push(sample@);
        }
        append_sample(&mut filled, sample);
        done += 1;
        at += size as usize;
    }
    Ok(filled)
}

} // verus!
