//! The decoded record and the types of its parts.
//!
//! Real numbers are kept as they are written in the files, and analog
//! samples as they are stored: the record says which arithmetic gives the
//! engineering values and leaves the arithmetic to its user.

use crate::text::{
    chars_of, digit_run, is_decimal, is_digit, is_real, is_real_literal, string_of, unsigned_part,
    views,
};
use vstd::prelude::*;

verus! {

/// The section of a combined file.
#[derive(Debug, Clone, Copy, PartialEq, Eq, Structural)]
pub enum FileType {
    Cfg,
    Dat,
    Hdr,
    Inf,
}

/// The revision of the standard that a configuration follows.
#[derive(Debug, Clone, Copy, PartialEq, Eq, Structural)]
pub enum FormatRevision {
    Revision1991,
    Revision1999,
    Revision2013,
}

impl Default for FormatRevision {
    fn default() -> (r: Self)
        ensures
            r == FormatRevision::Revision1991,
    {
        FormatRevision::Revision1991
    }
}

/// The encoding of the samples in the data.
#[derive(Debug, Clone, Copy, PartialEq, Eq, Structural)]
pub enum DataFormat {
    Ascii,
    Binary16,
    Binary32,
    Float32,
}

impl Default for DataFormat {
    fn default() -> (r: Self)
        ensures
            r == DataFormat::Ascii,
    {
        DataFormat::Ascii
    }
}

/// Whether the values of an analog channel are primary or secondary
/// quantities.
#[derive(Debug, Clone, Copy, PartialEq, Eq, Structural)]
pub enum AnalogScalingMode {
    Primary,
    Secondary,
}

/// The state of the recording device's clock.
#[derive(Debug, Clone, Copy, PartialEq, Eq, Structural)]
pub enum TimeQuality {
    /// The clock is locked and in normal operation.
    ClockLocked,
    /// The clock is unlocked and reliable to ten to the given power, in
    /// seconds, from -9 (a nanosecond) to 1 (ten seconds).
    ClockUnlocked(i32),
    /// The clock has failed and its time is not reliable.
    ClockFailure,
}

/// What the time source says of leap seconds.
#[derive(Debug, Clone, Copy, PartialEq, Eq, Structural)]
pub enum LeapSecondStatus {
    /// The time source cannot tell whether a leap second is present.
    NoCapability,
    /// A leap second has been subtracted from the record.
    Subtracted,
    /// A leap second has been added to the record.
    Added,
    /// No leap second is present in the record.
    NotPresent,
}

/// The unit in which the time stamps of the data count.
#[derive(Debug, Clone, Copy, PartialEq, Eq, Structural)]
pub enum TimeUnit {
    Microsecond,
    Nanosecond,
}

/// A real number, held as the literal that writes it.
#[derive(Debug, Clone, PartialEq, Eq)]
pub struct Real {
    pub literal: String,
}

impl View for Real {
    type V = Seq<char>;

    open spec fn view(&self) -> Seq<char> {
        self.literal@
    }
}

impl Real {
    /// The literal writes a real number.
    pub open spec fn wf(&self) -> bool {
        is_real_literal(self@)
    }

    /// The real number that `literal` writes.
    pub fn from_chars(literal: &[char]) -> (r: Real)
        requires
            is_real_literal(literal@),
        ensures
            r@ == literal@,
            r.wf(),
    {
        Real { literal: string_of(literal) }
    }

    /// The real number that `literal` writes, if it writes one.
    pub fn from_literal(literal: &str) -> (r: Option<Real>)
        ensures
            r is Some <==> is_real_literal(literal@),
            r matches Some(x) ==> x@ == literal@ && x.wf(),
    {
        let chars = chars_of(literal);
        if is_real(chars.as_slice()) {
            Some(Real::from_chars(chars.as_slice()))
        } else {
            None
        }
    }

    /// The real number that a single digit writes.
    fn of_digit(digit: char) -> (r: Real)
        requires
            is_digit(digit),
        ensures
            r@ == seq![digit],
            r.wf(),
    {
        let literal: [char; 1] = [digit];
        proof {
            let written = seq![digit];
            reveal_strlit("inf");
            reveal_strlit("infinity");
            reveal_strlit("nan");
            assert(literal@ =~= written);
            assert(unsigned_part(written) == written);
            assert(digit_run(written.skip(1)) == 0);
            assert(digit_run(written) == 1);
            assert(written.skip(1).len() == 0);
            assert(is_decimal(written));
        }
        Real::from_chars(literal.as_slice())
    }

    /// The real number one.
    pub fn one() -> (r: Real)
        ensures
            r@ == "1"@,
            r.wf(),
    {
        proof {
            reveal_strlit("1");
            assert("1"@ =~= seq!['1']);
        }
        Real::of_digit('1')
    }

    /// The real number zero.
    pub fn zero() -> (r: Real)
        ensures
            r@ == "0"@,
            r.wf(),
    {
        proof {
            reveal_strlit("0");
            assert("0"@ =~= seq!['0']);
        }
        Real::of_digit('0')
    }
}

/// A calendar date and a time of day, without a time zone.
#[derive(Debug, Clone, Copy, PartialEq, Eq, Structural)]
pub struct DateTime {
    pub year: i32,
    pub month: u32,
    pub day: u32,
    pub hour: u32,
    pub minute: u32,
    pub second: u32,
    pub nanosecond: u32,
}

/// An offset from UTC, in seconds, positive to the east.
#[derive(Debug, Clone, Copy, PartialEq, Eq, Structural)]
pub struct UtcOffset {
    pub seconds_east: i32,
}

impl UtcOffset {
    /// The offset is less than a day.
    pub open spec fn wf(&self) -> bool {
        -86_400 < self.seconds_east < 86_400
    }
}

/// A sampling rate and the last sample that was taken at it.
#[derive(Debug, Clone, PartialEq, Eq)]
pub struct SamplingRate {
    pub rate_hz: Real,
    /// The number, not the position, of the last sample at this rate.
    pub end_sample_number: u32,
}

/// A sampling rate, with the rate as its literal.
pub struct SamplingRateView {
    pub rate_hz: Seq<char>,
    pub end_sample_number: u32,
}

impl View for SamplingRate {
    type V = SamplingRateView;

    open spec fn view(&self) -> SamplingRateView {
        SamplingRateView { rate_hz: self.rate_hz@, end_sample_number: self.end_sample_number }
    }
}

/// The value of an analog channel in one sample, as the data holds it. The
/// engineering value is this value times the channel's multiplier plus its
/// offset adder.
#[derive(Debug, Clone, PartialEq, Eq)]
pub enum AnalogSample {
    /// A real number written out, from ASCII data.
    Literal(Real),
    /// An integer, from 16-bit or 32-bit binary data.
    Integer(i32),
    /// The bits of an IEEE 754 single-precision number, from 32-bit
    /// floating-point data.
    FloatBits(u32),
}

/// An analog sample, with a real number as its literal.
pub enum AnalogSampleView {
    Literal(Seq<char>),
    Integer(i32),
    FloatBits(u32),
}

impl View for AnalogSample {
    type V = AnalogSampleView;

    open spec fn view(&self) -> AnalogSampleView {
        match self {
            AnalogSample::Literal(r) => AnalogSampleView::Literal(r@),
            AnalogSample::Integer(v) => AnalogSampleView::Integer(*v),
            AnalogSample::FloatBits(b) => AnalogSampleView::FloatBits(*b),
        }
    }
}

impl AnalogSampleView {
    pub open spec fn wf(&self) -> bool {
        match self {
            AnalogSampleView::Literal(l) => is_real_literal(*l),
            _ => true,
        }
    }
}

/// How the time that has passed since the first sample is found for one
/// sample.
#[derive(Debug, Clone, Copy, PartialEq, Eq, Structural)]
pub enum ElapsedTime {
    /// The sample number less one, divided by the rate of the entry at
    /// `rate` of the sampling-rate table.
    Sampled { sample_number: u32, rate: usize },
    /// The sample number less one, in seconds: no entry of the sampling-rate
    /// table covers the sample, and a rate of 1 Hz stands in.
    Uncovered { sample_number: u32 },
    /// The time stamp of the sample, times the unit of the time stamps,
    /// times the time stamp multiplication factor.
    Stamped { ticks: u32 },
}

impl ElapsedTime {
    /// Whether a time that names a rate names one of a table of `rates`
    /// entries.
    pub open spec fn within(&self, rates: nat) -> bool {
        match self {
            ElapsedTime::Sampled { sample_number, rate } => *rate < rates,
            _ => true,
        }
    }
}

/// An analog channel: its description and its samples.
#[derive(Debug, Clone, PartialEq, Eq)]
pub struct AnalogChannel {
    /// The number of the channel, counted from 1.
    pub index: u32,
    pub name: String,
    pub phase: String,
    pub circuit_component_being_monitored: String,
    pub units: String,
    pub min_value: Real,
    pub max_value: Real,
    pub multiplier: Real,
    pub offset_adder: Real,
    /// In microseconds.
    pub skew: Real,
    pub primary_factor: Real,
    pub secondary_factor: Real,
    pub scaling_mode: AnalogScalingMode,
    pub data: Vec<AnalogSample>,
}

/// An analog channel, with text as sequences of characters and numbers
/// as their literals.
pub struct AnalogChannelView {
    pub index: u32,
    pub name: Seq<char>,
    pub phase: Seq<char>,
    pub circuit_component_being_monitored: Seq<char>,
    pub units: Seq<char>,
    pub min_value: Seq<char>,
    pub max_value: Seq<char>,
    pub multiplier: Seq<char>,
    pub offset_adder: Seq<char>,
    pub skew: Seq<char>,
    pub primary_factor: Seq<char>,
    pub secondary_factor: Seq<char>,
    pub scaling_mode: AnalogScalingMode,
    pub data: Seq<AnalogSampleView>,
}

impl View for AnalogChannel {
    type V = AnalogChannelView;

    open spec fn view(&self) -> AnalogChannelView {
        AnalogChannelView {
            index: self.index,
            name: self.name@,
            phase: self.phase@,
            circuit_component_being_monitored: self.circuit_component_being_monitored@,
            units: self.units@,
            min_value: self.min_value@,
            max_value: self.max_value@,
            multiplier: self.multiplier@,
            offset_adder: self.offset_adder@,
            skew: self.skew@,
            primary_factor: self.primary_factor@,
            secondary_factor: self.secondary_factor@,
            scaling_mode: self.scaling_mode,
            data: views(self.data@),
        }
    }
}

impl AnalogChannelView {
    /// Every number of the channel is a real literal.
    pub open spec fn wf(&self) -> bool {
        &&& is_real_literal(self.min_value)
        &&& is_real_literal(self.max_value)
        &&& is_real_literal(self.multiplier)
        &&& is_real_literal(self.offset_adder)
        &&& is_real_literal(self.skew)
        &&& is_real_literal(self.primary_factor)
        &&& is_real_literal(self.secondary_factor)
        &&& forall|i: int| 0 <= i < self.data.len() ==> (#[trigger] self.data[i]).wf()
    }
}

/// An analog channel with one more value.
pub open spec fn analog_with(channel: AnalogChannelView, value: AnalogSampleView)
    -> AnalogChannelView {
    AnalogChannelView { data: channel.data.push(value), ..channel }
}

impl AnalogChannel {
    /// Adds a value to the end of the channel's samples.
    pub fn push_datum(&mut self, value: AnalogSample)
        ensures
            final(self)@ == analog_with(old(self)@, value@),
    {
        self.data.push(value);
        assert(self@.data =~= old(self)@.data.push(value@));
    }
}

/// A status channel: its description and its samples.
#[derive(Debug, Clone, PartialEq, Eq)]
pub struct StatusChannel {
    /// The number of the channel, counted from 1.
    pub index: u32,
    pub name: String,
    pub phase: String,
    pub circuit_component_being_monitored: String,
    /// 0 or 1.
    pub normal_status_value: u8,
    /// Each 0 or 1.
    pub data: Vec<u8>,
}

/// A status channel, with text as sequences of characters.
pub struct StatusChannelView {
    pub index: u32,
    pub name: Seq<char>,
    pub phase: Seq<char>,
    pub circuit_component_being_monitored: Seq<char>,
    pub normal_status_value: u8,
    pub data: Seq<u8>,
}

impl View for StatusChannel {
    type V = StatusChannelView;

    open spec fn view(&self) -> StatusChannelView {
        StatusChannelView {
            index: self.index,
            name: self.name@,
            phase: self.phase@,
            circuit_component_being_monitored: self.circuit_component_being_monitored@,
            normal_status_value: self.normal_status_value,
            data: self.data@,
        }
    }
}

impl StatusChannelView {
    /// The normal value and every sample are 0 or 1.
    pub open spec fn wf(&self) -> bool {
        &&& self.normal_status_value <= 1
        &&& forall|i: int| 0 <= i < self.data.len() ==> #[trigger] self.data[i] <= 1
    }
}

/// A status channel with one more value.
pub open spec fn status_with(channel: StatusChannelView, value: u8) -> StatusChannelView {
    StatusChannelView { data: channel.data.push(value), ..channel }
}

impl StatusChannel {
    /// Adds a value to the end of the channel's samples.
    pub fn push_datum(&mut self, value: u8)
        ensures
            final(self)@ == status_with(old(self)@, value),
    {
        self.data.push(value);
    }
}

/// A decoded COMTRADE record.
#[derive(Debug, Clone, PartialEq, Eq)]
pub struct Comtrade {
    pub station_name: String,
    pub recording_device_id: String,
    pub revision: FormatRevision,
    pub num_total_channels: u32,
    pub num_analog_channels: u32,
    pub num_status_channels: u32,
    /// The number of each sample, as the data gives it.
    pub sample_numbers: Vec<u32>,
    /// For each sample, how the time since the first sample is found.
    pub timestamps: Vec<ElapsedTime>,
    pub analog_channels: Vec<AnalogChannel>,
    pub status_channels: Vec<StatusChannel>,
    /// In hertz.
    pub line_frequency: Real,
    pub sampling_rates: Vec<SamplingRate>,
    pub start_time: DateTime,
    pub trigger_time: DateTime,
    pub data_format: DataFormat,
    /// The unit of the time stamps in the data.
    pub timestamp_unit: TimeUnit,
    pub timestamp_multiplication_factor: Real,
    pub time_offset: Option<UtcOffset>,
    pub local_offset: Option<UtcOffset>,
    pub time_quality: Option<TimeQuality>,
    pub leap_second_status: Option<LeapSecondStatus>,
}

/// A record, with text as sequences of characters and numbers as their
/// literals.
pub struct ComtradeView {
    pub station_name: Seq<char>,
    pub recording_device_id: Seq<char>,
    pub revision: FormatRevision,
    pub num_total_channels: u32,
    pub num_analog_channels: u32,
    pub num_status_channels: u32,
    pub sample_numbers: Seq<u32>,
    pub timestamps: Seq<ElapsedTime>,
    pub analog_channels: Seq<AnalogChannelView>,
    pub status_channels: Seq<StatusChannelView>,
    pub line_frequency: Seq<char>,
    pub sampling_rates: Seq<SamplingRateView>,
    pub start_time: DateTime,
    pub trigger_time: DateTime,
    pub data_format: DataFormat,
    pub timestamp_unit: TimeUnit,
    pub timestamp_multiplication_factor: Seq<char>,
    pub time_offset: Option<UtcOffset>,
    pub local_offset: Option<UtcOffset>,
    pub time_quality: Option<TimeQuality>,
    pub leap_second_status: Option<LeapSecondStatus>,
}

impl View for Comtrade {
    type V = ComtradeView;

    open spec fn view(&self) -> ComtradeView {
        ComtradeView {
            station_name: self.station_name@,
            recording_device_id: self.recording_device_id@,
            revision: self.revision,
            num_total_channels: self.num_total_channels,
            num_analog_channels: self.num_analog_channels,
            num_status_channels: self.num_status_channels,
            sample_numbers: self.sample_numbers@,
            timestamps: self.timestamps@,
            analog_channels: views(self.analog_channels@),
            status_channels: views(self.status_channels@),
            line_frequency: self.line_frequency@,
            sampling_rates: views(self.sampling_rates@),
            start_time: self.start_time,
            trigger_time: self.trigger_time,
            data_format: self.data_format,
            timestamp_unit: self.timestamp_unit,
            timestamp_multiplication_factor: self.timestamp_multiplication_factor@,
            time_offset: self.time_offset,
            local_offset: self.local_offset,
            time_quality: self.time_quality,
            leap_second_status: self.leap_second_status,
        }
    }
}

/// The greatest last sample number of a sampling-rate table, 0 for an empty
/// table: the number of samples that binary data holds.
pub open spec fn total_samples(rates: Seq<SamplingRateView>) -> u32
    decreases rates.len(),
{
    if rates.len() == 0 {
        0
    } else {
        let before = total_samples(rates.drop_last());
        if rates.last().end_sample_number > before {
            rates.last().end_sample_number
        } else {
            before
        }
    }
}

impl ComtradeView {
    /// The invariant of a record: the channel counts agree with each other
    /// and with the channels held, the analog channels' indices rise in the
    /// order of the channels, every sample has a time and every channel
    /// holds one value for each sample, a time that names a sampling rate
    /// names one of the table, every status value is 0 or 1, and every
    /// number is a real literal.
    pub open spec fn wf(&self) -> bool {
        &&& self.analog_channels.len() == self.num_analog_channels
        &&& self.status_channels.len() == self.num_status_channels
        &&& self.num_analog_channels + self.num_status_channels == self.num_total_channels
        &&& self.timestamps.len() == self.sample_numbers.len()
        &&& forall|k: int|
            0 <= k < self.timestamps.len() ==> (#[trigger] self.timestamps[k]).within(
                self.sampling_rates.len(),
            )
        &&& forall|i: int|
            0 <= i < self.analog_channels.len() ==> {
                &&& (#[trigger] self.analog_channels[i]).wf()
                &&& self.analog_channels[i].data.len() == self.sample_numbers.len()
            }
        &&& forall|i: int, j: int|
            0 <= i < j < self.analog_channels.len() ==> (#[trigger] self.analog_channels[i]).index
                < (#[trigger] self.analog_channels[j]).index
        &&& forall|i: int|
            0 <= i < self.status_channels.len() ==> {
                &&& (#[trigger] self.status_channels[i]).wf()
                &&& self.status_channels[i].data.len() == self.sample_numbers.len()
            }
        &&& is_real_literal(self.line_frequency)
        &&& is_real_literal(self.timestamp_multiplication_factor)
        &&& forall|i: int|
            0 <= i < self.sampling_rates.len() ==> is_real_literal(
                (#[trigger] self.sampling_rates[i]).rate_hz,
            )
        &&& (self.time_offset matches Some(o) ==> o.wf())
        &&& (self.local_offset matches Some(o) ==> o.wf())
    }
}

impl Comtrade {
    pub open spec fn wf(&self) -> bool {
        self@.wf()
    }
}

/// The first instant of 1970.
pub open spec fn epoch() -> DateTime {
    DateTime { year: 1970, month: 1, day: 1, hour: 0, minute: 0, second: 0, nanosecond: 0 }
}

/// The record without content: no channels and no samples, the revision of
/// 1991, ASCII data, empty names, a line frequency of zero, a time stamp
/// multiplication factor of one, and both stamps at the first instant of
/// 1970.
pub open spec fn empty_record() -> ComtradeView {
    ComtradeView {
        station_name: Seq::empty(),
        recording_device_id: Seq::empty(),
        revision: FormatRevision::Revision1991,
        num_total_channels: 0,
        num_analog_channels: 0,
        num_status_channels: 0,
        sample_numbers: Seq::empty(),
        timestamps: Seq::empty(),
        analog_channels: Seq::empty(),
        status_channels: Seq::empty(),
        line_frequency: "0"@,
        sampling_rates: Seq::empty(),
        start_time: epoch(),
        trigger_time: epoch(),
        data_format: DataFormat::Ascii,
        timestamp_unit: TimeUnit::Microsecond,
        timestamp_multiplication_factor: "1"@,
        time_offset: None,
        local_offset: None,
        time_quality: None,
        leap_second_status: None,
    }
}

impl Default for Comtrade {
    fn default() -> (r: Self)
        ensures
            r@ == empty_record(),
            r.wf(),
    {
        let start = DateTime {
            year: 1970,
            month: 1,
            day: 1,
            hour: 0,
            minute: 0,
            second: 0,
            nanosecond: 0,
        };
        let record = Comtrade {
            station_name: String::new(),
            recording_device_id: String::new(),
            revision: FormatRevision::Revision1991,
            num_total_channels: 0,
            num_analog_channels: 0,
            num_status_channels: 0,
            sample_numbers: Vec::new(),
            timestamps: Vec::new(),
            analog_channels: Vec::new(),
            status_channels: Vec::new(),
            line_frequency: Real::zero(),
            sampling_rates: Vec::new(),
            start_time: start,
            trigger_time: start,
            data_format: DataFormat::Ascii,
            timestamp_unit: TimeUnit::Microsecond,
            timestamp_multiplication_factor: Real::one(),
            time_offset: None,
            local_offset: None,
            time_quality: None,
            leap_second_status: None,
        };
        assert(record@.analog_channels =~= Seq::empty());
        assert(record@.status_channels =~= Seq::empty());
        assert(record@.sampling_rates =~= Seq::empty());
        assert(record@.sample_numbers =~= Seq::empty());
        assert(record@.timestamps =~= Seq::empty());
        record
    }
}

} // verus!
