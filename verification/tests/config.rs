use comtrade::config::parse_cfg;
use comtrade::parser::parse_cfg_bytes;
use comtrade::{
    AnalogChannel, AnalogScalingMode, Comtrade, DataFormat, DateTime, ErrorKind, FormatRevision,
    LeapSecondStatus, ParseError, Real, SamplingRate, StatusChannel, Subject, TimeQuality,
    TimeUnit, UtcOffset,
};

const CONFIG_2013: &str = "SMARTSTATION,IED123,2013
8,4A,4D
1,IA ,,Line123, A,0.1138916015625,0.05694580078125,0,-32768,32767,933,1,S
2,IB ,,Line123, A,0.1138916015625,0.05694580078125,0,-32768,32767,933,1,S
3,IC ,,Line123, A,0.1138916015625,0.05694580078125,0,-32768,32767,933,1,S
4,3I0,,Line123, A,0.1138916015625,0.05694580078125,0,-32768,32767,933,1,S
1,51A,,Line123,0
2,51B,,Line123,0
3,51C,,Line123,0
4,51N,,Line123,0
60
1
1200,40
12/01/2011,05:55:30.750110
12/01/2011,05:55:30.782610
ASCII
1
-5h30,-5h30
B,3
";

const CONFIG_1999: &str = "station,equipment,1999
3,1A,2D
1,VA,A,obj,kV,0.000361849,0,0,-32767,32767,120,1,P
1,ST_1,,,0
2,ST_2,,,1
50
2
15360,5
7680,9
07/01/2017,15:35:41.958268123
07/01/2017,15:35:41.958333
binary
2.5
";

const CONFIG_1991: &str = "old station,device 7
2,1A,1D
1,IA,,,A,0.5,-1.25,0,-2048,2047,1,1,p
1,TRIP,,,0
60
0
0,123
01/12/2011,05:55:30.750110
01/12/2011,05:55:30.782610
ASCII";

fn number(literal: &str) -> Real {
    Real { literal: literal.to_string() }
}

fn chars(text: &str) -> Vec<char> {
    text.chars().collect()
}

fn parse(text: &str) -> Result<Comtrade, ParseError> {
    parse_cfg(&chars(text))
}

fn error_of(text: &str) -> ParseError {
    parse(text).unwrap_err()
}

fn replace_line(text: &str, number: usize, line: &str) -> String {
    let mut lines: Vec<&str> = text.split('\n').collect();
    lines[number - 1] = line;
    lines.join("\n")
}

fn first_lines(text: &str, count: usize) -> String {
    let lines: Vec<&str> = text.split('\n').collect();
    lines[..count].join("\n")
}

fn current(index: u32, name: &str) -> AnalogChannel {
    AnalogChannel {
        index,
        name: name.to_string(),
        phase: "".to_string(),
        circuit_component_being_monitored: "Line123".to_string(),
        units: " A".to_string(),
        min_value: number("-32768"),
        max_value: number("32767"),
        multiplier: number("0.1138916015625"),
        offset_adder: number("0.05694580078125"),
        skew: number("0"),
        primary_factor: number("933"),
        secondary_factor: number("1"),
        scaling_mode: AnalogScalingMode::Secondary,
        data: vec![],
    }
}

fn relay(index: u32, name: &str) -> StatusChannel {
    StatusChannel {
        index,
        name: name.to_string(),
        phase: "".to_string(),
        circuit_component_being_monitored: "Line123".to_string(),
        normal_status_value: 0,
        data: vec![],
    }
}

#[test]
fn a_configuration_of_2013_is_read_in_full() {
    let expected = Comtrade {
        station_name: "SMARTSTATION".to_string(),
        recording_device_id: "IED123".to_string(),
        revision: FormatRevision::Revision2013,
        num_total_channels: 8,
        num_analog_channels: 4,
        num_status_channels: 4,
        sample_numbers: vec![],
        timestamps: vec![],
        analog_channels: vec![
            current(1, "IA "),
            current(2, "IB "),
            current(3, "IC "),
            current(4, "3I0"),
        ],
        status_channels: vec![relay(1, "51A"), relay(2, "51B"), relay(3, "51C"), relay(4, "51N")],
        line_frequency: number("60"),
        sampling_rates: vec![SamplingRate { rate_hz: number("1200"), end_sample_number: 40 }],
        start_time: DateTime {
            year: 2011,
            month: 1,
            day: 12,
            hour: 5,
            minute: 55,
            second: 30,
            nanosecond: 750_110_000,
        },
        trigger_time: DateTime {
            year: 2011,
            month: 1,
            day: 12,
            hour: 5,
            minute: 55,
            second: 30,
            nanosecond: 782_610_000,
        },
        data_format: DataFormat::Ascii,
        timestamp_unit: TimeUnit::Microsecond,
        timestamp_multiplication_factor: number("1"),
        time_offset: Some(UtcOffset { seconds_east: -19_800 }),
        local_offset: Some(UtcOffset { seconds_east: -19_800 }),
        time_quality: Some(TimeQuality::ClockUnlocked(1)),
        leap_second_status: Some(LeapSecondStatus::NoCapability),
    };
    assert_eq!(parse(CONFIG_2013), Ok(expected));
}

#[test]
fn the_channels_held_are_as_many_as_the_counts_say() {
    for text in [CONFIG_2013, CONFIG_1999, CONFIG_1991] {
        let record = parse(text).unwrap();
        assert_eq!(record.analog_channels.len(), record.num_analog_channels as usize);
        assert_eq!(record.status_channels.len(), record.num_status_channels as usize);
        assert_eq!(
            record.num_analog_channels + record.num_status_channels,
            record.num_total_channels
        );
    }
}

#[test]
fn a_configuration_of_1999_ends_with_the_time_factor() {
    let record = parse(CONFIG_1999).unwrap();
    assert_eq!(record.revision, FormatRevision::Revision1999);
    assert_eq!(record.station_name, "station");
    assert_eq!(record.recording_device_id, "equipment");
    assert_eq!(record.data_format, DataFormat::Binary16);
    assert_eq!(record.timestamp_multiplication_factor, number("2.5"));
    assert_eq!(record.time_offset, None);
    assert_eq!(record.local_offset, None);
    assert_eq!(record.time_quality, None);
    assert_eq!(record.leap_second_status, None);
    assert_eq!(
        record.sampling_rates,
        vec![
            SamplingRate { rate_hz: number("15360"), end_sample_number: 5 },
            SamplingRate { rate_hz: number("7680"), end_sample_number: 9 },
        ]
    );
    assert_eq!(record.status_channels[1].normal_status_value, 1);
    assert_eq!(record.analog_channels[0].scaling_mode, AnalogScalingMode::Primary);
    assert_eq!(record.analog_channels[0].phase, "A");
    assert_eq!(record.analog_channels[0].units, "kV");
}

#[test]
fn the_day_stands_before_the_month_from_1999_on() {
    let record = parse(CONFIG_1999).unwrap();
    assert_eq!(
        record.start_time,
        DateTime {
            year: 2017,
            month: 1,
            day: 7,
            hour: 15,
            minute: 35,
            second: 41,
            nanosecond: 958_268_123,
        }
    );
    assert_eq!(record.trigger_time.nanosecond, 958_333_000);
}

#[test]
fn the_month_stands_before_the_day_in_1991() {
    let record = parse(CONFIG_1991).unwrap();
    assert_eq!(record.start_time.month, 1);
    assert_eq!(record.start_time.day, 12);
    assert_eq!(record.start_time.year, 2011);
    assert_eq!(record.trigger_time.nanosecond, 782_610_000);
}

#[test]
fn the_finer_of_the_two_stamps_gives_the_unit() {
    assert_eq!(parse(CONFIG_2013).unwrap().timestamp_unit, TimeUnit::Microsecond);
    assert_eq!(parse(CONFIG_1999).unwrap().timestamp_unit, TimeUnit::Nanosecond);
    let swapped = replace_line(
        &replace_line(CONFIG_1999, 10, "07/01/2017,15:35:41.958268"),
        11,
        "07/01/2017,15:35:41.958333123",
    );
    assert_eq!(parse(&swapped).unwrap().timestamp_unit, TimeUnit::Nanosecond);
}

#[test]
fn a_configuration_of_1991_needs_no_time_factor() {
    let record = parse(CONFIG_1991).unwrap();
    assert_eq!(record.revision, FormatRevision::Revision1991);
    assert_eq!(record.station_name, "old station");
    assert_eq!(record.recording_device_id, "device 7");
    assert_eq!(record.timestamp_multiplication_factor, number("1"));
    assert_eq!(record.time_offset, None);
    assert_eq!(record.local_offset, None);
    assert_eq!(record.time_quality, None);
    assert_eq!(record.leap_second_status, None);
    assert!(record.sampling_rates.is_empty());
    assert_eq!(record.data_format, DataFormat::Ascii);
}

#[test]
fn a_year_of_1991_in_the_station_line_is_the_revision_of_1991() {
    let text = replace_line(CONFIG_1991, 1, "old station,device 7, 1991 ");
    let record = parse(&text).unwrap();
    assert_eq!(record.revision, FormatRevision::Revision1991);
    assert_eq!(record.timestamp_multiplication_factor, number("1"));
}

#[test]
fn an_analog_row_of_twelve_fields_is_malformed_at_its_line() {
    let text = replace_line(
        CONFIG_2013,
        5,
        "3,IC ,,Line123, A,0.1138916015625,0.05694580078125,0,-32768,32767,933,1",
    );
    assert_eq!(
        error_of(&text),
        ParseError { kind: ErrorKind::MalformedLine, subject: Subject::AnalogChannel, line: 5, channel: 3 }
    );
}

#[test]
fn a_line_with_a_wrong_number_of_fields_is_malformed() {
    let cases = [
        (1, "SMARTSTATION", Subject::Station, 0),
        (1, "SMARTSTATION,IED123,2013,extra", Subject::Station, 0),
        (2, "8,4A", Subject::ChannelCounts, 0),
        (7, "1,51A,,Line123,0,0", Subject::StatusChannel, 1),
        (12, "1,2", Subject::RateCount, 0),
        (13, "1200", Subject::SamplingRate, 0),
        (18, "-5h30", Subject::TimeOffsets, 0),
        (19, "B,3,1", Subject::TimeCodes, 0),
    ];
    for (number, line, subject, channel) in cases {
        let text = replace_line(CONFIG_2013, number, line);
        assert_eq!(
            error_of(&text),
            ParseError { kind: ErrorKind::MalformedLine, subject, line: number as u64, channel },
            "line {}",
            number
        );
    }
}

#[test]
fn a_field_that_is_no_number_is_reported_with_its_line_and_channel() {
    let cases = [
        (2, "eight,4A,4D", Subject::TotalChannels, 0),
        (2, "8,A,4D", Subject::AnalogCount, 0),
        (2, "8,4A,4", Subject::StatusCount, 0),
        (3, "x,IA ,,Line123, A,0.1,0.05,0,-32768,32767,933,1,S", Subject::ChannelIndex, 1),
        (4, "2,IB ,,Line123, A,0.1x,0.05,0,-32768,32767,933,1,S", Subject::Multiplier, 2),
        (4, "2,IB ,,Line123, A,0.1,,0,-32768,32767,933,1,S", Subject::OffsetAdder, 2),
        (4, "2,IB ,,Line123, A,0.1,0.05,e5,-32768,32767,933,1,S", Subject::Skew, 2),
        (4, "2,IB ,,Line123, A,0.1,0.05,0,--1,32767,933,1,S", Subject::MinValue, 2),
        (4, "2,IB ,,Line123, A,0.1,0.05,0,-32768,1e,933,1,S", Subject::MaxValue, 2),
        (6, "4,3I0,,Line123, A,0.1,0.05,0,-32768,32767,.,1,S", Subject::PrimaryFactor, 4),
        (6, "4,3I0,,Line123, A,0.1,0.05,0,-32768,32767,933,1 0,S", Subject::SecondaryFactor, 4),
        (8, "-2,51B,,Line123,0", Subject::ChannelIndex, 2),
        (9, "3,51C,,Line123,256", Subject::NormalStatus, 3),
        (11, "sixty", Subject::LineFrequency, 0),
        (12, "one", Subject::RateCount, 0),
        (13, "fast,40", Subject::RateHz, 0),
        (13, "1200,4294967296", Subject::EndSample, 0),
        (14, "12/13/2011,05:55:30.750110", Subject::StartTime, 0),
        (15, "12/01/2011 05:55:30.782610", Subject::TriggerTime, 0),
        (17, "", Subject::TimeFactor, 0),
        (18, "-5h,-5h30", Subject::TimeOffset, 0),
        (18, "-5h30,-5hx", Subject::LocalOffset, 0),
    ];
    for (number, line, subject, channel) in cases {
        let text = replace_line(CONFIG_2013, number, line);
        assert_eq!(
            error_of(&text),
            ParseError { kind: ErrorKind::InvalidNumber, subject, line: number as u64, channel },
            "line {}: {}",
            number,
            line
        );
    }
}

#[test]
fn an_unknown_token_is_reported_with_its_line() {
    let cases = [
        (1, "SMARTSTATION,IED123,2012", Subject::Revision, 0),
        (5, "3,IC ,,Line123, A,0.1,0.05,0,-32768,32767,933,1,T", Subject::ScalingMode, 3),
        (16, "ASCII7", Subject::DataFormat, 0),
        (18, "east,-5h30", Subject::TimeOffset, 0),
        (18, "x,5h3h", Subject::LocalOffset, 0),
        (19, "G,3", Subject::TimeQuality, 0),
        (19, "B,4", Subject::LeapSecond, 0),
    ];
    for (number, line, subject, channel) in cases {
        let text = replace_line(CONFIG_2013, number, line);
        assert_eq!(
            error_of(&text),
            ParseError { kind: ErrorKind::InvalidToken, subject, line: number as u64, channel },
            "line {}: {}",
            number,
            line
        );
    }
}

#[test]
fn a_value_against_the_rules_is_a_semantic_error() {
    let cases = [
        (2, "9,4A,4D", Subject::TotalChannels, 0),
        (5, "2,IC ,,Line123, A,0.1,0.05,0,-32768,32767,933,1,S", Subject::ChannelIndex, 3),
        (6, "1,3I0,,Line123, A,0.1,0.05,0,-32768,32767,933,1,S", Subject::ChannelIndex, 4),
        (10, "4,51N,,Line123,2", Subject::NormalStatus, 4),
        (18, "24,-5h30", Subject::TimeOffset, 0),
        (18, "x,-30h", Subject::LocalOffset, 0),
    ];
    for (number, line, subject, channel) in cases {
        let text = replace_line(CONFIG_2013, number, line);
        let error = error_of(&text);
        if line == "x,-30h" {
            assert_eq!(error.kind, ErrorKind::InvalidNumber);
            continue;
        }
        assert_eq!(
            error,
            ParseError { kind: ErrorKind::Semantic, subject, line: number as u64, channel },
            "line {}: {}",
            number,
            line
        );
    }
}

#[test]
fn analog_indices_may_skip_numbers_but_must_rise() {
    let text = replace_line(
        CONFIG_2013,
        6,
        "9,3I0,,Line123, A,0.1138916015625,0.05694580078125,0,-32768,32767,933,1,S",
    );
    assert_eq!(parse(&text).unwrap().analog_channels[3].index, 9);
}

#[test]
fn a_configuration_that_ends_early_names_the_missing_line() {
    for count in 1..19 {
        let text = first_lines(CONFIG_2013, count);
        assert_eq!(
            error_of(&text),
            ParseError {
                kind: ErrorKind::Structure,
                subject: Subject::Configuration,
                line: count as u64 + 1,
                channel: 0
            },
            "after {} lines",
            count
        );
    }
    assert!(parse(&first_lines(CONFIG_2013, 19)).is_ok());
}

#[test]
fn an_empty_configuration_has_a_malformed_station_line() {
    assert_eq!(
        error_of(""),
        ParseError { kind: ErrorKind::MalformedLine, subject: Subject::Station, line: 1, channel: 0 }
    );
}

#[test]
fn a_table_of_no_rates_is_followed_by_a_line_that_is_passed_over() {
    let record = parse(CONFIG_1991).unwrap();
    assert!(record.sampling_rates.is_empty());
    let text = replace_line(CONFIG_1991, 7, "anything at all");
    assert_eq!(parse(&text), Ok(record));
    let short = first_lines(CONFIG_1991, 6);
    assert_eq!(
        error_of(&short),
        ParseError { kind: ErrorKind::Structure, subject: Subject::Configuration, line: 7, channel: 0 }
    );
}

#[test]
fn names_are_kept_as_written_and_numbers_are_trimmed() {
    let text = replace_line(
        CONFIG_2013,
        3,
        " 1 , IA ,ph , Line , A , 1e3 , -.5 , +0. , -Inf , NaN , 9.5E-2 , infinity , s ",
    );
    let record = parse(&text).unwrap();
    let channel = &record.analog_channels[0];
    assert_eq!(channel.index, 1);
    assert_eq!(channel.name, " IA ");
    assert_eq!(channel.phase, "ph ");
    assert_eq!(channel.circuit_component_being_monitored, " Line ");
    assert_eq!(channel.units, " A ");
    assert_eq!(channel.multiplier, number("1e3"));
    assert_eq!(channel.offset_adder, number("-.5"));
    assert_eq!(channel.skew, number("+0."));
    assert_eq!(channel.min_value, number("-Inf"));
    assert_eq!(channel.max_value, number("NaN"));
    assert_eq!(channel.primary_factor, number("9.5E-2"));
    assert_eq!(channel.secondary_factor, number("infinity"));
    assert_eq!(channel.scaling_mode, AnalogScalingMode::Secondary);
}

#[test]
fn every_number_kept_can_be_read_as_a_float() {
    let text = replace_line(
        CONFIG_2013,
        3,
        "1,IA,,,A,1e3,-.5,+0.,-Inf,NaN,9.5E-2,infinity,s",
    );
    let record = parse(&text).unwrap();
    let channel = &record.analog_channels[0];
    assert_eq!(channel.multiplier.literal.parse::<f64>(), Ok(1000.0));
    assert_eq!(channel.offset_adder.literal.parse::<f64>(), Ok(-0.5));
    assert_eq!(channel.skew.literal.parse::<f64>(), Ok(0.0));
    assert_eq!(channel.min_value.literal.parse::<f64>(), Ok(f64::NEG_INFINITY));
    assert!(channel.max_value.literal.parse::<f64>().unwrap().is_nan());
    assert_eq!(channel.primary_factor.literal.parse::<f64>(), Ok(0.095));
    assert_eq!(channel.secondary_factor.literal.parse::<f64>(), Ok(f64::INFINITY));
}

#[test]
fn carriage_returns_at_line_ends_do_no_harm() {
    let text = CONFIG_2013.replace('\n', "\r\n");
    let record = parse(&text).unwrap();
    let plain = parse(CONFIG_2013).unwrap();
    assert_eq!(record, plain);
}

#[test]
fn the_bytes_of_a_configuration_must_be_text() {
    assert_eq!(parse_cfg_bytes(CONFIG_2013.as_bytes()), parse(CONFIG_2013));
    let mut bytes = CONFIG_2013.as_bytes().to_vec();
    bytes[3] = 0xff;
    assert_eq!(
        parse_cfg_bytes(&bytes),
        Err(ParseError { kind: ErrorKind::Structure, subject: Subject::Configuration, line: 0, channel: 0 })
    );
}

#[test]
fn names_may_hold_any_text() {
    let text = replace_line(CONFIG_2013, 1, "Umspannwerk Süd,Gerät №5,2013");
    let record = parse_cfg_bytes(text.as_bytes()).unwrap();
    assert_eq!(record.station_name, "Umspannwerk Süd");
    assert_eq!(record.recording_device_id, "Gerät №5");
}

#[test]
fn a_real_number_is_made_of_a_literal_that_writes_one() {
    assert_eq!(Real::from_literal("0.1138916015625"), Some(number("0.1138916015625")));
    assert_eq!(Real::from_literal("-1e-3"), Some(number("-1e-3")));
    assert_eq!(Real::from_literal("nan"), Some(number("nan")));
    assert_eq!(Real::from_literal(" 1"), None);
    assert_eq!(Real::from_literal(""), None);
    assert_eq!(Real::from_literal("1,5"), None);
    assert_eq!(Real::one(), number("1"));
    assert_eq!(Real::zero(), number("0"));
}

#[test]
fn the_default_record_is_empty() {
    let record = Comtrade::default();
    assert_eq!(record.station_name, "");
    assert_eq!(record.recording_device_id, "");
    assert_eq!(record.revision, FormatRevision::Revision1991);
    assert_eq!(record.num_total_channels, 0);
    assert!(record.analog_channels.is_empty());
    assert!(record.status_channels.is_empty());
    assert!(record.sample_numbers.is_empty());
    assert_eq!(record.line_frequency, number("0"));
    assert_eq!(record.timestamp_multiplication_factor, number("1"));
    assert_eq!(record.data_format, DataFormat::Ascii);
    assert_eq!(
        record.start_time,
        DateTime { year: 1970, month: 1, day: 1, hour: 0, minute: 0, second: 0, nanosecond: 0 }
    );
    assert_eq!(record.trigger_time, record.start_time);
    assert_eq!(record.time_offset, None);
    assert_eq!(record.time_quality, None);
    assert_eq!(FormatRevision::default(), FormatRevision::Revision1991);
    assert_eq!(DataFormat::default(), DataFormat::Ascii);
}
