use comtrade::ascii::{parse_dat_ascii, read_ascii_sample};
use comtrade::binary::{binary_record_size, parse_dat_binary, read_binary_sample, unpack_status};
use comtrade::config::parse_cfg;
use comtrade::parser::parse_dat;
use comtrade::sample::{append_sample, Sample};
use comtrade::timing::{real_time, sampling_rate_for_sample, total_sample_count};
use comtrade::{
    AnalogSample, Comtrade, DataFormat, ElapsedTime, ErrorKind, ParseError, Real, SamplingRate,
    Subject, TimeUnit,
};

const CONFIG: &str = "SMARTSTATION,IED123,2013
8,4A,4D
1,IA ,,Line123, A,0.1138916015625,0.05694580078125,0,-32768,32767,933,1,S
2,IB ,,Line123, A,0.1138916015625,0.05694580078125,0,-32768,32767,933,1,S
3,IC ,,Line123, A,0.1138916015625,0.05694580078125,0,-32768,32767,933,1,S
4,3I0,,Line123, A,0.1138916015625,0.05694580078125,0,-32768,32767,933,1,S
1,51A,,Line123,0
2,51B,,Line123,0
3,51C,,Line123,0
4,51N,,Line123,0
60
1
1200,40
12/01/2011,05:55:30.750110
12/01/2011,05:55:30.782610
ASCII
1
-5h30,-5h30
B,3
";

const ROWS: &str = "1,72500,-729,597,61,-70,0,0,0,0
2,73333,-132,43,35,-53,0,0,0,0
3,74167,482,-466,0,17,0,1,0,0

40,105000,-1484,359,158,-966,1,1,0,1
";

fn chars(text: &str) -> Vec<char> {
    text.chars().collect()
}

fn number(literal: &str) -> Real {
    Real { literal: literal.to_string() }
}

fn config(text: &str) -> Comtrade {
    parse_cfg(&chars(text)).unwrap()
}

fn with_format(format: &str) -> Comtrade {
    config(&CONFIG.replace("\nASCII\n", &format!("\n{}\n", format)).replace("1200,40", "1200,3"))
}

fn without_rates() -> Comtrade {
    config(&CONFIG.replace("\n1\n1200,40\n", "\n0\n0,4\n"))
}

fn literals(values: &[&str]) -> Vec<AnalogSample> {
    values.iter().map(|v| AnalogSample::Literal(number(v))).collect()
}

fn integers(values: &[i32]) -> Vec<AnalogSample> {
    values.iter().map(|v| AnalogSample::Integer(*v)).collect()
}

fn raw_value(sample: &AnalogSample) -> f64 {
    match sample {
        AnalogSample::Literal(x) => x.literal.parse::<f64>().unwrap(),
        AnalogSample::Integer(v) => *v as f64,
        AnalogSample::FloatBits(bits) => f32::from_bits(*bits) as f64,
    }
}

fn engineering_value(record: &Comtrade, channel: usize, sample: usize) -> f64 {
    let c = &record.analog_channels[channel];
    raw_value(&c.data[sample]) * c.multiplier.literal.parse::<f64>().unwrap()
        + c.offset_adder.literal.parse::<f64>().unwrap()
}

fn seconds(record: &Comtrade, sample: usize) -> f64 {
    match record.timestamps[sample] {
        ElapsedTime::Sampled { sample_number, rate } => {
            (sample_number as f64 - 1.0)
                / record.sampling_rates[rate].rate_hz.literal.parse::<f64>().unwrap()
        }
        ElapsedTime::Uncovered { sample_number } => sample_number as f64 - 1.0,
        ElapsedTime::Stamped { ticks } => {
            let unit = match record.timestamp_unit {
                TimeUnit::Microsecond => 1e-6,
                TimeUnit::Nanosecond => 1e-9,
            };
            ticks as f64
                * unit
                * record.timestamp_multiplication_factor.literal.parse::<f64>().unwrap()
        }
    }
}

fn binary16_record(number: u32, stamp: u32, analog: [i16; 4], status: u16) -> Vec<u8> {
    let mut bytes = Vec::new();
    bytes.extend_from_slice(&number.to_le_bytes());
    bytes.extend_from_slice(&stamp.to_le_bytes());
    for value in analog {
        bytes.extend_from_slice(&value.to_le_bytes());
    }
    bytes.extend_from_slice(&status.to_le_bytes());
    bytes
}

fn binary32_record(number: u32, stamp: u32, analog: [u32; 4], status: u16) -> Vec<u8> {
    let mut bytes = Vec::new();
    bytes.extend_from_slice(&number.to_le_bytes());
    bytes.extend_from_slice(&stamp.to_le_bytes());
    for value in analog {
        bytes.extend_from_slice(&value.to_le_bytes());
    }
    bytes.extend_from_slice(&status.to_le_bytes());
    bytes
}

fn rates(entries: &[(&str, u32)]) -> Vec<SamplingRate> {
    entries
        .iter()
        .map(|(rate, end)| SamplingRate { rate_hz: number(rate), end_sample_number: *end })
        .collect()
}

#[test]
fn ascii_rows_fill_the_channels_in_order() {
    let record = parse_dat_ascii(config(CONFIG), &chars(ROWS)).unwrap();
    assert_eq!(record.sample_numbers, vec![1, 2, 3, 40]);
    assert_eq!(
        record.timestamps,
        vec![
            ElapsedTime::Sampled { sample_number: 1, rate: 0 },
            ElapsedTime::Sampled { sample_number: 2, rate: 0 },
            ElapsedTime::Sampled { sample_number: 3, rate: 0 },
            ElapsedTime::Sampled { sample_number: 40, rate: 0 },
        ]
    );
    assert_eq!(record.analog_channels[0].data, literals(&["-729", "-132", "482", "-1484"]));
    assert_eq!(record.analog_channels[1].data, literals(&["597", "43", "-466", "359"]));
    assert_eq!(record.analog_channels[2].data, literals(&["61", "35", "0", "158"]));
    assert_eq!(record.analog_channels[3].data, literals(&["-70", "-53", "17", "-966"]));
    assert_eq!(record.status_channels[0].data, vec![0, 0, 0, 1]);
    assert_eq!(record.status_channels[1].data, vec![0, 0, 1, 1]);
    assert_eq!(record.status_channels[2].data, vec![0, 0, 0, 0]);
    assert_eq!(record.status_channels[3].data, vec![0, 0, 0, 1]);
}

#[test]
fn decoding_keeps_what_the_configuration_said() {
    let described = config(CONFIG);
    let record = parse_dat_ascii(described.clone(), &chars(ROWS)).unwrap();
    assert_eq!(record.station_name, described.station_name);
    assert_eq!(record.sampling_rates, described.sampling_rates);
    assert_eq!(record.start_time, described.start_time);
    assert_eq!(record.analog_channels[2].name, "IC ");
    assert_eq!(record.analog_channels[2].multiplier, number("0.1138916015625"));
    assert_eq!(record.status_channels[3].name, "51N");
    for channel in &record.analog_channels {
        assert_eq!(channel.data.len(), record.sample_numbers.len());
    }
    for channel in &record.status_channels {
        assert_eq!(channel.data.len(), record.sample_numbers.len());
    }
    assert_eq!(record.timestamps.len(), record.sample_numbers.len());
}

#[test]
fn the_engineering_value_is_the_raw_value_scaled_once() {
    let record = parse_dat_ascii(config(CONFIG), &chars(ROWS)).unwrap();
    assert_eq!(engineering_value(&record, 0, 0), -729.0 * 0.1138916015625 + 0.05694580078125);
    assert_eq!(engineering_value(&record, 0, 0), -82.97003173828125);
    assert_eq!(engineering_value(&record, 2, 2), 0.05694580078125);
}

#[test]
fn the_time_of_a_sample_follows_from_its_number_and_rate() {
    let record = parse_dat_ascii(config(CONFIG), &chars(ROWS)).unwrap();
    assert_eq!(seconds(&record, 0), 0.0);
    assert_eq!(seconds(&record, 3), 39.0 / 1200.0);
    assert_eq!(seconds(&record, 3), 0.0325);
}

#[test]
fn a_blank_time_stamp_is_fine_with_a_rate_table() {
    let record = parse_dat_ascii(config(CONFIG), &chars("7, ,1,2,3,4,1,0,1,0\n")).unwrap();
    assert_eq!(record.sample_numbers, vec![7]);
    assert_eq!(record.timestamps, vec![ElapsedTime::Sampled { sample_number: 7, rate: 0 }]);
    assert_eq!(record.status_channels[0].data, vec![1]);
    assert_eq!(record.status_channels[2].data, vec![1]);
}

#[test]
fn without_a_rate_table_the_time_stamp_gives_the_time() {
    let record = parse_dat_ascii(without_rates(), &chars(ROWS)).unwrap();
    assert_eq!(
        record.timestamps,
        vec![
            ElapsedTime::Stamped { ticks: 72500 },
            ElapsedTime::Stamped { ticks: 73333 },
            ElapsedTime::Stamped { ticks: 74167 },
            ElapsedTime::Stamped { ticks: 105000 },
        ]
    );
    assert_eq!(seconds(&record, 0), 72500.0 * 1e-6 * 1.0);
}

#[test]
fn without_a_rate_table_a_blank_time_stamp_is_an_error() {
    let error = parse_dat_ascii(without_rates(), &chars("1,72500,1,2,3,4,0,0,0,0\n2,,1,2,3,4,0,0,0,0\n"))
        .unwrap_err();
    assert_eq!(
        error,
        ParseError { kind: ErrorKind::Semantic, subject: Subject::Timestamp, line: 2, channel: 0 }
    );
}

#[test]
fn an_ascii_row_in_error_is_reported_with_its_line_and_channel() {
    let cases = [
        ("1,72500,1,2,3,4,0,0,0", ErrorKind::MalformedLine, Subject::Sample, 0),
        ("1,72500,1,2,3,4,0,0,0,0,0", ErrorKind::MalformedLine, Subject::Sample, 0),
        ("one,72500,1,2,3,4,0,0,0,0", ErrorKind::InvalidNumber, Subject::SampleNumber, 0),
        ("1,-5,1,2,3,4,0,0,0,0", ErrorKind::InvalidNumber, Subject::Timestamp, 0),
        ("1,72500,1,2,x,4,0,0,0,0", ErrorKind::InvalidNumber, Subject::AnalogValue, 3),
        ("1,72500,,2,x,4,0,0,0,0", ErrorKind::InvalidNumber, Subject::AnalogValue, 1),
        ("1,72500,1,2,3,4,0,0,0,on", ErrorKind::InvalidNumber, Subject::StatusValue, 4),
        ("1,72500,1,2,3,4,0,2,0,on", ErrorKind::Semantic, Subject::StatusValue, 2),
    ];
    for (row, kind, subject, channel) in cases {
        let text = format!("1,72500,1,2,3,4,0,0,0,0\n\n{}\n", row);
        assert_eq!(
            parse_dat_ascii(config(CONFIG), &chars(&text)),
            Err(ParseError { kind, subject, line: 3, channel }),
            "{}",
            row
        );
    }
}

#[test]
fn one_ascii_row_gives_one_sample() {
    let table = rates(&[("1200", 40)]);
    let sample = read_ascii_sample(&chars(" 5 , 100 , 1.5 , -2e3 ,1,0"), 9, 2, 2, &table).unwrap();
    assert_eq!(
        sample,
        Sample {
            number: 5,
            time: ElapsedTime::Sampled { sample_number: 5, rate: 0 },
            analog: literals(&["1.5", "-2e3"]),
            status: vec![1, 0],
        }
    );
}

#[test]
fn data_without_rows_leave_the_record_without_samples() {
    let described = config(CONFIG);
    assert_eq!(parse_dat_ascii(described.clone(), &chars("")), Ok(described.clone()));
    assert_eq!(parse_dat_ascii(described.clone(), &chars("\n  \n\r\n")), Ok(described));
}

#[test]
fn a_group_of_sixteen_is_unpacked_lowest_bit_first() {
    assert_eq!(unpack_status(&[0b0000_0000_0000_0101], 5), vec![1, 0, 1, 0, 0]);
    assert_eq!(
        unpack_status(&[0x8001], 16),
        vec![1, 0, 0, 0, 0, 0, 0, 0, 0, 0, 0, 0, 0, 0, 0, 1]
    );
    assert_eq!(unpack_status(&[0xffff, 0x0002], 18), {
        let mut all = vec![1u8; 16];
        all.extend_from_slice(&[0, 1]);
        all
    });
}

#[test]
fn unpacking_stops_at_the_count_or_at_the_last_group() {
    assert_eq!(unpack_status(&[0xffff], 0), Vec::<u8>::new());
    assert_eq!(unpack_status(&[], 3), Vec::<u8>::new());
    assert_eq!(unpack_status(&[0x0003], 40).len(), 16);
}

#[test]
fn the_size_of_a_binary_record_follows_from_the_channels() {
    assert_eq!(binary_record_size(DataFormat::Binary16, 4, 4), 8 + 8 + 2);
    assert_eq!(binary_record_size(DataFormat::Binary16, 4, 16), 8 + 8 + 2);
    assert_eq!(binary_record_size(DataFormat::Binary16, 4, 17), 8 + 8 + 4);
    assert_eq!(binary_record_size(DataFormat::Binary32, 4, 0), 8 + 16);
    assert_eq!(binary_record_size(DataFormat::Float32, 1, 1), 8 + 4 + 2);
    assert_eq!(
        binary_record_size(DataFormat::Binary32, u32::MAX, u32::MAX),
        8 + 4 * (u32::MAX as u64) + 2 * 268_435_456
    );
}

#[test]
fn binary16_records_are_decoded() {
    let mut data = Vec::new();
    data.extend(binary16_record(1, 0, [-729, 597, 61, -70], 0b0000));
    data.extend(binary16_record(2, 833, [i16::MIN, i16::MAX, 0, -1], 0b1010));
    data.extend(binary16_record(3, 0xffff_ffff, [258, 1, 2, 3], 0xfff5));
    let record = parse_dat_binary(with_format("binary"), &data).unwrap();
    assert_eq!(record.sample_numbers, vec![1, 2, 3]);
    assert_eq!(
        record.timestamps,
        vec![
            ElapsedTime::Sampled { sample_number: 1, rate: 0 },
            ElapsedTime::Sampled { sample_number: 2, rate: 0 },
            ElapsedTime::Sampled { sample_number: 3, rate: 0 },
        ]
    );
    assert_eq!(record.analog_channels[0].data, integers(&[-729, -32768, 258]));
    assert_eq!(record.analog_channels[1].data, integers(&[597, 32767, 1]));
    assert_eq!(record.analog_channels[2].data, integers(&[61, 0, 2]));
    assert_eq!(record.analog_channels[3].data, integers(&[-70, -1, 3]));
    assert_eq!(record.status_channels[0].data, vec![0, 0, 1]);
    assert_eq!(record.status_channels[1].data, vec![0, 1, 0]);
    assert_eq!(record.status_channels[2].data, vec![0, 0, 1]);
    assert_eq!(record.status_channels[3].data, vec![0, 1, 0]);
    assert_eq!(engineering_value(&record, 0, 0), -82.97003173828125);
}

#[test]
fn binary32_records_are_decoded() {
    let mut data = Vec::new();
    data.extend(binary32_record(1, 0, [1, 0xffff_ffff, 0x8000_0000, 0x7fff_ffff], 1));
    data.extend(binary32_record(2, 0, [70_000, 0xfffe_ee90, 0, 0x0102_0304], 8));
    data.extend(binary32_record(9, 0, [0, 0, 0, 0], 0));
    let record = parse_dat_binary(with_format("binary32"), &data).unwrap();
    assert_eq!(record.sample_numbers, vec![1, 2, 9]);
    assert_eq!(
        record.timestamps[2],
        ElapsedTime::Uncovered { sample_number: 9 }
    );
    assert_eq!(seconds(&record, 2), 8.0);
    assert_eq!(record.analog_channels[0].data, integers(&[1, 70_000, 0]));
    assert_eq!(record.analog_channels[1].data, integers(&[-1, -70_000, 0]));
    assert_eq!(record.analog_channels[2].data, integers(&[i32::MIN, 0, 0]));
    assert_eq!(record.analog_channels[3].data, integers(&[i32::MAX, 0x0102_0304, 0]));
    assert_eq!(record.status_channels[0].data, vec![1, 0, 0]);
    assert_eq!(record.status_channels[3].data, vec![0, 1, 0]);
}

#[test]
fn float32_records_keep_the_bits_of_their_values() {
    let values = [1.5f32, -0.25, 1.0e10, 0.0];
    let bits = [values[0].to_bits(), values[1].to_bits(), values[2].to_bits(), values[3].to_bits()];
    let mut data = Vec::new();
    data.extend(binary32_record(1, 0, bits, 0));
    data.extend(binary32_record(2, 0, bits, 0));
    data.extend(binary32_record(3, 0, bits, 0));
    let record = parse_dat_binary(with_format("float32"), &data).unwrap();
    assert_eq!(record.analog_channels[0].data[0], AnalogSample::FloatBits(0x3fc0_0000));
    assert_eq!(record.analog_channels[1].data[2], AnalogSample::FloatBits((-0.25f32).to_bits()));
    assert_eq!(raw_value(&record.analog_channels[2].data[1]), 1.0e10f32 as f64);
    assert_eq!(
        engineering_value(&record, 0, 0),
        1.5 * 0.1138916015625 + 0.05694580078125
    );
}

#[test]
fn as_many_binary_records_are_read_as_the_rate_table_announces() {
    let mut data = Vec::new();
    for k in 1..=5 {
        data.extend(binary16_record(k, 0, [0, 0, 0, 0], 0));
    }
    data.extend_from_slice(&[1, 2, 3]);
    let record = parse_dat_binary(with_format("binary"), &data).unwrap();
    assert_eq!(record.sample_numbers, vec![1, 2, 3]);
    assert_eq!(total_sample_count(&record.sampling_rates), 3);
}

#[test]
fn binary_data_that_end_early_are_in_error_at_the_record_cut_short() {
    let mut data = Vec::new();
    data.extend(binary16_record(1, 0, [0, 0, 0, 0], 0));
    data.extend(binary16_record(2, 0, [0, 0, 0, 0], 0));
    let whole = data.len();
    data.extend(binary16_record(3, 0, [0, 0, 0, 0], 0));
    data.pop();
    let truncated =
        ParseError { kind: ErrorKind::Structure, subject: Subject::Sample, line: 3, channel: 0 };
    assert_eq!(parse_dat_binary(with_format("binary"), &data), Err(truncated));
    assert_eq!(parse_dat_binary(with_format("binary"), &data[..whole]), Err(truncated));
    assert_eq!(
        parse_dat_binary(with_format("binary"), &[]),
        Err(ParseError { kind: ErrorKind::Structure, subject: Subject::Sample, line: 1, channel: 0 })
    );
}

#[test]
fn binary_data_without_a_rate_table_hold_no_records() {
    let described = config(&CONFIG.replace("\n1\n1200,40\n", "\n0\n0,4\n").replace("\nASCII\n", "\nbinary\n"));
    let data = binary16_record(1, 5, [0, 0, 0, 0], 0);
    assert_eq!(parse_dat_binary(described.clone(), &data), Ok(described));
}

#[test]
fn one_binary_record_gives_one_sample() {
    let table = rates(&[("50", 10)]);
    let bytes = [7, 0, 0, 0, 0xff, 0xff, 0xff, 0xff, 0xfe, 0xff, 0x05, 0x00];
    assert_eq!(
        read_binary_sample(&bytes, DataFormat::Binary16, 1, 3, &table, 1),
        Ok(Sample {
            number: 7,
            time: ElapsedTime::Sampled { sample_number: 7, rate: 0 },
            analog: integers(&[-2]),
            status: vec![1, 0, 1],
        })
    );
    assert_eq!(
        read_binary_sample(&bytes, DataFormat::Binary16, 1, 3, &Vec::new(), 4),
        Err(ParseError { kind: ErrorKind::Semantic, subject: Subject::Timestamp, line: 4, channel: 0 })
    );
    let stamped = [7, 0, 0, 0, 0x10, 0x27, 0, 0, 0xfe, 0xff, 0x05, 0x00];
    assert_eq!(
        read_binary_sample(&stamped, DataFormat::Binary16, 1, 3, &Vec::new(), 4).unwrap().time,
        ElapsedTime::Stamped { ticks: 10_000 }
    );
}

#[test]
fn the_rate_of_a_sample_is_the_first_that_covers_it() {
    let table = rates(&[("1200", 40), ("600", 100), ("300", 100), ("100", 50)]);
    assert_eq!(sampling_rate_for_sample(&table, 0), Some(0));
    assert_eq!(sampling_rate_for_sample(&table, 1), Some(0));
    assert_eq!(sampling_rate_for_sample(&table, 40), Some(0));
    assert_eq!(sampling_rate_for_sample(&table, 41), Some(1));
    assert_eq!(sampling_rate_for_sample(&table, 100), Some(1));
    assert_eq!(sampling_rate_for_sample(&table, 101), None);
    assert_eq!(sampling_rate_for_sample(&Vec::new(), 1), None);
    assert_eq!(total_sample_count(&table), 100);
    assert_eq!(total_sample_count(&Vec::new()), 0);
}

#[test]
fn the_time_of_a_sample_is_found_from_the_table_or_the_stamp() {
    let table = rates(&[("1200", 40)]);
    assert_eq!(real_time(&table, 40, None), Ok(ElapsedTime::Sampled { sample_number: 40, rate: 0 }));
    assert_eq!(
        real_time(&table, 40, Some(5)),
        Ok(ElapsedTime::Sampled { sample_number: 40, rate: 0 })
    );
    assert_eq!(real_time(&table, 41, Some(5)), Ok(ElapsedTime::Uncovered { sample_number: 41 }));
    assert_eq!(real_time(&Vec::new(), 41, Some(5)), Ok(ElapsedTime::Stamped { ticks: 5 }));
    assert_eq!(
        real_time(&Vec::new(), 41, None),
        Err(ParseError { kind: ErrorKind::Semantic, subject: Subject::Timestamp, line: 0, channel: 0 })
    );
}

#[test]
fn a_sample_is_added_to_every_channel() {
    let mut record = config(CONFIG);
    append_sample(
        &mut record,
        Sample {
            number: 3,
            time: ElapsedTime::Stamped { ticks: 9 },
            analog: integers(&[10, 20, 30, 40]),
            status: vec![1, 0, 0, 1],
        },
    );
    assert_eq!(record.sample_numbers, vec![3]);
    assert_eq!(record.timestamps, vec![ElapsedTime::Stamped { ticks: 9 }]);
    assert_eq!(record.analog_channels[0].data, integers(&[10]));
    assert_eq!(record.analog_channels[3].data, integers(&[40]));
    assert_eq!(record.status_channels[0].data, vec![1]);
    assert_eq!(record.status_channels[1].data, vec![0]);
    assert_eq!(record.status_channels[3].data, vec![1]);
}

#[test]
fn the_data_are_read_in_the_encoding_of_the_configuration() {
    let ascii = parse_dat(config(CONFIG), ROWS.as_bytes()).unwrap();
    assert_eq!(ascii, parse_dat_ascii(config(CONFIG), &chars(ROWS)).unwrap());
    let mut data = Vec::new();
    for k in 1..=3 {
        data.extend(binary16_record(k, 0, [k as i16, 0, 0, 0], 0));
    }
    let binary = parse_dat(with_format("BINARY"), &data).unwrap();
    assert_eq!(binary.analog_channels[0].data, integers(&[1, 2, 3]));
    assert_eq!(
        parse_dat(config(CONFIG), &[b'1', 0xff, b'\n']),
        Err(ParseError { kind: ErrorKind::Structure, subject: Subject::Data, line: 0, channel: 0 })
    );
}

#[test]
fn each_sample_names_the_rate_that_covers_it() {
    let described = config(&CONFIG.replace("\n1\n1200,40\n", "\n2\n1200,2\n600,4\n"));
    let rows = "1,,1,2,3,4,0,0,0,0\n2,,1,2,3,4,0,0,0,0\n3,,1,2,3,4,0,0,0,0\n4,,1,2,3,4,0,0,0,0\n5,,1,2,3,4,0,0,0,0\n";
    let record = parse_dat_ascii(described, &chars(rows)).unwrap();
    assert_eq!(
        record.timestamps,
        vec![
            ElapsedTime::Sampled { sample_number: 1, rate: 0 },
            ElapsedTime::Sampled { sample_number: 2, rate: 0 },
            ElapsedTime::Sampled { sample_number: 3, rate: 1 },
            ElapsedTime::Sampled { sample_number: 4, rate: 1 },
            ElapsedTime::Uncovered { sample_number: 5 },
        ]
    );
    assert_eq!(seconds(&record, 2), 2.0 / 600.0);
    assert_eq!(total_sample_count(&record.sampling_rates), 4);
}

#[test]
fn long_data_are_decoded() {
    let described = config(&CONFIG.replace("1200,40", "1200,20000"));
    let mut rows = String::new();
    for k in 1..=20_000 {
        rows.push_str(&format!("{},{},{},-2.5,3e2,4,{},0,1,0\r\n", k, k * 833, k, k % 2));
    }
    let record = parse_dat(described, rows.as_bytes()).unwrap();
    assert_eq!(record.sample_numbers.len(), 20_000);
    assert_eq!(record.sample_numbers[19_999], 20_000);
    assert_eq!(record.analog_channels[0].data[4_999], AnalogSample::Literal(number("5000")));
    assert_eq!(record.status_channels[0].data[4_998], 1);
    assert_eq!(record.timestamps[19_999], ElapsedTime::Sampled { sample_number: 20_000, rate: 0 });

    let binary = config(
        &CONFIG.replace("1200,40", "1200,20000").replace("\nASCII\n", "\nbinary\n"),
    );
    let mut data = Vec::new();
    for k in 1..=20_000u32 {
        data.extend(binary16_record(k, 0, [(k % 1000) as i16, -1, 0, 1], (k % 16) as u16));
    }
    let record = parse_dat(binary, &data).unwrap();
    assert_eq!(record.sample_numbers.len(), 20_000);
    assert_eq!(record.analog_channels[0].data[1_233], AnalogSample::Integer(234));
    assert_eq!(record.status_channels[3].data[7], 1);
}
