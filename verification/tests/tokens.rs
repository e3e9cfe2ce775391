use comtrade::{
    AnalogScalingMode, DataFormat, ErrorKind, FileType, FormatRevision, LeapSecondStatus, Subject,
    TimeQuality,
};

#[test]
fn file_type_tokens_are_read_in_any_case() {
    assert_eq!(FileType::from_str("cfg"), Ok(FileType::Cfg));
    assert_eq!(FileType::from_str("DAT"), Ok(FileType::Dat));
    assert_eq!(FileType::from_str(" Hdr "), Ok(FileType::Hdr));
    assert_eq!(FileType::from_str("inf"), Ok(FileType::Inf));
}

#[test]
fn unknown_file_type_is_an_invalid_token() {
    let error = FileType::from_str("cff").unwrap_err();
    assert_eq!(error.kind, ErrorKind::InvalidToken);
    assert_eq!(error.subject, Subject::FileType);
}

#[test]
fn revision_years_are_read_exactly() {
    assert_eq!(FormatRevision::from_str("1991"), Ok(FormatRevision::Revision1991));
    assert_eq!(FormatRevision::from_str("1999"), Ok(FormatRevision::Revision1999));
    assert_eq!(FormatRevision::from_str("2013"), Ok(FormatRevision::Revision2013));
    let error = FormatRevision::from_str("2001").unwrap_err();
    assert_eq!(error.kind, ErrorKind::InvalidToken);
    assert_eq!(error.subject, Subject::Revision);
    assert!(FormatRevision::from_str(" 1999").is_err());
}

#[test]
fn data_format_tokens_are_read_in_any_case() {
    assert_eq!(DataFormat::from_str("ascii"), Ok(DataFormat::Ascii));
    assert_eq!(DataFormat::from_str("ASCII\r"), Ok(DataFormat::Ascii));
    assert_eq!(DataFormat::from_str("Binary"), Ok(DataFormat::Binary16));
    assert_eq!(DataFormat::from_str("binary32"), Ok(DataFormat::Binary32));
    assert_eq!(DataFormat::from_str("FLOAT32"), Ok(DataFormat::Float32));
    let error = DataFormat::from_str("binary16").unwrap_err();
    assert_eq!(error.kind, ErrorKind::InvalidToken);
    assert_eq!(error.subject, Subject::DataFormat);
}

#[test]
fn scaling_mode_letters_are_read_in_either_case() {
    assert_eq!(AnalogScalingMode::from_str("p"), Ok(AnalogScalingMode::Primary));
    assert_eq!(AnalogScalingMode::from_str("P"), Ok(AnalogScalingMode::Primary));
    assert_eq!(AnalogScalingMode::from_str("s"), Ok(AnalogScalingMode::Secondary));
    assert_eq!(AnalogScalingMode::from_str("S"), Ok(AnalogScalingMode::Secondary));
    let error = AnalogScalingMode::from_str("x").unwrap_err();
    assert_eq!(error.kind, ErrorKind::InvalidToken);
    assert_eq!(error.subject, Subject::ScalingMode);
    assert!(AnalogScalingMode::from_str(" p").is_err());
}

#[test]
fn time_quality_codes_cover_the_whole_table() {
    assert_eq!(TimeQuality::parse("0"), Ok(TimeQuality::ClockLocked));
    assert_eq!(TimeQuality::parse("1"), Ok(TimeQuality::ClockUnlocked(-9)));
    assert_eq!(TimeQuality::parse("2"), Ok(TimeQuality::ClockUnlocked(-8)));
    assert_eq!(TimeQuality::parse("3"), Ok(TimeQuality::ClockUnlocked(-7)));
    assert_eq!(TimeQuality::parse("4"), Ok(TimeQuality::ClockUnlocked(-6)));
    assert_eq!(TimeQuality::parse("5"), Ok(TimeQuality::ClockUnlocked(-5)));
    assert_eq!(TimeQuality::parse("6"), Ok(TimeQuality::ClockUnlocked(-4)));
    assert_eq!(TimeQuality::parse("7"), Ok(TimeQuality::ClockUnlocked(-3)));
    assert_eq!(TimeQuality::parse("8"), Ok(TimeQuality::ClockUnlocked(-2)));
    assert_eq!(TimeQuality::parse("9"), Ok(TimeQuality::ClockUnlocked(-1)));
    assert_eq!(TimeQuality::parse("a"), Ok(TimeQuality::ClockUnlocked(0)));
    assert_eq!(TimeQuality::parse("B"), Ok(TimeQuality::ClockUnlocked(1)));
    assert_eq!(TimeQuality::parse(" F "), Ok(TimeQuality::ClockFailure));
    let error = TimeQuality::parse("c").unwrap_err();
    assert_eq!(error.kind, ErrorKind::InvalidToken);
    assert_eq!(error.subject, Subject::TimeQuality);
}

#[test]
fn leap_second_codes_cover_the_whole_table() {
    assert_eq!(LeapSecondStatus::parse("0"), Ok(LeapSecondStatus::NotPresent));
    assert_eq!(LeapSecondStatus::parse("1"), Ok(LeapSecondStatus::Added));
    assert_eq!(LeapSecondStatus::parse("2"), Ok(LeapSecondStatus::Subtracted));
    assert_eq!(LeapSecondStatus::parse(" 3\r"), Ok(LeapSecondStatus::NoCapability));
    let error = LeapSecondStatus::parse("4").unwrap_err();
    assert_eq!(error.kind, ErrorKind::InvalidToken);
    assert_eq!(error.subject, Subject::LeapSecond);
}
