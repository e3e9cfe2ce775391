use comtrade::offset::parse_time_offset;
use comtrade::stamp::ts_base_unit;
use comtrade::{ErrorKind, Subject, TimeUnit, UtcOffset};

const HOUR: i32 = 3600;
const MINUTE: i32 = 60;

#[test]
fn letter_x_means_no_offset() {
    assert_eq!(parse_time_offset("x"), Ok(None));
    assert_eq!(parse_time_offset("X"), Ok(None));
    assert_eq!(parse_time_offset(" x "), Ok(None));
}

#[test]
fn whole_hours_count_east_of_utc() {
    assert_eq!(parse_time_offset("-5"), Ok(Some(UtcOffset { seconds_east: -5 * HOUR })));
    assert_eq!(parse_time_offset("+10"), Ok(Some(UtcOffset { seconds_east: 10 * HOUR })));
    assert_eq!(parse_time_offset("0"), Ok(Some(UtcOffset { seconds_east: 0 })));
    assert_eq!(parse_time_offset(" -4 "), Ok(Some(UtcOffset { seconds_east: -4 * HOUR })));
}

#[test]
fn minutes_follow_the_sign_of_the_hours() {
    assert_eq!(
        parse_time_offset("-5h30"),
        Ok(Some(UtcOffset { seconds_east: -(5 * HOUR + 30 * MINUTE) }))
    );
    assert_eq!(
        parse_time_offset("+10h30"),
        Ok(Some(UtcOffset { seconds_east: 10 * HOUR + 30 * MINUTE }))
    );
    assert_eq!(
        parse_time_offset("-7h15"),
        Ok(Some(UtcOffset { seconds_east: -(7 * HOUR + 15 * MINUTE) }))
    );
    assert_eq!(
        parse_time_offset("9h45"),
        Ok(Some(UtcOffset { seconds_east: 9 * HOUR + 45 * MINUTE }))
    );
}

#[test]
fn minutes_are_taken_from_zero_hours() {
    assert_eq!(parse_time_offset("0h30"), Ok(Some(UtcOffset { seconds_east: -30 * MINUTE })));
    assert_eq!(parse_time_offset("-0h30"), Ok(Some(UtcOffset { seconds_east: -30 * MINUTE })));
}

#[test]
fn a_token_of_another_shape_is_an_invalid_token() {
    for token in ["", "abc", "1h2h3", "5H30", "5.5"] {
        let error = parse_time_offset(token).unwrap_err();
        assert_eq!(error.kind, ErrorKind::InvalidToken, "{:?}", token);
        assert_eq!(error.subject, Subject::TimeOffset);
    }
}

#[test]
fn hours_or_minutes_that_are_no_integers_are_invalid_numbers() {
    for token in ["5h", "h30", "ah30", "5hb", "99999999999h1"] {
        let error = parse_time_offset(token).unwrap_err();
        assert_eq!(error.kind, ErrorKind::InvalidNumber, "{:?}", token);
    }
}

#[test]
fn an_offset_of_a_day_or_more_is_a_semantic_error() {
    for token in ["24", "-24", "23h60", "2147483647", "-2147483648h2147483647"] {
        let error = parse_time_offset(token).unwrap_err();
        assert_eq!(error.kind, ErrorKind::Semantic, "{:?}", token);
    }
    assert_eq!(
        parse_time_offset("23h59"),
        Ok(Some(UtcOffset { seconds_east: 23 * HOUR + 59 * MINUTE }))
    );
    assert_eq!(
        parse_time_offset("-23h59"),
        Ok(Some(UtcOffset { seconds_east: -(23 * HOUR + 59 * MINUTE) }))
    );
}

#[test]
fn six_digits_or_fewer_after_the_point_mean_microseconds() {
    assert_eq!(ts_base_unit("12/01/2011,05:55:30.750110"), TimeUnit::Microsecond);
    assert_eq!(ts_base_unit("12/01/2011,05:55:30.75"), TimeUnit::Microsecond);
    assert_eq!(ts_base_unit("12/01/2011,05:55:30."), TimeUnit::Microsecond);
    assert_eq!(ts_base_unit(" 12/01/2011,05:55:30.750110 \r"), TimeUnit::Microsecond);
}

#[test]
fn more_than_six_digits_after_the_point_mean_nanoseconds() {
    assert_eq!(ts_base_unit("12/01/2011,05:55:30.7501100"), TimeUnit::Nanosecond);
    assert_eq!(ts_base_unit("12/01/2011,05:55:30.750110123"), TimeUnit::Nanosecond);
}

#[test]
fn a_stamp_without_a_point_means_microseconds() {
    assert_eq!(ts_base_unit("12/01/2011,05:55:30"), TimeUnit::Microsecond);
    assert_eq!(ts_base_unit(""), TimeUnit::Microsecond);
}
