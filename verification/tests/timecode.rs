use shiftsrt::timecode::{TimeCode, TimeCodeError};

#[test]
fn total_milliseconds_exact_formula() {
    let tc = TimeCode::new(1, 2, 3, 4);
    assert_eq!(tc.get_millisecond_in_total(), 3_723_004);
    assert_eq!(TimeCode::new(0, 0, 0, 0).get_millisecond_in_total(), 0);
    assert_eq!(TimeCode::new(99, 59, 59, 999).get_millisecond_in_total(), 359_999_999);
}

#[test]
fn round_trip_from_milliseconds() {
    let tc = TimeCode::new(12, 34, 56, 789);
    let total = tc.get_millisecond_in_total();
    assert_eq!(total, 12 * 3_600_000 + 34 * 60_000 + 56 * 1_000 + 789);
    assert_eq!(TimeCode::millisecond_to_timecode(total), Ok(tc));
}

#[test]
fn from_milliseconds_rejects_past_max() {
    assert_eq!(
        TimeCode::millisecond_to_timecode(360_000_000),
        Err(TimeCodeError::RangeError)
    );
    assert_eq!(
        TimeCode::millisecond_to_timecode(359_999_999),
        Ok(TimeCode::new(99, 59, 59, 999))
    );
}

#[test]
fn zero_shift_is_identity() {
    let mut tc = TimeCode::new(5, 6, 7, 8);
    assert_eq!(tc.shift(0), Ok(()));
    assert_eq!(tc, TimeCode::new(5, 6, 7, 8));
}

#[test]
fn shift_composition_matches_summed_offset() {
    let mut one_by_one = TimeCode::new(0, 10, 0, 0);
    assert_eq!(one_by_one.shift(90_000), Ok(()));
    assert_eq!(one_by_one.shift(-30_500), Ok(()));
    let mut at_once = TimeCode::new(0, 10, 0, 0);
    assert_eq!(at_once.shift(90_000 - 30_500), Ok(()));
    assert_eq!(one_by_one, at_once);
    assert_eq!(one_by_one, TimeCode::new(0, 10, 59, 500));
}

#[test]
fn parse_format_inverse() {
    let tc = TimeCode::new(7, 8, 9, 12);
    assert_eq!(TimeCode::parse(&tc.format_string()), Ok(tc));
    let edge = TimeCode::new(99, 59, 59, 999);
    assert_eq!(TimeCode::parse(&edge.format_string()), Ok(edge));
    let zero = TimeCode::new(0, 0, 0, 0);
    assert_eq!(TimeCode::parse(&zero.format_string()), Ok(zero));
}

#[test]
fn format_pads_fields() {
    assert_eq!(TimeCode::new(0, 0, 2, 500).format_string(), "00:00:02,500");
    assert_eq!(TimeCode::new(99, 59, 59, 999).format_string(), "99:59:59,999");
    assert_eq!(TimeCode::new(1, 2, 3, 4).format_string(), "01:02:03,004");
}

#[test]
fn parse_rejects_out_of_range_components() {
    assert_eq!(TimeCode::parse("99:60:00,000"), Err(TimeCodeError::RangeError));
    assert_eq!(TimeCode::parse("100:00:00,000"), Err(TimeCodeError::RangeError));
    assert_eq!(TimeCode::parse("00:00:60,000"), Err(TimeCodeError::RangeError));
    assert_eq!(TimeCode::parse("00:00:00,1000"), Err(TimeCodeError::RangeError));
}

#[test]
fn parse_rejects_missing_seconds_field() {
    assert_eq!(TimeCode::parse("01:02,500"), Err(TimeCodeError::FormatError));
}

#[test]
fn shift_overflow_is_range_error() {
    let mut tc = TimeCode::new(99, 59, 59, 999);
    assert_eq!(tc.shift(1), Err(TimeCodeError::RangeError));
    assert_eq!(tc, TimeCode::new(99, 59, 59, 999));
}

#[test]
fn shift_underflow_is_range_error() {
    let mut tc = TimeCode::new(0, 0, 0, 0);
    assert_eq!(tc.shift(-1), Err(TimeCodeError::RangeError));
    assert_eq!(tc, TimeCode::new(0, 0, 0, 0));
}

#[test]
fn parse_tolerates_whitespace_and_plus_signs() {
    assert_eq!(TimeCode::parse(" 01:02:03,004 "), Ok(TimeCode::new(1, 2, 3, 4)));
    assert_eq!(
        TimeCode::parse("01 : 02 : 03 , 004"),
        Ok(TimeCode::new(1, 2, 3, 4))
    );
    assert_eq!(TimeCode::parse("+1:02:03,004"), Ok(TimeCode::new(1, 2, 3, 4)));
}

#[test]
fn parse_rejects_non_numeric_components() {
    assert_eq!(TimeCode::parse("aa:02:03,004"), Err(TimeCodeError::FormatError));
    assert_eq!(TimeCode::parse("01:02:03,xyz"), Err(TimeCodeError::FormatError));
    assert_eq!(TimeCode::parse(""), Err(TimeCodeError::FormatError));
    assert_eq!(TimeCode::parse("no comma"), Err(TimeCodeError::FormatError));
    assert_eq!(TimeCode::parse("-1:00:00,000"), Err(TimeCodeError::FormatError));
    assert_eq!(TimeCode::parse("01:02:03,"), Err(TimeCodeError::FormatError));
}

#[test]
fn format_error_wins_over_range_error() {
    // the millisecond value is numeric but out of range while the hour is
    // not numeric at all: the shape error is the one reported
    assert_eq!(TimeCode::parse("xx:00:00,5000"), Err(TimeCodeError::FormatError));
    assert_eq!(TimeCode::parse("00:00:00,5000"), Err(TimeCodeError::RangeError));
}

#[test]
fn parse_ignores_text_after_second_comma_and_third_colon() {
    assert_eq!(
        TimeCode::parse("01:02:03,004,junk"),
        Ok(TimeCode::new(1, 2, 3, 4))
    );
    assert_eq!(
        TimeCode::parse("01:02:03:99,004"),
        Ok(TimeCode::new(1, 2, 3, 4))
    );
}

#[test]
fn shift_moves_by_exact_offset() {
    let mut tc = TimeCode::new(0, 0, 1, 0);
    assert_eq!(tc.shift(1500), Ok(()));
    assert_eq!(tc, TimeCode::new(0, 0, 2, 500));
    let mut back = TimeCode::new(0, 0, 2, 500);
    assert_eq!(back.shift(-1500), Ok(()));
    assert_eq!(back, TimeCode::new(0, 0, 1, 0));
}
