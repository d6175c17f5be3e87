use shiftsrt::rewriter::{process_line, rewrite_lines, LineType, RewriteError, Side};
use shiftsrt::timecode::TimeCodeError;

fn to_lines(v: &[&str]) -> Vec<String> {
    v.iter().map(|s| s.to_string()).collect()
}

#[test]
fn shifts_whole_file_by_positive_offset() {
    let input = to_lines(&[
        "1",
        "00:00:01,000 --> 00:00:03,000",
        "Hello world",
        "",
        "2",
        "00:01:00,500 --> 00:01:02,000",
        "Second line",
        "",
    ]);
    let (out, err) = rewrite_lines(&input, 1500);
    assert_eq!(err, None);
    assert_eq!(
        out,
        to_lines(&[
            "1",
            "00:00:02,500 --> 00:00:04,500",
            "Hello world",
            "",
            "2",
            "00:01:02,000 --> 00:01:03,500",
            "Second line",
            "",
        ])
    );
}

#[test]
fn shifts_whole_file_by_negative_offset() {
    let input = to_lines(&[
        "1",
        "00:00:01,000 --> 00:00:03,000",
        "Hello world",
        "",
        "2",
        "00:01:00,500 --> 00:01:02,000",
        "Second line",
        "",
    ]);
    let (out, err) = rewrite_lines(&input, -500);
    assert_eq!(err, None);
    assert_eq!(
        out,
        to_lines(&[
            "1",
            "00:00:00,500 --> 00:00:02,500",
            "Hello world",
            "",
            "2",
            "00:01:00,000 --> 00:01:01,500",
            "Second line",
            "",
        ])
    );
}

#[test]
fn aborts_on_malformed_second_timecode_line() {
    let input = to_lines(&[
        "1",
        "00:00:01,000 --> 00:00:03,000",
        "Hello world",
        "",
        "2",
        "00:01:00 --> 00:01:02,000",
        "Second line",
        "",
    ]);
    let (out, err) = rewrite_lines(&input, 1500);
    assert_eq!(
        err,
        Some(RewriteError::Parse {
            line: 6,
            side: Side::Start,
            kind: TimeCodeError::FormatError,
        })
    );
    // the first block was produced in full, nothing of the second block's
    // content follows
    assert_eq!(
        out,
        to_lines(&["1", "00:00:02,500 --> 00:00:04,500", "Hello world", "", "2"])
    );
}

#[test]
fn separator_must_be_present() {
    let input = to_lines(&["1", "00:00:01,000 00:00:03,000"]);
    let (out, err) = rewrite_lines(&input, 0);
    assert_eq!(err, Some(RewriteError::Split { line: 2 }));
    assert_eq!(out, to_lines(&["1"]));
}

#[test]
fn separator_must_split_into_exactly_two_fields() {
    let three = "00:00:01,000 --> 00:00:02,000 --> 00:00:03,000";
    let r = process_line(LineType::Timecode, three, 0, 7);
    assert_eq!(r, Err(RewriteError::Split { line: 7 }));
}

#[test]
fn shift_error_names_line_and_side() {
    let r = process_line(LineType::Timecode, "00:00:00,100 --> 00:00:01,000", -200, 3);
    assert_eq!(
        r,
        Err(RewriteError::Shift {
            line: 3,
            side: Side::Start,
        })
    );
    let r = process_line(LineType::Timecode, "00:00:01,000 --> 99:59:59,999", 1, 4);
    assert_eq!(
        r,
        Err(RewriteError::Shift {
            line: 4,
            side: Side::End,
        })
    );
}

#[test]
fn end_side_parse_error_is_reported() {
    let r = process_line(LineType::Timecode, "00:00:01,000 --> bogus", 0, 9);
    assert_eq!(
        r,
        Err(RewriteError::Parse {
            line: 9,
            side: Side::End,
            kind: TimeCodeError::FormatError,
        })
    );
}

#[test]
fn range_error_in_timecode_is_reported() {
    let r = process_line(LineType::Timecode, "00:60:00,000 --> 00:61:00,000", 0, 5);
    assert_eq!(
        r,
        Err(RewriteError::Parse {
            line: 5,
            side: Side::Start,
            kind: TimeCodeError::RangeError,
        })
    );
}

#[test]
fn state_machine_transitions() {
    let r = process_line(LineType::Count, "anything at all", 0, 1).unwrap();
    assert_eq!(r, ("anything at all".to_string(), LineType::Timecode));
    let r = process_line(LineType::Content, "text", 0, 3).unwrap();
    assert_eq!(r, ("text".to_string(), LineType::Content));
    let r = process_line(LineType::Content, "", 0, 4).unwrap();
    assert_eq!(r, ("".to_string(), LineType::Count));
    // a whitespace-only line closes the block but is passed through
    // unchanged
    let r = process_line(LineType::Content, "   ", 0, 5).unwrap();
    assert_eq!(r, ("   ".to_string(), LineType::Count));
}

#[test]
fn timecode_line_is_rewritten_with_canonical_separator() {
    let r = process_line(
        LineType::Timecode,
        "  00:00:01,000  -->  00:00:03,000  ",
        250,
        2,
    )
    .unwrap();
    assert_eq!(r.0, "00:00:01,250 --> 00:00:03,250");
    assert_eq!(r.1, LineType::Content);
}

#[test]
fn non_timecode_lines_pass_through_verbatim() {
    let input = to_lines(&["  padded count  ", "00:00:01,000 --> 00:00:02,000", "  spaced text  "]);
    let (out, err) = rewrite_lines(&input, 0);
    assert_eq!(err, None);
    assert_eq!(out[0], "  padded count  ");
    assert_eq!(out[2], "  spaced text  ");
}

#[test]
fn file_without_trailing_blank_line_is_tolerated() {
    let input = to_lines(&["1", "00:00:01,000 --> 00:00:03,000", "Hello world"]);
    let (out, err) = rewrite_lines(&input, 1000);
    assert_eq!(err, None);
    assert_eq!(
        out,
        to_lines(&["1", "00:00:02,000 --> 00:00:04,000", "Hello world"])
    );
}

#[test]
fn empty_input_produces_empty_output() {
    let input: Vec<String> = Vec::new();
    let (out, err) = rewrite_lines(&input, 12345);
    assert_eq!(err, None);
    assert!(out.is_empty());
}
