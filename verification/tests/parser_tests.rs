use loss_diff::num::SCALE;
use loss_diff::parser::{parse, ParseError, ParseErrorKind};

#[test]
fn parses_three_plain_rows() {
    let records = parse(b"1,10,8\n2,9,9\n3,5,10").unwrap();
    assert_eq!(records.len(), 3);
    assert_eq!(records[0].step, SCALE);
    assert_eq!(records[0].value_a, 10 * SCALE);
    assert_eq!(records[0].value_b, 8 * SCALE);
    assert_eq!(records[2].step, 3 * SCALE);
    assert_eq!(records[2].value_a, 5 * SCALE);
    assert_eq!(records[2].value_b, 10 * SCALE);
}

#[test]
fn parses_signs_fractions_and_bare_dots() {
    let records = parse(b"-1,+2.25,.5\n2,1.,0.00000001").unwrap();
    assert_eq!(records[0].step, -SCALE);
    assert_eq!(records[0].value_a, 225_000_000);
    assert_eq!(records[0].value_b, 50_000_000);
    assert_eq!(records[1].value_a, SCALE);
    assert_eq!(records[1].value_b, 1);
}

#[test]
fn parses_crlf_and_trailing_newline() {
    let records = parse(b"1,2,3\r\n4,5,6\n").unwrap();
    assert_eq!(records.len(), 2);
    assert_eq!(records[1].step, 4 * SCALE);
}

#[test]
fn skips_blank_lines_but_keeps_row_indices() {
    let records = parse(b"1,2,3\n\n4,5,6").unwrap();
    assert_eq!(records.len(), 2);
    let err = parse(b"1,2,3\n\nbad,1,2").unwrap_err();
    assert_eq!(err, ParseError { row: 2, kind: ParseErrorKind::InvalidNumber });
}

#[test]
fn empty_input_yields_no_records() {
    assert_eq!(parse(b"").unwrap().len(), 0);
    assert_eq!(parse(b"\n\n").unwrap().len(), 0);
}

#[test]
fn rejects_wrong_column_count() {
    let err = parse(b"1,2").unwrap_err();
    assert_eq!(err, ParseError { row: 0, kind: ParseErrorKind::WrongColumnCount });
    let err = parse(b"1,2,3,4").unwrap_err();
    assert_eq!(err, ParseError { row: 0, kind: ParseErrorKind::WrongColumnCount });
    let err = parse(b"1,2,3\n7;8;9").unwrap_err();
    assert_eq!(err, ParseError { row: 1, kind: ParseErrorKind::WrongColumnCount });
}

#[test]
fn rejects_non_numeric_fields() {
    let err = parse(b"1,oops,3").unwrap_err();
    assert_eq!(err, ParseError { row: 0, kind: ParseErrorKind::InvalidNumber });
    let err = parse(b"1,2,3\n2,3,4.5.6").unwrap_err();
    assert_eq!(err, ParseError { row: 1, kind: ParseErrorKind::InvalidNumber });
    let err = parse(b"1,.,3").unwrap_err();
    assert_eq!(err, ParseError { row: 0, kind: ParseErrorKind::InvalidNumber });
    let err = parse(b"1,,3").unwrap_err();
    assert_eq!(err, ParseError { row: 0, kind: ParseErrorKind::InvalidNumber });
    let err = parse(b"1, 2,3").unwrap_err();
    assert_eq!(err, ParseError { row: 0, kind: ParseErrorKind::InvalidNumber });
}

#[test]
fn rejects_too_many_fraction_digits() {
    let err = parse(b"1,0.123456789,3").unwrap_err();
    assert_eq!(err, ParseError { row: 0, kind: ParseErrorKind::UnsupportedPrecision });
    assert!(parse(b"1,0.12345678,3").is_ok());
}

#[test]
fn rejects_values_out_of_range() {
    // The largest representable magnitude is 10^10 at eight decimals.
    assert!(parse(b"1,10000000000,3").is_ok());
    let err = parse(b"1,10000000000.00000001,3").unwrap_err();
    assert_eq!(err, ParseError { row: 0, kind: ParseErrorKind::ValueOutOfRange });
    let err = parse(b"1,99999999999,3").unwrap_err();
    assert_eq!(err, ParseError { row: 0, kind: ParseErrorKind::ValueOutOfRange });
}

#[test]
fn first_bad_row_wins() {
    let err = parse(b"1,2,3\nbad,0,0\n4,5,6,7").unwrap_err();
    assert_eq!(err, ParseError { row: 1, kind: ParseErrorKind::InvalidNumber });
}

#[test]
fn leading_zeros_are_accepted() {
    let records = parse(b"0001,000.5,00000000000000000000001").unwrap();
    assert_eq!(records[0].step, SCALE);
    assert_eq!(records[0].value_a, 50_000_000);
    assert_eq!(records[0].value_b, SCALE);
}
