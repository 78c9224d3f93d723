use catr::lines::{split_lines, LineEnd};
use catr::numfmt::format_number;

#[test]
fn split_keeps_terminators() {
    let parts = split_lines(b"a\r\nb\nc");
    assert_eq!(parts.len(), 3);
    assert_eq!(parts[0].content, b"a");
    assert_eq!(parts[0].end, LineEnd::CrLf);
    assert_eq!(parts[1].content, b"b");
    assert_eq!(parts[1].end, LineEnd::Lf);
    assert_eq!(parts[2].content, b"c");
    assert_eq!(parts[2].end, LineEnd::Unterminated);
}

#[test]
fn split_trailing_newline_adds_no_line() {
    let parts = split_lines(b"one\n");
    assert_eq!(parts.len(), 1);
    assert_eq!(parts[0].content, b"one");
    assert_eq!(parts[0].end, LineEnd::Lf);
    assert_eq!(split_lines(b"").len(), 0);
}

#[test]
fn number_field_is_right_justified_to_six() {
    assert_eq!(format_number(0), b"     0\t");
    assert_eq!(format_number(1), b"     1\t");
    assert_eq!(format_number(42), b"    42\t");
    assert_eq!(format_number(123456), b"123456\t");
}

#[test]
fn number_field_wider_than_six_keeps_digits() {
    assert_eq!(format_number(1234567), b"1234567\t");
}
