use catr::render;
use catr::Mode;

fn out(input: &str, mode: Mode) -> String {
    String::from_utf8(render(input.as_bytes(), mode)).unwrap()
}

#[test]
fn plain_verbatim() {
    let samples = [
        "Hello\nWorld\n\n",
        "no newline at end",
        "a\r\nb\r\n",
        "\n\n\n",
        "mixed\nend\r\n\rodd\r",
        "tab\there\n",
    ];
    for s in samples {
        assert_eq!(out(s, Mode::Plain), s);
    }
}

#[test]
fn plain_idempotent() {
    let s = "Hello\nWorld\n\n";
    let once = render(s.as_bytes(), Mode::Plain);
    let twice = render(&once, Mode::Plain);
    assert_eq!(twice, once);
    assert_eq!(once, s.as_bytes());
}

#[test]
fn empty() {
    assert_eq!(render(b"", Mode::Plain), b"");
    assert_eq!(render(b"", Mode::NumberAll), b"");
    assert_eq!(render(b"", Mode::NumberNonBlank), b"");
}

#[test]
fn number_all_scenario() {
    assert_eq!(
        out("Hello\nWorld\n\n", Mode::NumberAll),
        "     1\tHello\n     2\tWorld\n     3\t\n"
    );
}

#[test]
fn number_nonblank_scenario() {
    assert_eq!(
        out("Hello\nWorld\n\n", Mode::NumberNonBlank),
        "     1\tHello\n     2\tWorld\n\n"
    );
}

#[test]
fn number_all_counts_blank_lines() {
    assert_eq!(out("\n\n", Mode::NumberAll), "     1\t\n     2\t\n");
}

#[test]
fn number_all_no_trailing_newline() {
    assert_eq!(out("a\nb", Mode::NumberAll), "     1\ta\n     2\tb");
}

#[test]
fn number_all_two_digit_numbers() {
    let input = "x\n".repeat(12);
    let expected: String = (1..=12).map(|k| format!("{k:6}\tx\n")).collect();
    assert_eq!(out(&input, Mode::NumberAll), expected);
}

#[test]
fn number_nonblank_blank_first_line() {
    assert_eq!(
        out("\nfoo\n\nbar", Mode::NumberNonBlank),
        "\n     1\tfoo\n\n     2\tbar"
    );
}

#[test]
fn number_nonblank_crlf_blank_line() {
    assert_eq!(
        out("x\r\n\r\ny\r\n", Mode::NumberNonBlank),
        "     1\tx\r\n\r\n     2\ty\r\n"
    );
}

#[test]
fn lone_carriage_return_is_content() {
    // A carriage return not followed by a line feed terminates nothing.
    assert_eq!(out("\r", Mode::NumberNonBlank), "     1\t\r");
    assert_eq!(out("a\rb\n", Mode::NumberAll), "     1\ta\rb\n");
}
