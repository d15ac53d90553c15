use pistonite_cu::driver::{process, Driver, DriverOutput};
use pistonite_cu::utf8::decode_char;

fn line_of(o: DriverOutput) -> (u8, String) {
    match o {
        DriverOutput::Line(s) => (0, s),
        DriverOutput::Progress(s) => (1, s),
        DriverOutput::Pending => (2, String::new()),
        DriverOutput::Empty => (3, String::new()),
        DriverOutput::Done => (4, String::new()),
    }
}

#[test]
fn lines_and_progress() {
    let mut d = Driver::new(true, true, false);
    assert_eq!(line_of(d.feed(false, b"hello\n")), (0, String::from("hello")));
    assert_eq!(line_of(d.feed(false, b"50%\r")), (1, String::from("50%")));
    assert_eq!(line_of(d.feed(true, b"   \n")), (3, String::new()));
}

#[test]
fn crlf_is_one_break() {
    let mut d = Driver::new(true, false, true);
    assert_eq!(line_of(d.feed(false, b"a\r\nb")), (0, String::from("a")));
    assert_eq!(line_of(d.feed(false, b"c\n")), (0, String::from("bc")));
}

#[test]
fn split_character_waits_for_its_bytes() {
    let mut d = Driver::new(true, false, true);
    assert_eq!(line_of(d.feed(false, &[0xe6, 0x97])), (3, String::new()));
    assert_eq!(line_of(d.feed(false, &[0xa5, b'\n'])), (0, String::from("\u{65e5}")));
}

#[test]
fn escapes_keep_only_colors() {
    let mut d = Driver::new(true, false, true);
    assert_eq!(
        line_of(d.feed(false, b"\x1b[31mred\x1b[0m\n")),
        (0, String::from("\x1b[31mred\x1b[0m"))
    );
    assert_eq!(line_of(d.feed(false, b"\x1b[2Kx\x07\n")), (0, String::from("x")));
}

#[test]
fn all_lines_or_last_line() {
    let mut d = Driver::new(true, false, false);
    assert_eq!(line_of(d.feed(false, b"a\nb\n")), (0, String::from("a\nb")));
    let mut d = Driver::new(true, false, true);
    assert_eq!(line_of(d.feed(false, b"a\nb\n")), (0, String::from("b")));
}

#[test]
fn streams_end() {
    let mut d = Driver::new(true, true, false);
    assert!(d.is_out_open() && d.is_err_open());
    assert_eq!(line_of(d.end_stream(false)), (2, String::new()));
    assert!(!d.is_out_open());
    assert_eq!(line_of(d.end_stream(true)), (4, String::new()));
    assert!(!d.is_err_open());
}

#[test]
fn process_reports_used_bytes() {
    let mut out = String::new();
    let mut line = String::new();
    let (used, lf) = process(b"ab\ncd\xe6", &mut out, &mut line, true);
    assert_eq!(used, 5);
    assert!(lf);
    assert_eq!(out, "cd");
    assert_eq!(line, "ab");
    let (used, _) = process(b"\xffz", &mut out, &mut line, true);
    assert_eq!(used, 2);
    assert_eq!(out, "cdz");
}

#[test]
fn classify_output() {
    assert_eq!(line_of(DriverOutput::new("  x ", true)), (0, String::from("x")));
    assert_eq!(line_of(DriverOutput::new("x", false)), (1, String::from("x")));
    assert_eq!(line_of(DriverOutput::new(" ", false)), (3, String::new()));
}

#[test]
fn utf8_decoding() {
    assert_eq!(decode_char("\u{65e5}".as_bytes(), 0), Ok(('\u{65e5}', 3)));
    assert_eq!(decode_char(b"ab", 1), Ok(('b', 1)));
    assert_eq!(decode_char(&[0xff], 0), Err(true));
    assert_eq!(decode_char(&[0xe6], 0), Err(false));
    assert_eq!(decode_char(b"", 0), Err(false));
    assert_eq!(decode_char(&[0xc0, 0x80], 0), Err(true));
}
