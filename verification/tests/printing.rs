use pistonite_cu::format::{capped_width, width_or_max};
use pistonite_cu::ansi::{colors, controls, with_width};
use pistonite_cu::format::{cap_dimensions, FormatBuffer};
use pistonite_cu::level::{ColorLevel, LogFilter, Lv, PrintLevel, PrintType, PromptLevel};
use pistonite_cu::message::{
    format_bar_done, format_message, format_prompt, print_bar_done, print_message,
    print_progress_bar_done, show_prompt,
};

fn plain_message(lv: Lv, name: Option<&str>, msg: &str) -> String {
    let mut buf = FormatBuffer::new();
    print_message(&mut buf, &colors(false), lv, name, msg);
    buf.take()
}

#[test]
fn message_tags_per_level() {
    assert_eq!(plain_message(Lv::Error, None, "x"), "E] x\n");
    assert_eq!(plain_message(Lv::Hint, None, "x"), "H] x\n");
    assert_eq!(plain_message(Lv::Print, None, "x"), ":: x\n");
    assert_eq!(plain_message(Lv::Warn, None, "x"), "W] x\n");
    assert_eq!(plain_message(Lv::Info, None, "x"), "I] x\n");
    assert_eq!(plain_message(Lv::Debug, None, "x"), "D] x\n");
    assert_eq!(plain_message(Lv::Trace, None, "x"), "*] x\n");
}

#[test]
fn message_with_thread_name_and_lines() {
    assert_eq!(plain_message(Lv::Info, Some("main"), "hello"), "I][main] hello\n");
    assert_eq!(plain_message(Lv::Info, None, "a\nb"), "I] a\n | b\n");
    assert_eq!(plain_message(Lv::Info, None, "a\r\nb\n"), "I] a\n | b\n");
}

#[test]
fn message_in_color() {
    let mut buf = FormatBuffer::new();
    print_message(&mut buf, &colors(true), Lv::Error, None, "bad");
    assert_eq!(buf.as_str(), "\x1b[1;31mE]\x1b[1;31m bad\n");
}

#[test]
fn first_form_print_tag() {
    let mut buf = FormatBuffer::new();
    format_message(&mut buf, &colors(false), PrintType::Print, None, "p");
    assert_eq!(buf.take(), " : p\n");
    format_message(&mut buf, &colors(false), PrintType::Warn, None, "w");
    assert_eq!(buf.take(), "W] w\n");
}

#[test]
fn buffer_wraps_at_width() {
    let mut buf = FormatBuffer::new();
    buf.reset_to_width(10, "", "");
    buf.push_str("abcdefghijkl");
    assert_eq!(buf.as_str(), "abcdefghij\n | kl");
    buf.end();
    assert_eq!(buf.take(), "abcdefghij\n | kl\n");
}

#[test]
fn buffer_narrow_does_not_wrap() {
    let mut buf = FormatBuffer::new();
    buf.reset_to_width(4, "", "");
    buf.push_str("abcdefgh");
    assert_eq!(buf.as_str(), "abcdefgh");
}

#[test]
fn buffer_newline_and_controls() {
    let mut buf = FormatBuffer::new();
    buf.reset_to_width(20, "<g>", "<t>");
    buf.push_control("\x1b[0m");
    buf.push('a', 1);
    buf.push('\n', 0);
    buf.push('b', 1);
    assert_eq!(buf.as_str(), "\x1b[0ma\n<g> | <t>b");
}

#[test]
fn buffer_wide_characters_wrap() {
    let mut buf = FormatBuffer::new();
    buf.reset_to_width(6, "", "");
    buf.push_str("日本語");
    assert_eq!(buf.as_str(), "日本語");
    buf.push_str("x");
    assert_eq!(buf.as_str(), "日本語\n | x");
}

#[test]
fn prompts() {
    let mut buf = FormatBuffer::new();
    format_prompt(&mut buf, &colors(false), "continue?");
    assert_eq!(buf.take(), "!] continue?\n-: ");
    show_prompt(&mut buf, &colors(false), "password", true);
    assert_eq!(buf.take(), "!] password: ");
    show_prompt(&mut buf, &colors(false), "name", false);
    assert_eq!(buf.take(), "!] name\n-: ");
}

#[test]
fn finished_bars() {
    assert_eq!(format_bar_done(10, "build"), "\u{283f}][10/10] build: done");
    assert_eq!(format_bar_done(0, ""), "\u{283f}] done");
    assert_eq!(format_bar_done(0, "x"), "\u{283f}] x: done");
    let mut buf = FormatBuffer::new();
    print_bar_done(&mut buf, &colors(false), "ok", true);
    assert_eq!(buf.take(), "ok\n");
    print_progress_bar_done(&mut buf, &colors(false), 3, "copy");
    assert_eq!(buf.take(), "\u{283f}][3/3] copy: done\n");
}

#[test]
fn widths_skip_escapes() {
    let w = with_width("a\x1b[1mb日");
    let ws: Vec<usize> = w.iter().map(|p| p.1).collect();
    assert_eq!(ws, vec![1, 0, 0, 0, 0, 1, 2]);
}

#[test]
fn control_codes() {
    assert_eq!(controls(true).move_to_begin_and_clear, "\r\x1b[K");
    assert_eq!(controls(false).move_to_begin_and_clear, "");
    assert_eq!(colors(true).reset, "\x1b[0m");
    assert_eq!(colors(false).green, "");
}

#[test]
fn terminal_size_is_capped() {
    assert_eq!(cap_dimensions(Some((1000, 20))), Some((400, 20)));
    assert_eq!(cap_dimensions(None), None);
}

#[test]
fn levels() {
    assert_eq!(PrintLevel::from(0u8), PrintLevel::QuietQuiet);
    assert_eq!(PrintLevel::from(2u8), PrintLevel::Normal);
    assert_eq!(PrintLevel::from(9u8), PrintLevel::Normal);
    assert_eq!(PrintLevel::from(4u8), PrintLevel::VerboseVerbose);
    assert_eq!(PrintLevel::from(-2i8), PrintLevel::QuietQuiet);
    assert_eq!(PrintLevel::from(-1i8), PrintLevel::Quiet);
    assert_eq!(PrintLevel::from(1i8), PrintLevel::Verbose);
    assert_eq!(u8::from(PrintLevel::Verbose), 3);
    assert_eq!(PrintLevel::Verbose.to_u8(), 3);
    assert_eq!(PromptLevel::from(1u8), PromptLevel::Yes);
    assert_eq!(u8::from(PromptLevel::No), 2);
    assert!(Lv::Error.can_print(PrintLevel::Quiet));
    assert!(!Lv::Error.can_print(PrintLevel::QuietQuiet));
    assert!(!Lv::Info.can_print(PrintLevel::Quiet));
    assert!(Lv::Debug.can_print(PrintLevel::Verbose));
    assert!(!Lv::Trace.can_print(PrintLevel::Verbose));
    assert!(PrintType::Trace.can_print(PrintLevel::VerboseVerbose));
    assert_eq!(PrintLevel::Normal.log_filter(), LogFilter::Info);
    assert_eq!(PrintLevel::QuietQuiet.log_filter(), LogFilter::Off);
    assert_eq!(ColorLevel::default().to_string(), "auto");
    assert_eq!(ColorLevel::Always.to_string(), "always");
}

#[test]
fn terminal_width_fallbacks() {
    assert_eq!(capped_width(None), None);
    assert_eq!(capped_width(Some((80, 24))), Some(80));
    assert_eq!(capped_width(Some((500, 24))), Some(400));
    assert_eq!(width_or_max(None), 400);
    assert_eq!(width_or_max(Some((120, 2))), 120);
    assert_eq!(width_or_max(Some((401, 2))), 400);
}
