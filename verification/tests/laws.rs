use pistonite_cu::ansi::{colors, with_width};
use pistonite_cu::bars::{ProgressBarState, SimpleBar};
use pistonite_cu::cargo::PrintState;
use pistonite_cu::level::Lv;
use pistonite_cu::format::FormatBuffer;
use pistonite_cu::parse::{parse, parse_owned, parse_u16, parse_u64, parse_u8};
use pistonite_cu::paths::{file_name_str, normalize_executable_with};
use pistonite_cu::progress::{BarFormatter, BarNode, ChildNode, State, StateImmut};

fn columns(s: &str) -> usize {
    with_width(s).iter().map(|p| p.1).sum()
}

#[test]
fn decimal_text_reads_back() {
    for n in [0u64, 7, 10, 99, 1234567, u64::MAX] {
        assert_eq!(parse_u64(&n.to_string()), Ok(n));
    }
    assert_eq!(parse_u8("255"), Ok(255));
    assert_eq!(parse_u16(&65535u16.to_string()), Ok(65535));
}

#[test]
fn executable_keeps_its_name() {
    let p = "bin/../tool";
    let n = normalize_executable_with(p, Some(String::from("/opt"))).unwrap();
    assert_eq!(n, "/opt/tool");
    assert_eq!(file_name_str(&n), file_name_str(p));
}

#[test]
fn bar_lines_fit_their_width() {
    let im = StateImmut {
        id: 0,
        prefix: String::from("a very long prefix for a bar"),
        done_message: None,
        interrupted_message: None,
        show_percentage: true,
        unbounded: false,
        display_bytes: false,
        max_display_children: 1,
    };
    let mut st = State::new(100);
    st.set_current(42);
    st.set_message("\u{65e5}\u{672c}\u{8a9e} message");
    for w in 0..40 {
        let mut out = String::new();
        st.format_self(&mut out, w, &im, "42.00%", Some("ETA 1.00s;"));
        assert!(columns(&out) <= w, "width {w}: {out:?}");
    }
    let b = ProgressBarState {
        total: 10,
        current: 10,
        prefix: String::from("\u{65e5}\u{672c}"),
        message: String::from("done here"),
    };
    let s = SimpleBar::new(3, String::from("jobs running"), false);
    for w in 0..30 {
        let mut out = String::new();
        b.format(&mut out, w, true, "", Some("ETA 0.00s;"));
        assert!(columns(&out) <= w);
        let mut out = String::new();
        s.format(&mut out, w, true, "0.00%", "ETA 9.99s");
        assert!(columns(&out) <= w);
    }
}

#[test]
fn bar_message_ignores_status_order() {
    let mut a = PrintState::new(Lv::Error, Lv::Warn, Lv::Debug, false).unwrap();
    let mut b = PrintState::new(Lv::Error, Lv::Warn, Lv::Debug, false).unwrap();
    a.handle_stderr("   Compiling zeta v1.0.0");
    a.handle_stderr("   Compiling alpha v1.0.0");
    b.handle_stderr("   Compiling alpha v1.0.0");
    b.handle_stderr("   Compiling zeta v1.0.0");
    assert_eq!(a.update_bar(), b.update_bar());
    assert_eq!(a.update_bar(), Some(String::from("0 done, compiling: alpha, zeta")));
    let _ = colors(false);
}

#[test]
fn bar_lines_are_one_line() {
    let b = ProgressBarState {
        total: 10,
        current: 4,
        prefix: String::from("copy"),
        message: String::from("a file with a long name"),
    };
    let s = SimpleBar::new(8, String::from("jobs"), true);
    for w in 0..50 {
        let mut out = String::new();
        b.format(&mut out, w, true, "40.00%", Some("ETA 3.00s;"));
        assert!(!out.contains('\n'));
        let mut out = String::new();
        s.format(&mut out, w, true, "0.00%", "ETA 1.00s");
        assert!(!out.contains('\n'));
    }
}

fn leaf(prefix: &str, children: Vec<ChildNode>, max: usize) -> BarNode {
    BarNode {
        immut: StateImmut {
            id: 0,
            prefix: String::from(prefix),
            done_message: None,
            interrupted_message: None,
            show_percentage: false,
            unbounded: true,
            display_bytes: false,
            max_display_children: max,
        },
        state: State::new(0),
        percentage: String::new(),
        eta: None,
        children,
    }
}

#[test]
fn tree_lines_are_newlines() {
    let fmt = BarFormatter { colors: colors(true), bar_color: "\x1b[1;33m", width: 40 };
    let inner = leaf("inner", vec![ChildNode::Done(String::from("ok"))], 5);
    let n = leaf(
        "outer",
        vec![
            ChildNode::Progress(Box::new(inner)),
            ChildNode::Interrupted(String::from("stopped")),
            ChildNode::Done(String::from("a")),
            ChildNode::Done(String::from("b")),
        ],
        2,
    );
    let mut out = String::new();
    let lines = n.format_at_depth(0, "", &fmt, &mut out);
    assert_eq!(lines as usize, out.matches('\n').count());
    assert_eq!(lines, 5);
    assert_eq!(n.lines_capped(), 5);
    let mut again = String::new();
    assert_eq!(n.format(&fmt, &mut again), Some(5));
    assert_eq!(again, out);
}

#[test]
fn owned_and_borrowed_parse_agree() {
    for x in ["0x10", "-3", "true", "nope", ""] {
        assert_eq!(parse::<u32>(x), parse_owned::<u32>(String::from(x)));
        assert_eq!(parse::<i64>(x), parse_owned::<i64>(String::from(x)));
        assert_eq!(parse::<bool>(x), parse_owned::<bool>(String::from(x)));
        assert_eq!(parse::<String>(x), parse_owned::<String>(String::from(x)));
    }
}

#[test]
fn push_wraps_or_appends() {
    let mut b = FormatBuffer::new();
    b.reset_to_width(10, "<g>", "<t>");
    for c in "abcdefghi".chars() {
        b.push(c, 1);
    }
    assert_eq!(b.as_str(), "abcdefghi");
    b.push('x', 2);
    assert_eq!(b.as_str(), "abcdefghi\n<g> | <t>x");
    b.push('y', 1);
    assert_eq!(b.as_str(), "abcdefghi\n<g> | <t>xy");
}
