use pistonite_cu::cycle::{print_cycle, simple_print_cycle};
use pistonite_cu::ansi::colors;
use pistonite_cu::bars::{ProgressBarState, SimpleBar};
use pistonite_cu::frame::{compose_frame, max_bars_for_height, push_clear, spinner_char, spinner_char_6};
use pistonite_cu::progress::{
    BarFormatter, BarNode, BarResult, ChildNode, ProgressBarBuilder, State, StateImmut,
};

fn immut(prefix: &str, unbounded: bool, bytes: bool) -> StateImmut {
    StateImmut {
        id: 1,
        prefix: prefix.to_string(),
        done_message: Some(String::from("done")),
        interrupted_message: None,
        show_percentage: true,
        unbounded,
        display_bytes: bytes,
        max_display_children: usize::MAX / 2,
    }
}

#[test]
fn builder_defaults() {
    let (im, st, eta) = ProgressBarBuilder::new(String::from("build")).total(10).build(7);
    assert_eq!(im.id, 7);
    assert_eq!(im.prefix, "build");
    assert_eq!(im.done_message, Some(String::from("build: done")));
    assert!(!im.unbounded);
    assert!(eta);
    assert_eq!(st.real_current_total(im.unbounded), (0, Some(10)));

    let (im, _, _) = ProgressBarBuilder::new(String::new()).build(1);
    assert_eq!(im.done_message, Some(String::from("done")));
    assert!(im.unbounded);

    let (im, _, _) = ProgressBarBuilder::new(String::from("child")).parent(Some(1)).build(2);
    assert_eq!(im.done_message, None);

    let (im, _, eta) = ProgressBarBuilder::new(String::from("x"))
        .total_bytes(2048)
        .keep(false)
        .eta(false)
        .when_interrupt(String::from("stopped"))
        .build(3);
    assert!(im.display_bytes);
    assert_eq!(im.done_message, None);
    assert_eq!(im.interrupted_message, Some(String::from("stopped")));
    assert!(!eta);
}

#[test]
fn state_counts() {
    let mut st = State::new(10);
    st.set_current(3);
    assert_eq!(st.real_current_total(false), (3, Some(10)));
    st.inc_current(20);
    assert_eq!(st.real_current_total(false), (10, Some(10)));
    assert_eq!(st.real_current_total(true), (0, None));
    st.set_total(0);
    assert_eq!(st.real_current_total(false), (10, Some(10)));
    let st = State::new(0);
    assert_eq!(st.real_current_total(false), (0, None));
}

#[test]
fn finish_messages() {
    let mut st = State::new(10);
    st.set_current(10);
    assert_eq!(st.format_finish_message("done", false, false), "[10/10] done");
    assert_eq!(st.format_finish_message("done", true, false), "done");
    let mut st = State::new(2000);
    st.set_current(1000);
    assert_eq!(st.format_finish_message("copy", false, true), "copy (1.0k / 2.0k)");
    let mut st = State::new(0);
    st.set_current(5);
    assert_eq!(st.format_finish_message("x", false, false), "[5/?] x");
}

#[test]
fn bar_results() {
    let im = immut("build", false, false);
    let mut st = State::new(10);
    st.set_current(10);
    assert!(matches!(st.check_result(&im), BarResult::Done(m) if m == "[10/10] done"));
    st.set_current(3);
    assert!(
        matches!(st.check_result(&im), BarResult::Interrupted(m) if m == "[3/10] build: interrupted")
    );
    let mut im2 = immut("", false, false);
    im2.done_message = None;
    st.set_current(10);
    assert!(matches!(st.check_result(&im2), BarResult::DontKeep));
    let st0 = State::new(0);
    assert!(matches!(st0.check_result(&im2), BarResult::Interrupted(m) if m == "[0/?] interrupted"));
}

#[test]
fn unbounded_bar_needs_done() {
    let im = immut("scan", true, false);
    let mut st = State::new(0);
    st.inc_current(5);
    assert!(matches!(st.check_result(&im), BarResult::Interrupted(m) if m == "scan: interrupted"));
    st.mark_done(true);
    assert!(matches!(st.check_result(&im), BarResult::Done(m) if m == "done"));
}

#[test]
fn bounded_bar_done_only_at_total() {
    let im = immut("copy", false, false);
    let mut st = State::new(0);
    st.set_current(4);
    assert!(matches!(st.check_result(&im), BarResult::Interrupted(m) if m == "[4/?] copy: interrupted"));
    st.mark_done(false);
    assert!(matches!(st.check_result(&im), BarResult::Interrupted(_)));
    st.set_total(4);
    assert!(matches!(st.check_result(&im), BarResult::Done(m) if m == "[4/4] done"));
}

#[test]
fn bar_line_layout() {
    let im = immut("build", false, false);
    let mut st = State::new(10);
    st.set_current(5);
    st.set_message("step");
    let mut out = String::new();
    st.format_self(&mut out, 30, &im, "50.00%", None);
    assert_eq!(out, "[5/10] build: 50.00% step");
    let mut out = String::new();
    st.format_self(&mut out, 3, &im, "50.00%", None);
    assert_eq!(out, "...");
    let mut out = String::new();
    st.format_self(&mut out, 4, &im, "50.00%", None);
    assert_eq!(out, "[..]");
    let mut out = String::new();
    st.format_self(&mut out, 5, &im, "50.00%", None);
    assert_eq!(out, "[...]");
}

fn node(prefix: &str, children: Vec<ChildNode>, max: usize) -> BarNode {
    let mut im = immut(prefix, true, false);
    im.max_display_children = max;
    BarNode {
        immut: im,
        state: State::new(0),
        percentage: String::new(),
        eta: None,
        children,
    }
}

#[test]
fn bar_tree_layout() {
    let fmt = BarFormatter { colors: colors(false), bar_color: "", width: 30 };
    let n = node("p", vec![ChildNode::Done(String::from("ok"))], usize::MAX / 2);
    let mut out = String::new();
    let lines = n.format_at_depth(0, "", &fmt, &mut out);
    assert_eq!(out, " p\n. \u{2514} ok\n");
    assert_eq!(lines, 2);

    let n = node(
        "p",
        vec![
            ChildNode::Done(String::from("a")),
            ChildNode::Interrupted(String::from("b")),
            ChildNode::Done(String::from("c")),
        ],
        1,
    );
    let mut out = String::new();
    let lines = n.format_at_depth(0, "", &fmt, &mut out);
    assert_eq!(out, " p\n. \u{251c} a\n| \u{2514}  ... and 2 more\n");
    assert_eq!(lines, 3);

    let inner = node("q", vec![], usize::MAX / 2);
    let n = node(
        "p",
        vec![ChildNode::Gone, ChildNode::Progress(Box::new(inner))],
        usize::MAX / 2,
    );
    let mut out = String::new();
    let lines = n.format_at_depth(0, "", &fmt, &mut out);
    assert_eq!(out, " p\n. \u{2514}  q\n");
    assert_eq!(lines, 2);
}

#[test]
fn state_bar_lines() {
    let mut b = ProgressBarState::new(10, String::from("copy"));
    b.current = 10;
    b.message = String::from("file.txt");
    let mut out = String::new();
    b.format(&mut out, 40, true, "", Some("ETA 0.00s;"));
    assert_eq!(out, "[10/10] copy: 100% ETA 0.00s; file.txt");
    b.current = 3;
    let mut out = String::new();
    b.format(&mut out, 40, false, "", None);
    assert_eq!(out, "[3/10] copy: file.txt");
    let u = ProgressBarState {
        total: 0,
        current: 0,
        prefix: String::from("copy"),
        message: String::from("file.txt"),
    };
    let mut out = String::new();
    u.format(&mut out, 40, false, "", None);
    assert_eq!(out, " copy: file.txt");
    assert!(u.is_unbounded());
    let mut out = String::new();
    b.format(&mut out, 2, false, "", None);
    assert_eq!(out, "..");
}

#[test]
fn simple_bar_line() {
    let mut b = SimpleBar::new(4, String::from("jobs"), true);
    b.current = 1;
    let mut out = String::new();
    b.format(&mut out, 30, false, "25.00%", "ETA 3.00s");
    assert!(out.starts_with("[1/4] jobs"));
}

#[test]
fn frames() {
    let bars = vec![String::from("bar1"), String::from("bar2")];
    let (text, lines) = compose_frame(2, "log\n", true, &colors(false), '#', 20, 1, &bars);
    assert_eq!(
        text,
        "\r\x1b[K\x1b[1A\x1b[K\x1b[1A\x1b[Klog\n#]bar1\n  ... and 1 more\r"
    );
    assert_eq!(lines, 1);
    let (text, lines) = compose_frame(0, "log\n", false, &colors(false), '#', 20, 5, &bars);
    assert_eq!(text, "\r\x1b[K#]bar1\n#]bar2\n");
    assert_eq!(lines, 2);
    let mut s = String::new();
    push_clear(&mut s, 1);
    assert_eq!(s, "\r\x1b[K\x1b[1A\x1b[K");
    assert_eq!(max_bars_for_height(20), 8);
    assert_eq!(max_bars_for_height(3), 0);
    assert_eq!(spinner_char(0), '\u{280b}');
    assert_eq!(spinner_char(5), '\u{2819}');
    assert_eq!(spinner_char(31), '\u{280b}');
    assert_eq!(spinner_char_6(1), '\u{2819}');
}

#[test]
fn simple_cycle_draws_four_and_drops_gone_bars() {
    let c = colors(false);
    let bars = vec![
        Some(String::from("a")),
        None,
        Some(String::from("b")),
        Some(String::from("c")),
        Some(String::from("d")),
        Some(String::from("e")),
    ];
    let r = simple_print_cycle(true, false, 0, "msg\n", true, &c, 0, 80, &bars);
    assert!(!r.ends);
    assert_eq!(r.kept, vec![0, 2, 3, 4, 5]);
    assert_eq!(r.drawn, 4);
    assert_eq!(r.lines, 4);
    assert_eq!(
        r.text,
        "\r\x1b[Kmsg\n\u{280b}]a\n\u{280b}]b\n\u{280b}]c\n\u{280b}]d\n  ... and 1 more\r"
    );
}

#[test]
fn cycle_ends_once_no_bar_lives() {
    let c = colors(false);
    let bars: Vec<Option<String>> = vec![None, None];
    let r = print_cycle(true, false, 2, "", true, &c, '*', 80, 3, &bars);
    assert!(r.ends);
    assert!(r.kept.is_empty());
    assert_eq!(r.lines, 0);
    assert_eq!(r.text, "\r\x1b[K\x1b[1A\x1b[K\x1b[1A\x1b[K\r\x1b[K");
}

#[test]
fn cycle_waits_for_prompt_and_ends_without_target() {
    let c = colors(false);
    let bars = vec![None, Some(String::from("x"))];
    let r = print_cycle(true, true, 3, "buf", true, &c, '*', 80, 3, &bars);
    assert!(!r.ends);
    assert_eq!(r.text, "");
    assert_eq!(r.kept, vec![0, 1]);
    assert_eq!(r.lines, 3);
    let r = print_cycle(false, false, 3, "buf", true, &c, '*', 80, 3, &bars);
    assert!(r.ends);
    assert_eq!(r.text, "");
}

#[test]
fn cycle_counts_lines_inside_bar_texts() {
    let c = colors(false);
    let bars = vec![Some(String::from("top\n child")), Some(String::from("other"))];
    let r = print_cycle(true, false, 0, "", false, &c, '*', 80, 1, &bars);
    assert_eq!(r.drawn, 1);
    assert_eq!(r.lines, 2);
    assert_eq!(r.text, "\r\x1b[K*]top\n child\n  ... and 1 more\r");
}
