use pistonite_cu::misc::{best_effort_panic_info, PanicPayload};
use pistonite_cu::paths::{
    check_executable, fallback_normalize_absolute, file_name_str, is_absolute, normalize_executable_with,
    normalize_with, parent_abs_times, path_push, simplified, try_to_rel_from, PathError,
};
use pistonite_cu::pio;
use pistonite_cu::printer::{
    add_progress_bar_plan, bar_target, frame_ends_task, BarTarget, print_cycle_step, print_now, should_join_print_task,
    should_join_prompt_task, spinner_prefix, spinner_reaction, BarStart, CycleStep, LineMessage,
    LinesOutput,
};
use pistonite_cu::driver::DriverOutput;
use pistonite_cu::level::{ColorLevel, LogFilter, Lv, PrintLevel, PromptLevel};
use pistonite_cu::process::{
    color_flag, color_flag_eq, join_warnings, kill_attempt_message, kill_failed_message,
    nonzero_exit_message, spawn_trace, Backoff, JoinOutcome,
};
use pistonite_cu::prompt::{
    check_prompt_level, default_prompt_level, max_log_filter, prompt_refused_message, use_color,
    yesno_answer, yesno_prompt_text, PromptError,
};
use pistonite_cu::snapshot::{
    command_line, decode_output_stream, decode_output_streams, parse_test_cases, snapshot_matches,
};

#[test]
fn normalizing() {
    assert_eq!(fallback_normalize_absolute("/a/./b//c/../d"), Ok(String::from("/a/b/d")));
    assert_eq!(fallback_normalize_absolute("/"), Ok(String::from("/")));
    assert_eq!(fallback_normalize_absolute("/a/.."), Ok(String::from("/")));
    assert_eq!(
        fallback_normalize_absolute("/.."),
        Err(PathError::ParentOfRoot(String::from("/..")))
    );
    let again = fallback_normalize_absolute("/a/b/d").unwrap();
    assert_eq!(again, "/a/b/d");
}

#[test]
fn normalizing_with_file_system_answers() {
    assert_eq!(
        normalize_with("x/y", Some(String::from("/real/x/y")), None),
        Ok(String::from("/real/x/y"))
    );
    assert_eq!(
        normalize_with("x/../y", None, Some(String::from("/home"))),
        Ok(String::from("/home/y"))
    );
    assert_eq!(
        normalize_with("x", None, None),
        Err(PathError::NoCurrentDir(String::from("x")))
    );
    assert_eq!(
        normalize_with("../../x", None, Some(String::from("/a"))),
        Err(PathError::ParentOfRoot(String::from("/a/../../x")))
    );
    assert_eq!(
        normalize_executable_with("bin/./tool", Some(String::from("/opt/"))),
        Ok(String::from("/opt/bin/tool"))
    );
}

#[test]
fn file_names_and_parents() {
    assert_eq!(file_name_str("/a/b.txt"), Ok(String::from("b.txt")));
    assert_eq!(file_name_str("a/b/."), Ok(String::from("b")));
    assert_eq!(file_name_str("a/.."), Err(PathError::NoFileName(String::from("a/.."))));
    assert_eq!(file_name_str("/"), Err(PathError::NoFileName(String::from("/"))));
    assert_eq!(parent_abs_times("/a/b/c", 0), Ok(String::from("/a/b/c")));
    assert_eq!(parent_abs_times("/a/b/c", 2), Ok(String::from("/a")));
    assert_eq!(parent_abs_times("/a/b/c", 3), Ok(String::from("/")));
    assert_eq!(
        parent_abs_times("/a", 2),
        Err(PathError::ParentOfRoot(String::from("/a")))
    );
    let once = parent_abs_times("/a/b/c", 1).unwrap();
    assert_eq!(parent_abs_times(&once, 1), parent_abs_times("/a/b/c", 2));
}

#[test]
fn pushing_and_relative_paths() {
    let mut p = String::from("/a");
    path_push(&mut p, "b");
    assert_eq!(p, "/a/b");
    path_push(&mut p, "/c");
    assert_eq!(p, "/c");
    assert!(is_absolute("/x"));
    assert!(!is_absolute("x"));
    assert_eq!(try_to_rel_from("/a/b/c", "/a", None, None), "b/c");
    assert_eq!(try_to_rel_from("/a/b", "/a/c", None, None), "../b");
    assert_eq!(try_to_rel_from("x", "/a", None, None), "x");
    assert_eq!(try_to_rel_from("x", "/a", Some(String::from("/a/x")), None), "x");
    assert_eq!(simplified("/a/b"), "/a/b");
    let unc = "\\\\?\\C:\\dir";
    let s = simplified(unc);
    assert!(s == unc || s == &unc[4..]);
}

#[test]
fn color_flags() {
    assert_eq!(color_flag().to_string(true), "--color always");
    assert_eq!(color_flag_eq().to_string(false), "--color=never");
    assert_eq!(color_flag().args(true), vec!["--color", "always"]);
    assert_eq!(color_flag_eq().args(true), vec!["--color=always"]);
    assert_eq!(color_flag().args(false), vec!["--color", "never"]);
    assert!(color_flag_eq().use_eq_sign());
}

#[test]
fn spawn_traces() {
    assert_eq!(
        spawn_trace("git", &["log", "it's"], Some("/repo"), Some("git")),
        "[git] spawning 'git', args: ['log', 'it\\'s'], current_dir: '/repo'"
    );
    assert_eq!(spawn_trace("ls", &[], None, None), "spawning 'ls', args: []");
}

#[test]
fn child_messages() {
    assert_eq!(
        join_warnings("ls", &JoinOutcome::Finished(true, Some(String::from("broken pipe")))),
        vec![
            "failed to write to stdin while executing ls: broken pipe",
            "some io tasks panicked while executing ls",
        ]
    );
    assert!(join_warnings("ls", &JoinOutcome::Aborted).is_empty());
    assert_eq!(
        join_warnings("ls", &JoinOutcome::Failed),
        vec!["some io tasks panicked while executing ls"]
    );
    assert_eq!(kill_attempt_message("x", 0), "trying to kill child 'x', attempt 1");
    assert_eq!(kill_failed_message("x"), "failed to kill child 'x' after many attempts");
    assert_eq!(nonzero_exit_message("x"), "x exited with non-zero status");
    let mut b = Backoff::new();
    assert!(!b.account(250));
    b.grow();
    assert_eq!(b.ms, 400);
    assert!(b.account(250));
    assert_eq!(b.total_ms, 500);
}

#[test]
fn prompting() {
    assert_eq!(check_prompt_level(PromptLevel::No, true), Err(PromptError::NotAllowed));
    assert_eq!(check_prompt_level(PromptLevel::Yes, true), Ok(true));
    assert_eq!(check_prompt_level(PromptLevel::Yes, false), Ok(false));
    assert_eq!(check_prompt_level(PromptLevel::Interactive, true), Ok(false));
    assert_eq!(yesno_answer(" Yes\n"), Some(true));
    assert_eq!(yesno_answer("n"), Some(false));
    assert_eq!(yesno_answer("maybe"), None);
    assert_eq!(yesno_prompt_text("go?"), "go? [y/n]");
    assert_eq!(
        prompt_refused_message("go?"),
        "prompt not allowed in non-interactive mode: go?"
    );
    assert_eq!(default_prompt_level(None, Some("TRUE")), PromptLevel::No);
    assert_eq!(default_prompt_level(None, Some(" 1 ")), PromptLevel::No);
    assert_eq!(default_prompt_level(None, Some("0")), PromptLevel::Interactive);
    assert_eq!(default_prompt_level(Some(PromptLevel::Yes), Some("1")), PromptLevel::Yes);
    assert!(use_color(ColorLevel::Always, false));
    assert!(!use_color(ColorLevel::Never, true));
    assert!(use_color(ColorLevel::Auto, true));
    assert_eq!(max_log_filter(None, PrintLevel::Verbose), LogFilter::Debug);
    assert_eq!(max_log_filter(Some(LogFilter::Trace), PrintLevel::Normal), LogFilter::Trace);
    assert_eq!(max_log_filter(Some(LogFilter::Error), PrintLevel::Normal), LogFilter::Info);
}

#[test]
fn snapshots() {
    let mut s = String::new();
    decode_output_stream(&mut s, b"ok\r\n\x1b!");
    assert_eq!(s, "ok^CR\n^LF\n\\x1B!");
    let text = decode_output_streams("prog a", b"hi", b"", Some("exit status: 0"));
    let gt = ">".repeat(42);
    let lt = "<".repeat(49);
    assert_eq!(
        text,
        format!(
            "$ prog a\nSTDOUT {gt}\nhi^<EOF\n{lt}\nSTDERR {gt}\n^<EOF\n{lt}\nstatus: exit status: 0\n"
        )
    );
    assert!(decode_output_streams("p", b"", b"", None).ends_with("timed out\n"));
    assert!(snapshot_matches("a\r\nb\n", "  a\nb"));
    assert!(!snapshot_matches("a", "b"));
}

#[test]
fn test_case_comments() {
    let cases = parse_test_cases("// $ a 'b c' < in.txt\n// $- x\n// $\nfn main() {}\n// $ late")
        .unwrap();
    assert_eq!(cases.len(), 3);
    assert_eq!(cases[0].args, vec!["a", "b c"]);
    assert_eq!(cases[0].stdin_path, Some(String::from("in.txt")));
    assert!(!cases[0].skip);
    assert_eq!(cases[1].args, vec!["x"]);
    assert!(cases[1].skip);
    assert!(cases[2].args.is_empty());
    let bad = parse_test_cases("// $ 'unclosed");
    assert!(matches!(bad, Err(e) if e.0 == " 'unclosed"));
    assert_eq!(
        command_line(&vec![String::from("a"), String::from("b c")]),
        "a 'b c'"
    );
}

#[test]
fn panic_payloads() {
    assert_eq!(best_effort_panic_info(&PanicPayload::Message(String::from("boom"))), "boom");
    assert_eq!(best_effort_panic_info(&PanicPayload::Unknown), "unknown panic info");
}

#[test]
fn printer_decisions() {
    assert_eq!(
        add_progress_bar_plan(PrintLevel::Normal, true, false, Some((80, 24))),
        BarStart::TrackAndStart(80, 10)
    );
    assert_eq!(
        add_progress_bar_plan(PrintLevel::QuietQuiet, true, false, Some((80, 24))),
        BarStart::Ignore
    );
    assert_eq!(add_progress_bar_plan(PrintLevel::Normal, false, false, None), BarStart::Ignore);
    assert_eq!(add_progress_bar_plan(PrintLevel::Normal, true, true, None), BarStart::Track);
    assert_eq!(
        add_progress_bar_plan(PrintLevel::Normal, true, false, Some((80, 5))),
        BarStart::Track
    );
    assert!(print_now(false, false));
    assert!(!print_now(true, false));
    assert!(should_join_print_task(false, 0));
    assert!(!should_join_prompt_task(false, 2));
    assert_eq!(print_cycle_step(false, true), CycleStep::End);
    assert_eq!(print_cycle_step(true, true), CycleStep::Skip);
    assert_eq!(print_cycle_step(true, false), CycleStep::Draw);
    assert_eq!(bar_target(true, true), Some(BarTarget::Stdout));
    assert_eq!(bar_target(false, true), Some(BarTarget::Stderr));
    assert_eq!(bar_target(false, false), None);
    assert!(frame_ends_task(0));
    assert!(!frame_ends_task(1));
    assert_eq!(spinner_prefix(true, "build"), "[build] ");
    assert_eq!(spinner_prefix(false, "build"), "");
    let (print, msg) = spinner_reaction(Some(Lv::Info), "[b] ", &DriverOutput::Line(String::from("x")));
    assert_eq!(print, Some((Lv::Info, String::from("[b] x"))));
    assert_eq!(msg, Some(String::new()));
    let (print, msg) = spinner_reaction(None, "", &DriverOutput::Progress(String::from("50%")));
    assert_eq!(print, None);
    assert_eq!(msg, Some(String::from("50%")));
    let (print, msg) = spinner_reaction(None, "", &DriverOutput::Pending);
    assert_eq!((print, msg), (None, None));
}

#[test]
fn line_reader() {
    let mut r = LinesOutput::new();
    assert_eq!(r.next_item(Some(LineMessage::Line(String::from("a")))), Some(Ok(String::from("a"))));
    assert_eq!(
        r.next_item(Some(LineMessage::Error(String::from("e")))),
        Some(Err(String::from("e")))
    );
    assert_eq!(r.next_item(Some(LineMessage::Line(String::from("b")))), None);
    let mut r = LinesOutput::new();
    assert_eq!(r.next_item(None), None);
    assert_eq!(r.next_item(Some(LineMessage::End)), None);
}

#[test]
fn output_text() {
    assert_eq!(pio::output_as_string(vec![0x68, 0x69]), Ok(String::from("hi")));
    assert_eq!(pio::output_as_string("\u{65e5}".as_bytes().to_vec()), Ok(String::from("\u{65e5}")));
    assert_eq!(pio::output_as_string(vec![0xff]), Err(pio::NotUtf8));
}

#[test]
fn io_configs() {
    let _ = (pio::inherit(), pio::null(), pio::pipe(), pio::buffer(), pio::string());
    let _ = (pio::lines(), pio::co_lines());
    let w = pio::write(vec![1u8]);
    assert_eq!(w.0, vec![1u8]);
}

#[test]
fn executable_checks() {
    let p = normalize_executable_with("bin/../tool", Some(String::from("/opt"))).unwrap();
    assert_eq!(p, "/opt/tool");
    assert!(is_absolute(&p));
    assert_eq!(file_name_str(&p), Ok(String::from("tool")));
    assert_eq!(check_executable(p.clone(), true, false), Ok(String::from("/opt/tool")));
    assert_eq!(
        check_executable(p.clone(), false, false),
        Err(PathError::NotFound(String::from("/opt/tool")))
    );
    assert_eq!(
        check_executable(p, true, true),
        Err(PathError::IsDirectory(String::from("/opt/tool")))
    );
}

#[test]
fn not_utf8_text() {
    assert_eq!(
        pistonite_cu::misc::not_utf8_message("\"hello\\xFFworld\""),
        r#"not utf-8: "hello\xFFworld""#
    );
    let bytes: &[u8] = b"hello\xffworld";
    let debug = format!("{:?}", String::from_utf8_lossy(bytes));
    assert!(pistonite_cu::misc::not_utf8_message(&debug).starts_with("not utf-8: \"hello"));
}
