use pistonite_cu::cargo::{is_json_line, CargoAction, Payload, PayloadMessage, PrintState};
use pistonite_cu::level::Lv;
use pistonite_cu::sorted::{compare_text, sorted_insert, sorted_remove};

fn view(actions: Vec<CargoAction>) -> Vec<String> {
    actions
        .into_iter()
        .map(|a| match a {
            CargoAction::Print(lv, s) => format!("print {:?} {}", lv, s),
            CargoAction::Diagnostic(w, s) => format!("diag {} {}", w, s),
            CargoAction::Progress(s) => format!("progress {}", s),
            CargoAction::Done => String::from("done"),
        })
        .collect()
}

fn state(hook: bool) -> PrintState {
    PrintState::new(Lv::Error, Lv::Warn, Lv::Debug, hook).expect("patterns compile")
}

fn artifact(name: &str) -> Payload {
    Payload {
        reason: String::from("compiler-artifact"),
        target_name: Some(name.to_string()),
        message: None,
        success: None,
    }
}

#[test]
fn status_lines_fill_the_bar() {
    let mut st = state(false);
    let a = st.handle_stderr("   Compiling serde-json v1.0.0");
    assert_eq!(
        view(a),
        vec![
            "print Debug    Compiling serde-json v1.0.0",
            "progress 0 done, compiling: serde_json",
        ]
    );
    let a = st.handle_stderr("\x1b[1m\x1b[32m    Checking anyhow v1.0.0");
    assert_eq!(
        view(a)[1],
        "progress 0 done, compiling: anyhow, serde_json"
    );
    let a = st.handle_payload(&artifact("anyhow"));
    assert_eq!(view(a), vec!["progress 1 done, compiling: serde_json"]);
    let a = st.handle_payload(&artifact("serde_json"));
    assert_eq!(view(a), vec!["progress 2 done"]);
    assert_eq!(st.update_bar(), Some(String::from("2 done")));
}

#[test]
fn build_scripts_are_not_counted() {
    let mut st = state(false);
    assert!(view(st.handle_payload(&artifact("build-script-build"))).is_empty());
    assert_eq!(st.update_bar(), None);
}

#[test]
fn stderr_messages_keep_their_level() {
    let mut st = state(false);
    assert_eq!(view(st.handle_stderr("error: oops")), vec!["print Error error: oops"]);
    assert_eq!(view(st.handle_stderr("  --> src/main.rs")), vec!["print Error   --> src/main.rs"]);
    let a = st.handle_stderr("   Compiling x v0.1.0");
    assert_eq!(view(a)[0], "print Debug    Compiling x v0.1.0");
    assert_eq!(view(st.handle_stderr("warning: unused")), vec!["print Warn warning: unused"]);
    let mut st = state(false);
    assert_eq!(view(st.handle_stderr("note: hi")), vec!["print Debug note: hi"]);
}

#[test]
fn compiler_messages() {
    let msg = |level: &str| Payload {
        reason: String::from("compiler-message"),
        target_name: None,
        message: Some(PayloadMessage {
            level: Some(level.to_string()),
            rendered: Some(String::from("text")),
        }),
        success: None,
    };
    let mut st = state(false);
    assert_eq!(view(st.handle_payload(&msg("warning"))), vec!["print Warn text"]);
    assert_eq!(view(st.handle_payload(&msg("error"))), vec!["print Error text"]);
    assert_eq!(view(st.handle_payload(&msg("note"))), vec!["print Debug text"]);
    let mut st = state(true);
    assert_eq!(view(st.handle_payload(&msg("warning"))), vec!["diag true text"]);
    assert_eq!(view(st.handle_payload(&msg("error"))), vec!["diag false text"]);
}

#[test]
fn build_finished() {
    let fin = |ok: Option<bool>| Payload {
        reason: String::from("build-finished"),
        target_name: None,
        message: None,
        success: ok,
    };
    let mut st = state(false);
    assert_eq!(
        view(st.handle_payload(&fin(Some(true)))),
        vec!["done", "print Trace cargo build successful"]
    );
    assert_eq!(view(st.handle_payload(&fin(None))), vec!["print Trace cargo build failed"]);
    let other = Payload {
        reason: String::from("something"),
        target_name: None,
        message: None,
        success: None,
    };
    assert_eq!(
        view(st.handle_payload(&other)),
        vec!["print Trace unhandled cargo message reason: something"]
    );
}

#[test]
fn stdout_lines() {
    let mut st = state(false);
    assert!(is_json_line("{\"reason\":1}"));
    assert!(!is_json_line("plain"));
    assert_eq!(view(st.handle_stdout("plain", Err(String::new()))), vec!["print Trace plain"]);
    assert_eq!(
        view(st.handle_stdout("{bad", Err(String::from("eof")))),
        vec!["print Trace failed to parse cargo json output: eof"]
    );
    assert_eq!(
        view(st.handle_stdout("{}", Ok(artifact("a")))),
        vec!["progress 1 done"]
    );
}

#[test]
fn sorted_sets() {
    let mut v: Vec<String> = Vec::new();
    sorted_insert(&mut v, String::from("b"));
    sorted_insert(&mut v, String::from("a"));
    sorted_insert(&mut v, String::from("c"));
    sorted_insert(&mut v, String::from("a"));
    assert_eq!(v, vec!["a", "b", "c"]);
    sorted_remove(&mut v, "b");
    sorted_remove(&mut v, "z");
    assert_eq!(v, vec!["a", "c"]);
    sorted_insert(&mut v, String::from("b"));
    sorted_remove(&mut v, "b");
    assert_eq!(v, vec!["a", "c"]);
    assert!(compare_text("a", "b") < 0);
    assert!(compare_text("ab", "a") > 0);
    assert_eq!(compare_text("x", "x"), 0);
}
