//! Child-process helpers that decide rather than do: the `--color` flag to
//! pass on, the trace line that describes a spawn, the warnings after the
//! IO tasks are joined, the back-off when waiting or killing, and the IO
//! configurations a command can take.
use vstd::prelude::*;
use vstd::string::StringExecFns;
use crate::text::{decimal, push_char, push_decimal, str_chars};

verus! {

/// A `--color always|never` flag for a child process, following whether
/// color is enabled in this process; with or without `=`.
#[derive(Debug, Clone, Copy, PartialEq, Eq, Structural, Hash)]
pub struct ColorFlag(pub bool);

/// `always` or `never`.
pub open spec fn color_word(color: bool) -> Seq<char> {
    if color {
        seq!['a', 'l', 'w', 'a', 'y', 's']
    } else {
        seq!['n', 'e', 'v', 'e', 'r']
    }
}

impl ColorFlag {
    /// Whether the flag is written `--color=...`.
    pub fn use_eq_sign(self) -> (r: bool)
        ensures
            r == self.0,
    {
        self.0
    }

    /// The flag as one text: `--color=always` or `--color always` (or
    /// `never` when color is off).
    pub fn to_string(&self, color_enabled: bool) -> (r: String)
        ensures
            r@ == seq!['-', '-', 'c', 'o', 'l', 'o', 'r'] + seq![if self.0 { '=' } else { ' ' }]
                + color_word(color_enabled),
    {
        let mut r = String::from_str("--color");
        push_char(&mut r, if self.0 { '=' } else { ' ' });
        let word = if color_enabled { "always" } else { "never" };
        proof {
            reveal_strlit("--color");
            reveal_strlit("always");
            reveal_strlit("never");
        }
        r.append(word);
        assert(r@ =~= seq!['-', '-', 'c', 'o', 'l', 'o', 'r'] + seq![if self.0 { '=' } else { ' ' }]
            + color_word(color_enabled));
        r
    }

    /// The arguments the flag adds to a command: one with `=`, else two.
    pub fn args(&self, color_enabled: bool) -> (r: Vec<String>)
        ensures
            r@.len() == if self.0 { 1nat } else { 2nat },
            self.0 ==> r@[0]@ == seq!['-', '-', 'c', 'o', 'l', 'o', 'r', '='] + color_word(color_enabled),
            !self.0 ==> r@[0]@ == seq!['-', '-', 'c', 'o', 'l', 'o', 'r'] && r@[1]@ == color_word(color_enabled),
    {
        proof {
            reveal_strlit("--color");
            reveal_strlit("always");
            reveal_strlit("never");
        }
        let mut r: Vec<String> = Vec::new();
        let word = if color_enabled { "always" } else { "never" };
        if self.0 {
            let mut a = String::from_str("--color");
            push_char(&mut a, '=');
            a.append(word);
            assert(a@ =~= seq!['-', '-', 'c', 'o', 'l', 'o', 'r', '='] + color_word(color_enabled));
            r.push(a);
        } else {
            r.push(String::from_str("--color"));
            r.push(String::from_str(word));
        }
        r
    }
}

/// A `--color always|never` flag.
pub fn color_flag() -> (r: ColorFlag)
    ensures
        r == ColorFlag(false),
{
    ColorFlag(false)
}

/// A `--color=always|never` flag.
pub fn color_flag_eq() -> (r: ColorFlag)
    ensures
        r == ColorFlag(true),
{
    ColorFlag(true)
}

/// A text with each `'` written `\'`.
pub open spec fn escape_quotes(s: Seq<char>) -> Seq<char>
    decreases s.len(),
{
    if s.len() == 0 {
        Seq::empty()
    } else {
        escape_quotes(s.drop_last()) + if s.last() == '\'' {
            seq!['\\', '\'']
        } else {
            seq![s.last()]
        }
    }
}

/// A text in single quotes, its own quotes escaped.
pub open spec fn quoted(s: Seq<char>) -> Seq<char> {
    seq!['\''] + escape_quotes(s) + seq!['\'']
}

/// The arguments quoted and separated by `, `.
pub open spec fn quoted_list(args: Seq<Seq<char>>) -> Seq<char>
    decreases args.len(),
{
    if args.len() == 0 {
        Seq::empty()
    } else if args.len() == 1 {
        quoted(args[0])
    } else {
        quoted_list(args.drop_last()) + seq![',', ' '] + quoted(args.last())
    }
}

/// The trace line for spawning a child:
/// `[name] spawning 'program', args: ['a', 'b'], current_dir: 'dir'`, the
/// name and directory only when there are.
pub open spec fn spawn_trace_text(
    program: Seq<char>,
    args: Seq<Seq<char>>,
    current_dir: Option<Seq<char>>,
    name: Option<Seq<char>>,
) -> Seq<char> {
    let head = match name {
        Some(n) => seq!['['] + n + seq![']', ' '],
        None => Seq::empty(),
    };
    let dir = match current_dir {
        Some(d) => seq![',', ' ', 'c', 'u', 'r', 'r', 'e', 'n', 't', '_', 'd', 'i', 'r', ':', ' ', '\'']
            + d + seq!['\''],
        None => Seq::empty(),
    };
    head + seq!['s', 'p', 'a', 'w', 'n', 'i', 'n', 'g', ' ', '\''] + program + seq![
        '\'',
        ',',
        ' ',
        'a',
        'r',
        'g',
        's',
        ':',
        ' ',
        '[',
    ] + quoted_list(args) + seq![']'] + dir
}

fn push_quoted(out: &mut String, s: &str)
    ensures
        final(out)@ == old(out)@ + quoted(s@),
{
    let cs = str_chars(s);
    push_char(out, '\'');
    let ghost base = out@;
    let mut k: usize = 0;
    while k < cs.len()
        invariant
            k <= cs@.len(),
            cs@ == s@,
            out@ == base + escape_quotes(s@.take(k as int)),
        decreases cs@.len() - k,
    {
        if cs[k] == '\'' {
            push_char(out, '\\');
        }
        push_char(out, cs[k]);
        assert(s@.take(k + 1).drop_last() =~= s@.take(k as int));
        k = k + 1;
        assert(out@ =~= base + escape_quotes(s@.take(k as int)));
    }
    assert(s@.take(k as int) =~= s@);
    push_char(out, '\'');
    assert(final(out)@ =~= old(out)@ + quoted(s@));
}

/// A `&str` option as characters.
pub open spec fn opt_str(o: Option<&str>) -> Option<Seq<char>> {
    match o {
        Some(s) => Some(s@),
        None => None,
    }
}

/// The trace line for spawning a child (see `spawn_trace_text`).
pub fn spawn_trace(program: &str, args: &[&str], current_dir: Option<&str>, name: Option<&str>) -> (r: String)
    ensures
        r@ == spawn_trace_text(program@, args@.map_values(|a: &str| a@), opt_str(current_dir), opt_str(name)),
{
    let ghost av = args@.map_values(|a: &str| a@);
    let mut r = String::new();
    match name {
        Some(n) => {
            push_char(&mut r, '[');
            r.append(n);
            push_char(&mut r, ']');
            push_char(&mut r, ' ');
        },
        None => {},
    }
    proof {
        reveal_strlit("spawning '");
        reveal_strlit("', args: [");
        reveal_strlit(", current_dir: '");
    }
    r.append("spawning '");
    r.append(program);
    r.append("', args: [");
    let ghost head = r@;
    let mut k: usize = 0;
    while k < args.len()
        invariant
            k <= args@.len(),
            av == args@.map_values(|a: &str| a@),
            r@ == head + quoted_list(av.take(k as int)),
        decreases args@.len() - k,
    {
        if k > 0 {
            push_char(&mut r, ',');
            push_char(&mut r, ' ');
        }
        push_quoted(&mut r, args[k]);
        assert(av.take(k + 1).drop_last() =~= av.take(k as int));
        k = k + 1;
        assert(r@ =~= head + quoted_list(av.take(k as int)));
    }
    assert(av.take(k as int) =~= av);
    push_char(&mut r, ']');
    match current_dir {
        Some(d) => {
            r.append(", current_dir: '");
            r.append(d);
            push_char(&mut r, '\'');
        },
        None => {},
    }
    assert(r@ =~= spawn_trace_text(program@, av, opt_str(current_dir), opt_str(name)));
    r
}

} // verus!

verus! {

/// How joining a child's IO tasks went.
pub enum JoinOutcome {
    /// Joining failed: a task panicked.
    Failed,
    /// The tasks were aborted.
    Aborted,
    /// The tasks finished: whether one panicked, and the error writing to
    /// stdin, if any.
    Finished(bool, Option<String>),
}

/// The warnings after joining a child's IO tasks: a failed write to
/// stdin, then a panicked task.
pub open spec fn join_warning_texts(name: Seq<char>, outcome: JoinOutcome) -> Seq<Seq<char>> {
    let panicked = "some io tasks panicked while executing "@ + name;
    match outcome {
        JoinOutcome::Failed => seq![panicked],
        JoinOutcome::Aborted => Seq::empty(),
        JoinOutcome::Finished(p, err) => {
            let a = match err {
                Some(e) => seq!["failed to write to stdin while executing "@ + name + ": "@ + e@],
                None => Seq::empty(),
            };
            if p {
                a.push(panicked)
            } else {
                a
            }
        },
    }
}

/// The warnings after joining a child's IO tasks (see
/// `join_warning_texts`).
pub fn join_warnings(name: &str, outcome: &JoinOutcome) -> (r: Vec<String>)
    ensures
        r@.map_values(|s: String| s@) == join_warning_texts(name@, *outcome),
{
    let mut r: Vec<String> = Vec::new();
    let mut panicked = String::from_str("some io tasks panicked while executing ");
    panicked.append(name);
    match outcome {
        JoinOutcome::Failed => {
            r.push(panicked);
        },
        JoinOutcome::Aborted => {},
        JoinOutcome::Finished(p, err) => {
            match err {
                Some(e) => {
                    let mut w = String::from_str("failed to write to stdin while executing ");
                    w.append(name);
                    w.append(": ");
                    w.append(e.as_str());
                    r.push(w);
                },
                None => {},
            }
            if *p {
                r.push(panicked);
            }
        },
    }
    assert(r@.map_values(|s: String| s@) =~= join_warning_texts(name@, *outcome));
    r
}

/// The waits between polls of a child: 100 ms, then four times longer each
/// time, with the total waited so far.
pub struct Backoff {
    pub ms: u64,
    pub total_ms: u64,
}

impl Backoff {
    /// The first wait: 100 ms, nothing waited yet.
    pub fn new() -> (r: Self)
        ensures
            r.ms == 100,
            r.total_ms == 0,
    {
        Backoff { ms: 100, total_ms: 0 }
    }

    /// Counts the current wait as waited, and tells whether the total has
    /// reached the timeout.
    pub fn account(&mut self, timeout_ms: u128) -> (reached: bool)
        requires
            old(self).total_ms + old(self).ms <= u64::MAX,
        ensures
            final(self).total_ms == old(self).total_ms + old(self).ms,
            final(self).ms == old(self).ms,
            reached == (final(self).total_ms >= timeout_ms),
    {
        self.total_ms = self.total_ms + self.ms;
        (self.total_ms as u128) >= timeout_ms
    }

    /// Makes the next wait four times longer.
    pub fn grow(&mut self)
        requires
            old(self).ms * 4 <= u64::MAX,
        ensures
            final(self).ms == old(self).ms * 4,
            final(self).total_ms == old(self).total_ms,
    {
        self.ms = self.ms * 4;
    }
}

/// How many times killing a child is tried.
pub const KILL_ATTEMPTS: usize = 5;

/// The trace line before kill attempt `i` (counted from 0):
/// `trying to kill child 'name', attempt i+1`.
pub fn kill_attempt_message(name: &str, i: usize) -> (r: String)
    requires
        i < KILL_ATTEMPTS,
    ensures
        r@ == "trying to kill child '"@ + name@ + "', attempt "@ + decimal((i + 1) as nat),
{
    let mut r = String::from_str("trying to kill child '");
    r.append(name);
    r.append("', attempt ");
    push_decimal(&mut r, (i + 1) as u64);
    r
}

/// The error after every kill attempt failed.
pub fn kill_failed_message(name: &str) -> (r: String)
    ensures
        r@ == "failed to kill child '"@ + name@ + "' after many attempts"@,
{
    let mut r = String::from_str("failed to kill child '");
    r.append(name);
    r.append("' after many attempts");
    r
}

/// The error after a child exited with a status other than success.
pub fn nonzero_exit_message(name: &str) -> (r: String)
    ensures
        r@ == name@ + " exited with non-zero status"@,
{
    let mut r = String::from_str(name);
    r.append(" exited with non-zero status");
    r
}

} // verus!
