//! The decisions around prompts and print options: whether a prompt may
//! be shown, how a yes/no answer is read, and the defaults the print
//! options take from the environment (read by the caller).
use vstd::prelude::*;
use vstd::string::StringExecFns;
use crate::level::{ColorLevel, LogFilter, PrintLevel, PromptLevel};
use crate::parse::{ascii_lower, eq_ignore_case};
use crate::text::{str_chars, trim, trim_bounds};

verus! {

/// A prompt that may not be shown.
#[derive(Debug, Clone, Copy, PartialEq, Eq, Structural)]
pub enum PromptError {
    /// Prompts are not allowed (`--non-interactive`).
    NotAllowed,
}

/// Whether a prompt is answered without asking (`Ok(true)`), is shown
/// (`Ok(false)`) or is refused: `--yes` answers yes/no prompts, and
/// `--non-interactive` refuses every prompt.
pub open spec fn check_prompt_spec(level: PromptLevel, is_yesno: bool) -> Result<bool, PromptError> {
    match level {
        PromptLevel::No => Err(PromptError::NotAllowed),
        PromptLevel::Yes => Ok(is_yesno),
        PromptLevel::Interactive => Ok(false),
    }
}

/// Checks whether a prompt is answered, shown or refused at the prompt
/// level (see `check_prompt_spec`).
pub fn check_prompt_level(level: PromptLevel, is_yesno: bool) -> (r: Result<bool, PromptError>)
    ensures
        r == check_prompt_spec(level, is_yesno),
{
    match level {
        PromptLevel::No => Err(PromptError::NotAllowed),
        PromptLevel::Yes => Ok(is_yesno),
        PromptLevel::Interactive => Ok(false),
    }
}

/// The answer to a yes/no prompt: `y` or `yes` is yes, `n` or `no` is
/// no (ASCII case ignored, surrounding whitespace trimmed); anything else
/// asks again.
pub open spec fn yesno_spec(input: Seq<char>) -> Option<bool> {
    let t = trim(input);
    if eq_ignore_case(t, seq!['y']) || eq_ignore_case(t, seq!['y', 'e', 's']) {
        Some(true)
    } else if eq_ignore_case(t, seq!['n']) || eq_ignore_case(t, seq!['n', 'o']) {
        Some(false)
    } else {
        None
    }
}

fn matches_lower(t: &Vec<char>, a: usize, b: usize, word: &[char]) -> (r: bool)
    requires
        a <= b <= t.len(),
    ensures
        r == eq_ignore_case(t@.subrange(a as int, b as int), word@),
{
    if b - a != word.len() {
        return false;
    }
    let mut k: usize = 0;
    while k < word.len()
        invariant
            a <= b <= t.len(),
            b - a == word.len(),
            k <= word.len(),
            forall|j: int| 0 <= j < k ==> ascii_lower(t@[a + j]) == word@[j],
        decreases word.len() - k,
    {
        let c = t[a + k];
        let lc = if 'A' <= c && c <= 'Z' {
            ((c as u32) + 32) as u8 as char
        } else {
            c
        };
        assert(lc == ascii_lower(c)) by {
            if 'A' <= c && c <= 'Z' {
                assert((c as u32) + 32 < 256);
            }
        }
        if lc != word[k] {
            assert(ascii_lower(t@.subrange(a as int, b as int)[k as int]) != word@[k as int]);
            return false;
        }
        k = k + 1;
    }
    assert forall|j: int| 0 <= j < t@.subrange(a as int, b as int).len() implies ascii_lower(
        #[trigger] t@.subrange(a as int, b as int)[j],
    ) == word@[j] by {
        assert(t@.subrange(a as int, b as int)[j] == t@[a + j]);
    }
    true
}

/// Reads the answer to a yes/no prompt (see `yesno_spec`).
pub fn yesno_answer(input: &str) -> (r: Option<bool>)
    ensures
        r == yesno_spec(input@),
{
    let t = str_chars(input);
    let (a, b) = trim_bounds(&t);
    let y = ['y'];
    let yes = ['y', 'e', 's'];
    let n = ['n'];
    let no = ['n', 'o'];
    assert(y@ =~= seq!['y']);
    assert(yes@ =~= seq!['y', 'e', 's']);
    assert(n@ =~= seq!['n']);
    assert(no@ =~= seq!['n', 'o']);
    if matches_lower(&t, a, b, &y) || matches_lower(&t, a, b, &yes) {
        Some(true)
    } else if matches_lower(&t, a, b, &n) || matches_lower(&t, a, b, &no) {
        Some(false)
    } else {
        None
    }
}

/// The text of a yes/no prompt: the message and ` [y/n]`.
pub fn yesno_prompt_text(message: &str) -> (r: String)
    ensures
        r@ == message@ + " [y/n]"@,
{
    let mut r = String::from_str(message);
    r.append(" [y/n]");
    r
}

/// The error shown when a prompt is refused.
pub fn prompt_refused_message(message: &str) -> (r: String)
    ensures
        r@ == "prompt not allowed in non-interactive mode: "@ + message@,
{
    let mut r = String::from_str("prompt not allowed in non-interactive mode: ");
    r.append(message);
    r
}

/// The prompt level when none is given: `No` on CI (when `CI` is `true`
/// or `1`, case ignored, trimmed), else interactive.
pub open spec fn default_prompt_spec(prompt: Option<PromptLevel>, ci: Option<Seq<char>>) -> PromptLevel {
    match prompt {
        Some(p) => p,
        None => {
            let is_ci = match ci {
                Some(v) => eq_ignore_case(trim(v), seq!['t', 'r', 'u', 'e']) || trim(v) == seq![
                    '1',
                ],
                None => false,
            };
            if is_ci {
                PromptLevel::No
            } else {
                PromptLevel::Interactive
            }
        },
    }
}

/// The prompt level to use, given the one asked for and the value of the
/// `CI` environment variable (see `default_prompt_spec`).
pub fn default_prompt_level(prompt: Option<PromptLevel>, ci: Option<&str>) -> (r: PromptLevel)
    ensures
        r == default_prompt_spec(prompt, match ci {
            Some(v) => Some(v@),
            None => None,
        }),
{
    match prompt {
        Some(p) => p,
        None => {
            let is_ci = match ci {
                Some(v) => {
                    let t = str_chars(v);
                    let (a, b) = trim_bounds(&t);
                    let tr = ['t', 'r', 'u', 'e'];
                    let one = ['1'];
                    assert(tr@ =~= seq!['t', 'r', 'u', 'e']);
                    assert(one@ =~= seq!['1']);
                    let is_one = b - a == 1 && t[a] == '1';
                    assert(is_one == (trim(v@) == seq!['1'])) by {
                        if b - a == 1 {
                            assert(t@.subrange(a as int, b as int)[0] == t@[a as int]);
                            if t[a as int] == '1' {
                                assert(t@.subrange(a as int, b as int) =~= seq!['1']);
                            }
                        }
                    }
                    matches_lower(&t, a, b, &tr) || is_one
                },
                None => false,
            };
            if is_ci {
                PromptLevel::No
            } else {
                PromptLevel::Interactive
            }
        },
    }
}

/// Whether to print in color: always, never, or when stdout is a terminal.
pub fn use_color(color: ColorLevel, stdout_is_terminal: bool) -> (r: bool)
    ensures
        r == match color {
            ColorLevel::Always => true,
            ColorLevel::Never => false,
            ColorLevel::Auto => stdout_is_terminal,
        },
{
    match color {
        ColorLevel::Always => true,
        ColorLevel::Never => false,
        ColorLevel::Auto => stdout_is_terminal,
    }
}

/// The position of a log threshold, from `Off` (0) to `Trace` (5).
pub open spec fn filter_rank(f: LogFilter) -> nat {
    match f {
        LogFilter::Off => 0,
        LogFilter::Error => 1,
        LogFilter::Warn => 2,
        LogFilter::Info => 3,
        LogFilter::Debug => 4,
        LogFilter::Trace => 5,
    }
}

fn filter_rank_exec(f: LogFilter) -> (r: u8)
    ensures
        r == filter_rank(f),
{
    match f {
        LogFilter::Off => 0,
        LogFilter::Error => 1,
        LogFilter::Warn => 2,
        LogFilter::Info => 3,
        LogFilter::Debug => 4,
        LogFilter::Trace => 5,
    }
}

/// The log threshold to use: that of the print level, or the `RUST_LOG`
/// filter's when it lets more through.
pub fn max_log_filter(env: Option<LogFilter>, level: PrintLevel) -> (r: LogFilter)
    ensures
        ({
            let own = match level {
                PrintLevel::QuietQuiet => LogFilter::Off,
                PrintLevel::Quiet => LogFilter::Error,
                PrintLevel::Normal => LogFilter::Info,
                PrintLevel::Verbose => LogFilter::Debug,
                PrintLevel::VerboseVerbose => LogFilter::Trace,
            };
            match env {
                None => r == own,
                Some(e) => r == if filter_rank(e) >= filter_rank(own) { e } else { own },
            }
        }),
{
    let own = level.log_filter();
    match env {
        None => own,
        Some(e) => {
            if filter_rank_exec(e) >= filter_rank_exec(own) {
                e
            } else {
                own
            }
        },
    }
}

} // verus!
