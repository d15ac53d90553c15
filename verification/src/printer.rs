//! The printer's decisions, apart from its IO: when a progress bar gets a
//! print task, when buffered output is printed at once, when a finished
//! task is joined, what a spinner does with a child's output, and the state
//! of a line-by-line reader.
use vstd::prelude::*;
use vstd::string::StringExecFns;
use crate::driver::{DriverOutput, output_view};
use crate::frame::max_bars_for_height;
use crate::level::{Lv, PrintLevel};

verus! {

/// Where progress bars are drawn.
#[derive(Debug, Clone, Copy, PartialEq, Eq, Structural)]
pub enum BarTarget {
    Stdout,
    Stderr,
}

/// Where bars go: stdout when it is a terminal, else stderr when that is
/// one, else nowhere.
pub fn bar_target(stdout_is_terminal: bool, stderr_is_terminal: bool) -> (r: Option<BarTarget>)
    ensures
        r == if stdout_is_terminal {
            Some(BarTarget::Stdout)
        } else if stderr_is_terminal {
            Some(BarTarget::Stderr)
        } else {
            None
        },
{
    if stdout_is_terminal {
        Some(BarTarget::Stdout)
    } else if stderr_is_terminal {
        Some(BarTarget::Stderr)
    } else {
        None
    }
}

/// What the printer does with a new progress bar.
#[derive(Debug, Clone, Copy, PartialEq, Eq, Structural)]
pub enum BarStart {
    /// The bar is not shown at all.
    Ignore,
    /// The bar is tracked; the running (or no) print task draws it.
    Track,
    /// The bar is tracked and a print task is started, for a terminal of
    /// the given width, showing at most the given number of bars.
    TrackAndStart(usize, usize),
}

/// Decides what to do with a new progress bar: nothing at `-qq` or when
/// there is no terminal to draw on; otherwise it is tracked, and when no
/// print task runs one is started, unless the terminal cannot be measured
/// or is too short for any bar.
pub fn add_progress_bar_plan(
    level: PrintLevel,
    has_target: bool,
    task_active: bool,
    term_size: Option<(usize, usize)>,
) -> (r: BarStart)
    ensures
        r == if level.rank() < 1 || !has_target {
            BarStart::Ignore
        } else if task_active {
            BarStart::Track
        } else {
            match term_size {
                None => BarStart::Track,
                Some((w, h)) => if h / 2 >= 3 {
                    BarStart::TrackAndStart(w, (h / 2 - 2) as usize)
                } else {
                    BarStart::Track
                },
            }
        },
{
    if level.to_u8() < 1 || !has_target {
        return BarStart::Ignore;
    }
    if task_active {
        return BarStart::Track;
    }
    match term_size {
        None => BarStart::Track,
        Some((w, h)) => {
            let max_bars = max_bars_for_height(h);
            if max_bars == 0 {
                BarStart::Track
            } else {
                BarStart::TrackAndStart(w, max_bars)
            }
        },
    }
}

/// Whether a formatted message is printed at once (no prompt shown and no
/// bars drawn) rather than buffered until the bars are redrawn.
pub fn print_now(prompt_active: bool, has_bars: bool) -> (r: bool)
    ensures
        r == (!prompt_active && !has_bars),
{
    !prompt_active && !has_bars
}

/// Whether the print task is to be joined: it said it ends, or no bar is
/// left for it to draw.
pub fn should_join_print_task(needs_join: bool, live_bars: usize) -> (r: bool)
    ensures
        r == (needs_join || live_bars == 0),
{
    needs_join || live_bars == 0
}

/// Whether the prompt task is to be joined: it said it ends, or no prompt
/// waits.
pub fn should_join_prompt_task(needs_join: bool, pending_prompts: usize) -> (r: bool)
    ensures
        r == (needs_join || pending_prompts == 0),
{
    needs_join || pending_prompts == 0
}

/// The prefix a spinner puts before the lines it prints: `[name] ` when its
/// level is printed and the child has a name, else nothing.
pub fn spinner_prefix(log_enabled: bool, name: &str) -> (r: String)
    ensures
        r@ == if log_enabled && name@.len() > 0 {
            seq!['['] + name@ + seq![']', ' ']
        } else {
            Seq::empty()
        },
{
    let cs = crate::text::str_chars(name);
    if log_enabled && cs.len() > 0 {
        let mut r = String::new();
        crate::text::push_char(&mut r, '[');
        r.append(name);
        crate::text::push_char(&mut r, ']');
        crate::text::push_char(&mut r, ' ');
        r
    } else {
        String::new()
    }
}

/// What a spinner does with a line from the child: a full line is printed
/// at the spinner's level (after the prefix) and the bar's message cleared,
/// or, when the spinner prints nothing (`lv` is `None`), shown as the bar's
/// message; a progress line becomes the bar's message; the rest is ignored.
/// Gives the print (level and text) and the bar's new message.
pub fn spinner_reaction(lv: Option<Lv>, prefix: &str, out: &DriverOutput) -> (r: (
    Option<(Lv, String)>,
    Option<String>,
))
    ensures
        ({
            let (kind, text) = output_view(*out);
            if kind == 0 {
                match lv {
                    Some(l) => r.0 matches Some(p) && p.0 == l && p.1@ == prefix@ + text && (r.1 matches Some(m) && m@.len() == 0),
                    None => r.0 is None && (r.1 matches Some(m) && m@ == text),
                }
            } else if kind == 1 {
                r.0 is None && (r.1 matches Some(m) && m@ == text)
            } else {
                r.0 is None && r.1 is None
            }
        }),
{
    match out {
        DriverOutput::Line(line) => match lv {
            Some(l) => {
                let mut t = String::from_str(prefix);
                t.append(line.as_str());
                (Some((l, t)), Some(String::new()))
            },
            None => (None, Some(line.clone())),
        },
        DriverOutput::Progress(line) => (None, Some(line.clone())),
        _ => (None, None),
    }
}

/// What one cycle of the print task does.
#[derive(Debug, Clone, Copy, PartialEq, Eq, Structural)]
pub enum CycleStep {
    /// The task ends: there is nowhere to draw.
    End,
    /// Nothing is drawn this cycle: a prompt owns the cursor.
    Skip,
    /// A frame is drawn.
    Draw,
}

/// Decides one cycle of the print task: it ends when the bars have no
/// target any more, waits while a prompt is shown, and draws otherwise.
pub fn print_cycle_step(has_target: bool, prompt_active: bool) -> (r: CycleStep)
    ensures
        r == if !has_target {
            CycleStep::End
        } else if prompt_active {
            CycleStep::Skip
        } else {
            CycleStep::Draw
        },
{
    if !has_target {
        CycleStep::End
    } else if prompt_active {
        CycleStep::Skip
    } else {
        CycleStep::Draw
    }
}

/// After a frame is drawn, the task ends (erasing the bars) when no bar is
/// left to draw.
pub fn frame_ends_task(live_bars: usize) -> (r: bool)
    ensures
        r == (live_bars == 0),
{
    live_bars == 0
}

/// What a line reader receives: a line, a read error, or the end.
pub enum LineMessage {
    Line(String),
    Error(String),
    End,
}

/// The state of a line-by-line reader: done after an error or the end.
pub struct LinesOutput {
    done: bool,
}

impl LinesOutput {
    /// A reader not done yet.
    pub fn new() -> (r: Self)
        ensures
            !r.is_done(),
    {
        LinesOutput { done: false }
    }

    /// Whether the reader is done.
    pub closed spec fn is_done(&self) -> bool {
        self.done
    }

    /// The next item, given what was received (`None` when the sender is
    /// gone): once done, nothing; a line is given; an error is given and
    /// ends the reader; the end (or a gone sender) ends it with nothing.
    pub fn next_item(&mut self, received: Option<LineMessage>) -> (r: Option<Result<String, String>>)
        ensures
            old(self).is_done() ==> r is None && final(self).is_done(),
            !old(self).is_done() ==> match received {
                Some(LineMessage::Line(l)) => r matches Some(Ok(x)) && x@ == l@ && !final(self).is_done(),
                Some(LineMessage::Error(e)) => r matches Some(Err(x)) && x@ == e@ && final(self).is_done(),
                _ => r is None && final(self).is_done(),
            },
    {
        if self.done {
            return None;
        }
        match received {
            Some(LineMessage::Line(l)) => Some(Ok(l)),
            Some(LineMessage::Error(e)) => {
                self.done = true;
                Some(Err(e))
            },
            _ => {
                self.done = true;
                None
            },
        }
    }
}

} // verus!
