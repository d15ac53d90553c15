//! The state of a progress bar and how a bar is drawn.
//!
//! A bar shows, as far as the width allows: the step count (`[42/100]`, or
//! `10.0k / 97.3M` for bytes), its prefix, the percentage, the estimated
//! time left and its message. Percentage and time left are computed in
//! floating point by the caller and handed in as text.
use vstd::prelude::*;
use vstd::string::StringExecFns;
use vstd::string::StrSliceExecFns;
use crate::ansi::{fit_rest, fitting, format_message_with_width, widths};
use crate::byte_format::{ByteFormat, byte_text};
use crate::text::{decimal, push_char, push_decimal};

verus! {

/// The parts of a bar that do not change after it is built.
pub struct StateImmut {
    /// An id, unique among bars.
    pub id: usize,
    /// The prefix (the builder's message).
    pub prefix: String,
    /// `None` means the bar is not kept once done.
    pub done_message: Option<String>,
    /// `None` means the default interrupted message.
    pub interrupted_message: Option<String>,
    /// Whether the percentage is shown.
    pub show_percentage: bool,
    /// Whether the bar has no steps.
    pub unbounded: bool,
    /// Whether steps are shown as bytes.
    pub display_bytes: bool,
    /// How many children are shown; the rest are summed up in one line.
    pub max_display_children: usize,
}

/// How a bar ended.
#[derive(Clone)]
pub enum BarResult {
    /// Done, and not kept.
    DontKeep,
    /// Done, with the message to keep.
    Done(String),
    /// Interrupted, with its message.
    Interrupted(String),
}

/// A child bar, as its parent tracks it.
pub enum ChildState {
    /// Done, with the message to show under the parent.
    Done(String),
    /// Interrupted, with its message.
    Interrupted(String),
    /// Still running: the child's id.
    Progress(usize),
}

/// The changing part of a bar.
pub struct State {
    unreal_total: u64,
    unreal_current: u64,
    message: String,
    children: Vec<ChildState>,
    marked_done: bool,
}

/// The step count and total that a bar shows: nothing for an unbounded
/// bar, no total when the total is not known (0), and otherwise the count
/// capped at the total.
pub open spec fn real_current_total(unbounded: bool, current: u64, total: u64) -> (u64, Option<u64>) {
    if unbounded {
        (0, None)
    } else if total == 0 {
        (current, None)
    } else {
        (if current <= total { current } else { total }, Some(total))
    }
}

/// `[current/total] message`, `[current/?] message`, or, in bytes,
/// `message (current / total)` or `message (current)`; an unbounded bar's
/// message is left as it is.
pub open spec fn finish_text(
    unbounded: bool,
    current: u64,
    total: u64,
    in_bytes: bool,
    message: Seq<char>,
) -> Seq<char> {
    if unbounded {
        message
    } else {
        let (c, t) = real_current_total(unbounded, current, total);
        match (t, in_bytes) {
            (None, false) => seq!['['] + decimal(c as nat) + seq!['/', '?', ']', ' '] + message,
            (None, true) => message + seq![' ', '('] + byte_text(c as nat) + seq![')'],
            (Some(t), false) => seq!['['] + decimal(c as nat) + seq!['/'] + decimal(t as nat) + seq![
                ']',
                ' ',
            ] + message,
            (Some(t), true) => message + seq![' ', '('] + byte_text(c as nat) + seq![' ', '/', ' ']
                + byte_text(t as nat) + seq![')'],
        }
    }
}

/// Whether a bar counts as interrupted when it ends: an unbounded bar
/// unless it was marked done; a bounded bar unless its total is known and
/// its count equals it.
pub open spec fn is_interrupted(unbounded: bool, marked_done: bool, current: u64, total: u64) -> bool {
    if unbounded {
        !marked_done
    } else {
        !(total > 0 && current == total)
    }
}

impl State {
    /// A bar's state with the given total (0: not known yet).
    pub fn new(total: u64) -> (r: Self)
        ensures
            r.total() == total,
            r.current() == 0,
            r.message() == Seq::<char>::empty(),
            r.children_len() == 0,
            !r.marked_done(),
    {
        State {
            unreal_total: total,
            unreal_current: 0,
            message: String::new(),
            children: Vec::new(),
            marked_done: false,
        }
    }

    /// Whether the bar was marked done.
    pub closed spec fn marked_done(&self) -> bool {
        self.marked_done
    }

    /// The total as set (0: not known).
    pub closed spec fn total(&self) -> u64 {
        self.unreal_total
    }

    /// The count as set, which may pass the total.
    pub closed spec fn current(&self) -> u64 {
        self.unreal_current
    }

    /// The message.
    pub closed spec fn message(&self) -> Seq<char> {
        self.message@
    }

    /// The number of children tracked.
    pub closed spec fn children_len(&self) -> nat {
        self.children@.len()
    }

    /// The tracked child at `i`.
    pub closed spec fn child(&self, i: int) -> ChildState {
        self.children@[i]
    }

    /// Sets the count.
    pub fn set_current(&mut self, current: u64)
        ensures
            final(self).current() == current,
            final(self).total() == old(self).total(),
            final(self).message() == old(self).message(),
            final(self).children_len() == old(self).children_len(),
            final(self).marked_done() == old(self).marked_done(),
    {
        self.unreal_current = current;
    }

    /// Adds to the count.
    pub fn inc_current(&mut self, amount: u64)
        requires
            old(self).current() + amount <= u64::MAX,
        ensures
            final(self).current() == old(self).current() + amount,
            final(self).total() == old(self).total(),
            final(self).message() == old(self).message(),
            final(self).children_len() == old(self).children_len(),
            final(self).marked_done() == old(self).marked_done(),
    {
        self.unreal_current = self.unreal_current + amount;
    }

    /// Sets the total; a total of 0 is ignored.
    pub fn set_total(&mut self, total: u64)
        ensures
            final(self).total() == if total != 0 { total } else { old(self).total() },
            final(self).current() == old(self).current(),
            final(self).message() == old(self).message(),
            final(self).children_len() == old(self).children_len(),
            final(self).marked_done() == old(self).marked_done(),
    {
        if total != 0 {
            self.unreal_total = total;
        }
    }

    /// Sets the message.
    pub fn set_message(&mut self, message: &str)
        ensures
            final(self).message() == message@,
            final(self).current() == old(self).current(),
            final(self).total() == old(self).total(),
            final(self).children_len() == old(self).children_len(),
            final(self).marked_done() == old(self).marked_done(),
    {
        self.message = String::from_str(message);
    }

    /// The step count and total shown (see `real_current_total`).
    pub fn real_current_total(&self, unbounded: bool) -> (r: (u64, Option<u64>))
        ensures
            r == real_current_total(unbounded, self.current(), self.total()),
    {
        if unbounded {
            (0, None)
        } else if self.unreal_total == 0 {
            (self.unreal_current, None)
        } else {
            (
                if self.unreal_current <= self.unreal_total {
                    self.unreal_current
                } else {
                    self.unreal_total
                },
                Some(self.unreal_total),
            )
        }
    }

    /// The message shown when the bar ends (see `finish_text`).
    pub fn format_finish_message(&self, message: &str, unbounded: bool, in_bytes: bool) -> (r: String)
        ensures
            r@ == finish_text(unbounded, self.current(), self.total(), in_bytes, message@),
    {
        if unbounded {
            return String::from_str(message);
        }
        let (current, total) = self.real_current_total(unbounded);
        let mut r = String::new();
        match (total, in_bytes) {
            (None, false) => {
                push_char(&mut r, '[');
                push_decimal(&mut r, current);
                push_char(&mut r, '/');
                push_char(&mut r, '?');
                push_char(&mut r, ']');
                push_char(&mut r, ' ');
                r.append(message);
            },
            (None, true) => {
                r.append(message);
                push_char(&mut r, ' ');
                push_char(&mut r, '(');
                ByteFormat(current).write_to(&mut r);
                push_char(&mut r, ')');
            },
            (Some(total), false) => {
                push_char(&mut r, '[');
                push_decimal(&mut r, current);
                push_char(&mut r, '/');
                push_decimal(&mut r, total);
                push_char(&mut r, ']');
                push_char(&mut r, ' ');
                r.append(message);
            },
            (Some(total), true) => {
                r.append(message);
                push_char(&mut r, ' ');
                push_char(&mut r, '(');
                ByteFormat(current).write_to(&mut r);
                push_char(&mut r, ' ');
                push_char(&mut r, '/');
                push_char(&mut r, ' ');
                ByteFormat(total).write_to(&mut r);
                push_char(&mut r, ')');
            },
        }
        assert(r@ =~= finish_text(unbounded, self.current(), self.total(), in_bytes, message@));
        r
    }
}

} // verus!

verus! {

/// A `String` option as characters.
pub open spec fn opt_string(o: Option<String>) -> Option<Seq<char>> {
    match o {
        Some(s) => Some(s@),
        None => None,
    }
}

/// A bar result as a kind (0: not kept, 1: done, 2: interrupted) and its
/// message.
pub open spec fn result_view(r: BarResult) -> (int, Seq<char>) {
    match r {
        BarResult::DontKeep => (0, Seq::empty()),
        BarResult::Done(m) => (1, m@),
        BarResult::Interrupted(m) => (2, m@),
    }
}

/// How a bar ends: a completed bar is kept with its done message, or not
/// kept when it has none; an interrupted bar shows its interrupted message,
/// by default `interrupted` after the prefix.
pub open spec fn check_result_spec(
    im: StateImmut,
    marked_done: bool,
    current: u64,
    total: u64,
) -> (int, Seq<char>) {
    let fin = |m: Seq<char>| finish_text(im.unbounded, current, total, im.display_bytes, m);
    if !is_interrupted(im.unbounded, marked_done, current, total) {
        match opt_string(im.done_message) {
            None => (0, Seq::empty()),
            Some(m) => (1, fin(m)),
        }
    } else {
        match opt_string(im.interrupted_message) {
            None => (
                2,
                fin(
                    if im.prefix@.len() == 0 {
                        seq!['i', 'n', 't', 'e', 'r', 'r', 'u', 'p', 't', 'e', 'd']
                    } else {
                        im.prefix@ + seq![':', ' ', 'i', 'n', 't', 'e', 'r', 'r', 'u', 'p', 't', 'e', 'd']
                    },
                ),
            ),
            Some(m) => (2, fin(m)),
        }
    }
}

impl State {
    /// How the bar ends, given its settings (see `check_result_spec`).
    pub fn check_result(&self, state: &StateImmut) -> (r: BarResult)
        ensures
            result_view(r) == check_result_spec(
                *state,
                self.marked_done(),
                self.current(),
                self.total(),
            ),
    {
        let is_interrupted = if state.unbounded {
            !self.marked_done
        } else {
            !(self.unreal_total > 0 && self.unreal_current == self.unreal_total)
        };
        if !is_interrupted {
            match &state.done_message {
                None => BarResult::DontKeep,
                Some(message) => {
                    let m = self.format_finish_message(
                        message.as_str(),
                        state.unbounded,
                        state.display_bytes,
                    );
                    BarResult::Done(m)
                },
            }
        } else {
            match &state.interrupted_message {
                None => {
                    proof {
                        reveal_strlit("interrupted");
                        reveal_strlit(": interrupted");
                    }
                    let message = if state.prefix.as_str().unicode_len() == 0 {
                        self.format_finish_message("interrupted", state.unbounded, state.display_bytes)
                    } else {
                        let mut t = state.prefix.clone();
                        t.append(": interrupted");
                        self.format_finish_message(t.as_str(), state.unbounded, state.display_bytes)
                    };
                    BarResult::Interrupted(message)
                },
                Some(message) => {
                    let m = self.format_finish_message(
                        message.as_str(),
                        state.unbounded,
                        state.display_bytes,
                    );
                    BarResult::Interrupted(m)
                },
            }
        }
    }
}

} // verus!

verus! {

/// `current/total`, or `current/?` when there is no total.
pub open spec fn count_text(current: u64, total: Option<u64>) -> Seq<char> {
    decimal(current as nat) + seq!['/'] + match total {
        None => seq!['?'],
        Some(t) => decimal(t as nat),
    }
}

/// The count in bytes, `current / total` or `current`.
pub open spec fn bytes_count_text(current: u64, total: Option<u64>) -> Seq<char> {
    match total {
        None => byte_text(current as nat),
        Some(t) => byte_text(current as nat) + seq![' ', '/', ' '] + byte_text(t as nat),
    }
}

/// `n` dots.
pub open spec fn dots(n: nat) -> Seq<char> {
    Seq::new(n, |i: int| '.')
}

/// A space, when a column is left.
pub open spec fn space(w: nat, o: Seq<char>) -> (nat, Seq<char>) {
    if w > 0 {
        ((w - 1) as nat, o.push(' '))
    } else {
        (w, o)
    }
}

/// `t`, when it fits.
pub open spec fn put_if_fits(w: nat, o: Seq<char>, t: Seq<char>) -> (nat, Seq<char>) {
    if w >= t.len() {
        ((w - t.len()) as nat, o + t)
    } else {
        (w, o)
    }
}

/// A `&str` option as characters.
pub open spec fn opt_text(o: Option<&str>) -> Option<Seq<char>> {
    match o {
        Some(s) => Some(s@),
        None => None,
    }
}

/// Space, prefix and separator: a space when a column is left, the part
/// of the prefix that fits, and `: ` when wanted and more than two columns
/// are left.
pub open spec fn stage_prefix(w: nat, o: Seq<char>, prefix: Seq<char>, sep: bool) -> (nat, Seq<char>) {
    let (w2, o2) = space(w, o);
    let (w3, o3) = if prefix.len() > 0 {
        (fit_rest(widths(prefix), w2), o2 + fitting(prefix, w2))
    } else {
        (w2, o2)
    };
    if sep && w3 > 2 {
        ((w3 - 2) as nat, o3 + seq![':', ' '])
    } else {
        (w3, o3)
    }
}

/// The count in bytes and a space, for bars that show bytes.
pub open spec fn stage_bytes(w: nat, o: Seq<char>, on: bool, c: u64, t: Option<u64>) -> (nat, Seq<char>) {
    if on {
        let (wa, oa) = put_if_fits(w, o, bytes_count_text(c, t));
        space(wa, oa)
    } else {
        (w, o)
    }
}

/// The percentage: `100%` at the total, else the given text.
pub open spec fn stage_pct(w: nat, o: Seq<char>, on: bool, c: u64, t: Option<u64>, pct: Seq<char>) -> (nat, Seq<char>) {
    if on {
        put_if_fits(
            w,
            o,
            if Some(c) == t {
                seq!['1', '0', '0', '%']
            } else {
                pct
            },
        )
    } else {
        (w, o)
    }
}

/// The time left, after a space when wanted.
pub open spec fn stage_eta(w: nat, o: Seq<char>, eta: Option<Seq<char>>, sp: bool) -> (nat, Seq<char>) {
    match eta {
        Some(e) => {
            let (wa, oa) = if sp {
                space(w, o)
            } else {
                (w, o)
            };
            put_if_fits(wa, oa, e)
        },
        None => (w, o),
    }
}

/// The part of the message that fits, after a space when wanted.
pub open spec fn stage_msg(w: nat, o: Seq<char>, message: Seq<char>, sp: bool) -> Seq<char> {
    if message.len() > 0 {
        let (wa, oa) = if sp {
            space(w, o)
        } else {
            (w, o)
        };
        oa + fitting(message, wa)
    } else {
        o
    }
}

/// The time-left text that a bar uses: none for an unbounded bar or one
/// whose total is not known.
pub open spec fn eta_used(im: StateImmut, total: u64, eta: Option<Seq<char>>) -> Option<Seq<char>> {
    if im.unbounded || total == 0 {
        None
    } else {
        eta
    }
}

/// Whether `: ` follows the prefix.
pub open spec fn wants_sep(bytes: bool, show_prefix: bool, show_ct: bool, show_pct: bool, show_eta: bool, show_msg: bool) -> bool {
    if bytes {
        show_prefix && (show_ct || show_pct || show_eta || show_msg)
    } else {
        show_prefix && (show_pct || show_eta || show_msg)
    }
}

/// The line of a bar, `width` columns at most: the step count in brackets
/// (or in bytes after the prefix), the prefix, then `: ` and the
/// percentage, the time left and the message, each only where it fits.
/// Below five columns the line is only dots. `pct` is the percentage text
/// (used when the count is not at the total), and `eta` the time-left text,
/// used for bounded bars with a known total.
pub open spec fn bar_line(
    width: nat,
    im: StateImmut,
    current: u64,
    total: u64,
    message: Seq<char>,
    pct: Seq<char>,
    eta: Option<Seq<char>>,
) -> Seq<char> {
    if width == 0 {
        Seq::empty()
    } else if width == 1 {
        seq!['.']
    } else if width == 2 {
        seq!['.', '.']
    } else if width == 3 {
        seq!['.', '.', '.']
    } else if width == 4 {
        seq!['[', '.', '.', ']']
    } else {
        let (c, t) = real_current_total(im.unbounded, current, total);
        let bytes = im.display_bytes;
        let show_ct = !im.unbounded;
        let show_pct = im.show_percentage && t is Some;
        let eta2 = eta_used(im, total, eta);
        let show_eta = eta2 is Some;
        let sep = wants_sep(bytes, im.prefix@.len() > 0, show_ct, show_pct, show_eta, message.len() > 0);
        let ct = count_text(c, t);
        if !bytes && show_ct && ct.len() > width - 2 {
            seq!['['] + dots((width - 2) as nat) + seq![']']
        } else {
            let (w1, o1) = if !bytes && show_ct {
                ((width - 2 - ct.len()) as nat, seq!['['] + ct + seq![']'])
            } else {
                (width, Seq::empty())
            };
            let (w4, o4) = stage_prefix(w1, o1, im.prefix@, sep);
            let (w5, o5) = stage_bytes(w4, o4, bytes && show_ct, c, t);
            let (w6, o6) = stage_pct(w5, o5, show_pct, c, t, pct);
            let (w7, o7) = stage_eta(w6, o6, eta2, if bytes { show_pct || show_ct } else { show_pct });
            stage_msg(w7, o7, message, if bytes { show_pct || show_ct || show_eta } else { show_pct || show_eta })
        }
    }
}

} // verus!

verus! {

fn push_space(out: &mut String, w: usize) -> (r: usize)
    ensures
        (r as nat, final(out)@) == ({
            let (w2, o2) = space(w as nat, old(out)@);
            (w2, o2)
        }),
{
    if w > 0 {
        push_char(out, ' ');
        w - 1
    } else {
        w
    }
}

fn push_if_fits(out: &mut String, w: usize, t: &str) -> (r: usize)
    ensures
        (r as nat, final(out)@) == put_if_fits(w as nat, old(out)@, t@),
{
    let n = t.unicode_len();
    if w >= n {
        out.append(t);
        w - n
    } else {
        w
    }
}

fn push_dots(out: &mut String, n: usize)
    ensures
        final(out)@ == old(out)@ + dots(n as nat),
{
    let mut k: usize = 0;
    while k < n
        invariant
            k <= n,
            out@ == old(out)@ + dots(k as nat),
        decreases n - k,
    {
        push_char(out, '.');
        k = k + 1;
        assert(out@ =~= old(out)@ + dots(k as nat));
    }
}

fn count_string(current: u64, total: Option<u64>) -> (r: String)
    ensures
        r@ == count_text(current, total),
{
    let mut r = String::new();
    push_decimal(&mut r, current);
    push_char(&mut r, '/');
    match total {
        None => push_char(&mut r, '?'),
        Some(t) => push_decimal(&mut r, t),
    }
    assert(r@ =~= count_text(current, total));
    r
}

fn bytes_count_string(current: u64, total: Option<u64>) -> (r: String)
    ensures
        r@ == bytes_count_text(current, total),
{
    let mut r = String::new();
    ByteFormat(current).write_to(&mut r);
    match total {
        None => {},
        Some(t) => {
            push_char(&mut r, ' ');
            push_char(&mut r, '/');
            push_char(&mut r, ' ');
            ByteFormat(t).write_to(&mut r);
        },
    }
    assert(r@ =~= bytes_count_text(current, total));
    r
}

fn push_stage_prefix(o: &mut String, w: usize, prefix: &str, sep: bool) -> (r: usize)
    ensures
        (r as nat, final(o)@) == stage_prefix(w as nat, old(o)@, prefix@, sep),
{
    let mut w = push_space(o, w);
    if prefix.unicode_len() > 0 {
        w = format_message_with_width(o, w, prefix);
    }
    if sep && w > 2 {
        w = w - 2;
        push_char(o, ':');
        push_char(o, ' ');
    }
    w
}

fn push_stage_bytes(o: &mut String, w: usize, on: bool, c: u64, t: Option<u64>) -> (r: usize)
    ensures
        (r as nat, final(o)@) == stage_bytes(w as nat, old(o)@, on, c, t),
{
    if on {
        let bt = bytes_count_string(c, t);
        let w = push_if_fits(o, w, bt.as_str());
        push_space(o, w)
    } else {
        w
    }
}

fn push_stage_pct(o: &mut String, w: usize, on: bool, c: u64, t: Option<u64>, pct: &str) -> (r: usize)
    ensures
        (r as nat, final(o)@) == stage_pct(w as nat, old(o)@, on, c, t, pct@),
{
    if on {
        let is_full = match t {
            Some(t) => c == t,
            None => false,
        };
        if is_full {
            proof {
                reveal_strlit("100%");
                assert("100%"@ =~= seq!['1', '0', '0', '%']);
            }
            push_if_fits(o, w, "100%")
        } else {
            push_if_fits(o, w, pct)
        }
    } else {
        w
    }
}

fn push_stage_eta(o: &mut String, w: usize, eta: Option<&str>, sp: bool) -> (r: usize)
    ensures
        (r as nat, final(o)@) == stage_eta(w as nat, old(o)@, opt_text(eta), sp),
{
    match eta {
        Some(e) => {
            let w = if sp {
                push_space(o, w)
            } else {
                w
            };
            push_if_fits(o, w, e)
        },
        None => w,
    }
}

fn push_stage_msg(o: &mut String, w: usize, message: &str, sp: bool)
    ensures
        final(o)@ == stage_msg(w as nat, old(o)@, message@, sp),
{
    if message.unicode_len() > 0 {
        let w = if sp {
            push_space(o, w)
        } else {
            w
        };
        format_message_with_width(o, w, message);
    }
}

impl State {
    /// Draws the bar's line, `width` columns at most (see `bar_line`).
    /// `percentage` is the percentage text, and `eta` the time-left text
    /// when there is an estimate.
    pub fn format_self(
        &self,
        out: &mut String,
        width: usize,
        state: &StateImmut,
        percentage: &str,
        eta: Option<&str>,
    )
        ensures
            final(out)@ == old(out)@ + bar_line(
                width as nat,
                *state,
                self.current(),
                self.total(),
                self.message(),
                percentage@,
                opt_text(eta),
            ),
    {
        let ghost base = old(out)@;
        let ghost line = bar_line(
            width as nat,
            *state,
            self.current(),
            self.total(),
            self.message(),
            percentage@,
            opt_text(eta),
        );
        if width == 0 {
            assert(out@ =~= base + line);
            return;
        } else if width == 1 {
            push_char(out, '.');
            assert(out@ =~= base + line);
            return;
        } else if width == 2 {
            push_char(out, '.');
            push_char(out, '.');
            assert(out@ =~= base + line);
            return;
        } else if width == 3 {
            push_char(out, '.');
            push_char(out, '.');
            push_char(out, '.');
            assert(out@ =~= base + line);
            return;
        } else if width == 4 {
            push_char(out, '[');
            push_char(out, '.');
            push_char(out, '.');
            push_char(out, ']');
            assert(out@ =~= base + line);
            return;
        }
        let (current, total) = self.real_current_total(state.unbounded);
        let bytes = state.display_bytes;
        let show_ct = !state.unbounded;
        let prefix = state.prefix.as_str();
        let show_prefix = prefix.unicode_len() > 0;
        let show_pct = state.show_percentage && total.is_some();
        let eta2 = if state.unbounded || self.unreal_total == 0 {
            None
        } else {
            eta
        };
        let show_eta = eta2.is_some();
        let show_msg = self.message.as_str().unicode_len() > 0;
        let sep = if bytes {
            show_prefix && (show_ct || show_pct || show_eta || show_msg)
        } else {
            show_prefix && (show_pct || show_eta || show_msg)
        };
        let sp_eta = if bytes {
            show_pct || show_ct
        } else {
            show_pct
        };
        let sp_msg = if bytes {
            show_pct || show_ct || show_eta
        } else {
            show_pct || show_eta
        };
        let mut w = width;
        let mut o = String::new();
        if !bytes && show_ct {
            let ct = count_string(current, total);
            let n = ct.as_str().unicode_len();
            if n > width - 2 {
                push_char(out, '[');
                push_dots(out, width - 2);
                push_char(out, ']');
                assert(out@ =~= base + line);
                return;
            }
            w = width - 2 - n;
            push_char(&mut o, '[');
            o.append(ct.as_str());
            push_char(&mut o, ']');
            assert(o@ =~= seq!['['] + count_text(current, total) + seq![']']);
        } else {
            proof {
                reveal_strlit("");
            }
            assert(o@ =~= Seq::<char>::empty());
        }
        w = push_stage_prefix(&mut o, w, prefix, sep);
        w = push_stage_bytes(&mut o, w, bytes && show_ct, current, total);
        w = push_stage_pct(&mut o, w, show_pct, current, total, percentage);
        w = push_stage_eta(&mut o, w, eta2, sp_eta);
        push_stage_msg(&mut o, w, self.message.as_str(), sp_msg);
        out.append(o.as_str());
        assert(out@ =~= base + line);
    }
}

} // verus!

verus! {

/// Settings for drawing bars.
pub struct BarFormatter {
    pub colors: crate::ansi::Colors,
    /// The color the bars are drawn in.
    pub bar_color: &'static str,
    /// The columns available to a bar line at depth 0, plus 2.
    pub width: usize,
}

/// A child bar as seen when drawing its parent.
pub enum ChildNode {
    /// The child is gone (its last handle was dropped unseen); it is dropped
    /// from the list.
    Gone,
    /// Done, with its message.
    Done(String),
    /// Interrupted, with its message.
    Interrupted(String),
    /// Still running.
    Progress(Box<BarNode>),
}

/// A bar and its children, as they are when drawn. `percentage` and `eta`
/// are the texts the bar's estimate gave for this frame.
pub struct BarNode {
    pub immut: StateImmut,
    pub state: State,
    pub percentage: String,
    pub eta: Option<String>,
    pub children: Vec<ChildNode>,
}

/// The tree glyph before a child that has siblings after it.
pub open spec fn bar_tick() -> char {
    '\u{251c}'
}

/// The tree glyph that continues a parent's line.
pub open spec fn bar_bar() -> char {
    '\u{2502}'
}

/// The tree glyph before the last child.
pub open spec fn last_tick() -> char {
    '\u{2514}'
}

/// `a - b`, or 0.
pub open spec fn sat_sub(a: nat, b: nat) -> nat {
    if a >= b {
        (a - b) as nat
    } else {
        0
    }
}

/// The bar's own line at `depth`.
pub open spec fn node_line(n: BarNode, depth: nat, f: BarFormatter) -> Seq<char> {
    bar_line(
        sat_sub(f.width as nat, (depth + 1) * 2),
        n.immut,
        n.state.current(),
        n.state.total(),
        n.state.message(),
        n.percentage@,
        opt_string(n.eta),
    )
}

/// `| `-style guides for `depth` levels.
pub open spec fn guides(depth: nat) -> Seq<char>
    decreases depth,
{
    if depth == 0 {
        Seq::empty()
    } else {
        guides((depth - 1) as nat) + seq![bar_bar(), ' ']
    }
}

/// The line that sums up the children not shown.
pub open spec fn more_line(depth: nat, more: nat, f: BarFormatter) -> Seq<char> {
    seq!['|', ' '] + f.colors.gray@ + guides(depth) + seq![last_tick()] + seq![
        ' ',
        ' ',
        '.',
        '.',
        '.',
        ' ',
        'a',
        'n',
        'd',
        ' ',
    ] + decimal(more) + seq![' ', 'm', 'o', 'r', 'e'] + f.bar_color@ + seq!['\n']
}

/// One child's part of its parent's drawing, given the index and the
/// number of children counted before it: the text and lines it adds, and
/// the index and count after it. A gone child is skipped; one past
/// `max_display_children` is only counted; the others get a tree glyph,
/// then their message (done or interrupted) or their own tree one level
/// deeper.
pub open spec fn kid_part(
    n: BarNode,
    idx: nat,
    depth: nat,
    hier: Seq<char>,
    f: BarFormatter,
    i: int,
    shown: int,
) -> (Seq<char>, int, int, int)
    decreases n, idx, 0nat,
{
    if idx >= n.children@.len() {
        (Seq::empty(), 0, i, shown)
    } else {
        let child = n.children@[idx as int];
        let count = n.children@.len();
        match child {
            ChildNode::Gone => (Seq::empty(), 0, i + 1, shown),
            _ => if shown >= n.immut.max_display_children {
                (Seq::empty(), 0, i, shown + 1)
            } else {
                let last = i == count - 1;
                let head = seq!['.', ' '] + f.colors.gray@ + hier + seq![
                    if last {
                        last_tick()
                    } else {
                        bar_tick()
                    },
                    ' ',
                ];
                let sub = hier + if last {
                    seq![' ', ' ']
                } else {
                    seq![bar_bar(), ' ']
                };
                let w2 = sat_sub(f.width as nat, (depth + 2) * 2);
                let (body, bl) = match child {
                    ChildNode::Done(m) => (
                        f.colors.green@ + fitting(m@, w2) + seq!['\n'] + f.bar_color@,
                        1int,
                    ),
                    ChildNode::Interrupted(m) => (
                        f.colors.yellow@ + fitting(m@, w2) + seq!['\n'] + f.bar_color@,
                        1int,
                    ),
                    ChildNode::Progress(c) => {
                        let (t, l) = node_text(*c, depth + 1, sub, f);
                        (f.bar_color@ + t, l)
                    },
                    ChildNode::Gone => (Seq::empty(), 0int),
                };
                (head + body, bl, i + 1, shown + 1)
            },
        }
    }
}

/// `kid_part` applied to the drawing so far.
pub open spec fn kid_step(
    n: BarNode,
    idx: nat,
    depth: nat,
    hier: Seq<char>,
    f: BarFormatter,
    acc: (Seq<char>, int, int, int),
) -> (Seq<char>, int, int, int)
    decreases n, idx, 1nat,
{
    let p = kid_part(n, idx, depth, hier, f, acc.2, acc.3);
    (acc.0 + p.0, acc.1 + p.1, p.2, p.3)
}

/// The text and line count after the bar's line and its first `k`
/// children, with the index and the number of children counted so far.
pub open spec fn kids_text(n: BarNode, k: nat, depth: nat, hier: Seq<char>, f: BarFormatter) -> (
    Seq<char>,
    int,
    int,
    int,
)
    decreases n, k, 2nat,
{
    if k == 0 || k > n.children@.len() {
        (node_line(n, depth, f).push('\n'), 1, 0, 0)
    } else {
        kid_step(n, (k - 1) as nat, depth, hier, f, kids_text(n, (k - 1) as nat, depth, hier, f))
    }
}

/// A bar and its children drawn at `depth`, with the tree glyphs of its
/// ancestors in `hier`: the text and the number of lines.
pub open spec fn node_text(n: BarNode, depth: nat, hier: Seq<char>, f: BarFormatter) -> (Seq<char>, int)
    decreases n, n.children@.len() + 1, 3nat,
{
    let (o, lines, i, shown) = kids_text(n, n.children@.len(), depth, hier, f);
    if shown > n.immut.max_display_children {
        (o + more_line(depth, (shown - n.immut.max_display_children) as nat, f), lines + 1)
    } else {
        (o, lines)
    }
}

} // verus!

verus! {

proof fn lemma_node_lines(n: BarNode, depth: nat, hier: Seq<char>, f: BarFormatter)
    ensures
        node_text(n, depth, hier, f).1 >= kids_text(n, n.children@.len(), depth, hier, f).1 >= 1,
    decreases n, n.children@.len() + 1, 3nat,
{
    lemma_kids_lines(n, n.children@.len(), depth, hier, f);
}

proof fn lemma_kids_lines(n: BarNode, k: nat, depth: nat, hier: Seq<char>, f: BarFormatter)
    requires
        k <= n.children@.len(),
    ensures
        kids_text(n, k, depth, hier, f).1 >= 1,
        kids_text(n, k, depth, hier, f).2 <= k,
        kids_text(n, k, depth, hier, f).3 <= k,
        forall|j: nat| j <= k ==> #[trigger] kids_text(n, j, depth, hier, f).1 <= kids_text(n, k, depth, hier, f).1,
    decreases n, k, 2nat,
{
    if k > 0 {
        lemma_kids_lines(n, (k - 1) as nat, depth, hier, f);
        let acc = kids_text(n, (k - 1) as nat, depth, hier, f);
        lemma_kid_part(n, (k - 1) as nat, depth, hier, f, acc.2, acc.3);
        assert(kids_text(n, k, depth, hier, f) == kid_step(n, (k - 1) as nat, depth, hier, f, acc));
        let p = kid_part(n, (k - 1) as nat, depth, hier, f, acc.2, acc.3);
        assert(kids_text(n, k, depth, hier, f).2 == p.2);
        assert(kids_text(n, k, depth, hier, f).3 == p.3);
    }
}

proof fn lemma_kid_part(n: BarNode, idx: nat, depth: nat, hier: Seq<char>, f: BarFormatter, i: int, shown: int)
    ensures
        kid_part(n, idx, depth, hier, f, i, shown).1 >= 0,
        kid_part(n, idx, depth, hier, f, i, shown).2 <= i + 1,
        kid_part(n, idx, depth, hier, f, i, shown).3 <= shown + 1,
    decreases n, idx, 0nat,
{
    if idx < n.children@.len() {
        let child = n.children@[idx as int];
        let count = n.children@.len();
        match child {
            ChildNode::Progress(c) => {
                if shown < n.immut.max_display_children {
                    let last = i == count - 1;
                    let sub = hier + if last {
                        seq![' ', ' ']
                    } else {
                        seq![bar_bar(), ' ']
                    };
                    lemma_node_lines(*c, depth + 1, sub, f);
                }
            },
            _ => {},
        }
    }
}

/// `width - 2 * levels`, or 0.
fn width_at_depth(width: usize, levels: usize) -> (r: usize)
    ensures
        r == sat_sub(width as nat, (levels * 2) as nat),
{
    if levels > width / 2 {
        0
    } else {
        width - levels * 2
    }
}

fn push_more_line(out: &mut String, depth: usize, more: usize, fmt: &BarFormatter)
    ensures
        final(out)@ == old(out)@ + more_line(depth as nat, more as nat, *fmt),
{
    push_char(out, '|');
    push_char(out, ' ');
    out.append(fmt.colors.gray);
    let mut d: usize = 0;
    while d < depth
        invariant
            d <= depth,
            out@ == old(out)@ + seq!['|', ' '] + fmt.colors.gray@ + guides(d as nat),
        decreases depth - d,
    {
        push_char(out, '\u{2502}');
        push_char(out, ' ');
        d = d + 1;
        assert(out@ =~= old(out)@ + seq!['|', ' '] + fmt.colors.gray@ + guides(d as nat));
    }
    push_char(out, '\u{2514}');
    proof {
        reveal_strlit("  ... and ");
        reveal_strlit(" more");
    }
    out.append("  ... and ");
    push_decimal(out, more as u64);
    out.append(" more");
    out.append(fmt.bar_color);
    push_char(out, '\n');
    assert(out@ =~= old(out)@ + more_line(depth as nat, more as nat, *fmt));
}

impl BarNode {
    /// Draws the child at `idx` (see `kid_part`), given the line count,
    /// index and number of children counted before it; gives them after it.
    #[verifier::rlimit(60)]
    #[verifier::spinoff_prover]
    fn format_kid(
        &self,
        idx: usize,
        depth: usize,
        hierarchy: &str,
        fmt: &BarFormatter,
        out: &mut String,
        lines: i32,
        i: usize,
        shown: usize,
    ) -> (r: (i32, usize, usize))
        requires
            idx < self.children@.len(),
            i <= idx,
            shown <= idx,
            lines >= 1,
            lines + kid_part(*self, idx as nat, depth as nat, hierarchy@, *fmt, i as int, shown as int).1 <= i32::MAX,
            depth + lines + kid_part(*self, idx as nat, depth as nat, hierarchy@, *fmt, i as int, shown as int).1 <= usize::MAX,
        ensures
            ({
                let p = kid_part(*self, idx as nat, depth as nat, hierarchy@, *fmt, i as int, shown as int);
                &&& final(out)@ == old(out)@ + p.0
                &&& r.0 == lines + p.1
                &&& r.1 == p.2
                &&& r.2 == p.3
            }),
        decreases self, idx, 0nat,
    {
        let ghost n = *self;
        let ghost hier = hierarchy@;
        let ghost f = *fmt;
        let count = self.children.len();
        match &self.children[idx] {
            ChildNode::Gone => (lines, i + 1, shown),
            child => {
                if shown >= self.immut.max_display_children {
                    return (lines, i, shown + 1);
                }
                let last = i == count - 1;
                push_char(out, '.');
                push_char(out, ' ');
                out.append(fmt.colors.gray);
                out.append(hierarchy);
                let mut sub = String::from_str(hierarchy);
                if last {
                    push_char(out, '\u{2514}');
                    push_char(&mut sub, ' ');
                    push_char(&mut sub, ' ');
                    assert(sub@ =~= hier + seq![' ', ' ']);
                } else {
                    push_char(out, '\u{251c}');
                    push_char(&mut sub, '\u{2502}');
                    push_char(&mut sub, ' ');
                    assert(sub@ =~= hier + seq![bar_bar(), ' ']);
                }
                push_char(out, ' ');
                let w2 = width_at_depth(fmt.width, depth.saturating_add(2));
                assert(w2 == sat_sub(fmt.width as nat, ((depth + 2) * 2) as nat));
                let ghost head_out = out@;
                let mut lines = lines;
                match child {
                    ChildNode::Done(m) => {
                        out.append(fmt.colors.green);
                        format_message_with_width(out, w2, m.as_str());
                        push_char(out, '\n');
                        out.append(fmt.bar_color);
                        lines = lines + 1;
                    },
                    ChildNode::Interrupted(m) => {
                        out.append(fmt.colors.yellow);
                        format_message_with_width(out, w2, m.as_str());
                        push_char(out, '\n');
                        out.append(fmt.bar_color);
                        lines = lines + 1;
                    },
                    ChildNode::Progress(c) => {
                        out.append(fmt.bar_color);
                        assert(n.children@[idx as int] == ChildNode::Progress(*c));
                        proof {
                            lemma_node_lines(**c, (depth + 1) as nat, sub@, f);
                        }
                        let cl = c.format_at_depth(depth + 1, sub.as_str(), fmt, out);
                        lines = lines + cl;
                    },
                    ChildNode::Gone => {},
                }
                assert(out@ =~= old(out)@ + kid_part(n, idx as nat, depth as nat, hier, f, i as int, shown as int).0);
                (lines, i + 1, shown + 1)
            },
        }
    }

    /// Draws the bar and its children at `depth` (see `node_text`), and
    /// gives the number of lines drawn. `hierarchy` holds the tree glyphs
    /// of the bar's ancestors.
    #[verifier::rlimit(60)]
    #[verifier::spinoff_prover]
    pub fn format_at_depth(&self, depth: usize, hierarchy: &str, fmt: &BarFormatter, out: &mut String) -> (lines: i32)
        requires
            node_text(*self, depth as nat, hierarchy@, *fmt).1 <= i32::MAX,
            depth + node_text(*self, depth as nat, hierarchy@, *fmt).1 <= usize::MAX,
        ensures
            final(out)@ == old(out)@ + node_text(*self, depth as nat, hierarchy@, *fmt).0,
            lines == node_text(*self, depth as nat, hierarchy@, *fmt).1,
        decreases self, self.children@.len() + 1, 3nat,
    {
        let ghost n = *self;
        let ghost hier = hierarchy@;
        let ghost f = *fmt;
        let ghost total = node_text(n, depth as nat, hier, f).1;
        proof {
            lemma_node_lines(n, depth as nat, hier, f);
            lemma_kids_lines(n, n.children@.len(), depth as nat, hier, f);
        }
        let w1 = width_at_depth(fmt.width, depth.saturating_add(1));
        assert(w1 == sat_sub(fmt.width as nat, ((depth + 1) * 2) as nat));
        let eta = match &self.eta {
            Some(e) => Some(e.as_str()),
            None => None,
        };
        assert(opt_text(eta) == opt_string(self.eta));
        let ghost base = old(out)@;
        self.state.format_self(out, w1, &self.immut, self.percentage.as_str(), eta);
        push_char(out, '\n');
        let mut lines: i32 = 1;
        let mut i: usize = 0;
        let mut shown: usize = 0;
        let count = self.children.len();
        let max = self.immut.max_display_children;
        let mut k: usize = 0;
        assert(out@ =~= base + kids_text(n, 0, depth as nat, hier, f).0);
        while k < count
            invariant
                k <= count,
                count == n.children@.len(),
                n == *self,
                hier == hierarchy@,
                f == *fmt,
                max == n.immut.max_display_children,
                total == node_text(n, depth as nat, hier, f).1,
                total <= i32::MAX,
                depth + total <= usize::MAX,
                forall|j: nat| j <= count ==> #[trigger] kids_text(n, j, depth as nat, hier, f).1 <= kids_text(n, count as nat, depth as nat, hier, f).1,
                kids_text(n, count as nat, depth as nat, hier, f).1 <= total,
                kids_text(n, k as nat, depth as nat, hier, f).2 <= k,
                kids_text(n, k as nat, depth as nat, hier, f).3 <= k,
                out@ == base + kids_text(n, k as nat, depth as nat, hier, f).0,
                lines == kids_text(n, k as nat, depth as nat, hier, f).1,
                i == kids_text(n, k as nat, depth as nat, hier, f).2,
                shown == kids_text(n, k as nat, depth as nat, hier, f).3,
            decreases count - k,
        {
            proof {
                lemma_kids_lines(n, (k + 1) as nat, depth as nat, hier, f);
                lemma_kids_lines(n, k as nat, depth as nat, hier, f);
                let acc = kids_text(n, k as nat, depth as nat, hier, f);
                assert(kids_text(n, (k + 1) as nat, depth as nat, hier, f) == kid_step(n, k as nat, depth as nat, hier, f, acc));
            }
            let r = self.format_kid(k, depth, hierarchy, fmt, out, lines, i, shown);
            lines = r.0;
            i = r.1;
            shown = r.2;
            k = k + 1;
            assert(out@ =~= base + kids_text(n, k as nat, depth as nat, hier, f).0);
        }
        if shown > max {
            push_more_line(out, depth, shown - max, fmt);
            lines = lines + 1;
            assert(out@ =~= base + node_text(n, depth as nat, hier, f).0);
        } else {
            assert(out@ =~= base + node_text(n, depth as nat, hier, f).0);
        }
        lines
    }
}

} // verus!

verus! {

/// A tracked child as a kind (0: done, 1: interrupted, 2: running), its
/// message and its id.
pub open spec fn child_view(c: ChildState) -> (int, Seq<char>, usize) {
    match c {
        ChildState::Done(m) => (0, m@, 0),
        ChildState::Interrupted(m) => (1, m@, 0),
        ChildState::Progress(id) => (2, Seq::empty(), id),
    }
}

/// The tracked children after child `id` reported `result`: its first
/// entry is dropped (not kept) or replaced by its message; any later entry
/// for the same id is dropped.
pub open spec fn children_after_done(
    cs: Seq<(int, Seq<char>, usize)>,
    id: usize,
    result: (int, Seq<char>),
) -> Seq<(int, Seq<char>, usize)>
    decreases cs.len(),
{
    if cs.len() == 0 {
        Seq::empty()
    } else {
        let c = cs[0];
        let rest = cs.drop_first();
        if c.0 == 2 && c.2 == id {
            let tail = children_after_done(rest, id, (0, Seq::empty()));
            if result.0 == 0 {
                tail
            } else if result.0 == 1 {
                seq![(0, result.1, 0usize)] + tail
            } else {
                seq![(1, result.1, 0usize)] + tail
            }
        } else {
            seq![c] + children_after_done(rest, id, result)
        }
    }
}

/// A result not yet reported, as a view; once reported, "not kept".
pub open spec fn pending_view(p: Option<BarResult>) -> (int, Seq<char>) {
    match p {
        Some(r) => result_view(r),
        None => (0, Seq::empty()),
    }
}

impl State {
    /// The tracked children, as views.
    pub closed spec fn children_view(&self) -> Seq<(int, Seq<char>, usize)> {
        self.children@.map_values(|c: ChildState| child_view(c))
    }

    /// The total as set (0: not known).
    pub fn get_total(&self) -> (r: u64)
        ensures
            r == self.total(),
    {
        self.unreal_total
    }

    /// The count as set.
    pub fn get_current(&self) -> (r: u64)
        ensures
            r == self.current(),
    {
        self.unreal_current
    }

    /// The message.
    pub fn message_str(&self) -> (r: &str)
        ensures
            r@ == self.message(),
    {
        self.message.as_str()
    }

    /// The number of children tracked.
    pub fn child_count(&self) -> (r: usize)
        ensures
            r == self.children_view().len(),
    {
        self.children.len()
    }

    /// The tracked child at `i`.
    pub fn child_at(&self, i: usize) -> (r: &ChildState)
        requires
            i < self.children_view().len(),
        ensures
            child_view(*r) == self.children_view()[i as int],
    {
        &self.children[i]
    }

    /// Starts tracking a running child.
    pub fn add_child(&mut self, child_id: usize)
        ensures
            final(self).children_view() == old(self).children_view().push((2, Seq::empty(), child_id)),
            final(self).current() == old(self).current(),
            final(self).total() == old(self).total(),
            final(self).message() == old(self).message(),
            final(self).marked_done() == old(self).marked_done(),
    {
        self.children.push(ChildState::Progress(child_id));
        assert(self.children@.map_values(|c: ChildState| child_view(c)) =~= old(self).children_view().push(
            (2, Seq::empty(), child_id),
        ));
    }

    /// Records how child `child_id` ended (see `children_after_done`).
    pub fn child_done(&mut self, child_id: usize, result: BarResult)
        ensures
            final(self).children_view() == children_after_done(
                old(self).children_view(),
                child_id,
                result_view(result),
            ),
            final(self).current() == old(self).current(),
            final(self).total() == old(self).total(),
            final(self).message() == old(self).message(),
            final(self).marked_done() == old(self).marked_done(),
    {
        let ghost old_view = self.children@.map_values(|c: ChildState| child_view(c));
        let ghost rv = result_view(result);
        let mut old_children: Vec<ChildState> = Vec::new();
        std::mem::swap(&mut old_children, &mut self.children);
        let mut out: Vec<ChildState> = Vec::new();
        let mut pending: Option<BarResult> = Some(result);
        let n = old_children.len();
        let mut k: usize = 0;
        assert(old_view.skip(0) =~= old_view);
        assert(out@.map_values(|c: ChildState| child_view(c)) =~= Seq::<(int, Seq<char>, usize)>::empty());
        assert(Seq::<(int, Seq<char>, usize)>::empty() + children_after_done(old_view, child_id, rv)
            =~= children_after_done(old_view, child_id, rv));
        while k < n
            invariant
                k <= n,
                n == old_children@.len(),
                old_view == old_children@.map_values(|c: ChildState| child_view(c)),
                children_after_done(old_view, child_id, rv) == out@.map_values(
                    |c: ChildState| child_view(c),
                ) + children_after_done(
                    old_view.skip(k as int),
                    child_id,
                    pending_view(pending),
                ),
            decreases n - k,
        {
            let ghost out_before = out@.map_values(|c: ChildState| child_view(c));
            assert(old_view.skip(k as int).drop_first() =~= old_view.skip(k + 1));
            assert(old_view.skip(k as int)[0] == child_view(old_children@[k as int]));
            match &old_children[k] {
                ChildState::Progress(id) => {
                    if *id == child_id {
                        let taken = pending.take();
                        match taken {
                            None | Some(BarResult::DontKeep) => {},
                            Some(BarResult::Done(m)) => {
                                out.push(ChildState::Done(m));
                            },
                            Some(BarResult::Interrupted(m)) => {
                                out.push(ChildState::Interrupted(m));
                            },
                        }
                    } else {
                        out.push(ChildState::Progress(*id));
                    }
                },
                ChildState::Done(m) => {
                    out.push(ChildState::Done(m.clone()));
                },
                ChildState::Interrupted(m) => {
                    out.push(ChildState::Interrupted(m.clone()));
                },
            }
            assert(out@.map_values(|c: ChildState| child_view(c)) =~= out@.map_values(
                |c: ChildState| child_view(c),
            ));
            k = k + 1;
            proof {
                let ov = out@.map_values(|c: ChildState| child_view(c));
                let d = ov.subrange(out_before.len() as int, ov.len() as int);
                assert(ov =~= out_before + d);
            }
        }
        assert(old_view.skip(n as int) =~= Seq::<(int, Seq<char>, usize)>::empty());
        self.children = out;
        assert(self.children@.map_values(|c: ChildState| child_view(c)) =~= children_after_done(
            old_view,
            child_id,
            rv,
        ));
    }

    /// Marks an unbounded bar done: its count and total become 1, and it
    /// is no longer interrupted. A bounded bar is left as it is: whether it
    /// ends done goes by its count.
    pub fn mark_done(&mut self, unbounded: bool)
        ensures
            unbounded ==> final(self).current() == 1 && final(self).total() == 1,
            final(self).marked_done() == (old(self).marked_done() || unbounded),
            !unbounded ==> final(self).current() == old(self).current() && final(self).total()
                == old(self).total(),
            final(self).message() == old(self).message(),
            final(self).children_view() == old(self).children_view(),
    {
        if unbounded {
            self.unreal_current = 1;
            self.unreal_total = 1;
            self.marked_done = true;
        }
    }
}

} // verus!

verus! {

/// Builds a progress bar. Defaults: unbounded, kept when done (for a bar
/// without a parent), time left and percentage shown, default done and
/// interrupted messages, no limit on children shown.
pub struct ProgressBarBuilder {
    pub message: String,
    /// Total steps: `None` is unbounded, 0 is not known yet.
    pub total: Option<u64>,
    pub total_is_in_bytes: bool,
    pub keep: Option<bool>,
    pub show_eta: bool,
    pub show_percentage: bool,
    pub done_message: Option<String>,
    pub interrupted_message: Option<String>,
    pub max_display_children: usize,
    /// The parent bar's id, if any.
    pub parent: Option<usize>,
}

/// The default limit on children shown: in effect none.
pub open spec fn no_child_limit() -> usize {
    (usize::MAX / 2) as usize
}

impl ProgressBarBuilder {
    /// A builder with the defaults and the given message (the bar's
    /// prefix).
    pub fn new(message: String) -> (r: Self)
        ensures
            r.message == message,
            r.total is None,
            !r.total_is_in_bytes,
            r.keep is None,
            r.show_eta,
            r.show_percentage,
            r.done_message is None,
            r.interrupted_message is None,
            r.max_display_children == no_child_limit(),
            r.parent is None,
    {
        ProgressBarBuilder {
            message,
            total: None,
            total_is_in_bytes: false,
            keep: None,
            show_eta: true,
            show_percentage: true,
            done_message: None,
            interrupted_message: None,
            max_display_children: usize::MAX / 2,
            parent: None,
        }
    }

    /// Sets the total steps (0: not known yet).
    pub fn total(self, total: usize) -> (r: Self)
        ensures
            r == (ProgressBarBuilder { total: Some(total as u64), ..self }),
    {
        ProgressBarBuilder { total: Some(total as u64), ..self }
    }

    /// Sets the total in bytes, and shows the steps as bytes.
    pub fn total_bytes(self, total: u64) -> (r: Self)
        ensures
            r == (ProgressBarBuilder { total: Some(total), total_is_in_bytes: true, ..self }),
    {
        ProgressBarBuilder { total: Some(total), total_is_in_bytes: true, ..self }
    }

    /// Sets whether the bar is kept once done.
    pub fn keep(self, keep: bool) -> (r: Self)
        ensures
            r == (ProgressBarBuilder { keep: Some(keep), ..self }),
    {
        ProgressBarBuilder { keep: Some(keep), ..self }
    }

    /// Sets whether the time left is shown.
    pub fn eta(self, show: bool) -> (r: Self)
        ensures
            r == (ProgressBarBuilder { show_eta: show, ..self }),
    {
        ProgressBarBuilder { show_eta: show, ..self }
    }

    /// Sets whether the percentage is shown.
    pub fn percentage(self, show: bool) -> (r: Self)
        ensures
            r == (ProgressBarBuilder { show_percentage: show, ..self }),
    {
        ProgressBarBuilder { show_percentage: show, ..self }
    }

    /// Sets the message shown once done.
    pub fn when_done(self, message: String) -> (r: Self)
        ensures
            r == (ProgressBarBuilder { done_message: Some(message), ..self }),
    {
        ProgressBarBuilder { done_message: Some(message), ..self }
    }

    /// Sets the message shown when interrupted.
    pub fn when_interrupt(self, message: String) -> (r: Self)
        ensures
            r == (ProgressBarBuilder { interrupted_message: Some(message), ..self }),
    {
        ProgressBarBuilder { interrupted_message: Some(message), ..self }
    }

    /// Sets how many children are shown at a time.
    pub fn max_display_children(self, num: usize) -> (r: Self)
        ensures
            r == (ProgressBarBuilder { max_display_children: num, ..self }),
    {
        ProgressBarBuilder { max_display_children: num, ..self }
    }

    /// Sets the parent bar (by id).
    pub fn parent(self, parent: Option<usize>) -> (r: Self)
        ensures
            r == (ProgressBarBuilder { parent, ..self }),
    {
        ProgressBarBuilder { parent, ..self }
    }

    /// The bar's settings and state, given its id (the part of `spawn` that
    /// decides): a bar is kept by default unless it has a parent; a kept
    /// bar's default done message is `done` after the prefix.
    pub fn build(self, id: usize) -> (r: (StateImmut, State, bool))
        ensures
            ({
                let keep = match self.keep {
                    Some(k) => k,
                    None => self.parent is None,
                };
                let done = if !keep {
                    None
                } else {
                    match opt_string(self.done_message) {
                        Some(m) => Some(m),
                        None => Some(
                            if self.message@.len() == 0 {
                                seq!['d', 'o', 'n', 'e']
                            } else {
                                self.message@ + seq![':', ' ', 'd', 'o', 'n', 'e']
                            },
                        ),
                    }
                };
                &&& r.0.id == id
                &&& r.0.prefix@ == self.message@
                &&& opt_string(r.0.done_message) == done
                &&& opt_string(r.0.interrupted_message) == opt_string(self.interrupted_message)
                &&& r.0.show_percentage == self.show_percentage
                &&& r.0.unbounded == (self.total is None)
                &&& r.0.display_bytes == self.total_is_in_bytes
                &&& r.0.max_display_children == self.max_display_children
                &&& r.1.total() == match self.total {
                    Some(t) => t,
                    None => 0,
                }
                &&& r.1.current() == 0
                &&& r.1.message() == Seq::<char>::empty()
                &&& r.1.children_len() == 0
                &&& r.2 == self.show_eta
            }),
    {
        let keep = match self.keep {
            Some(k) => k,
            None => self.parent.is_none(),
        };
        let done_message = if keep {
            match self.done_message {
                None => {
                    proof {
                        reveal_strlit("done");
                        reveal_strlit(": done");
                    }
                    if self.message.as_str().unicode_len() == 0 {
                        Some(String::from_str("done"))
                    } else {
                        let mut m = self.message.clone();
                        m.append(": done");
                        Some(m)
                    }
                },
                Some(x) => Some(x),
            }
        } else {
            None
        };
        let unbounded = self.total.is_none();
        let total = match self.total {
            Some(t) => t,
            None => 0,
        };
        let immut = StateImmut {
            id,
            prefix: self.message,
            done_message,
            interrupted_message: self.interrupted_message,
            show_percentage: self.show_percentage,
            unbounded,
            display_bytes: self.total_is_in_bytes,
            max_display_children: self.max_display_children,
        };
        (immut, State::new(total), self.show_eta)
    }
}

} // verus!
