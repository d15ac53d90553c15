//! The bar lines of the simple printer and of standalone bar states: a bar with a count,
//! prefix and message, that shows its percentage and time left once it
//! has run for two seconds. The time is measured, and the percentage and
//! time left computed, in floating point by the caller, which hands them in
//! as text.
use vstd::prelude::*;
use vstd::string::StringExecFns;
use vstd::string::StrSliceExecFns;
use crate::ansi::{fit_rest, fitting, format_message_with_width, widths};
use crate::progress::{dots, opt_text, put_if_fits, space};
use crate::text::{decimal, push_char, push_decimal};

verus! {

/// The line for widths below five columns: only dots.
pub open spec fn narrow_line(width: nat) -> Seq<char> {
    if width == 0 {
        Seq::empty()
    } else if width == 1 {
        seq!['.']
    } else if width == 2 {
        seq!['.', '.']
    } else if width == 3 {
        seq!['.', '.', '.']
    } else {
        seq!['[', '.', '.', ']']
    }
}

/// `current/total`.
pub open spec fn fraction(current: nat, total: nat) -> Seq<char> {
    decimal(current) + seq!['/'] + decimal(total)
}

/// The prefix as far as it fits.
pub open spec fn put_fitting(w: nat, o: Seq<char>, s: Seq<char>) -> (nat, Seq<char>) {
    (fit_rest(widths(s), w), o + fitting(s, w))
}

/// A progress bar: a total (0 for unbounded), a count, the prefix that
/// says what it is for, and a message for the current step.
pub struct ProgressBarState {
    pub total: usize,
    pub current: usize,
    pub prefix: String,
    pub message: String,
}

/// The middle of a `ProgressBarState` line, after the prefix: the
/// percentage and time left (for a timed bar within its total), or the
/// separator before the message.
pub open spec fn state_mid(
    w3: nat,
    o3: Seq<char>,
    total: nat,
    current: nat,
    prefix: Seq<char>,
    message: Seq<char>,
    timed: bool,
    pct: Seq<char>,
    eta: Option<Seq<char>>,
) -> (nat, Seq<char>) {
    let sep = if prefix.len() == 0 {
        Seq::empty()
    } else {
        seq![':', ' ']
    };
    if total != 0 && current > 0 {
        let (w4, o4) = if timed && current <= total {
            let pt = if current == total {
                sep + seq!['1', '0', '0', '%']
            } else {
                sep + pct
            };
            let (wa, oa) = put_if_fits(w3, o3, pt);
            match eta {
                Some(e) => {
                    let (wb, ob) = space(wa, oa);
                    put_if_fits(wb, ob, e)
                },
                None => (wa, oa),
            }
        } else if prefix.len() > 0 && message.len() > 0 && w3 > 0 {
            ((w3 - 1) as nat, o3.push(':'))
        } else {
            (w3, o3)
        };
        space(w4, o4)
    } else if prefix.len() > 0 && message.len() > 0 && w3 > 1 {
        ((w3 - 2) as nat, o3 + seq![':', ' '])
    } else {
        (w3, o3)
    }
}

/// The line of a `ProgressBarState`, `width` columns at most:
/// `[current/total] prefix: DD.DD% ETA SS.SSs; message`. The percentage
/// and time left show once the bar has run for two seconds (`timed`)
/// without passing its total; `pct` is the percentage text and `eta` the
/// time-left text, when the estimate is good enough to show. Unbounded
/// bars (total 0) show no count.
pub open spec fn state_line(
    width: nat,
    total: nat,
    current: nat,
    prefix: Seq<char>,
    message: Seq<char>,
    timed: bool,
    pct: Seq<char>,
    eta: Option<Seq<char>>,
) -> Seq<char> {
    if width < 5 {
        narrow_line(width)
    } else {
        let unbounded = total == 0;
        let ct = fraction(current, total);
        if !unbounded && ct.len() > width - 2 {
            seq!['['] + dots((width - 2) as nat) + seq![']']
        } else {
            let (w1, o1) = if !unbounded {
                ((width - 2 - ct.len()) as nat, seq!['['] + ct + seq![']'])
            } else {
                (width, Seq::empty())
            };
            let (w2, o2) = space(w1, o1);
            let (w3, o3) = put_fitting(w2, o2, prefix);
            let (w5, o5) = state_mid(w3, o3, total, current, prefix, message, timed, pct, eta);
            o5 + fitting(message, w5)
        }
    }
}

fn push_narrow(out: &mut String, width: usize)
    requires
        width < 5,
    ensures
        final(out)@ == old(out)@ + narrow_line(width as nat),
{
    if width == 1 {
        push_char(out, '.');
    } else if width == 2 {
        push_char(out, '.');
        push_char(out, '.');
    } else if width == 3 {
        push_char(out, '.');
        push_char(out, '.');
        push_char(out, '.');
    } else if width == 4 {
        push_char(out, '[');
        push_char(out, '.');
        push_char(out, '.');
        push_char(out, ']');
    }
    assert(final(out)@ =~= old(out)@ + narrow_line(width as nat));
}

/// Appends `[current/total]`, or as many dots as fit when it does not fit;
/// gives the columns left, or `None` when only dots were drawn.
fn push_fraction(out: &mut String, width: usize, current: usize, total: usize) -> (r: Option<usize>)
    requires
        width >= 5,
    ensures
        ({
            let ct = fraction(current as nat, total as nat);
            if ct.len() > width - 2 {
                r is None && final(out)@ == old(out)@ + seq!['['] + dots((width - 2) as nat) + seq![']']
            } else {
                r == Some((width - 2 - ct.len()) as usize) && final(out)@ == old(out)@ + seq!['['] + ct + seq![']']
            }
        }),
{
    let mut ct = String::new();
    push_decimal(&mut ct, current as u64);
    push_char(&mut ct, '/');
    push_decimal(&mut ct, total as u64);
    assert(ct@ =~= fraction(current as nat, total as nat));
    let n = ct.as_str().unicode_len();
    push_char(out, '[');
    if n > width - 2 {
        let mut k: usize = 0;
        while k < width - 2
            invariant
                k <= width - 2,
                width >= 5,
                out@ == old(out)@ + seq!['['] + dots(k as nat),
            decreases width - 2 - k,
        {
            push_char(out, '.');
            k = k + 1;
            assert(out@ =~= old(out)@ + seq!['['] + dots(k as nat));
        }
        push_char(out, ']');
        None
    } else {
        out.append(ct.as_str());
        push_char(out, ']');
        assert(out@ =~= old(out)@ + seq!['['] + fraction(current as nat, total as nat) + seq![']']);
        Some(width - 2 - n)
    }
}

fn push_space(out: &mut String, w: usize) -> (r: usize)
    ensures
        (r as nat, final(out)@) == space(w as nat, old(out)@),
{
    if w > 0 {
        push_char(out, ' ');
        w - 1
    } else {
        w
    }
}

fn push_if_fits(out: &mut String, w: usize, t: &str) -> (r: usize)
    ensures
        (r as nat, final(out)@) == put_if_fits(w as nat, old(out)@, t@),
{
    let n = t.unicode_len();
    if w >= n {
        out.append(t);
        w - n
    } else {
        w
    }
}

fn push_state_mid(
    o: &mut String,
    w: usize,
    bar: &ProgressBarState,
    timed: bool,
    percentage: &str,
    eta: Option<&str>,
) -> (r: usize)
    ensures
        (r as nat, final(o)@) == state_mid(
            w as nat,
            old(o)@,
            bar.total as nat,
            bar.current as nat,
            bar.prefix@,
            bar.message@,
            timed,
            percentage@,
            opt_text(eta),
        ),
{
    let mut w = w;
    let has_prefix = bar.prefix.as_str().unicode_len() > 0;
    let has_message = bar.message.as_str().unicode_len() > 0;
    if bar.total != 0 && bar.current > 0 {
        if timed && bar.current <= bar.total {
            let mut pt = String::new();
            if has_prefix {
                push_char(&mut pt, ':');
                push_char(&mut pt, ' ');
            }
            if bar.current == bar.total {
                proof {
                    reveal_strlit("100%");
                }
                pt.append("100%");
            } else {
                pt.append(percentage);
            }
            assert(pt@ =~= (if bar.prefix@.len() == 0 { Seq::<char>::empty() } else { seq![':', ' '] })
                + (if bar.current == bar.total { seq!['1', '0', '0', '%'] } else { percentage@ }));
            w = push_if_fits(o, w, pt.as_str());
            match eta {
                Some(e) => {
                    w = push_space(o, w);
                    w = push_if_fits(o, w, e);
                },
                None => {},
            }
        } else if has_prefix && has_message && w > 0 {
            push_char(o, ':');
            w = w - 1;
        }
        w = push_space(o, w);
    } else if has_prefix && has_message && w > 1 {
        push_char(o, ':');
        push_char(o, ' ');
        w = w - 2;
    }
    w
}

impl ProgressBarState {
    /// A bar with no steps done and no message.
    pub fn new(total: usize, prefix: String) -> (r: Self)
        ensures
            r.total == total,
            r.current == 0,
            r.prefix@ == prefix@,
            r.message@ == Seq::<char>::empty(),
    {
        ProgressBarState { total, current: 0, prefix, message: String::new() }
    }

    /// Sets the total; the count is capped at it.
    pub fn set_total(&mut self, total: usize)
        ensures
            final(self).total == total,
            final(self).current == if old(self).current <= total { old(self).current } else { total },
            final(self).prefix == old(self).prefix,
            final(self).message == old(self).message,
    {
        self.total = total;
        if self.current > total {
            self.current = total;
        }
    }

    /// Whether the bar has no steps.
    pub fn is_unbounded(&self) -> (r: bool)
        ensures
            r == (self.total == 0),
    {
        self.total == 0
    }

    /// Draws the bar's line (see `state_line`).
    pub fn format(
        &self,
        out: &mut String,
        width: usize,
        timed: bool,
        percentage: &str,
        eta: Option<&str>,
    )
        ensures
            final(out)@ == old(out)@ + state_line(
                width as nat,
                self.total as nat,
                self.current as nat,
                self.prefix@,
                self.message@,
                timed,
                percentage@,
                opt_text(eta),
            ),
    {
        if width < 5 {
            push_narrow(out, width);
            return;
        }
        let ghost base = old(out)@;
        let unbounded = self.total == 0;
        let mut o = String::new();
        let mut w = width;
        if !unbounded {
            match push_fraction(&mut o, width, self.current, self.total) {
                None => {
                    out.append(o.as_str());
                    return;
                },
                Some(rest) => {
                    w = rest;
                },
            }
        } else {
            proof {
                reveal_strlit("");
            }
        }
        w = push_space(&mut o, w);
        w = format_message_with_width(&mut o, w, self.prefix.as_str());
        w = push_state_mid(&mut o, w, self, timed, percentage, eta);
        format_message_with_width(&mut o, w, self.message.as_str());
        out.append(o.as_str());
        assert(out@ =~= base + state_line(
            width as nat,
            self.total as nat,
            self.current as nat,
            self.prefix@,
            self.message@,
            timed,
            percentage@,
            opt_text(eta),
        ));
    }
}

} // verus!

verus! {

/// A bar of the simple printer: a total, a count, a prefix and a
/// message, and whether a done message is printed when it is dropped.
pub struct SimpleBar {
    pub print_done_when_drop: bool,
    pub total: usize,
    pub current: usize,
    pub prefix: String,
    pub message: String,
}

/// The line of a `SimpleBar`, `width` columns at most:
/// `[current/total] prefix: DD.DD% ETA SS.SSs message`. The percentage and
/// time left show once the bar has run for two seconds (`timed`) without
/// passing its total; `pct` and `eta` are their texts.
pub open spec fn simple_line(
    width: nat,
    total: nat,
    current: nat,
    prefix: Seq<char>,
    message: Seq<char>,
    timed: bool,
    pct: Seq<char>,
    eta: Seq<char>,
) -> Seq<char> {
    if width < 5 {
        narrow_line(width)
    } else {
        let ct = fraction(current, total);
        if ct.len() > width - 2 {
            seq!['['] + dots((width - 2) as nat) + seq![']']
        } else {
            let (w2, o2) = space((width - 2 - ct.len()) as nat, seq!['['] + ct + seq![']']);
            let (w3, o3) = put_fitting(w2, o2, prefix);
            let (w4, o4) = if timed && current <= total {
                let pt = if current == total {
                    seq![':', ' ', '1', '0', '0', '%']
                } else {
                    seq![':', ' '] + pct
                };
                let (wa, oa) = put_if_fits(w3, o3, pt);
                let (wb, ob) = space(wa, oa);
                put_if_fits(wb, ob, eta)
            } else {
                (w3, o3)
            };
            let (w5, o5) = space(w4, o4);
            o5 + fitting(message, w5)
        }
    }
}

fn push_simple_stats(o: &mut String, w: usize, bar: &SimpleBar, timed: bool, percentage: &str, eta: &str) -> (r: usize)
    ensures
        (r as nat, final(o)@) == (if timed && bar.current <= bar.total {
            let pt = if bar.current == bar.total {
                seq![':', ' ', '1', '0', '0', '%']
            } else {
                seq![':', ' '] + percentage@
            };
            let (wa, oa) = put_if_fits(w as nat, old(o)@, pt);
            let (wb, ob) = space(wa, oa);
            put_if_fits(wb, ob, eta@)
        } else {
            (w as nat, old(o)@)
        }),
{
    if timed && bar.current <= bar.total {
        let mut pt = String::new();
        push_char(&mut pt, ':');
        push_char(&mut pt, ' ');
        if bar.current == bar.total {
            proof {
                reveal_strlit("100%");
            }
            pt.append("100%");
            assert(pt@ =~= seq![':', ' ', '1', '0', '0', '%']);
        } else {
            pt.append(percentage);
            assert(pt@ =~= seq![':', ' '] + percentage@);
        }
        let w = push_if_fits(o, w, pt.as_str());
        let w = push_space(o, w);
        push_if_fits(o, w, eta)
    } else {
        w
    }
}

impl SimpleBar {
    /// A bar with no steps done and no message.
    pub fn new(total: usize, prefix: String, print_done_when_drop: bool) -> (r: Self)
        ensures
            r.total == total,
            r.current == 0,
            r.prefix@ == prefix@,
            r.message@ == Seq::<char>::empty(),
            r.print_done_when_drop == print_done_when_drop,
    {
        SimpleBar { print_done_when_drop, total, current: 0, prefix, message: String::new() }
    }

    /// Draws the bar's line (see `simple_line`).
    pub fn format(&self, out: &mut String, width: usize, timed: bool, percentage: &str, eta: &str)
        ensures
            final(out)@ == old(out)@ + simple_line(
                width as nat,
                self.total as nat,
                self.current as nat,
                self.prefix@,
                self.message@,
                timed,
                percentage@,
                eta@,
            ),
    {
        if width < 5 {
            push_narrow(out, width);
            return;
        }
        let ghost base = old(out)@;
        let mut o = String::new();
        let w = match push_fraction(&mut o, width, self.current, self.total) {
            None => {
                out.append(o.as_str());
                return;
            },
            Some(rest) => rest,
        };
        let w = push_space(&mut o, w);
        let w = format_message_with_width(&mut o, w, self.prefix.as_str());
        let w = push_simple_stats(&mut o, w, self, timed, percentage, eta);
        let w = push_space(&mut o, w);
        format_message_with_width(&mut o, w, self.message.as_str());
        out.append(o.as_str());
        proof {
            reveal_strlit("");
        }
        assert(out@ =~= base + simple_line(
            width as nat,
            self.total as nat,
            self.current as nat,
            self.prefix@,
            self.message@,
            timed,
            percentage@,
            eta@,
        ));
    }
}

} // verus!
