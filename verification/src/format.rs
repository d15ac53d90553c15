//! Terminal size, and the buffer that lays out printed messages: long lines
//! wrap at the terminal width, and every line after the first starts with a
//! gray ` | ` gutter.
use vstd::prelude::*;
use vstd::string::StringExecFns;
use crate::ansi::{widths, with_width, width_at};
use crate::text::push_char;

verus! {

/// Asks the terminal for its size (`terminal_size::terminal_size`), in
/// columns and rows. What comes back depends on the terminal, so nothing
/// is stated of it.
#[verifier::external_body]
fn terminal_dimensions() -> (r: Option<(u16, u16)>) {
    match terminal_size::terminal_size() {
        Some((w, h)) => Some((w.0, h.0)),
        None => None,
    }
}

/// The largest width and height the library works with.
pub const MAX_TERM_SIZE: usize = 400;

/// A terminal size as the library uses it: each side capped at
/// `MAX_TERM_SIZE`.
pub fn cap_dimensions(d: Option<(u16, u16)>) -> (r: Option<(usize, usize)>)
    ensures
        match d {
            None => r is None,
            Some((w, h)) => r == Some(
                (
                    if w <= 400 { w as usize } else { 400usize },
                    if h <= 400 { h as usize } else { 400usize },
                ),
            ),
        },
{
    match d {
        None => None,
        Some((w, h)) => {
            let w = w as usize;
            let h = h as usize;
            Some(
                (
                    if w <= MAX_TERM_SIZE { w } else { MAX_TERM_SIZE },
                    if h <= MAX_TERM_SIZE { h } else { MAX_TERM_SIZE },
                ),
            )
        },
    }
}

/// The terminal's width and height, each capped at 400, or `None` when
/// there is no terminal to measure.
pub fn term_width_height() -> (r: Option<(usize, usize)>)
    ensures
        r is Some ==> r.unwrap().0 <= 400 && r.unwrap().1 <= 400,
{
    cap_dimensions(terminal_dimensions())
}

/// The width of a terminal size as the library uses it: capped at
/// `MAX_TERM_SIZE`, or `None` when there is no size.
pub fn capped_width(d: Option<(u16, u16)>) -> (r: Option<usize>)
    ensures
        match d {
            None => r is None,
            Some((w, _)) => r == Some(if w <= 400 { w as usize } else { 400usize }),
        },
{
    match cap_dimensions(d) {
        Some((w, _)) => Some(w),
        None => None,
    }
}

/// The width of a terminal size, capped at `MAX_TERM_SIZE`, or
/// `MAX_TERM_SIZE` when there is no size.
pub fn width_or_max(d: Option<(u16, u16)>) -> (r: usize)
    ensures
        r == match d {
            None => 400usize,
            Some((w, _)) => if w <= 400 { w as usize } else { 400usize },
        },
{
    match capped_width(d) {
        Some(w) => w,
        None => MAX_TERM_SIZE,
    }
}

/// The terminal's width, capped at 400 (see `capped_width`).
pub fn term_width() -> (r: Option<usize>)
    ensures
        r is Some ==> r.unwrap() <= 400,
{
    capped_width(terminal_dimensions())
}

/// The terminal's width, or 400 when it cannot be measured (see
/// `width_or_max`).
pub fn term_width_or_max() -> (r: usize)
    ensures
        r <= 400,
{
    width_or_max(terminal_dimensions())
}

} // verus!

verus! {

/// The text that starts a continuation line.
pub open spec fn line_break(gray: Seq<char>, text: Seq<char>) -> Seq<char> {
    seq!['\n'] + gray + seq![' ', '|', ' '] + text
}

/// The column count and text of a buffer after one character of width `w`
/// is pushed: a newline starts a continuation line; below 5 columns the
/// buffer gives up wrapping; otherwise a character that would pass the
/// width (and is narrower than it) goes on a new continuation line.
pub open spec fn push_one(
    width: nat,
    gray: Seq<char>,
    text: Seq<char>,
    curr: nat,
    buf: Seq<char>,
    c: char,
    w: nat,
) -> (nat, Seq<char>) {
    if c == '\n' {
        (3, buf + line_break(gray, text))
    } else if width < 5 {
        (curr, buf.push(c))
    } else if w < width && curr > width - w {
        (3 + w, (buf + line_break(gray, text)).push(c))
    } else {
        (curr + w, buf.push(c))
    }
}

/// `push_one` for each character of `cs` in turn, with the widths `ws`.
pub open spec fn push_many(
    width: nat,
    gray: Seq<char>,
    text: Seq<char>,
    curr: nat,
    buf: Seq<char>,
    cs: Seq<char>,
    ws: Seq<nat>,
) -> (nat, Seq<char>)
    decreases cs.len(),
{
    if cs.len() == 0 {
        (curr, buf)
    } else {
        let (c1, b1) = push_many(width, gray, text, curr, buf, cs.drop_last(), ws.drop_last());
        push_one(width, gray, text, c1, b1, cs.last(), ws[cs.len() - 1])
    }
}

/// What a `FormatBuffer` holds.
pub struct FormatView {
    /// Columns a line may take.
    pub width: nat,
    /// Columns taken on the current line.
    pub curr: nat,
    /// The laid-out text.
    pub buffer: Seq<char>,
    /// Color code for the gutter of continuation lines.
    pub gray: Seq<char>,
    /// Color code for the text after the gutter.
    pub text: Seq<char>,
}

/// Lays out text for the terminal: wraps lines at the terminal width and
/// marks continuation lines with a ` | ` gutter.
pub struct FormatBuffer {
    width: usize,
    curr: usize,
    buffer: String,
    gray_color: &'static str,
    text_color: &'static str,
}

impl View for FormatBuffer {
    type V = FormatView;

    closed spec fn view(&self) -> FormatView {
        FormatView {
            width: self.width as nat,
            curr: self.curr as nat,
            buffer: self.buffer@,
            gray: self.gray_color@,
            text: self.text_color@,
        }
    }
}

impl FormatBuffer {
    /// An empty buffer as wide as the terminal.
    pub fn new() -> (r: Self)
        ensures
            r@.width <= 400,
            r@.curr == 0,
            r@.buffer == Seq::<char>::empty(),
            r@.gray == Seq::<char>::empty(),
            r@.text == Seq::<char>::empty(),
    {
        let r = FormatBuffer {
            width: term_width_or_max(),
            curr: 0,
            buffer: String::new(),
            gray_color: "",
            text_color: "",
        };
        proof {
            reveal_strlit("");
        }
        r
    }

    /// The laid-out text.
    pub fn as_str(&self) -> (r: &str)
        ensures
            r@ == self@.buffer,
    {
        self.buffer.as_str()
    }

    /// Takes the laid-out text, leaving the buffer empty.
    pub fn take(&mut self) -> (r: String)
        ensures
            r@ == old(self)@.buffer,
            final(self)@ == (FormatView { buffer: Seq::<char>::empty(), ..old(self)@ }),
    {
        let mut r = String::new();
        std::mem::swap(&mut r, &mut self.buffer);
        r
    }

    /// Empties the buffer for a new message of the given colors, and sets
    /// the width to `width`.
    pub fn reset_to_width(&mut self, width: usize, gray_color: &'static str, text_color: &'static str)
        ensures
            final(self)@ == (FormatView {
                width: width as nat,
                curr: 0,
                buffer: Seq::<char>::empty(),
                gray: gray_color@,
                text: text_color@,
            }),
    {
        self.curr = 0;
        self.buffer = String::new();
        self.width = width;
        self.gray_color = gray_color;
        self.text_color = text_color;
    }

    /// Empties the buffer for a new message of the given colors, measuring
    /// the terminal width again.
    pub fn reset(&mut self, gray_color: &'static str, text_color: &'static str)
        ensures
            final(self)@.width <= 400,
            final(self)@ == (FormatView {
                width: final(self)@.width,
                curr: 0,
                buffer: Seq::<char>::empty(),
                gray: gray_color@,
                text: text_color@,
            }),
    {
        let w = term_width_or_max();
        self.reset_to_width(w, gray_color, text_color);
    }

    /// Ends the message with a newline.
    pub fn end(&mut self)
        ensures
            final(self)@ == (FormatView { buffer: old(self)@.buffer.push('\n'), ..old(self)@ }),
    {
        push_char(&mut self.buffer, '\n');
    }

    /// Adds a control (or color) code, which takes no columns.
    pub fn push_control(&mut self, x: &str)
        ensures
            final(self)@ == (FormatView { buffer: old(self)@.buffer + x@, ..old(self)@ }),
    {
        self.buffer.append(x);
    }

    /// Starts a continuation line.
    pub fn new_line(&mut self)
        ensures
            final(self)@ == (FormatView {
                curr: 3,
                buffer: old(self)@.buffer + line_break(old(self)@.gray, old(self)@.text),
                ..old(self)@
            }),
    {
        push_char(&mut self.buffer, '\n');
        self.buffer.append(self.gray_color);
        self.buffer.append(" | ");
        self.buffer.append(self.text_color);
        self.curr = 3;
        proof {
            reveal_strlit(" | ");
            assert(self.buffer@ =~= old(self)@.buffer + line_break(old(self)@.gray, old(self)@.text));
        }
    }

    /// Adds one character that takes `w` columns, wrapping first if it
    /// would pass the width.
    pub fn push(&mut self, c: char, w: usize)
        requires
            old(self)@.curr + w + 3 <= usize::MAX,
        ensures
            ({
                let (curr, buffer) = push_one(
                    old(self)@.width,
                    old(self)@.gray,
                    old(self)@.text,
                    old(self)@.curr,
                    old(self)@.buffer,
                    c,
                    w as nat,
                );
                final(self)@ == (FormatView { curr, buffer, ..old(self)@ })
            }),
    {
        if c == '\n' {
            self.new_line();
            return;
        }
        if self.width < 5 {
            push_char(&mut self.buffer, c);
            return;
        }
        if w < self.width && self.curr > self.width - w {
            self.new_line();
        }
        push_char(&mut self.buffer, c);
        self.curr = self.curr + w;
    }

    /// Adds text, each character with its display width.
    pub fn push_str(&mut self, x: &str)
        requires
            old(self)@.curr + 255 * x@.len() + 6 <= usize::MAX,
        ensures
            ({
                let (curr, buffer) = push_many(
                    old(self)@.width,
                    old(self)@.gray,
                    old(self)@.text,
                    old(self)@.curr,
                    old(self)@.buffer,
                    x@,
                    widths(x@),
                );
                final(self)@ == (FormatView { curr, buffer, ..old(self)@ })
            }),
            final(self)@.curr <= old(self)@.curr + 255 * x@.len() + 3,
    {
        let pairs = with_width(x);
        let ghost ws = widths(x@);
        let ghost st0 = self@;
        let mut k: usize = 0;
        while k < pairs.len()
            invariant
                k <= pairs.len(),
                pairs@.len() == x@.len(),
                ws == widths(x@),
                forall|i: int|
                    0 <= i < x@.len() ==> (#[trigger] pairs@[i]).0 == x@[i] && pairs@[i].1
                        == width_at(x@, i) && pairs@[i].1 <= 255,
                st0.curr + 255 * x@.len() + 6 <= usize::MAX,
                self@.curr <= st0.curr + 255 * k + 3,
                ({
                    let (curr, buffer) = push_many(
                        st0.width,
                        st0.gray,
                        st0.text,
                        st0.curr,
                        st0.buffer,
                        x@.take(k as int),
                        ws.take(k as int),
                    );
                    self@ == (FormatView { curr, buffer, ..st0 })
                }),
            decreases pairs.len() - k,
        {
            let (c, w) = pairs[k];
            proof {
                assert(x@.take(k + 1).drop_last() =~= x@.take(k as int));
                assert(ws.take(k + 1).drop_last() =~= ws.take(k as int));
                assert(x@.take(k + 1).last() == c);
                assert(ws.take(k + 1)[k as int] == w);
                assert(255 * k + 255 <= 255 * x@.len()) by (nonlinear_arith)
                    requires
                        k < x@.len(),
                ;
            }
            self.push(c, w);
            k = k + 1;
        }
        proof {
            assert(x@.take(k as int) =~= x@);
            assert(ws.take(k as int) =~= ws);
        }
    }
}

} // verus!

verus! {

/// `push` on a buffer's view.
pub open spec fn fv_push(v: FormatView, c: char, w: nat) -> FormatView {
    let (curr, buffer) = push_one(v.width, v.gray, v.text, v.curr, v.buffer, c, w);
    FormatView { curr, buffer, ..v }
}

/// `push_str` on a buffer's view.
pub open spec fn fv_push_str(v: FormatView, s: Seq<char>) -> FormatView {
    let (curr, buffer) = push_many(v.width, v.gray, v.text, v.curr, v.buffer, s, widths(s));
    FormatView { curr, buffer, ..v }
}

/// `push_control` on a buffer's view.
pub open spec fn fv_control(v: FormatView, s: Seq<char>) -> FormatView {
    FormatView { buffer: v.buffer + s, ..v }
}

/// `new_line` on a buffer's view.
pub open spec fn fv_new_line(v: FormatView) -> FormatView {
    FormatView { curr: 3, buffer: v.buffer + line_break(v.gray, v.text), ..v }
}

/// `end` on a buffer's view.
pub open spec fn fv_end(v: FormatView) -> FormatView {
    FormatView { buffer: v.buffer.push('\n'), ..v }
}

/// An empty buffer of the given width and colors.
pub open spec fn fv_empty(width: nat, gray: Seq<char>, text: Seq<char>) -> FormatView {
    FormatView { width, curr: 0, buffer: Seq::empty(), gray, text }
}

/// The lines of a message laid out: the first after a space, each other
/// on a continuation line.
pub open spec fn fv_lines(v: FormatView, ls: Seq<Seq<char>>) -> FormatView
    decreases ls.len(),
{
    if ls.len() == 0 {
        v
    } else if ls.len() == 1 {
        fv_push_str(fv_push(v, ' ', 1), ls[0])
    } else {
        fv_push_str(fv_new_line(fv_lines(v, ls.drop_last())), ls.last())
    }
}

/// Laying out lines keeps the width and the colors.
pub proof fn lemma_fv_lines_keeps(v: FormatView, ls: Seq<Seq<char>>)
    ensures
        fv_lines(v, ls).width == v.width,
        fv_lines(v, ls).gray == v.gray,
        fv_lines(v, ls).text == v.text,
    decreases ls.len(),
{
    if ls.len() > 1 {
        lemma_fv_lines_keeps(v, ls.drop_last());
    }
}

impl FormatBuffer {
    /// Lays out the given lines: the first after a space, each other on a
    /// continuation line.
    /// Each line is at most `max` characters long.
    pub fn push_lines(&mut self, ls: &Vec<String>, max: usize)
        requires
            forall|i: int| 0 <= i < ls@.len() ==> (#[trigger] ls@[i])@.len() <= max,
            255 * max + 64 <= usize::MAX - old(self)@.curr,
        ensures
            final(self)@ == fv_lines(old(self)@, ls@.map_values(|l: String| l@)),
            final(self)@.curr <= old(self)@.curr + 255 * max + 16,
    {
        let ghost v0 = self@;
        let ghost sl = ls@.map_values(|l: String| l@);
        if ls.len() == 0 {
            assert(sl.len() == 0);
            return;
        }
        assert(255 * ls@[0]@.len() <= 255 * max) by (nonlinear_arith)
            requires
                ls@[0]@.len() <= max,
        ;
        self.push(' ', 1);
        self.push_str(ls[0].as_str());
        assert(sl.take(1)[0] == ls@[0]@);
        assert(self@ == fv_lines(v0, sl.take(1)));
        let mut i: usize = 1;
        while i < ls.len()
            invariant
                1 <= i <= ls.len(),
                sl == ls@.map_values(|l: String| l@),
                forall|j: int| 0 <= j < ls@.len() ==> (#[trigger] ls@[j])@.len() <= max,
                255 * max + 64 <= usize::MAX - v0.curr,
                self@ == fv_lines(v0, sl.take(i as int)),
                self@.curr <= v0.curr + 255 * max + 16,
            decreases ls.len() - i,
        {
            proof {
                assert(sl.take(i + 1).drop_last() =~= sl.take(i as int));
                assert(sl.take(i + 1).last() == ls@[i as int]@);
            }
            assert(255 * ls@[i as int]@.len() <= 255 * max) by (nonlinear_arith)
                requires
                    ls@[i as int]@.len() <= max,
            ;
            self.new_line();
            self.push_str(ls[i].as_str());
            i = i + 1;
        }
        assert(sl.take(i as int) =~= sl);
    }
}


/// Pushing a character keeps the line within the width: on a buffer at
/// least 5 columns wide whose line fits, a character no wider than the
/// width less the ` | ` gutter leaves the line fitting.
pub proof fn law_push_keeps_line_width(
    width: nat,
    gray: Seq<char>,
    text: Seq<char>,
    curr: nat,
    buf: Seq<char>,
    c: char,
    w: nat,
)
    requires
        width >= 5,
        curr <= width,
        w + 3 <= width,
    ensures
        push_one(width, gray, text, curr, buf, c, w).0 <= width,
{
}

/// Pushing text keeps every line within the width: on a buffer at least 5
/// columns wide whose line fits, text whose characters are no wider than
/// the width less the gutter leaves the line fitting; lines that would pass
/// the width are wrapped.
pub proof fn law_push_many_keeps_line_width(
    width: nat,
    gray: Seq<char>,
    text: Seq<char>,
    curr: nat,
    buf: Seq<char>,
    cs: Seq<char>,
    ws: Seq<nat>,
)
    requires
        width >= 5,
        curr <= width,
        ws.len() == cs.len(),
        forall|i: int| 0 <= i < ws.len() ==> #[trigger] ws[i] + 3 <= width,
    ensures
        push_many(width, gray, text, curr, buf, cs, ws).0 <= width,
    decreases cs.len(),
{
    if cs.len() > 0 {
        let wd = ws.drop_last();
        assert forall|i: int| 0 <= i < wd.len() implies #[trigger] wd[i] + 3 <= width by {
            assert(wd[i] == ws[i]);
        }
        law_push_many_keeps_line_width(width, gray, text, curr, buf, cs.drop_last(), wd);
        let (c1, b1) = push_many(width, gray, text, curr, buf, cs.drop_last(), wd);
        law_push_keeps_line_width(width, gray, text, c1, b1, cs.last(), ws[cs.len() - 1]);
    }
}


/// What pushing one character does to a buffer at least 5 columns wide
/// whose line fits: a character that fits on the line is appended and its
/// width counted; one that would pass the width goes on a new continuation
/// line (newline, gray ` | ` gutter, text color), where the count starts
/// again after the gutter. Either way the line still fits, for a character
/// no wider than the width less the gutter.
pub proof fn law_push_wraps_or_appends(v: FormatView, c: char, w: nat)
    requires
        v.width >= 5,
        v.curr <= v.width,
        c != '\n',
        w + 3 <= v.width,
    ensures
        fv_push(v, c, w).curr <= v.width,
        fv_push(v, c, w).width == v.width,
        !(w < v.width && v.curr > v.width - w) ==> fv_push(v, c, w).buffer == v.buffer.push(c)
            && fv_push(v, c, w).curr == v.curr + w,
        (w < v.width && v.curr > v.width - w) ==> fv_push(v, c, w).buffer == v.buffer + seq!['\n']
            + v.gray + seq![' ', '|', ' '] + v.text + seq![c] && fv_push(v, c, w).curr == 3 + w,
{
    law_push_keeps_line_width(v.width, v.gray, v.text, v.curr, v.buffer, c, w);
    if w < v.width && v.curr > v.width - w {
        assert((v.buffer + line_break(v.gray, v.text)).push(c) =~= v.buffer + seq!['\n'] + v.gray
            + seq![' ', '|', ' '] + v.text + seq![c]);
    }
}

} // verus!
