//! Display widths of text that may hold ANSI escape sequences, and the
//! color and control codes the printer writes.
use vstd::prelude::*;
use unicode_width::UnicodeWidthChar;
use crate::text::{push_char, str_chars};

verus! {

/// What unicode-width's `UnicodeWidthChar::width_cjk` gives for a character.
pub uninterp spec fn unicode_width_cjk(c: char) -> Option<usize>;

/// Calls `UnicodeWidthChar::width_cjk` from unicode-width. Its source shows
/// that control characters (below U+0020, and U+007F to U+009F) have no
/// width, that the printable ASCII characters are one column wide, and that
/// every other width comes from a `u8` table; the table itself is not
/// stated here.
#[verifier::external_body]
fn char_width_cjk(c: char) -> (r: Option<usize>)
    ensures
        r == unicode_width_cjk(c),
        (c as u32) < 0x20 ==> r is None,
        0x20 <= (c as u32) < 0x7f ==> r == Some(1usize),
        0x7f <= (c as u32) < 0xa0 ==> r is None,
        0xa0 <= (c as u32) ==> r is Some && r.unwrap() <= 255,
{
    c.width_cjk()
}

/// Columns a character takes when it is not part of an escape sequence:
/// none for a control character, one for printable ASCII, and otherwise
/// what unicode-width's table gives (none where it gives nothing).
pub open spec fn char_width(c: char) -> nat {
    if (c as u32) < 0x20 || (0x7f <= (c as u32) && (c as u32) < 0xa0) {
        0
    } else if (c as u32) < 0x7f {
        1
    } else {
        match unicode_width_cjk(c) {
            Some(w) => w as nat,
            None => 0,
        }
    }
}

/// The characters that end an escape sequence.
pub open spec fn is_esc_end(c: char) -> bool {
    ||| c == 'm' || c == 'A' || c == 'K' || c == 'G' || c == 'J' || c == 'B'
    ||| c == 'C' || c == 'D' || c == 'E' || c == 'F' || c == 'H' || c == 'S'
    ||| c == 'T' || c == 'f' || c == 'h' || c == 'l' || c == 'i' || c == 'n'
}

/// Whether an escape sequence is still open after reading `s`: an ESC
/// opens one, and the first ending character after it closes it.
pub open spec fn escaping_after(s: Seq<char>) -> bool
    decreases s.len(),
{
    if s.len() == 0 {
        false
    } else if escaping_after(s.drop_last()) {
        !is_esc_end(s.last())
    } else {
        s.last() == '\u{1b}'
    }
}

/// Display width of the `i`th character of `s`: zero inside an escape
/// sequence (ESC and its ending character included), else its column width.
pub open spec fn width_at(s: Seq<char>, i: int) -> nat {
    if escaping_after(s.take(i)) || s[i] == '\u{1b}' {
        0
    } else {
        char_width(s[i])
    }
}

/// The display width of each character of `s`.
pub open spec fn widths(s: Seq<char>) -> Seq<nat> {
    Seq::new(s.len(), |i: int| width_at(s, i))
}

/// Sum of a sequence of widths.
pub open spec fn total(ws: Seq<nat>) -> nat
    decreases ws.len(),
{
    if ws.len() == 0 {
        0
    } else {
        total(ws.drop_last()) + ws.last()
    }
}

fn is_esc_end_exec(c: char) -> (r: bool)
    ensures
        r == is_esc_end(c),
{
    c == 'm' || c == 'A' || c == 'K' || c == 'G' || c == 'J' || c == 'B' || c == 'C' || c == 'D'
        || c == 'E' || c == 'F' || c == 'H' || c == 'S' || c == 'T' || c == 'f' || c == 'h'
        || c == 'l' || c == 'i' || c == 'n'
}

} // verus!

verus! {

/// Each character of `s` with its display width (see `width_at`).
pub fn with_width(s: &str) -> (r: Vec<(char, usize)>)
    ensures
        r@.len() == s@.len(),
        forall|i: int|
            0 <= i < s@.len() ==> (#[trigger] r@[i]).0 == s@[i] && r@[i].1 == width_at(s@, i)
                && r@[i].1 <= 255,
{
    let cs = str_chars(s);
    let mut esc = false;
    let mut r: Vec<(char, usize)> = Vec::new();
    let mut i: usize = 0;
    while i < cs.len()
        invariant
            i <= cs.len(),
            cs@ == s@,
            r@.len() == i,
            esc == escaping_after(s@.take(i as int)),
            forall|j: int|
                0 <= j < i ==> (#[trigger] r@[j]).0 == s@[j] && r@[j].1 == width_at(s@, j)
                    && r@[j].1 <= 255,
        decreases cs.len() - i,
    {
        let c = cs[i];
        let w: usize = if esc {
            if is_esc_end_exec(c) {
                esc = false;
            }
            0
        } else if c == '\u{1b}' {
            esc = true;
            0
        } else {
            match char_width_cjk(c) {
                Some(w) => w,
                None => 0,
            }
        };
        assert(s@.take(i + 1).drop_last() =~= s@.take(i as int));
        r.push((c, w));
        i = i + 1;
    }
    r
}

/// How many leading characters fit in `width` columns, given their widths:
/// they are taken one by one, stopping at the first that does not fit.
pub open spec fn fit_count(ws: Seq<nat>, width: nat) -> nat
    decreases ws.len(),
{
    if ws.len() == 0 || ws[0] > width {
        0
    } else {
        1 + fit_count(ws.drop_first(), (width - ws[0]) as nat)
    }
}

/// The columns left after the characters counted by `fit_count`.
pub open spec fn fit_rest(ws: Seq<nat>, width: nat) -> nat
    decreases ws.len(),
{
    if ws.len() == 0 || ws[0] > width {
        width
    } else {
        fit_rest(ws.drop_first(), (width - ws[0]) as nat)
    }
}

/// The part of `s` that fits in `width` columns.
pub open spec fn fitting(s: Seq<char>, width: nat) -> Seq<char> {
    s.take(fit_count(widths(s), width) as int)
}

/// Appends the leading part of `message` that fits in `width` columns, and
/// gives the number of columns left.
pub fn format_message_with_width(out: &mut String, width: usize, message: &str) -> (rest: usize)
    ensures
        final(out)@ == old(out)@ + fitting(message@, width as nat),
        rest == fit_rest(widths(message@), width as nat),
        rest <= width,
{
    let pairs = with_width(message);
    let ghost ws = widths(message@);
    let ghost w0 = width as nat;
    let mut w = width;
    let mut k: usize = 0;
    proof {
        assert(ws.skip(0) =~= ws);
        lemma_fit_rest_bound(ws, w0);
    }
    while k < pairs.len() && pairs[k].1 <= w
        invariant
            k <= pairs.len(),
            pairs@.len() == message@.len(),
            ws == widths(message@),
            w0 == width,
            w <= width,
            forall|i: int|
                0 <= i < message@.len() ==> (#[trigger] pairs@[i]).0 == message@[i]
                    && pairs@[i].1 == width_at(message@, i),
            fit_count(ws, w0) == k + fit_count(ws.skip(k as int), w as nat),
            fit_rest(ws, w0) == fit_rest(ws.skip(k as int), w as nat),
            out@ == old(out)@ + message@.take(k as int),
        decreases pairs.len() - k,
    {
        let (c, cw) = pairs[k];
        assert(ws.skip(k as int)[0] == ws[k as int]);
        assert(ws.skip(k as int).drop_first() =~= ws.skip(k + 1));
        w = w - cw;
        push_char(out, c);
        assert(message@.take(k + 1) =~= message@.take(k as int).push(c));
        k = k + 1;
    }
    proof {
        if k == pairs.len() {
            assert(ws.skip(k as int).len() == 0);
        } else {
            assert(ws.skip(k as int)[0] == ws[k as int]);
        }
        assert(fit_count(ws.skip(k as int), w as nat) == 0);
        lemma_fit_rest_bound(ws, w0);
    }
    w
}

proof fn lemma_fit_rest_bound(ws: Seq<nat>, width: nat)
    ensures
        fit_rest(ws, width) <= width,
    decreases ws.len(),
{
    if ws.len() > 0 && ws[0] <= width {
        lemma_fit_rest_bound(ws.drop_first(), (width - ws[0]) as nat);
    }
}

} // verus!

verus! {

/// The color codes the printer writes; all empty when color is off.
#[derive(Clone, Copy)]
pub struct Colors {
    pub reset: &'static str,
    pub yellow: &'static str,
    pub red: &'static str,
    pub gray: &'static str,
    pub magenta: &'static str,
    pub cyan: &'static str,
    pub green: &'static str,
}

/// The control codes the printer writes; all empty when the output is not
/// a terminal.
#[derive(Clone, Copy)]
pub struct Controls {
    pub move_to_begin_and_clear: &'static str,
}

/// An SGR escape sequence: ESC `[` code `m`.
pub open spec fn sgr(code: Seq<char>) -> Seq<char> {
    seq!['\u{1b}', '['] + code + seq!['m']
}

/// The codes of `colors(use_color)`.
pub open spec fn colors_are(c: Colors, use_color: bool) -> bool {
    if use_color {
        &&& c.reset@ == sgr(seq!['0'])
        &&& c.yellow@ == sgr(seq!['1', ';', '3', '3'])
        &&& c.red@ == sgr(seq!['1', ';', '3', '1'])
        &&& c.gray@ == sgr(seq!['1', ';', '3', '0'])
        &&& c.magenta@ == sgr(seq!['1', ';', '3', '5'])
        &&& c.cyan@ == sgr(seq!['1', ';', '3', '6'])
        &&& c.green@ == sgr(seq!['1', ';', '3', '2'])
    } else {
        &&& c.reset@.len() == 0
        &&& c.yellow@.len() == 0
        &&& c.red@.len() == 0
        &&& c.gray@.len() == 0
        &&& c.magenta@.len() == 0
        &&& c.cyan@.len() == 0
        &&& c.green@.len() == 0
    }
}

/// The color codes, or empty codes when color is off.
pub fn colors(use_color: bool) -> (r: Colors)
    ensures
        colors_are(r, use_color),
{
    if use_color {
        let r = Colors {
            reset: "\x1b[0m",
            yellow: "\x1b[1;33m",
            red: "\x1b[1;31m",
            gray: "\x1b[1;30m",
            magenta: "\x1b[1;35m",
            cyan: "\x1b[1;36m",
            green: "\x1b[1;32m",
        };
        proof {
            reveal_strlit("\x1b[0m");
            reveal_strlit("\x1b[1;33m");
            reveal_strlit("\x1b[1;31m");
            reveal_strlit("\x1b[1;30m");
            reveal_strlit("\x1b[1;35m");
            reveal_strlit("\x1b[1;36m");
            reveal_strlit("\x1b[1;32m");
            assert(r.reset@ =~= sgr(seq!['0']));
            assert(r.yellow@ =~= sgr(seq!['1', ';', '3', '3']));
            assert(r.red@ =~= sgr(seq!['1', ';', '3', '1']));
            assert(r.gray@ =~= sgr(seq!['1', ';', '3', '0']));
            assert(r.magenta@ =~= sgr(seq!['1', ';', '3', '5']));
            assert(r.cyan@ =~= sgr(seq!['1', ';', '3', '6']));
            assert(r.green@ =~= sgr(seq!['1', ';', '3', '2']));
        }
        r
    } else {
        proof {
            reveal_strlit("");
        }
        Colors { reset: "", yellow: "", red: "", gray: "", magenta: "", cyan: "", green: "" }
    }
}

/// The control codes, or empty codes when the output is not a terminal.
pub fn controls(use_control: bool) -> (r: Controls)
    ensures
        r.move_to_begin_and_clear@ == if use_control {
            seq!['\r', '\u{1b}', '[', 'K']
        } else {
            Seq::<char>::empty()
        },
{
    if use_control {
        proof {
            reveal_strlit("\r\x1b[K");
        }
        Controls { move_to_begin_and_clear: "\r\x1b[K" }
    } else {
        proof {
            reveal_strlit("");
        }
        Controls { move_to_begin_and_clear: "" }
    }
}

} // verus!

verus! {

/// The display width of a text: the columns its characters take.
pub open spec fn text_width(s: Seq<char>) -> nat {
    total(widths(s))
}

/// Printable ASCII only (no control character, so no escape sequence).
pub open spec fn is_plain_ascii(t: Seq<char>) -> bool {
    forall|i: int| 0 <= i < t.len() ==> 0x20 <= (#[trigger] t[i] as u32) && (t[i] as u32) < 0x7f
}

pub proof fn lemma_total_concat(x: Seq<nat>, y: Seq<nat>)
    ensures
        total(x + y) == total(x) + total(y),
    decreases y.len(),
{
    if y.len() == 0 {
        assert(x + y =~= x);
    } else {
        lemma_total_concat(x, y.drop_last());
        assert((x + y).drop_last() =~= x + y.drop_last());
        assert((x + y).last() == y.last());
    }
}

proof fn lemma_total_le(x: Seq<nat>, y: Seq<nat>)
    requires
        x.len() == y.len(),
        forall|i: int| 0 <= i < x.len() ==> x[i] <= y[i],
    ensures
        total(x) <= total(y),
    decreases x.len(),
{
    if x.len() > 0 {
        assert forall|i: int| 0 <= i < x.drop_last().len() implies x.drop_last()[i]
            <= y.drop_last()[i] by {
            assert(x.drop_last()[i] == x[i]);
            assert(y.drop_last()[i] == y[i]);
        }
        lemma_total_le(x.drop_last(), y.drop_last());
        assert(x.last() == x[x.len() - 1]);
        assert(y.last() == y[y.len() - 1]);
    }
}

/// Once `b`'s own reading is inside an escape sequence, so is the reading
/// of `b` after any `a`.
proof fn lemma_escaping_after_prefix(a: Seq<char>, b: Seq<char>, j: int)
    requires
        0 <= j <= b.len(),
    ensures
        escaping_after(b.take(j)) ==> escaping_after(a + b.take(j)),
    decreases j,
{
    if j > 0 {
        lemma_escaping_after_prefix(a, b, j - 1);
        assert(b.take(j).drop_last() =~= b.take(j - 1));
        assert((a + b.take(j)).drop_last() =~= a + b.take(j - 1));
        assert(b.take(j).last() == b[j - 1]);
        assert((a + b.take(j)).last() == b[j - 1]);
    } else {
        assert(b.take(0).len() == 0);
    }
}

/// The widths of a prefix are the prefix of the widths.
pub proof fn lemma_widths_take(s: Seq<char>, k: int)
    requires
        0 <= k <= s.len(),
    ensures
        widths(s.take(k)) == widths(s).take(k),
{
    assert forall|i: int| 0 <= i < k implies widths(s.take(k))[i] == widths(s).take(k)[i] by {
        assert(s.take(k).take(i) =~= s.take(i));
        assert(s.take(k)[i] == s[i]);
    }
    assert(widths(s.take(k)) =~= widths(s).take(k));
}

/// Text after other text takes no more columns than it takes alone: an
/// escape sequence left open by the first part can only hide columns.
pub proof fn lemma_width_concat(a: Seq<char>, b: Seq<char>)
    ensures
        text_width(a + b) <= text_width(a) + text_width(b),
{
    let ab = a + b;
    let n = a.len() as int;
    let ys = widths(ab).skip(n);
    assert forall|i: int| 0 <= i < n implies widths(ab)[i] == widths(a)[i] by {
        assert(ab.take(i) =~= a.take(i));
        assert(ab[i] == a[i]);
    }
    assert(widths(ab) =~= widths(a) + ys);
    assert forall|j: int| 0 <= j < b.len() implies ys[j] <= widths(b)[j] by {
        lemma_escaping_after_prefix(a, b, j);
        assert(ab.take(n + j) =~= a + b.take(j));
        assert(ab[n + j] == b[j]);
        assert(ys[j] == widths(ab)[n + j]);
    }
    lemma_total_le(ys, widths(b));
    lemma_total_concat(widths(a), ys);
}

proof fn lemma_plain_not_escaping(t: Seq<char>, k: int)
    requires
        is_plain_ascii(t),
        0 <= k <= t.len(),
    ensures
        !escaping_after(t.take(k)),
    decreases k,
{
    if k > 0 {
        lemma_plain_not_escaping(t, k - 1);
        assert(t.take(k).drop_last() =~= t.take(k - 1));
        assert(t.take(k).last() == t[k - 1]);
        assert(0x20 <= (t[k - 1] as u32));
    }
}

/// Printable ASCII takes one column per character.
pub proof fn lemma_plain_width(t: Seq<char>)
    requires
        is_plain_ascii(t),
    ensures
        text_width(t) == t.len(),
    decreases t.len(),
{
    if t.len() > 0 {
        let d = t.drop_last();
        assert forall|i: int| 0 <= i < d.len() implies 0x20 <= (#[trigger] d[i] as u32) && (d[i] as u32)
            < 0x7f by {
            assert(d[i] == t[i]);
        }
        lemma_plain_width(d);
        lemma_widths_take(t, t.len() - 1);
        assert(t.take(t.len() - 1) =~= d);
        lemma_plain_not_escaping(t, t.len() - 1);
        assert(0x20 <= (t[t.len() - 1] as u32) && (t[t.len() - 1] as u32) < 0x7f);
        assert(widths(t)[t.len() - 1] == 1);
        assert(widths(t).drop_last() =~= widths(d));
    } else {
        assert(widths(t).len() == 0);
    }
}

proof fn lemma_fit_total(ws: Seq<nat>, w: nat)
    ensures
        fit_count(ws, w) <= ws.len(),
        total(ws.take(fit_count(ws, w) as int)) + fit_rest(ws, w) == w,
    decreases ws.len(),
{
    if ws.len() == 0 || ws[0] > w {
        assert(ws.take(0).len() == 0);
    } else {
        let rest = ws.drop_first();
        let w2 = (w - ws[0]) as nat;
        lemma_fit_total(rest, w2);
        let k = fit_count(rest, w2);
        assert(ws.take((k + 1) as int) =~= seq![ws[0]] + rest.take(k as int));
        lemma_total_concat(seq![ws[0]], rest.take(k as int));
        assert(seq![ws[0]].drop_last() =~= Seq::<nat>::empty());
        assert(total(Seq::<nat>::empty()) == 0);
        assert(seq![ws[0]].last() == ws[0]);
        assert(total(seq![ws[0]]) == ws[0]);
    }
}

/// What fits in `w` columns takes the columns not left over.
pub proof fn lemma_fitting_width(s: Seq<char>, w: nat)
    ensures
        text_width(fitting(s, w)) + fit_rest(widths(s), w) == w,
{
    lemma_fit_total(widths(s), w);
    lemma_widths_take(s, fit_count(widths(s), w) as int);
}

} // verus!
