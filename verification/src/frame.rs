//! One frame of the progress display: the printer's loop erases the lines
//! it drew last time, prints what was buffered meanwhile, then draws each
//! bar after a spinner glyph, up to a maximum, and sums up the rest in one
//! line. The loop itself (locking, sleeping, writing) is the caller's.
use vstd::prelude::*;
use vstd::string::StringExecFns;
use vstd::string::StrSliceExecFns;
use crate::text::{decimal, push_char, push_decimal};

verus! {

/// The spinner glyphs of the simple printer.
pub open spec fn spinner6(k: nat) -> char {
    if k == 0 {
        '\u{280b}'
    } else if k == 1 {
        '\u{2819}'
    } else if k == 2 {
        '\u{2838}'
    } else if k == 3 {
        '\u{2834}'
    } else if k == 4 {
        '\u{2826}'
    } else {
        '\u{2807}'
    }
}

fn spinner6_exec(k: usize) -> (c: char)
    requires
        k < 6,
    ensures
        c == spinner6(k as nat),
{
    if k == 0 {
        '\u{280b}'
    } else if k == 1 {
        '\u{2819}'
    } else if k == 2 {
        '\u{2838}'
    } else if k == 3 {
        '\u{2834}'
    } else if k == 4 {
        '\u{2826}'
    } else {
        '\u{2807}'
    }
}

/// The spinner glyph of frame `tick` in the simple printer: six
/// glyphs, one per frame.
pub fn spinner_char_6(tick: usize) -> (c: char)
    ensures
        c == spinner6((tick % 6) as nat),
{
    spinner6_exec(tick % 6)
}

/// The spinner glyph of frame `tick`: the six glyphs, each held for five
/// frames.
pub fn spinner_char(tick: u32) -> (c: char)
    ensures
        c == spinner6(((tick % 30) / 5) as nat),
{
    spinner6_exec(((tick % 30) / 5) as usize)
}

/// Erases the current line, then moves up and erases `lines` more.
pub open spec fn clear_text(lines: nat) -> Seq<char>
    decreases lines,
{
    if lines == 0 {
        seq!['\r', '\u{1b}', '[', 'K']
    } else {
        clear_text((lines - 1) as nat) + seq!['\u{1b}', '[', '1', 'A', '\u{1b}', '[', 'K']
    }
}

/// Appends the codes that erase the last `lines` lines drawn.
pub fn push_clear(out: &mut String, lines: usize)
    ensures
        final(out)@ == old(out)@ + clear_text(lines as nat),
{
    proof {
        reveal_strlit("\r\x1b[K");
        reveal_strlit("\x1b[1A\x1b[K");
    }
    assert("\r\x1b[K"@ =~= seq!['\r', '\u{1b}', '[', 'K']);
    out.append("\r\x1b[K");
    assert(out@ =~= old(out)@ + clear_text(0));
    let mut k: usize = 0;
    while k < lines
        invariant
            k <= lines,
            out@ == old(out)@ + clear_text(k as nat),
        decreases lines - k,
    {
        proof {
            reveal_strlit("\x1b[1A\x1b[K");
            assert("\x1b[1A\x1b[K"@ =~= seq!['\u{1b}', '[', '1', 'A', '\u{1b}', '[', 'K']);
        }
        out.append("\x1b[1A\x1b[K");
        k = k + 1;
        assert(out@ =~= old(out)@ + clear_text(k as nat));
    }
}

/// The bars drawn, each after the spinner glyph (when two columns are
/// left for it) and ending its line.
pub open spec fn bars_text(bars: Seq<Seq<char>>, anime: char, width: nat) -> Seq<char>
    decreases bars.len(),
{
    if bars.len() == 0 {
        Seq::empty()
    } else {
        bars_text(bars.drop_last(), anime, width) + (if width >= 2 {
            seq![anime, ']'] + bars.last()
        } else {
            Seq::empty()
        }) + seq!['\n']
    }
}

/// `  ... and N more`.
pub open spec fn more_text(more: nat) -> Seq<char> {
    seq![' ', ' ', '.', '.', '.', ' ', 'a', 'n', 'd', ' '] + decimal(more) + seq![
        ' ',
        'm',
        'o',
        'r',
        'e',
    ]
}

/// A frame: erase the last frame's lines, the buffered output (when the
/// bars go to stdout), then the first `max_bars` bars in yellow, and a
/// line that counts the others (when it fits) or the color reset.
/// `bars` are the bars' lines, drawn `width - 2` columns wide.
pub open spec fn frame_text(
    prev_lines: nat,
    buffered: Seq<char>,
    to_stdout: bool,
    yellow: Seq<char>,
    reset: Seq<char>,
    anime: char,
    width: nat,
    max_bars: nat,
    bars: Seq<Seq<char>>,
) -> Seq<char> {
    let shown = if bars.len() <= max_bars {
        bars
    } else {
        bars.take(max_bars as int)
    };
    let tail = if bars.len() > max_bars {
        let t = more_text((bars.len() - max_bars) as nat);
        if width >= t.len() {
            t + reset + seq!['\r']
        } else {
            Seq::empty()
        }
    } else {
        reset
    };
    clear_text(prev_lines) + (if to_stdout {
        buffered
    } else {
        Seq::empty()
    }) + yellow + bars_text(shown, anime, width) + tail
}

/// Draws one frame (see `frame_text`) and gives the number of bar lines
/// drawn, which the next frame erases.
pub fn compose_frame(
    prev_lines: usize,
    buffered: &str,
    to_stdout: bool,
    colors: &crate::ansi::Colors,
    anime: char,
    width: usize,
    max_bars: usize,
    bars: &Vec<String>,
) -> (r: (String, usize))
    ensures
        r.0@ == frame_text(
            prev_lines as nat,
            buffered@,
            to_stdout,
            colors.yellow@,
            colors.reset@,
            anime,
            width as nat,
            max_bars as nat,
            bars@.map_values(|b: String| b@),
        ),
        r.1 == if bars@.len() <= max_bars { bars@.len() } else { max_bars as nat },
{
    let ghost bs = bars@.map_values(|b: String| b@);
    let mut out = String::new();
    push_clear(&mut out, prev_lines);
    if to_stdout {
        out.append(buffered);
    }
    out.append(colors.yellow);
    let ghost head = out@;
    let n = if bars.len() <= max_bars {
        bars.len()
    } else {
        max_bars
    };
    let ghost shown = if bars@.len() <= max_bars {
        bs
    } else {
        bs.take(max_bars as int)
    };
    assert(shown.len() == n);
    let mut k: usize = 0;
    while k < n
        invariant
            k <= n,
            n <= bars@.len(),
            shown.len() == n,
            bs == bars@.map_values(|b: String| b@),
            forall|j: int| 0 <= j < n ==> shown[j] == bs[j],
            out@ == head + bars_text(shown.take(k as int), anime, width as nat),
        decreases n - k,
    {
        if width >= 2 {
            push_char(&mut out, anime);
            push_char(&mut out, ']');
            out.append(bars[k].as_str());
        }
        push_char(&mut out, '\n');
        assert(shown.take(k + 1).drop_last() =~= shown.take(k as int));
        assert(shown.take(k + 1).last() == bars@[k as int]@);
        k = k + 1;
        assert(out@ =~= head + bars_text(shown.take(k as int), anime, width as nat));
    }
    assert(shown.take(n as int) =~= shown);
    let ghost body = out@;
    if bars.len() > max_bars {
        let mut t = String::new();
        proof {
            reveal_strlit("  ... and ");
            reveal_strlit(" more");
        }
        t.append("  ... and ");
        push_decimal(&mut t, (bars.len() - max_bars) as u64);
        t.append(" more");
        assert(t@ =~= more_text((bars@.len() - max_bars) as nat));
        if width >= t.as_str().unicode_len() {
            out.append(t.as_str());
            out.append(colors.reset);
            push_char(&mut out, '\r');
        }
    } else {
        out.append(colors.reset);
    }
    assert(out@ =~= frame_text(
        prev_lines as nat,
        buffered@,
        to_stdout,
        colors.yellow@,
        colors.reset@,
        anime,
        width as nat,
        max_bars as nat,
        bs,
    ));
    (out, n)
}

/// How many bars a terminal of `height` rows shows: half the rows, less
/// two; none on a terminal too short for that.
pub fn max_bars_for_height(height: usize) -> (r: usize)
    ensures
        r == if height / 2 >= 2 { height / 2 - 2 } else { 0 },
{
    (height / 2).saturating_sub(2)
}

} // verus!
