//! One cycle of a print task: given whether the bars still have a target,
//! whether a prompt owns the cursor, and for each tracked bar either its
//! drawn text (the bar is alive) or nothing (all its handles were dropped),
//! decide what is written, which bars are kept, how many lines the next
//! cycle erases, and whether the task ends. The task's loop (locking,
//! sleeping, writing) is the caller's.
use vstd::prelude::*;
use crate::ansi::Colors;
use crate::frame::{bars_text, clear_text, compose_frame, frame_text, push_clear, spinner6, spinner_char_6};
use crate::text::str_chars;

verus! {

/// The simple printer shows at most this many bars.
pub const SIMPLE_MAX_BARS: usize = 4;

/// The texts of the live bars among the first `n`, in order.
pub open spec fn live_texts(bars: Seq<Option<Seq<char>>>, n: nat) -> Seq<Seq<char>>
    decreases n,
{
    if n == 0 || n > bars.len() {
        Seq::empty()
    } else {
        let r = live_texts(bars, (n - 1) as nat);
        match bars[n - 1] {
            Some(t) => r.push(t),
            None => r,
        }
    }
}

/// The indices of the live bars among the first `n`, in order.
pub open spec fn live_indices(bars: Seq<Option<Seq<char>>>, n: nat) -> Seq<int>
    decreases n,
{
    if n == 0 || n > bars.len() {
        Seq::empty()
    } else {
        let r = live_indices(bars, (n - 1) as nat);
        match bars[n - 1] {
            Some(_) => r.push(n - 1),
            None => r,
        }
    }
}

/// The bars as their texts, `None` for a bar whose handles were dropped.
pub open spec fn bars_view(bars: Seq<Option<String>>) -> Seq<Option<Seq<char>>> {
    bars.map_values(
        |b: Option<String>|
            match b {
                Some(s) => Some(s@),
                None => None,
            },
    )
}

/// The number of newlines in `s`.
pub open spec fn newline_count(s: Seq<char>) -> nat
    decreases s.len(),
{
    if s.len() == 0 {
        0
    } else {
        newline_count(s.drop_last()) + if s.last() == '\n' {
            1nat
        } else {
            0nat
        }
    }
}

/// The number of newlines in all of `ts`.
pub open spec fn newlines_in(ts: Seq<Seq<char>>) -> nat
    decreases ts.len(),
{
    if ts.len() == 0 {
        0
    } else {
        newlines_in(ts.drop_last()) + newline_count(ts.last())
    }
}

/// `n`, or `usize::MAX` when it is larger.
pub open spec fn cap_usize(n: int) -> nat {
    if n <= usize::MAX {
        n as nat
    } else {
        usize::MAX as nat
    }
}

/// What one cycle decides: the text written to the bars' stream, the
/// indices of the bars kept, the lines now on screen (the bars' lines
/// and the lines inside their texts), the bars drawn, and whether the
/// task ends.
pub struct CycleOutcome {
    pub text: String,
    pub kept: Vec<usize>,
    pub lines: usize,
    pub drawn: usize,
    pub ends: bool,
}

/// A cycle outcome as plain values.
pub open spec fn outcome_view(r: CycleOutcome) -> (Seq<char>, Seq<int>, nat, nat, bool) {
    (r.text@, r.kept@.map_values(|i: usize| i as int), r.lines as nat, r.drawn as nat, r.ends)
}

/// All indices below `n`.
pub open spec fn all_indices(n: nat) -> Seq<int> {
    Seq::new(n, |i: int| i)
}

/// One cycle. With no target the task ends and writes nothing; while a
/// prompt is shown nothing is written and everything is kept. Otherwise
/// the bars whose handles were dropped are removed, the frame is drawn
/// with the first `max_bars` live bars (see `frame_text`), and when no
/// bar is left the task ends after erasing what it drew.
pub open spec fn cycle_spec(
    has_target: bool,
    prompt_active: bool,
    prev_lines: nat,
    buffered: Seq<char>,
    to_stdout: bool,
    yellow: Seq<char>,
    reset: Seq<char>,
    anime: char,
    width: nat,
    max_bars: nat,
    bars: Seq<Option<Seq<char>>>,
) -> (Seq<char>, Seq<int>, nat, nat, bool) {
    if !has_target {
        (Seq::empty(), all_indices(bars.len()), prev_lines, 0, true)
    } else if prompt_active {
        (Seq::empty(), all_indices(bars.len()), prev_lines, 0, false)
    } else {
        let live = live_texts(bars, bars.len());
        let frame = frame_text(
            prev_lines,
            buffered,
            to_stdout,
            yellow,
            reset,
            anime,
            width,
            max_bars,
            live,
        );
        let drawn = if live.len() <= max_bars {
            live.len()
        } else {
            max_bars
        };
        let lines = cap_usize(drawn + newlines_in(live.take(drawn as int)) as int);
        if live.len() == 0 {
            (frame + clear_text(lines), Seq::empty(), lines, drawn, true)
        } else {
            (frame, live_indices(bars, bars.len()), lines, drawn, false)
        }
    }
}

fn all_indices_exec(n: usize) -> (r: Vec<usize>)
    ensures
        r@.map_values(|i: usize| i as int) == all_indices(n as nat),
{
    let mut r: Vec<usize> = Vec::new();
    let mut k: usize = 0;
    while k < n
        invariant
            k <= n,
            r@.len() == k,
            forall|j: int| 0 <= j < k ==> r@[j] == j,
        decreases n - k,
    {
        r.push(k);
        k = k + 1;
    }
    assert(r@.map_values(|i: usize| i as int) =~= all_indices(n as nat));
    r
}

/// Counts the newlines in `s`, added to `acc`, up to `usize::MAX`.
fn add_newlines(acc: usize, s: &str) -> (r: usize)
    ensures
        r == cap_usize(acc + newline_count(s@)),
{
    let cs = str_chars(s);
    let mut r = acc;
    let mut k: usize = 0;
    while k < cs.len()
        invariant
            k <= cs.len(),
            cs@ == s@,
            r == cap_usize(acc + newline_count(s@.take(k as int))),
        decreases cs.len() - k,
    {
        assert(s@.take(k + 1).drop_last() =~= s@.take(k as int));
        if cs[k] == '\n' {
            r = r.saturating_add(1);
        }
        k = k + 1;
    }
    assert(s@.take(cs.len() as int) =~= s@);
    r
}

proof fn lemma_live_len(bars: Seq<Option<Seq<char>>>, n: nat)
    requires
        n <= bars.len(),
    ensures
        live_texts(bars, n).len() == live_indices(bars, n).len(),
        live_texts(bars, n).len() <= n,
        forall|j: int| 0 <= j < live_indices(bars, n).len() ==> 0 <= #[trigger] live_indices(bars, n)[j] < n,
    decreases n,
{
    if n > 0 {
        lemma_live_len(bars, (n - 1) as nat);
    }
}

/// Draws one cycle (see `cycle_spec`). `bars` holds, for each tracked bar
/// in order, its text drawn `width - 2` columns wide, or `None` when all
/// its handles were dropped.
pub fn print_cycle(
    has_target: bool,
    prompt_active: bool,
    prev_lines: usize,
    buffered: &str,
    to_stdout: bool,
    colors: &Colors,
    anime: char,
    width: usize,
    max_bars: usize,
    bars: &Vec<Option<String>>,
) -> (r: CycleOutcome)
    ensures
        outcome_view(r) == cycle_spec(
            has_target,
            prompt_active,
            prev_lines as nat,
            buffered@,
            to_stdout,
            colors.yellow@,
            colors.reset@,
            anime,
            width as nat,
            max_bars as nat,
            bars_view(bars@),
        ),
{
    let ghost bv = bars_view(bars@);
    if !has_target || prompt_active {
        return CycleOutcome {
            text: String::new(),
            kept: all_indices_exec(bars.len()),
            lines: prev_lines,
            drawn: 0,
            ends: !has_target,
        };
    }
    let mut live: Vec<String> = Vec::new();
    let mut kept: Vec<usize> = Vec::new();
    let mut k: usize = 0;
    while k < bars.len()
        invariant
            k <= bars@.len(),
            bv == bars_view(bars@),
            bv.len() == bars@.len(),
            live@.map_values(|s: String| s@) == live_texts(bv, k as nat),
            kept@.map_values(|i: usize| i as int) == live_indices(bv, k as nat),
        decreases bars@.len() - k,
    {
        match &bars[k] {
            Some(t) => {
                live.push(t.clone());
                kept.push(k);
                assert(live@.map_values(|s: String| s@) =~= live_texts(bv, (k + 1) as nat));
                assert(kept@.map_values(|i: usize| i as int) =~= live_indices(bv, (k + 1) as nat));
            },
            None => {
                assert(live@.map_values(|s: String| s@) =~= live_texts(bv, (k + 1) as nat));
                assert(kept@.map_values(|i: usize| i as int) =~= live_indices(bv, (k + 1) as nat));
            },
        }
        k = k + 1;
    }
    let ghost lt = live@.map_values(|s: String| s@);
    let (mut text, drawn) = compose_frame(
        prev_lines,
        buffered,
        to_stdout,
        colors,
        anime,
        width,
        max_bars,
        &live,
    );
    let mut lines: usize = drawn;
    let mut j: usize = 0;
    while j < drawn
        invariant
            j <= drawn,
            drawn <= live@.len(),
            lt == live@.map_values(|s: String| s@),
            lines == cap_usize(drawn + newlines_in(lt.take(j as int))),
        decreases drawn - j,
    {
        assert(lt.take(j + 1).drop_last() =~= lt.take(j as int));
        lines = add_newlines(lines, live[j].as_str());
        j = j + 1;
    }
    if live.len() == 0 {
        push_clear(&mut text, lines);
        CycleOutcome { text, kept: Vec::new(), lines, drawn, ends: true }
    } else {
        CycleOutcome { text, kept, lines, drawn, ends: false }
    }
}

/// One cycle of the simple printer: at most `SIMPLE_MAX_BARS` bars, each
/// after the spinner glyph of frame `tick` (see `print_cycle`).
pub fn simple_print_cycle(
    has_target: bool,
    prompt_active: bool,
    prev_lines: usize,
    buffered: &str,
    to_stdout: bool,
    colors: &Colors,
    tick: usize,
    width: usize,
    bars: &Vec<Option<String>>,
) -> (r: CycleOutcome)
    ensures
        outcome_view(r) == cycle_spec(
            has_target,
            prompt_active,
            prev_lines as nat,
            buffered@,
            to_stdout,
            colors.yellow@,
            colors.reset@,
            spinner6((tick % 6) as nat),
            width as nat,
            4,
            bars_view(bars@),
        ),
{
    print_cycle(
        has_target,
        prompt_active,
        prev_lines,
        buffered,
        to_stdout,
        colors,
        spinner_char_6(tick),
        width,
        SIMPLE_MAX_BARS,
        bars,
    )
}

proof fn lemma_none_live(bars: Seq<Option<Seq<char>>>, n: nat)
    requires
        n <= bars.len(),
        forall|i: int| 0 <= i < bars.len() ==> bars[i] is None,
    ensures
        live_texts(bars, n).len() == 0,
    decreases n,
{
    if n > 0 {
        lemma_none_live(bars, (n - 1) as nat);
    }
}

proof fn lemma_live_indices_exact(bars: Seq<Option<Seq<char>>>, n: nat)
    requires
        n <= bars.len(),
    ensures
        forall|i: int| 0 <= i < n ==> (live_indices(bars, n).contains(i) <==> bars[i] is Some),
        forall|j: int, k: int|
            0 <= j < k < live_indices(bars, n).len() ==> live_indices(bars, n)[j] < live_indices(bars, n)[k],
        forall|j: int| 0 <= j < live_indices(bars, n).len() ==> 0 <= #[trigger] live_indices(bars, n)[j] < n,
    decreases n,
{
    if n > 0 {
        let m = (n - 1) as nat;
        lemma_live_indices_exact(bars, m);
        let r = live_indices(bars, m);
        if bars[m as int] is Some {
            assert(live_indices(bars, n) == r.push(m as int));
            assert forall|i: int| 0 <= i < n implies (live_indices(bars, n).contains(i) <==> bars[i] is Some) by {
                if i < m {
                    if r.contains(i) {
                        let j = choose|j: int| 0 <= j < r.len() && r[j] == i;
                        assert(r.push(m as int)[j] == i);
                    }
                    if r.push(m as int).contains(i) {
                        let j = choose|j: int| 0 <= j < r.len() + 1 && r.push(m as int)[j] == i;
                        assert(j < r.len());
                        assert(r.contains(i));
                    }
                } else {
                    assert(r.push(m as int)[r.len() as int] == i);
                }
            }
        } else {
            assert(live_indices(bars, n) == r);
            assert forall|i: int| 0 <= i < n implies (live_indices(bars, n).contains(i) <==> bars[i] is Some) by {
                if i == m {
                    if r.contains(i) {
                        let j = choose|j: int| 0 <= j < r.len() && r[j] == i;
                        assert(r[j] < m);
                    }
                }
            }
        }
    }
}

/// With nowhere to draw, a cycle writes nothing and the task ends.
pub proof fn law_cycle_without_target_ends(
    prompt_active: bool,
    prev_lines: nat,
    buffered: Seq<char>,
    to_stdout: bool,
    yellow: Seq<char>,
    reset: Seq<char>,
    anime: char,
    width: nat,
    max_bars: nat,
    bars: Seq<Option<Seq<char>>>,
)
    ensures
        ({
            let r = cycle_spec(
                false,
                prompt_active,
                prev_lines,
                buffered,
                to_stdout,
                yellow,
                reset,
                anime,
                width,
                max_bars,
                bars,
            );
            r.0.len() == 0 && r.4
        }),
{
}

/// While a prompt is shown, a cycle writes nothing, keeps every bar and
/// the count of lines on screen, and the task goes on.
pub proof fn law_prompt_cycle_writes_nothing(
    prev_lines: nat,
    buffered: Seq<char>,
    to_stdout: bool,
    yellow: Seq<char>,
    reset: Seq<char>,
    anime: char,
    width: nat,
    max_bars: nat,
    bars: Seq<Option<Seq<char>>>,
)
    ensures
        ({
            let r = cycle_spec(
                true,
                true,
                prev_lines,
                buffered,
                to_stdout,
                yellow,
                reset,
                anime,
                width,
                max_bars,
                bars,
            );
            r.0.len() == 0 && r.1 == all_indices(bars.len()) && r.2 == prev_lines && !r.4
        }),
{
}

/// Once no bar is alive, the next cycle that draws ends the task: it
/// erases the last frame, writes what was buffered (when the bars go to
/// stdout), and erases the line it is on, keeping no bar.
pub proof fn law_cycle_ends_once_no_bar_lives(
    prev_lines: nat,
    buffered: Seq<char>,
    to_stdout: bool,
    yellow: Seq<char>,
    reset: Seq<char>,
    anime: char,
    width: nat,
    max_bars: nat,
    bars: Seq<Option<Seq<char>>>,
)
    requires
        forall|i: int| 0 <= i < bars.len() ==> bars[i] is None,
    ensures
        ({
            let r = cycle_spec(
                true,
                false,
                prev_lines,
                buffered,
                to_stdout,
                yellow,
                reset,
                anime,
                width,
                max_bars,
                bars,
            );
            &&& r.4
            &&& r.1.len() == 0
            &&& r.2 == 0
            &&& r.0 == clear_text(prev_lines) + (if to_stdout {
                buffered
            } else {
                Seq::empty()
            }) + yellow + reset + clear_text(0)
        }),
{
    lemma_none_live(bars, bars.len());
    let live = live_texts(bars, bars.len());
    assert(live.take(0) =~= Seq::<Seq<char>>::empty());
    assert(bars_text(live, anime, width) == Seq::<char>::empty());
}

/// A cycle that draws keeps exactly the live bars, in their order, and
/// draws the first `max_bars` of them (all of them when there are fewer).
pub proof fn law_cycle_keeps_live_bars(
    prev_lines: nat,
    buffered: Seq<char>,
    to_stdout: bool,
    yellow: Seq<char>,
    reset: Seq<char>,
    anime: char,
    width: nat,
    max_bars: nat,
    bars: Seq<Option<Seq<char>>>,
)
    requires
        exists|i: int| 0 <= i < bars.len() && bars[i] is Some,
    ensures
        ({
            let r = cycle_spec(
                true,
                false,
                prev_lines,
                buffered,
                to_stdout,
                yellow,
                reset,
                anime,
                width,
                max_bars,
                bars,
            );
            let live = live_texts(bars, bars.len());
            &&& !r.4
            &&& forall|i: int| 0 <= i < bars.len() ==> (r.1.contains(i) <==> bars[i] is Some)
            &&& forall|j: int, k: int| 0 <= j < k < r.1.len() ==> r.1[j] < r.1[k]
            &&& r.3 == if live.len() <= max_bars {
                live.len()
            } else {
                max_bars
            }
        }),
{
    let n = bars.len();
    lemma_live_indices_exact(bars, n);
    lemma_live_len(bars, n);
    let i = choose|i: int| 0 <= i < bars.len() && bars[i] is Some;
    assert(live_indices(bars, n).contains(i));
}

/// The simple printer draws at most four bars a cycle.
pub proof fn law_simple_cycle_draws_at_most_four(
    has_target: bool,
    prompt_active: bool,
    prev_lines: nat,
    buffered: Seq<char>,
    to_stdout: bool,
    yellow: Seq<char>,
    reset: Seq<char>,
    tick: nat,
    width: nat,
    bars: Seq<Option<Seq<char>>>,
)
    ensures
        cycle_spec(
            has_target,
            prompt_active,
            prev_lines,
            buffered,
            to_stdout,
            yellow,
            reset,
            spinner6(tick % 6),
            width,
            4,
            bars,
        ).3 <= 4,
{
}

} // verus!
