//! How the printer lays out messages, prompts and progress-bar results.
//!
//! A message starts with a one-letter tag in its level's color, then the
//! thread name (if set) in brackets, then the text; each further line of
//! the text goes on a continuation line.
use vstd::prelude::*;
use crate::ansi::Colors;
use crate::format::{
    FormatBuffer, FormatView, fv_control, fv_end, fv_empty, fv_lines, fv_push, fv_push_str,
};
use crate::level::{Lv, PrintType};
use crate::text::{decimal, lines, lemma_lines_bound, push_char, push_decimal, split_lines};
use vstd::string::StringExecFns;
use vstd::string::StrSliceExecFns;

verus! {

/// The color of a message's text.
pub open spec fn lv_text_color(c: Colors, lv: Lv) -> Seq<char> {
    match lv {
        Lv::Error => c.red@,
        Lv::Hint => c.yellow@,
        Lv::Print => c.reset@,
        Lv::Warn => c.yellow@,
        Lv::Info => c.reset@,
        Lv::Debug => c.cyan@,
        Lv::Trace => c.magenta@,
    }
}

/// The tag that starts a message: `E]`, `H]`, `::`, `W]`, `I]`, `D]` or `*]`,
/// in the level's colors.
pub open spec fn lv_header(v: FormatView, c: Colors, lv: Lv) -> FormatView {
    match lv {
        Lv::Error => fv_push(fv_push(fv_control(v, c.red@), 'E', 1), ']', 1),
        Lv::Hint => fv_push(fv_control(fv_push(fv_control(v, c.cyan@), 'H', 1), c.gray@), ']', 1),
        Lv::Print => fv_push(fv_push(fv_control(v, c.gray@), ':', 1), ':', 1),
        Lv::Warn => fv_push(fv_push(fv_control(v, c.yellow@), 'W', 1), ']', 1),
        Lv::Info => fv_push(fv_control(fv_push(fv_control(v, c.green@), 'I', 1), c.gray@), ']', 1),
        Lv::Debug => fv_push(fv_push(fv_control(v, c.gray@), 'D', 1), ']', 1),
        Lv::Trace => fv_push(fv_push(fv_control(v, c.magenta@), '*', 1), ']', 1),
    }
}

/// The thread name in brackets, if there is one.
pub open spec fn name_tag(v: FormatView, c: Colors, name: Option<Seq<char>>) -> FormatView {
    match name {
        Some(n) => fv_push(fv_push_str(fv_push(fv_control(v, c.magenta@), '[', 1), n), ']', 1),
        None => v,
    }
}

/// A `&str` option as characters.
pub open spec fn opt_chars(o: Option<&str>) -> Option<Seq<char>> {
    match o {
        Some(s) => Some(s@),
        None => None,
    }
}

/// Length of an optional text.
pub open spec fn opt_len(o: Option<Seq<char>>) -> nat {
    match o {
        Some(s) => s.len(),
        None => 0,
    }
}

/// A message laid out at the given width.
pub open spec fn message_layout(
    width: nat,
    c: Colors,
    lv: Lv,
    name: Option<Seq<char>>,
    message: Seq<char>,
) -> FormatView {
    let text = lv_text_color(c, lv);
    let v = name_tag(lv_header(fv_empty(width, c.gray@, text), c, lv), c, name);
    fv_end(fv_lines(fv_control(v, text), lines(message)))
}

fn lv_text_color_exec(c: &Colors, lv: Lv) -> (r: &'static str)
    ensures
        r@ == lv_text_color(*c, lv),
{
    match lv {
        Lv::Error => c.red,
        Lv::Hint => c.yellow,
        Lv::Print => c.reset,
        Lv::Warn => c.yellow,
        Lv::Info => c.reset,
        Lv::Debug => c.cyan,
        Lv::Trace => c.magenta,
    }
}

/// Writes the tag of a message level.
fn push_lv_header(buf: &mut FormatBuffer, c: &Colors, lv: Lv)
    requires
        old(buf)@.curr <= 3,
    ensures
        final(buf)@ == lv_header(old(buf)@, *c, lv),
        final(buf)@.curr <= 8,
{
    match lv {
        Lv::Error => {
            buf.push_control(c.red);
            buf.push('E', 1);
            buf.push(']', 1);
        },
        Lv::Hint => {
            buf.push_control(c.cyan);
            buf.push('H', 1);
            buf.push_control(c.gray);
            buf.push(']', 1);
        },
        Lv::Print => {
            buf.push_control(c.gray);
            buf.push(':', 1);
            buf.push(':', 1);
        },
        Lv::Warn => {
            buf.push_control(c.yellow);
            buf.push('W', 1);
            buf.push(']', 1);
        },
        Lv::Info => {
            buf.push_control(c.green);
            buf.push('I', 1);
            buf.push_control(c.gray);
            buf.push(']', 1);
        },
        Lv::Debug => {
            buf.push_control(c.gray);
            buf.push('D', 1);
            buf.push(']', 1);
        },
        Lv::Trace => {
            buf.push_control(c.magenta);
            buf.push('*', 1);
            buf.push(']', 1);
        },
    }
}

/// Writes the thread name in brackets, if there is one.
fn push_name_tag(buf: &mut FormatBuffer, c: &Colors, name: Option<&str>)
    requires
        old(buf)@.curr <= 8,
        255 * opt_len(opt_chars(name)) + 64 <= usize::MAX,
    ensures
        final(buf)@ == name_tag(old(buf)@, *c, opt_chars(name)),
        final(buf)@.curr <= 255 * opt_len(opt_chars(name)) + 20,
{
    match name {
        Some(n) => {
            buf.push_control(c.magenta);
            buf.push('[', 1);
            buf.push_str(n);
            buf.push(']', 1);
        },
        None => {},
    }
}

/// Writes the lines of a message's text.
fn push_message_lines(buf: &mut FormatBuffer, message: &str)
    requires
        255 * message@.len() + 64 <= usize::MAX - old(buf)@.curr,
    ensures
        final(buf)@ == fv_lines(old(buf)@, lines(message@)),
        final(buf)@.curr <= old(buf)@.curr + 255 * message@.len() + 16,
{
    let ls = split_lines(message);
    proof {
        lemma_lines_bound(message@);
        assert(ls@.map_values(|l: String| l@) =~= lines(message@));
        assert forall|i: int| 0 <= i < ls@.len() implies (#[trigger] ls@[i])@.len()
            <= message@.len() by {
            assert(ls@[i]@ == lines(message@)[i]);
        }
    }
    buf.push_lines(&ls, message.unicode_len());
}

/// Lays out a message of level `lv` for printing (the layout part of the
/// printer's `print_message`): the buffer is reset to the terminal width
/// and the level's colors, then holds the whole message.
/// The buffer counts columns in a `usize`, and a character takes at most
/// 255 columns, so the message's length is bounded by what that count can
/// hold.
pub fn print_message(
    buf: &mut FormatBuffer,
    colors: &Colors,
    lv: Lv,
    thread_name: Option<&str>,
    message: &str,
)
    requires
        255 * (message@.len() + opt_len(opt_chars(thread_name))) + 64 <= usize::MAX,
    ensures
        final(buf)@.width <= 400,
        final(buf)@ == message_layout(final(buf)@.width, *colors, lv, opt_chars(thread_name), message@),
{
    let text_color = lv_text_color_exec(colors, lv);
    buf.reset(colors.gray, text_color);
    let ghost v0 = buf@;
    push_lv_header(buf, colors, lv);
    push_name_tag(buf, colors, thread_name);
    buf.push_control(text_color);
    let ghost v1 = buf@;
    push_message_lines(buf, message);
    buf.end();
    proof {
        crate::format::lemma_fv_lines_keeps(v1, lines(message@));
        assert(v0.buffer =~= Seq::<char>::empty());
        assert(v0 == fv_empty(buf@.width, colors.gray@, text_color@));
    }
}

} // verus!

verus! {

/// The color of a message's text, in the simple printer.
pub open spec fn typ_text_color(c: Colors, typ: PrintType) -> Seq<char> {
    match typ {
        PrintType::Error => c.red@,
        PrintType::Hint => c.yellow@,
        PrintType::Print => c.reset@,
        PrintType::Warn => c.yellow@,
        PrintType::Info => c.reset@,
        PrintType::Debug => c.gray@,
        PrintType::Trace => c.magenta@,
    }
}

/// The tag that starts a message in the simple printer: as
/// `lv_header`, except that a plain print is ` :`.
pub open spec fn typ_header(v: FormatView, c: Colors, typ: PrintType) -> FormatView {
    match typ {
        PrintType::Print => fv_push(fv_push(fv_control(v, c.gray@), ' ', 1), ':', 1),
        _ => lv_header(v, c, typ.lv()),
    }
}

/// A message laid out by the simple printer.
pub open spec fn typ_message_layout(
    width: nat,
    c: Colors,
    typ: PrintType,
    name: Option<Seq<char>>,
    message: Seq<char>,
) -> FormatView {
    let text = typ_text_color(c, typ);
    let v = name_tag(typ_header(fv_empty(width, c.gray@, text), c, typ), c, name);
    fv_end(fv_lines(fv_control(v, text), lines(message)))
}

fn typ_text_color_exec(c: &Colors, typ: PrintType) -> (r: &'static str)
    ensures
        r@ == typ_text_color(*c, typ),
{
    match typ {
        PrintType::Error => c.red,
        PrintType::Hint => c.yellow,
        PrintType::Print => c.reset,
        PrintType::Warn => c.yellow,
        PrintType::Info => c.reset,
        PrintType::Debug => c.gray,
        PrintType::Trace => c.magenta,
    }
}

fn lv_of(typ: PrintType) -> (r: Lv)
    ensures
        r == typ.lv(),
{
    match typ {
        PrintType::Error => Lv::Error,
        PrintType::Hint => Lv::Hint,
        PrintType::Print => Lv::Print,
        PrintType::Warn => Lv::Warn,
        PrintType::Info => Lv::Info,
        PrintType::Debug => Lv::Debug,
        PrintType::Trace => Lv::Trace,
    }
}

/// Lays out a message in the simple printer (the layout part of its
/// `format_message`).
/// As for `print_message`, the length is bounded by what a `usize` column
/// count can hold at 255 columns a character.
pub fn format_message(
    buf: &mut FormatBuffer,
    colors: &Colors,
    typ: PrintType,
    thread_name: Option<&str>,
    message: &str,
)
    requires
        255 * (message@.len() + opt_len(opt_chars(thread_name))) + 64 <= usize::MAX,
    ensures
        final(buf)@.width <= 400,
        final(buf)@ == typ_message_layout(
            final(buf)@.width,
            *colors,
            typ,
            opt_chars(thread_name),
            message@,
        ),
{
    let text_color = typ_text_color_exec(colors, typ);
    buf.reset(colors.gray, text_color);
    let ghost v0 = buf@;
    match typ {
        PrintType::Print => {
            buf.push_control(colors.gray);
            buf.push(' ', 1);
            buf.push(':', 1);
        },
        _ => {
            push_lv_header(buf, colors, lv_of(typ));
        },
    }
    push_name_tag(buf, colors, thread_name);
    buf.push_control(text_color);
    let ghost v1 = buf@;
    push_message_lines(buf, message);
    buf.end();
    proof {
        crate::format::lemma_fv_lines_keeps(v1, lines(message@));
        assert(v0.buffer =~= Seq::<char>::empty());
        assert(v0 == fv_empty(buf@.width, colors.gray@, text_color@));
    }
}

/// A prompt laid out: `!]` and the prompt's lines in cyan, then, on its
/// own line, `-: ` where the answer goes.
pub open spec fn prompt_layout(width: nat, c: Colors, prompt: Seq<char>) -> FormatView {
    let v = fv_push(fv_push(fv_control(fv_empty(width, c.gray@, c.cyan@), c.cyan@), '!', 1), ']', 1);
    fv_control(fv_control(fv_end(fv_lines(v, lines(prompt))), c.reset@), seq!['-', ':', ' '])
}

/// A password prompt laid out: as `prompt_layout`, but the answer goes
/// after `: ` on the prompt's last line.
pub open spec fn password_prompt_layout(width: nat, c: Colors, prompt: Seq<char>) -> FormatView {
    let v = fv_push(fv_push(fv_control(fv_empty(width, c.gray@, c.cyan@), c.cyan@), '!', 1), ']', 1);
    fv_push_str(fv_lines(v, lines(prompt)), seq![':', ' '])
}

fn push_prompt_head(buf: &mut FormatBuffer, colors: &Colors, prompt: &str)
    requires
        255 * prompt@.len() + 128 <= usize::MAX,
    ensures
        final(buf)@.width <= 400,
        final(buf)@ == fv_lines(
            fv_push(
                fv_push(
                    fv_control(fv_empty(final(buf)@.width, colors.gray@, colors.cyan@), colors.cyan@),
                    '!',
                    1,
                ),
                ']',
                1,
            ),
            lines(prompt@),
        ),
        final(buf)@.curr <= 255 * prompt@.len() + 18,
{
    buf.reset(colors.gray, colors.cyan);
    let ghost v0 = buf@;
    buf.push_control(colors.cyan);
    buf.push('!', 1);
    buf.push(']', 1);
    let ghost v1 = buf@;
    push_message_lines(buf, prompt);
    proof {
        crate::format::lemma_fv_lines_keeps(v1, lines(prompt@));
        assert(v0.buffer =~= Seq::<char>::empty());
        assert(v0 == fv_empty(buf@.width, colors.gray@, colors.cyan@));
    }
}

/// Lays out a prompt (the printer's `format_prompt`).
pub fn format_prompt(buf: &mut FormatBuffer, colors: &Colors, prompt: &str)
    requires
        255 * prompt@.len() + 128 <= usize::MAX,
    ensures
        final(buf)@.width <= 400,
        final(buf)@ == prompt_layout(final(buf)@.width, *colors, prompt@),
{
    push_prompt_head(buf, colors, prompt);
    buf.end();
    buf.push_control(colors.reset);
    proof {
        reveal_strlit("-: ");
        assert("-: "@ =~= seq!['-', ':', ' ']);
    }
    buf.push_control("-: ");
}

} // verus!

verus! {

/// Lays out a prompt as the printer shows it (the layout part of
/// `show_prompt`): a password prompt takes the answer on its last line.
pub fn show_prompt(buf: &mut FormatBuffer, colors: &Colors, prompt: &str, is_password: bool)
    requires
        255 * prompt@.len() + 1024 <= usize::MAX,
    ensures
        final(buf)@.width <= 400,
        final(buf)@ == if is_password {
            password_prompt_layout(final(buf)@.width, *colors, prompt@)
        } else {
            prompt_layout(final(buf)@.width, *colors, prompt@)
        },
{
    push_prompt_head(buf, colors, prompt);
    if is_password {
        proof {
            reveal_strlit(": ");
            assert(": "@ =~= seq![':', ' ']);
        }
        buf.push_str(": ");
    } else {
        buf.end();
        buf.push_control(colors.reset);
        proof {
            reveal_strlit("-: ");
            assert("-: "@ =~= seq!['-', ':', ' ']);
        }
        buf.push_control("-: ");
    }
}

/// The text of a finished bar: the spinner's last frame, the count (when
/// there is a total), the bar's message and `done`.
pub open spec fn bar_done_text(total: nat, message: Seq<char>) -> Seq<char> {
    let head = if total == 0 {
        seq!['\u{283f}', ']']
    } else {
        seq!['\u{283f}', ']', '['] + decimal(total) + seq!['/'] + decimal(total) + seq![']']
    };
    if message.len() == 0 {
        head + seq![' ', 'd', 'o', 'n', 'e']
    } else {
        head + seq![' '] + message + seq![':', ' ', 'd', 'o', 'n', 'e']
    }
}

fn push_count(out: &mut String, total: usize)
    ensures
        final(out)@ == old(out)@ + seq!['['] + decimal(total as nat) + seq!['/'] + decimal(
            total as nat,
        ) + seq![']'],
{
    push_char(out, '[');
    push_decimal(out, total as u64);
    push_char(out, '/');
    push_decimal(out, total as u64);
    push_char(out, ']');
    assert(final(out)@ =~= old(out)@ + seq!['['] + decimal(total as nat) + seq!['/'] + decimal(
        total as nat,
    ) + seq![']']);
}

/// The text of a finished bar (see `bar_done_text`).
pub fn format_bar_done(total: usize, message: &str) -> (r: String)
    ensures
        r@ == bar_done_text(total as nat, message@),
{
    let mut r = String::new();
    push_char(&mut r, '\u{283f}');
    push_char(&mut r, ']');
    if total != 0 {
        push_count(&mut r, total);
    }
    let ghost head = r@;
    proof {
        reveal_strlit(" done");
        reveal_strlit(": done");
    }
    if message.unicode_len() == 0 {
        r.append(" done");
    } else {
        push_char(&mut r, ' ');
        r.append(message);
        r.append(": done");
    }
    assert(r@ =~= bar_done_text(total as nat, message@));
    r
}

/// The text the simple printer prints when a bar is done: always
/// with the count.
pub open spec fn counted_done_text(total: nat, message: Seq<char>) -> Seq<char> {
    seq!['\u{283f}', ']', '['] + decimal(total) + seq!['/'] + decimal(total) + seq![']', ' ']
        + message + seq![':', ' ', 'd', 'o', 'n', 'e']
}

/// A done message laid out in the given color.
pub open spec fn done_layout(width: nat, c: Colors, color: Seq<char>, text: Seq<char>) -> FormatView {
    fv_end(fv_push_str(fv_control(fv_empty(width, c.gray@, color), color), text))
}

/// Lays out the message of a finished bar, in the simple printer
/// (the layout part of `print_progress_bar_done`).
pub fn print_progress_bar_done(buf: &mut FormatBuffer, colors: &Colors, total: usize, message: &str)
    requires
        255 * (message@.len() + 64) + 64 <= usize::MAX,
    ensures
        final(buf)@.width <= 400,
        final(buf)@ == done_layout(
            final(buf)@.width,
            *colors,
            colors.green@,
            counted_done_text(total as nat, message@),
        ),
{
    let mut text = String::new();
    push_char(&mut text, '\u{283f}');
    push_char(&mut text, ']');
    push_count(&mut text, total);
    push_char(&mut text, ' ');
    text.append(message);
    proof {
        reveal_strlit(": done");
    }
    text.append(": done");
    assert(text@ =~= counted_done_text(total as nat, message@));
    proof {
        crate::text::lemma_decimal_len(total as nat);
        lemma_decimal_short(total as nat);
        assert(text@.len() <= message@.len() + 64);
        assert(255 * text@.len() <= 255 * (message@.len() + 64)) by (nonlinear_arith)
            requires
                text@.len() <= message@.len() + 64,
        ;
    }
    buf.reset(colors.gray, colors.green);
    buf.push_control(colors.green);
    buf.push_str(text.as_str());
    buf.end();
}

/// A `usize` has at most 20 decimal digits.
proof fn lemma_decimal_short(n: nat)
    requires
        n <= usize::MAX,
    ensures
        decimal(n).len() <= 20,
{
    reveal_with_fuel(pow10, 21);
    assert(pow10(20) == 100_000_000_000_000_000_000);
    lemma_decimal_len_le(n, 20);
}

proof fn lemma_decimal_len_le(n: nat, k: nat)
    requires
        k >= 1,
        n < pow10(k),
    ensures
        decimal(n).len() <= k,
    decreases k,
{
    crate::text::lemma_decimal_len(n);
    if n >= 10 {
        assert(n / 10 < pow10((k - 1) as nat)) by {
            assert(k >= 2) by {
                if k == 1 {
                    assert(pow10(1) == 10) by {
                        assert(pow10(0) == 1);
                    }
                }
            }
            assert(pow10(k) == 10 * pow10((k - 1) as nat));
        }
        lemma_decimal_len_le(n / 10, (k - 1) as nat);
    }
}

/// Ten to the `k`.
pub open spec fn pow10(k: nat) -> nat
    decreases k,
{
    if k == 0 {
        1
    } else {
        10 * pow10((k - 1) as nat)
    }
}

/// Lays out the message of a finished bar (the layout part of the
/// printer's `print_bar_done`): green when the bar completed, yellow when
/// it was interrupted.
pub fn print_bar_done(
    buf: &mut FormatBuffer,
    colors: &Colors,
    message: &str,
    is_progress_complete: bool,
)
    requires
        255 * message@.len() + 64 <= usize::MAX,
    ensures
        final(buf)@.width <= 400,
        final(buf)@ == done_layout(
            final(buf)@.width,
            *colors,
            if is_progress_complete { colors.green@ } else { colors.yellow@ },
            message@,
        ),
{
    let color = if is_progress_complete {
        colors.green
    } else {
        colors.yellow
    };
    buf.reset(colors.gray, color);
    buf.push_control(color);
    buf.push_str(message);
    buf.end();
}

} // verus!
