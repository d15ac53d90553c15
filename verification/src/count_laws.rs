//! How a bar shows its count in bytes: the current count first, then the
//! total, on the bar's line as in its finish message.
use vstd::prelude::*;
use crate::ansi::fitting;
use crate::byte_format::byte_text;
use crate::progress::{
    bar_line, bytes_count_text, eta_used, finish_text, put_if_fits, real_current_total, space,
    stage_bytes, stage_eta, stage_msg, stage_pct, stage_prefix, wants_sep, StateImmut,
};

verus! {

/// `a` is `b` followed by more.
pub open spec fn starts_with(b: Seq<char>, a: Seq<char>) -> bool {
    a.len() >= b.len() && a.take(b.len() as int) == b
}

proof fn lemma_starts_trans(a: Seq<char>, b: Seq<char>, c: Seq<char>)
    requires
        starts_with(a, b),
        starts_with(b, c),
    ensures
        starts_with(a, c),
{
    assert(c.take(a.len() as int) =~= c.take(b.len() as int).take(a.len() as int));
}

proof fn lemma_starts_concat(a: Seq<char>, t: Seq<char>)
    ensures
        starts_with(a, a + t),
{
    assert((a + t).take(a.len() as int) =~= a);
}

proof fn lemma_space_starts(w: nat, o: Seq<char>)
    ensures
        starts_with(o, space(w, o).1),
{
    if w > 0 {
        assert(o.push(' ') =~= o + seq![' ']);
        lemma_starts_concat(o, seq![' ']);
    } else {
        assert(o.take(o.len() as int) =~= o);
    }
}

proof fn lemma_put_starts(w: nat, o: Seq<char>, t: Seq<char>)
    ensures
        starts_with(o, put_if_fits(w, o, t).1),
{
    if w >= t.len() {
        lemma_starts_concat(o, t);
    } else {
        assert(o.take(o.len() as int) =~= o);
    }
}

/// The count a bar shows in bytes reads the current count first: the byte
/// text of `current`, then (when there is a total) ` / ` and the byte text
/// of the total, which ends it.
pub proof fn law_bytes_count_current_first(current: u64, total: Option<u64>)
    ensures
        starts_with(byte_text(current as nat), bytes_count_text(current, total)),
        total matches Some(t) ==> bytes_count_text(current, total).skip(
            bytes_count_text(current, total).len() - byte_text(t as nat).len(),
        ) == byte_text(t as nat),
        total matches Some(t) ==> bytes_count_text(current, total).len() == byte_text(current as nat).len() + 3
            + byte_text(t as nat).len(),
{
    let b = bytes_count_text(current, total);
    match total {
        None => {
            assert(b.take(b.len() as int) =~= b);
        },
        Some(t) => {
            lemma_starts_concat(byte_text(current as nat), seq![' ', '/', ' '] + byte_text(t as nat));
            assert(b =~= byte_text(current as nat) + (seq![' ', '/', ' '] + byte_text(t as nat)));
            assert(b.skip(b.len() - byte_text(t as nat).len()) =~= byte_text(t as nat));
        },
    }
}

/// A bar in bytes shows on its line the same count as in its finish
/// message: the finish message is the message, then the count in
/// parentheses.
pub proof fn law_bytes_count_matches_finish(current: u64, total: u64, message: Seq<char>)
    ensures
        ({
            let (c, t) = real_current_total(false, current, total);
            finish_text(false, current, total, true, message) == message + seq![' ', '('] + bytes_count_text(c, t)
                + seq![')']
        }),
{
    let (c, t) = real_current_total(false, current, total);
    match t {
        None => {
            assert(finish_text(false, current, total, true, message) =~= message + seq![' ', '(']
                + bytes_count_text(c, t) + seq![')']);
        },
        Some(v) => {
            assert(finish_text(false, current, total, true, message) =~= message + seq![' ', '(']
                + bytes_count_text(c, t) + seq![')']);
        },
    }
}

/// On the line of a bounded bar in bytes with no prefix, when the line has
/// room for the count, the line starts with a space and the count: the
/// byte text of the current count (capped at the total), ` / ` and the
/// byte text of the total, or only the current count while the total is
/// not known.
pub proof fn law_bytes_line_shows_current_then_total(
    width: nat,
    im: StateImmut,
    current: u64,
    total: u64,
    message: Seq<char>,
    pct: Seq<char>,
    eta: Option<Seq<char>>,
)
    requires
        im.display_bytes,
        !im.unbounded,
        im.prefix@.len() == 0,
        width >= 5,
        width >= 1 + bytes_count_text(real_current_total(false, current, total).0, real_current_total(false, current, total).1).len(),
    ensures
        ({
            let c = real_current_total(false, current, total).0;
            let shown = if total == 0 {
                byte_text(c as nat)
            } else {
                byte_text(c as nat) + seq![' ', '/', ' '] + byte_text(total as nat)
            };
            starts_with(seq![' '] + shown, bar_line(width, im, current, total, message, pct, eta))
        }),
{
    let (c, t) = real_current_total(im.unbounded, current, total);
    let bytes = im.display_bytes;
    let show_ct = !im.unbounded;
    let show_pct = im.show_percentage && t is Some;
    let eta2 = eta_used(im, total, eta);
    let show_eta = eta2 is Some;
    let sep = wants_sep(bytes, im.prefix@.len() > 0, show_ct, show_pct, show_eta, message.len() > 0);
    let bct = bytes_count_text(c, t);
    let shown = if total == 0 {
        byte_text(c as nat)
    } else {
        byte_text(c as nat) + seq![' ', '/', ' '] + byte_text(total as nat)
    };
    assert(bct == shown);
    let (w4, o4) = stage_prefix(width, Seq::empty(), im.prefix@, sep);
    assert(o4 =~= seq![' ']);
    assert(w4 == width - 1);
    let (wa, oa) = put_if_fits(w4, o4, bct);
    assert(oa == seq![' '] + shown);
    lemma_space_starts(wa, oa);
    let (w5, o5) = stage_bytes(w4, o4, true, c, t);
    assert(starts_with(seq![' '] + shown, o5));
    let (w6, o6) = stage_pct(w5, o5, show_pct, c, t, pct);
    if show_pct {
        lemma_put_starts(w5, o5, if Some(c) == t { seq!['1', '0', '0', '%'] } else { pct });
    } else {
        assert(o5.take(o5.len() as int) =~= o5);
    }
    lemma_starts_trans(seq![' '] + shown, o5, o6);
    let sp_eta = show_pct || show_ct;
    let (w7, o7) = stage_eta(w6, o6, eta2, sp_eta);
    match eta2 {
        Some(e) => {
            lemma_space_starts(w6, o6);
            let (wb, ob) = if sp_eta { space(w6, o6) } else { (w6, o6) };
            if !sp_eta {
                assert(o6.take(o6.len() as int) =~= o6);
            }
            lemma_put_starts(wb, ob, e);
            lemma_starts_trans(o6, ob, o7);
        },
        None => {
            assert(o6.take(o6.len() as int) =~= o6);
        },
    }
    lemma_starts_trans(seq![' '] + shown, o6, o7);
    let sp_msg = show_pct || show_ct || show_eta;
    let l = stage_msg(w7, o7, message, sp_msg);
    if message.len() > 0 {
        lemma_space_starts(w7, o7);
        let (wb, ob) = if sp_msg { space(w7, o7) } else { (w7, o7) };
        if !sp_msg {
            assert(o7.take(o7.len() as int) =~= o7);
        }
        lemma_starts_concat(ob, fitting(message, wb));
        lemma_starts_trans(o7, ob, l);
    } else {
        assert(o7.take(o7.len() as int) =~= o7);
    }
    lemma_starts_trans(seq![' '] + shown, o7, l);
    assert(bar_line(width, im, current, total, message, pct, eta) == l);
}

} // verus!
