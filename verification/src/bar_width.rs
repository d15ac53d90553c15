//! Bar lines never take more columns than they are given.
use vstd::prelude::*;
use crate::ansi::{
    fit_rest, fitting, is_plain_ascii, lemma_fitting_width, lemma_plain_width, lemma_width_concat,
    text_width, widths,
};
use crate::bars::{fraction, narrow_line, put_fitting, simple_line, state_line, state_mid};
use crate::byte_format::{byte_text, unit_text};
use crate::progress::{
    bar_line, bytes_count_text, count_text, dots, eta_used, put_if_fits, real_current_total,
    space, stage_bytes, stage_eta, stage_msg, stage_pct, stage_prefix, wants_sep, StateImmut,
};
use crate::text::{decimal, digit_char};

verus! {

/// Text `o` with `w` columns still free fits in `width` columns.
pub open spec fn fits(o: Seq<char>, w: nat, width: nat) -> bool {
    text_width(o) + w <= width
}

pub(crate) proof fn lemma_plain_concat(a: Seq<char>, b: Seq<char>)
    requires
        is_plain_ascii(a),
        is_plain_ascii(b),
    ensures
        is_plain_ascii(a + b),
{
    assert forall|i: int| 0 <= i < (a + b).len() implies 0x20 <= (#[trigger] (a + b)[i] as u32) && ((
    a + b)[i] as u32) < 0x7f by {
        if i < a.len() {
            assert((a + b)[i] == a[i]);
        } else {
            assert((a + b)[i] == b[i - a.len()]);
        }
    }
}

proof fn lemma_digit_plain(d: nat)
    requires
        d < 10,
    ensures
        is_plain_ascii(seq![digit_char(d)]),
{
    assert(seq![digit_char(d)][0] == digit_char(d));
}

pub(crate) proof fn lemma_decimal_plain(n: nat)
    ensures
        is_plain_ascii(decimal(n)),
    decreases n,
{
    if n < 10 {
        lemma_digit_plain(n);
    } else {
        lemma_decimal_plain(n / 10);
        lemma_digit_plain(n % 10);
        assert(decimal(n) =~= decimal(n / 10) + seq![digit_char(n % 10)]);
        lemma_plain_concat(decimal(n / 10), seq![digit_char(n % 10)]);
    }
}

proof fn lemma_byte_text_plain(n: nat)
    ensures
        is_plain_ascii(byte_text(n)),
{
    if n >= 1000 {
        let (u, l) = if n >= 1_000_000_000_000 {
            (1_000_000_000_000nat, 'T')
        } else if n >= 1_000_000_000 {
            (1_000_000_000nat, 'G')
        } else if n >= 1_000_000 {
            (1_000_000nat, 'M')
        } else {
            (1000nat, 'k')
        };
        lemma_decimal_plain(n / u);
        lemma_decimal_plain((n % u) * 10 / u);
        lemma_plain_concat(decimal(n / u), seq!['.']);
        lemma_plain_concat(decimal(n / u) + seq!['.'], decimal((n % u) * 10 / u));
        lemma_plain_concat(decimal(n / u) + seq!['.'] + decimal((n % u) * 10 / u), seq![l]);
        assert(byte_text(n) == unit_text(n, u, l));
    } else {
        lemma_decimal_plain(n);
        lemma_plain_concat(decimal(n), seq!['B']);
        assert(decimal(n).push('B') =~= decimal(n) + seq!['B']);
    }
}

pub(crate) proof fn lemma_count_plain(c: u64, t: Option<u64>)
    ensures
        is_plain_ascii(count_text(c, t)),
        is_plain_ascii(bytes_count_text(c, t)),
{
    lemma_decimal_plain(c as nat);
    lemma_plain_concat(decimal(c as nat), seq!['/']);
    lemma_byte_text_plain(c as nat);
    match t {
        None => {
            lemma_plain_concat(decimal(c as nat) + seq!['/'], seq!['?']);
        },
        Some(v) => {
            lemma_decimal_plain(v as nat);
            lemma_plain_concat(decimal(c as nat) + seq!['/'], decimal(v as nat));
            lemma_byte_text_plain(v as nat);
            lemma_plain_concat(byte_text(c as nat), seq![' ', '/', ' ']);
            lemma_plain_concat(byte_text(c as nat) + seq![' ', '/', ' '], byte_text(v as nat));
        },
    }
}

/// Adding plain text that takes `k` columns out of the `w` free keeps the
/// text fitting.
proof fn lemma_add_plain(o: Seq<char>, w: nat, width: nat, t: Seq<char>)
    requires
        fits(o, w, width),
        is_plain_ascii(t),
        t.len() <= w,
    ensures
        fits(o + t, (w - t.len()) as nat, width),
{
    lemma_width_concat(o, t);
    lemma_plain_width(t);
}

proof fn lemma_space_fits(w: nat, o: Seq<char>, width: nat)
    requires
        fits(o, w, width),
    ensures
        fits(space(w, o).1, space(w, o).0, width),
{
    if w > 0 {
        assert(seq![' '][0] == ' ');
        lemma_add_plain(o, w, width, seq![' ']);
        assert(o.push(' ') =~= o + seq![' ']);
    }
}

proof fn lemma_put_fits(w: nat, o: Seq<char>, t: Seq<char>, width: nat)
    requires
        fits(o, w, width),
        is_plain_ascii(t),
    ensures
        fits(put_if_fits(w, o, t).1, put_if_fits(w, o, t).0, width),
{
    if w >= t.len() {
        lemma_add_plain(o, w, width, t);
    }
}

proof fn lemma_fitting_fits(w: nat, o: Seq<char>, s: Seq<char>, width: nat)
    requires
        fits(o, w, width),
    ensures
        fits(o + fitting(s, w), fit_rest(widths(s), w), width),
{
    lemma_width_concat(o, fitting(s, w));
    lemma_fitting_width(s, w);
}

proof fn lemma_stage_prefix(w: nat, o: Seq<char>, prefix: Seq<char>, sep: bool, width: nat)
    requires
        fits(o, w, width),
    ensures
        fits(stage_prefix(w, o, prefix, sep).1, stage_prefix(w, o, prefix, sep).0, width),
{
    lemma_space_fits(w, o, width);
    let (w2, o2) = space(w, o);
    if prefix.len() > 0 {
        lemma_fitting_fits(w2, o2, prefix, width);
    }
    let (w3, o3) = if prefix.len() > 0 {
        (fit_rest(widths(prefix), w2), o2 + fitting(prefix, w2))
    } else {
        (w2, o2)
    };
    if sep && w3 > 2 {
        assert(seq![':', ' '][0] == ':' && seq![':', ' '][1] == ' ');
        lemma_add_plain(o3, w3, width, seq![':', ' ']);
    }
}

/// A bar's line takes at most `width` columns, as long as the percentage
/// and time-left texts it is given are printable ASCII (as the printer
/// formats them).
pub proof fn law_bar_line_fits(
    width: nat,
    im: StateImmut,
    current: u64,
    total: u64,
    message: Seq<char>,
    pct: Seq<char>,
    eta: Option<Seq<char>>,
)
    requires
        is_plain_ascii(pct),
        eta matches Some(e) ==> is_plain_ascii(e),
    ensures
        text_width(bar_line(width, im, current, total, message, pct, eta)) <= width,
{
    if width < 5 {
        let l = bar_line(width, im, current, total, message, pct, eta);
        assert forall|i: int| 0 <= i < l.len() implies 0x20 <= (#[trigger] l[i] as u32) && (l[i] as u32)
            < 0x7f by {}
        lemma_plain_width(l);
    } else {
        let (c, t) = real_current_total(im.unbounded, current, total);
        let bytes = im.display_bytes;
        let show_ct = !im.unbounded;
        let show_pct = im.show_percentage && t is Some;
        let eta2 = eta_used(im, total, eta);
        let show_eta = eta2 is Some;
        let sep = wants_sep(bytes, im.prefix@.len() > 0, show_ct, show_pct, show_eta, message.len() > 0);
        let ct = count_text(c, t);
        lemma_count_plain(c, t);
        if !bytes && show_ct && ct.len() > width - 2 {
            let l = seq!['['] + dots((width - 2) as nat) + seq![']'];
            assert forall|i: int| 0 <= i < l.len() implies 0x20 <= (#[trigger] l[i] as u32) && (l[i]
                as u32) < 0x7f by {
                if 0 < i < l.len() - 1 {
                    assert(l[i] == '.');
                }
            }
            lemma_plain_width(l);
        } else {
            assert(fits(Seq::<char>::empty(), width, width)) by {
                assert(widths(Seq::<char>::empty()).len() == 0);
            }
            let (w1, o1) = if !bytes && show_ct {
                let b = seq!['['] + ct + seq![']'];
                lemma_plain_concat(seq!['['], ct);
                lemma_plain_concat(seq!['['] + ct, seq![']']);
                lemma_add_plain(Seq::<char>::empty(), width, width, b);
                assert(Seq::<char>::empty() + b =~= b);
                ((width - 2 - ct.len()) as nat, b)
            } else {
                (width, Seq::<char>::empty())
            };
            lemma_stage_prefix(w1, o1, im.prefix@, sep, width);
            let (w4, o4) = stage_prefix(w1, o1, im.prefix@, sep);
            if bytes && show_ct {
                lemma_put_fits(w4, o4, bytes_count_text(c, t), width);
                let (wa, oa) = put_if_fits(w4, o4, bytes_count_text(c, t));
                lemma_space_fits(wa, oa, width);
            }
            let (w5, o5) = stage_bytes(w4, o4, bytes && show_ct, c, t);
            if show_pct {
                let p = if Some(c) == t {
                    seq!['1', '0', '0', '%']
                } else {
                    pct
                };
                assert(is_plain_ascii(p)) by {
                    if Some(c) == t {
                        assert(p[0] == '1' && p[1] == '0' && p[2] == '0' && p[3] == '%');
                    }
                }
                lemma_put_fits(w5, o5, p, width);
            }
            let (w6, o6) = stage_pct(w5, o5, show_pct, c, t, pct);
            let sp_eta = if bytes {
                show_pct || show_ct
            } else {
                show_pct
            };
            match eta2 {
                Some(e) => {
                    lemma_space_fits(w6, o6, width);
                    let (wa, oa) = if sp_eta {
                        space(w6, o6)
                    } else {
                        (w6, o6)
                    };
                    lemma_put_fits(wa, oa, e, width);
                },
                None => {},
            }
            let (w7, o7) = stage_eta(w6, o6, eta2, sp_eta);
            let sp_msg = if bytes {
                show_pct || show_ct || show_eta
            } else {
                show_pct || show_eta
            };
            if message.len() > 0 {
                lemma_space_fits(w7, o7, width);
                let (wa, oa) = if sp_msg {
                    space(w7, o7)
                } else {
                    (w7, o7)
                };
                lemma_fitting_fits(wa, oa, message, width);
            }
            assert(bar_line(width, im, current, total, message, pct, eta) == stage_msg(
                w7,
                o7,
                message,
                sp_msg,
            ));
        }
    }
}


proof fn lemma_state_mid(
    w3: nat,
    o3: Seq<char>,
    total: nat,
    current: nat,
    prefix: Seq<char>,
    message: Seq<char>,
    timed: bool,
    pct: Seq<char>,
    eta: Option<Seq<char>>,
    width: nat,
)
    requires
        fits(o3, w3, width),
        is_plain_ascii(pct),
        eta matches Some(e) ==> is_plain_ascii(e),
    ensures
        fits(
            state_mid(w3, o3, total, current, prefix, message, timed, pct, eta).1,
            state_mid(w3, o3, total, current, prefix, message, timed, pct, eta).0,
            width,
        ),
{
    let sep = if prefix.len() == 0 {
        Seq::<char>::empty()
    } else {
        seq![':', ' ']
    };
    assert(is_plain_ascii(sep)) by {
        if prefix.len() > 0 {
            assert(sep[0] == ':' && sep[1] == ' ');
        }
    }
    if total != 0 && current > 0 {
        if timed && current <= total {
            let hundred = seq!['1', '0', '0', '%'];
            assert(hundred[0] == '1' && hundred[1] == '0' && hundred[2] == '0' && hundred[3] == '%');
            lemma_plain_concat(sep, hundred);
            lemma_plain_concat(sep, pct);
            let pt = if current == total {
                sep + hundred
            } else {
                sep + pct
            };
            lemma_put_fits(w3, o3, pt, width);
            let (wa, oa) = put_if_fits(w3, o3, pt);
            match eta {
                Some(e) => {
                    lemma_space_fits(wa, oa, width);
                    let (wb, ob) = space(wa, oa);
                    lemma_put_fits(wb, ob, e, width);
                    let (w4, o4) = put_if_fits(wb, ob, e);
                    lemma_space_fits(w4, o4, width);
                },
                None => {
                    lemma_space_fits(wa, oa, width);
                },
            }
        } else if prefix.len() > 0 && message.len() > 0 && w3 > 0 {
            assert(seq![':'][0] == ':');
            lemma_add_plain(o3, w3, width, seq![':']);
            assert(o3.push(':') =~= o3 + seq![':']);
            lemma_space_fits((w3 - 1) as nat, o3.push(':'), width);
        } else {
            lemma_space_fits(w3, o3, width);
        }
    } else if prefix.len() > 0 && message.len() > 0 && w3 > 1 {
        lemma_add_plain(o3, w3, width, sep);
    }
}

/// A `ProgressBarState` line takes at most `width` columns, as long as the
/// percentage and time-left texts it is given are printable ASCII (as the
/// printer formats them).
pub proof fn law_state_line_fits(
    width: nat,
    total: nat,
    current: nat,
    prefix: Seq<char>,
    message: Seq<char>,
    timed: bool,
    pct: Seq<char>,
    eta: Option<Seq<char>>,
)
    requires
        is_plain_ascii(pct),
        eta matches Some(e) ==> is_plain_ascii(e),
    ensures
        text_width(state_line(width, total, current, prefix, message, timed, pct, eta)) <= width,
{
    if width < 5 {
        let l = narrow_line(width);
        assert forall|i: int| 0 <= i < l.len() implies 0x20 <= (#[trigger] l[i] as u32) && (l[i] as u32)
            < 0x7f by {}
        lemma_plain_width(l);
    } else {
        let unbounded = total == 0;
        let ct = fraction(current, total);
        lemma_decimal_plain(current);
        lemma_decimal_plain(total);
        lemma_plain_concat(decimal(current), seq!['/']);
        lemma_plain_concat(decimal(current) + seq!['/'], decimal(total));
        if !unbounded && ct.len() > width - 2 {
            let l = seq!['['] + dots((width - 2) as nat) + seq![']'];
            assert forall|i: int| 0 <= i < l.len() implies 0x20 <= (#[trigger] l[i] as u32) && (l[i]
                as u32) < 0x7f by {
                if 0 < i < l.len() - 1 {
                    assert(l[i] == '.');
                }
            }
            lemma_plain_width(l);
        } else {
            assert(fits(Seq::<char>::empty(), width, width)) by {
                assert(widths(Seq::<char>::empty()).len() == 0);
            }
            let (w1, o1) = if !unbounded {
                let b = seq!['['] + ct + seq![']'];
                lemma_plain_concat(seq!['['], ct);
                lemma_plain_concat(seq!['['] + ct, seq![']']);
                lemma_add_plain(Seq::<char>::empty(), width, width, b);
                assert(Seq::<char>::empty() + b =~= b);
                ((width - 2 - ct.len()) as nat, b)
            } else {
                (width, Seq::<char>::empty())
            };
            lemma_space_fits(w1, o1, width);
            let (w2, o2) = space(w1, o1);
            lemma_fitting_fits(w2, o2, prefix, width);
            let (w3, o3) = put_fitting(w2, o2, prefix);
            lemma_state_mid(w3, o3, total, current, prefix, message, timed, pct, eta, width);
            let (w5, o5) = state_mid(w3, o3, total, current, prefix, message, timed, pct, eta);
            lemma_fitting_fits(w5, o5, message, width);
        }
    }
}

/// A `SimpleBar` line takes at most `width` columns, as long as the
/// percentage and time-left texts it is given are printable ASCII.
pub proof fn law_simple_line_fits(
    width: nat,
    total: nat,
    current: nat,
    prefix: Seq<char>,
    message: Seq<char>,
    timed: bool,
    pct: Seq<char>,
    eta: Seq<char>,
)
    requires
        is_plain_ascii(pct),
        is_plain_ascii(eta),
    ensures
        text_width(simple_line(width, total, current, prefix, message, timed, pct, eta)) <= width,
{
    if width < 5 {
        let l = narrow_line(width);
        assert forall|i: int| 0 <= i < l.len() implies 0x20 <= (#[trigger] l[i] as u32) && (l[i] as u32)
            < 0x7f by {}
        lemma_plain_width(l);
    } else {
        let ct = fraction(current, total);
        lemma_decimal_plain(current);
        lemma_decimal_plain(total);
        lemma_plain_concat(decimal(current), seq!['/']);
        lemma_plain_concat(decimal(current) + seq!['/'], decimal(total));
        if ct.len() > width - 2 {
            let l = seq!['['] + dots((width - 2) as nat) + seq![']'];
            assert forall|i: int| 0 <= i < l.len() implies 0x20 <= (#[trigger] l[i] as u32) && (l[i]
                as u32) < 0x7f by {
                if 0 < i < l.len() - 1 {
                    assert(l[i] == '.');
                }
            }
            lemma_plain_width(l);
        } else {
            assert(fits(Seq::<char>::empty(), width, width)) by {
                assert(widths(Seq::<char>::empty()).len() == 0);
            }
            let b = seq!['['] + ct + seq![']'];
            lemma_plain_concat(seq!['['], ct);
            lemma_plain_concat(seq!['['] + ct, seq![']']);
            lemma_add_plain(Seq::<char>::empty(), width, width, b);
            assert(Seq::<char>::empty() + b =~= b);
            let w1 = (width - 2 - ct.len()) as nat;
            lemma_space_fits(w1, b, width);
            let (w2, o2) = space(w1, b);
            lemma_fitting_fits(w2, o2, prefix, width);
            let (w3, o3) = put_fitting(w2, o2, prefix);
            if timed && current <= total {
                let c2 = seq![':', ' ', '1', '0', '0', '%'];
                assert(c2[0] == ':' && c2[1] == ' ' && c2[2] == '1' && c2[3] == '0' && c2[4] == '0'
                    && c2[5] == '%');
                assert(seq![':', ' '][0] == ':' && seq![':', ' '][1] == ' ');
                lemma_plain_concat(seq![':', ' '], pct);
                let pt = if current == total {
                    c2
                } else {
                    seq![':', ' '] + pct
                };
                lemma_put_fits(w3, o3, pt, width);
                let (wa, oa) = put_if_fits(w3, o3, pt);
                lemma_space_fits(wa, oa, width);
                let (wb, ob) = space(wa, oa);
                lemma_put_fits(wb, ob, eta, width);
            }
            let (w4, o4) = if timed && current <= total {
                let pt = if current == total {
                    seq![':', ' ', '1', '0', '0', '%']
                } else {
                    seq![':', ' '] + pct
                };
                let (wa, oa) = put_if_fits(w3, o3, pt);
                let (wb, ob) = space(wa, oa);
                put_if_fits(wb, ob, eta)
            } else {
                (w3, o3)
            };
            lemma_space_fits(w4, o4, width);
            let (w5, o5) = space(w4, o4);
            lemma_fitting_fits(w5, o5, message, width);
        }
    }
}


} // verus!
