//! Each bar line is one line: it holds a newline only where the texts it
//! is given do. So the line count a bar tree's drawing gives is the number
//! of newlines it writes.
use vstd::prelude::*;
use crate::ansi::{fit_count, fitting, is_plain_ascii, widths};
use crate::bar_width::{lemma_count_plain, lemma_decimal_plain, lemma_plain_concat};
use crate::bars::{fraction, narrow_line, put_fitting, simple_line, state_line, state_mid};
use crate::cycle::newline_count;
use crate::progress::{
    bar_bar, bar_tick, guides, kid_part, kid_step, kids_text, last_tick, more_line, node_line,
    node_text, opt_string, sat_sub, BarFormatter, BarNode, ChildNode, bar_line, bytes_count_text, count_text, dots, eta_used, put_if_fits, real_current_total, space,
    stage_bytes, stage_eta, stage_pct, stage_prefix, wants_sep, StateImmut,
};
use crate::text::decimal;

verus! {

/// No character of `s` is a newline.
pub open spec fn nl_free(s: Seq<char>) -> bool {
    forall|i: int| 0 <= i < s.len() ==> s[i] != '\n'
}

proof fn lemma_nl_concat(a: Seq<char>, b: Seq<char>)
    requires
        nl_free(a),
        nl_free(b),
    ensures
        nl_free(a + b),
{
    assert forall|i: int| 0 <= i < (a + b).len() implies (a + b)[i] != '\n' by {
        if i < a.len() {
            assert((a + b)[i] == a[i]);
        } else {
            assert((a + b)[i] == b[i - a.len()]);
        }
    }
}

proof fn lemma_plain_nl_free(s: Seq<char>)
    requires
        is_plain_ascii(s),
    ensures
        nl_free(s),
{
    assert forall|i: int| 0 <= i < s.len() implies s[i] != '\n' by {
        assert(0x20 <= (s[i] as u32));
    }
}

proof fn lemma_fit_count_le(ws: Seq<nat>, w: nat)
    ensures
        fit_count(ws, w) <= ws.len(),
    decreases ws.len(),
{
    if ws.len() > 0 && ws[0] <= w {
        lemma_fit_count_le(ws.drop_first(), (w - ws[0]) as nat);
    }
}

proof fn lemma_fitting_nl_free(s: Seq<char>, w: nat)
    requires
        nl_free(s),
    ensures
        nl_free(fitting(s, w)),
{
    lemma_fit_count_le(widths(s), w);
    let f = fitting(s, w);
    assert forall|i: int| 0 <= i < f.len() implies f[i] != '\n' by {
        assert(f[i] == s[i]);
    }
}

proof fn lemma_space_nl(w: nat, o: Seq<char>)
    requires
        nl_free(o),
    ensures
        nl_free(space(w, o).1),
{
    if w > 0 {
        assert(o.push(' ') =~= o + seq![' ']);
        assert(seq![' '][0] == ' ');
        lemma_nl_concat(o, seq![' ']);
    }
}

proof fn lemma_put_nl(w: nat, o: Seq<char>, t: Seq<char>)
    requires
        nl_free(o),
        nl_free(t),
    ensures
        nl_free(put_if_fits(w, o, t).1),
{
    lemma_nl_concat(o, t);
}

proof fn lemma_fraction_nl(current: nat, total: nat)
    ensures
        nl_free(fraction(current, total)),
        nl_free(seq!['['] + fraction(current, total) + seq![']']),
{
    lemma_decimal_plain(current);
    lemma_decimal_plain(total);
    lemma_plain_concat(decimal(current), seq!['/']);
    lemma_plain_concat(decimal(current) + seq!['/'], decimal(total));
    lemma_plain_concat(seq!['['], fraction(current, total));
    lemma_plain_concat(seq!['['] + fraction(current, total), seq![']']);
    lemma_plain_nl_free(fraction(current, total));
    lemma_plain_nl_free(seq!['['] + fraction(current, total) + seq![']']);
}

proof fn lemma_dots_line_nl(width: nat)
    requires
        width >= 5,
    ensures
        nl_free(seq!['['] + dots((width - 2) as nat) + seq![']']),
        nl_free(narrow_line(width)),
{
    let l = seq!['['] + dots((width - 2) as nat) + seq![']'];
    assert forall|i: int| 0 <= i < l.len() implies l[i] != '\n' by {
        if 0 < i < l.len() - 1 {
            assert(l[i] == '.');
        }
    }
}

proof fn lemma_narrow_nl(width: nat)
    requires
        width < 5,
    ensures
        nl_free(narrow_line(width)),
{
    let l = narrow_line(width);
    assert forall|i: int| 0 <= i < l.len() implies l[i] != '\n' by {}
}

/// A `ProgressBarState` line is one line: it holds no newline, as long as
/// its prefix, message, percentage and time-left texts hold none.
pub proof fn law_state_line_one_line(
    width: nat,
    total: nat,
    current: nat,
    prefix: Seq<char>,
    message: Seq<char>,
    timed: bool,
    pct: Seq<char>,
    eta: Option<Seq<char>>,
)
    requires
        nl_free(prefix),
        nl_free(message),
        nl_free(pct),
        eta matches Some(e) ==> nl_free(e),
    ensures
        nl_free(state_line(width, total, current, prefix, message, timed, pct, eta)),
{
    if width < 5 {
        lemma_narrow_nl(width);
    } else {
        let unbounded = total == 0;
        let ct = fraction(current, total);
        lemma_fraction_nl(current, total);
        if !unbounded && ct.len() > width - 2 {
            lemma_dots_line_nl(width);
        } else {
            let (w1, o1) = if !unbounded {
                ((width - 2 - ct.len()) as nat, seq!['['] + ct + seq![']'])
            } else {
                (width, Seq::<char>::empty())
            };
            lemma_space_nl(w1, o1);
            let (w2, o2) = space(w1, o1);
            lemma_fitting_nl_free(prefix, w2);
            lemma_nl_concat(o2, fitting(prefix, w2));
            let (w3, o3) = put_fitting(w2, o2, prefix);
            let sep = if prefix.len() == 0 {
                Seq::<char>::empty()
            } else {
                seq![':', ' ']
            };
            assert(nl_free(sep)) by {
                if prefix.len() > 0 {
                    assert(sep[0] == ':' && sep[1] == ' ');
                }
            }
            let hundred = seq!['1', '0', '0', '%'];
            assert(nl_free(hundred)) by {
                assert(hundred[0] == '1' && hundred[1] == '0' && hundred[2] == '0' && hundred[3] == '%');
            }
            lemma_nl_concat(sep, hundred);
            lemma_nl_concat(sep, pct);
            if total != 0 && current > 0 {
                if timed && current <= total {
                    let pt = if current == total {
                        sep + hundred
                    } else {
                        sep + pct
                    };
                    lemma_put_nl(w3, o3, pt);
                    let (wa, oa) = put_if_fits(w3, o3, pt);
                    match eta {
                        Some(e) => {
                            lemma_space_nl(wa, oa);
                            let (wb, ob) = space(wa, oa);
                            lemma_put_nl(wb, ob, e);
                            let (w4, o4) = put_if_fits(wb, ob, e);
                            lemma_space_nl(w4, o4);
                        },
                        None => {
                            lemma_space_nl(wa, oa);
                        },
                    }
                } else if prefix.len() > 0 && message.len() > 0 && w3 > 0 {
                    assert(o3.push(':') =~= o3 + seq![':']);
                    assert(seq![':'][0] == ':');
                    lemma_nl_concat(o3, seq![':']);
                    lemma_space_nl((w3 - 1) as nat, o3.push(':'));
                } else {
                    lemma_space_nl(w3, o3);
                }
            } else if prefix.len() > 0 && message.len() > 0 && w3 > 1 {
                lemma_nl_concat(o3, sep);
            }
            let (w5, o5) = state_mid(w3, o3, total, current, prefix, message, timed, pct, eta);
            lemma_fitting_nl_free(message, w5);
            lemma_nl_concat(o5, fitting(message, w5));
        }
    }
}

/// A `SimpleBar` line is one line: it holds no newline, as long as its
/// prefix, message, percentage and time-left texts hold none.
pub proof fn law_simple_line_one_line(
    width: nat,
    total: nat,
    current: nat,
    prefix: Seq<char>,
    message: Seq<char>,
    timed: bool,
    pct: Seq<char>,
    eta: Seq<char>,
)
    requires
        nl_free(prefix),
        nl_free(message),
        nl_free(pct),
        nl_free(eta),
    ensures
        nl_free(simple_line(width, total, current, prefix, message, timed, pct, eta)),
{
    if width < 5 {
        lemma_narrow_nl(width);
    } else {
        let ct = fraction(current, total);
        lemma_fraction_nl(current, total);
        if ct.len() > width - 2 {
            lemma_dots_line_nl(width);
        } else {
            let b = seq!['['] + ct + seq![']'];
            let w1 = (width - 2 - ct.len()) as nat;
            lemma_space_nl(w1, b);
            let (w2, o2) = space(w1, b);
            lemma_fitting_nl_free(prefix, w2);
            lemma_nl_concat(o2, fitting(prefix, w2));
            let (w3, o3) = put_fitting(w2, o2, prefix);
            let c2 = seq![':', ' ', '1', '0', '0', '%'];
            assert(nl_free(c2)) by {
                assert(c2[0] == ':' && c2[1] == ' ' && c2[2] == '1' && c2[3] == '0' && c2[4] == '0'
                    && c2[5] == '%');
            }
            assert(nl_free(seq![':', ' '])) by {
                assert(seq![':', ' '][0] == ':' && seq![':', ' '][1] == ' ');
            }
            lemma_nl_concat(seq![':', ' '], pct);
            if timed && current <= total {
                let pt = if current == total {
                    c2
                } else {
                    seq![':', ' '] + pct
                };
                lemma_put_nl(w3, o3, pt);
                let (wa, oa) = put_if_fits(w3, o3, pt);
                lemma_space_nl(wa, oa);
                let (wb, ob) = space(wa, oa);
                lemma_put_nl(wb, ob, eta);
            }
            let (w4, o4) = if timed && current <= total {
                let pt = if current == total {
                    seq![':', ' ', '1', '0', '0', '%']
                } else {
                    seq![':', ' '] + pct
                };
                let (wa, oa) = put_if_fits(w3, o3, pt);
                let (wb, ob) = space(wa, oa);
                put_if_fits(wb, ob, eta)
            } else {
                (w3, o3)
            };
            lemma_space_nl(w4, o4);
            let (w5, o5) = space(w4, o4);
            lemma_fitting_nl_free(message, w5);
            lemma_nl_concat(o5, fitting(message, w5));
        }
    }
}


proof fn lemma_stage_prefix_nl(w: nat, o: Seq<char>, prefix: Seq<char>, sep: bool)
    requires
        nl_free(o),
        nl_free(prefix),
    ensures
        nl_free(stage_prefix(w, o, prefix, sep).1),
{
    lemma_space_nl(w, o);
    let (w2, o2) = space(w, o);
    lemma_fitting_nl_free(prefix, w2);
    lemma_nl_concat(o2, fitting(prefix, w2));
    let (w3, o3) = if prefix.len() > 0 {
        (crate::ansi::fit_rest(widths(prefix), w2), o2 + fitting(prefix, w2))
    } else {
        (w2, o2)
    };
    assert(nl_free(seq![':', ' '])) by {
        assert(seq![':', ' '][0] == ':' && seq![':', ' '][1] == ' ');
    }
    lemma_nl_concat(o3, seq![':', ' ']);
}

/// A bar's line (as `State::format_self` draws it) is one line: it holds
/// no newline, as long as its prefix, message, percentage and time-left
/// texts hold none.
pub proof fn law_bar_line_one_line(
    width: nat,
    im: StateImmut,
    current: u64,
    total: u64,
    message: Seq<char>,
    pct: Seq<char>,
    eta: Option<Seq<char>>,
)
    requires
        nl_free(im.prefix@),
        nl_free(message),
        nl_free(pct),
        eta matches Some(e) ==> nl_free(e),
    ensures
        nl_free(bar_line(width, im, current, total, message, pct, eta)),
{
    let l = bar_line(width, im, current, total, message, pct, eta);
    if width < 5 {
        assert forall|i: int| 0 <= i < l.len() implies l[i] != '\n' by {}
    } else {
        let (c, t) = real_current_total(im.unbounded, current, total);
        let bytes = im.display_bytes;
        let show_ct = !im.unbounded;
        let show_pct = im.show_percentage && t is Some;
        let eta2 = eta_used(im, total, eta);
        let show_eta = eta2 is Some;
        let sep = wants_sep(bytes, im.prefix@.len() > 0, show_ct, show_pct, show_eta, message.len() > 0);
        let ct = count_text(c, t);
        lemma_count_plain(c, t);
        lemma_plain_nl_free(ct);
        lemma_plain_nl_free(bytes_count_text(c, t));
        if !bytes && show_ct && ct.len() > width - 2 {
            lemma_dots_line_nl(width);
        } else {
            let (w1, o1) = if !bytes && show_ct {
                let b = seq!['['] + ct + seq![']'];
                lemma_plain_concat(seq!['['], ct);
                lemma_plain_concat(seq!['['] + ct, seq![']']);
                lemma_plain_nl_free(b);
                ((width - 2 - ct.len()) as nat, b)
            } else {
                (width, Seq::<char>::empty())
            };
            lemma_stage_prefix_nl(w1, o1, im.prefix@, sep);
            let (w4, o4) = stage_prefix(w1, o1, im.prefix@, sep);
            if bytes && show_ct {
                lemma_put_nl(w4, o4, bytes_count_text(c, t));
                let (wa, oa) = put_if_fits(w4, o4, bytes_count_text(c, t));
                lemma_space_nl(wa, oa);
            }
            let (w5, o5) = stage_bytes(w4, o4, bytes && show_ct, c, t);
            if show_pct {
                let p = if Some(c) == t {
                    seq!['1', '0', '0', '%']
                } else {
                    pct
                };
                assert(nl_free(p)) by {
                    if Some(c) == t {
                        assert(p[0] == '1' && p[1] == '0' && p[2] == '0' && p[3] == '%');
                    }
                }
                lemma_put_nl(w5, o5, p);
            }
            let (w6, o6) = stage_pct(w5, o5, show_pct, c, t, pct);
            let sp_eta = if bytes {
                show_pct || show_ct
            } else {
                show_pct
            };
            match eta2 {
                Some(e) => {
                    lemma_space_nl(w6, o6);
                    let (wa, oa) = if sp_eta {
                        space(w6, o6)
                    } else {
                        (w6, o6)
                    };
                    lemma_put_nl(wa, oa, e);
                },
                None => {},
            }
            let (w7, o7) = stage_eta(w6, o6, eta2, sp_eta);
            let sp_msg = if bytes {
                show_pct || show_ct || show_eta
            } else {
                show_pct || show_eta
            };
            if message.len() > 0 {
                lemma_space_nl(w7, o7);
                let (wa, oa) = if sp_msg {
                    space(w7, o7)
                } else {
                    (w7, o7)
                };
                lemma_fitting_nl_free(message, wa);
                lemma_nl_concat(oa, fitting(message, wa));
            }
        }
    }
}


/// The texts of a child that its parent draws hold no newline.
pub open spec fn kid_nl_free(n: BarNode, idx: nat) -> bool
    decreases n, idx, 0nat,
{
    if idx >= n.children@.len() {
        true
    } else {
        match n.children@[idx as int] {
            ChildNode::Done(m) => nl_free(m@),
            ChildNode::Interrupted(m) => nl_free(m@),
            ChildNode::Progress(c) => tree_nl_free(*c),
            ChildNode::Gone => true,
        }
    }
}

/// The first `k` children's texts hold no newline.
pub open spec fn kids_nl_free(n: BarNode, k: nat) -> bool
    decreases n, k, 1nat,
{
    if k == 0 || k > n.children@.len() {
        true
    } else {
        kids_nl_free(n, (k - 1) as nat) && kid_nl_free(n, (k - 1) as nat)
    }
}

/// No text in a bar tree holds a newline: prefixes, messages, percentage
/// and time-left texts, and the messages of finished children.
pub open spec fn tree_nl_free(n: BarNode) -> bool
    decreases n, n.children@.len() + 1, 2nat,
{
    &&& nl_free(n.immut.prefix@)
    &&& nl_free(n.state.message())
    &&& nl_free(n.percentage@)
    &&& (n.eta matches Some(e) ==> nl_free(e@))
    &&& kids_nl_free(n, n.children@.len())
}

/// The formatter's color codes hold no newline.
pub open spec fn formatter_nl_free(f: BarFormatter) -> bool {
    &&& nl_free(f.colors.gray@)
    &&& nl_free(f.colors.green@)
    &&& nl_free(f.colors.yellow@)
    &&& nl_free(f.bar_color@)
}

proof fn lemma_count_concat(a: Seq<char>, b: Seq<char>)
    ensures
        newline_count(a + b) == newline_count(a) + newline_count(b),
    decreases b.len(),
{
    if b.len() == 0 {
        assert(a + b =~= a);
    } else {
        lemma_count_concat(a, b.drop_last());
        assert((a + b).drop_last() =~= a + b.drop_last());
    }
}

proof fn lemma_count_nl_free(s: Seq<char>)
    requires
        nl_free(s),
    ensures
        newline_count(s) == 0,
    decreases s.len(),
{
    if s.len() > 0 {
        assert forall|i: int| 0 <= i < s.drop_last().len() implies s.drop_last()[i] != '\n' by {
            assert(s.drop_last()[i] == s[i]);
        }
        lemma_count_nl_free(s.drop_last());
    }
}

proof fn lemma_count_newline()
    ensures
        newline_count(seq!['\n']) == 1,
{
    let s = seq!['\n'];
    assert(s.drop_last() =~= Seq::<char>::empty());
    assert(newline_count(Seq::<char>::empty()) == 0);
    assert(s.last() == '\n');
    assert(newline_count(s) == newline_count(s.drop_last()) + 1);
}

proof fn lemma_guides_nl(d: nat)
    ensures
        nl_free(guides(d)),
    decreases d,
{
    if d > 0 {
        lemma_guides_nl((d - 1) as nat);
        assert(nl_free(seq![bar_bar(), ' '])) by {
            assert(seq![bar_bar(), ' '][0] == bar_bar() && seq![bar_bar(), ' '][1] == ' ');
        }
        lemma_nl_concat(guides((d - 1) as nat), seq![bar_bar(), ' ']);
    }
}

proof fn lemma_more_line_count(depth: nat, more: nat, f: BarFormatter)
    requires
        formatter_nl_free(f),
    ensures
        newline_count(more_line(depth, more, f)) == 1,
{
    let a = seq!['|', ' '];
    let b = seq![last_tick()];
    let c = seq![' ', ' ', '.', '.', '.', ' ', 'a', 'n', 'd', ' '];
    let d = seq![' ', 'm', 'o', 'r', 'e'];
    assert(nl_free(a)) by {
        assert(a[0] == '|' && a[1] == ' ');
    }
    assert(nl_free(b)) by {
        assert(b[0] == last_tick());
    }
    assert(nl_free(c)) by {
        assert(c[0] == ' ' && c[1] == ' ' && c[2] == '.' && c[3] == '.' && c[4] == '.' && c[5] == ' '
            && c[6] == 'a' && c[7] == 'n' && c[8] == 'd' && c[9] == ' ');
    }
    assert(nl_free(d)) by {
        assert(d[0] == ' ' && d[1] == 'm' && d[2] == 'o' && d[3] == 'r' && d[4] == 'e');
    }
    lemma_guides_nl(depth);
    lemma_decimal_plain(more);
    lemma_plain_nl_free(decimal(more));
    let head = a + f.colors.gray@ + guides(depth) + b + c + decimal(more) + d + f.bar_color@;
    lemma_nl_concat(a, f.colors.gray@);
    lemma_nl_concat(a + f.colors.gray@, guides(depth));
    lemma_nl_concat(a + f.colors.gray@ + guides(depth), b);
    lemma_nl_concat(a + f.colors.gray@ + guides(depth) + b, c);
    lemma_nl_concat(a + f.colors.gray@ + guides(depth) + b + c, decimal(more));
    lemma_nl_concat(a + f.colors.gray@ + guides(depth) + b + c + decimal(more), d);
    lemma_nl_concat(a + f.colors.gray@ + guides(depth) + b + c + decimal(more) + d, f.bar_color@);
    lemma_count_nl_free(head);
    lemma_count_newline();
    lemma_count_concat(head, seq!['\n']);
    assert(more_line(depth, more, f) == head + seq!['\n']);
}

proof fn lemma_node_count(n: BarNode, depth: nat, hier: Seq<char>, f: BarFormatter)
    requires
        tree_nl_free(n),
        nl_free(hier),
        formatter_nl_free(f),
    ensures
        newline_count(node_text(n, depth, hier, f).0) == node_text(n, depth, hier, f).1,
    decreases n, n.children@.len() + 1, 3nat,
{
    let len = n.children@.len();
    lemma_kids_count(n, len, depth, hier, f);
    let (o, lines, i, shown) = kids_text(n, len, depth, hier, f);
    if shown > n.immut.max_display_children {
        let m = more_line(depth, (shown - n.immut.max_display_children) as nat, f);
        lemma_more_line_count(depth, (shown - n.immut.max_display_children) as nat, f);
        lemma_count_concat(o, m);
    }
}

proof fn lemma_kids_count(n: BarNode, k: nat, depth: nat, hier: Seq<char>, f: BarFormatter)
    requires
        k <= n.children@.len(),
        kids_nl_free(n, k),
        nl_free(n.immut.prefix@),
        nl_free(n.state.message()),
        nl_free(n.percentage@),
        n.eta matches Some(e) ==> nl_free(e@),
        nl_free(hier),
        formatter_nl_free(f),
    ensures
        newline_count(kids_text(n, k, depth, hier, f).0) == kids_text(n, k, depth, hier, f).1,
    decreases n, k, 2nat,
{
    if k == 0 {
        let line = node_line(n, depth, f);
        law_bar_line_one_line(
            sat_sub(f.width as nat, (depth + 1) * 2),
            n.immut,
            n.state.current(),
            n.state.total(),
            n.state.message(),
            n.percentage@,
            opt_string(n.eta),
        );
        lemma_count_nl_free(line);
        lemma_count_newline();
        assert(line.push('\n') =~= line + seq!['\n']);
        lemma_count_concat(line, seq!['\n']);
    } else {
        lemma_kids_count(n, (k - 1) as nat, depth, hier, f);
        let acc = kids_text(n, (k - 1) as nat, depth, hier, f);
        assert(kids_text(n, k, depth, hier, f) == kid_step(n, (k - 1) as nat, depth, hier, f, acc));
        lemma_kid_count(n, (k - 1) as nat, depth, hier, f, acc.2, acc.3);
        let p = kid_part(n, (k - 1) as nat, depth, hier, f, acc.2, acc.3);
        lemma_count_concat(acc.0, p.0);
    }
}

proof fn lemma_kid_count(n: BarNode, idx: nat, depth: nat, hier: Seq<char>, f: BarFormatter, i: int, shown: int)
    requires
        kid_nl_free(n, idx),
        nl_free(hier),
        formatter_nl_free(f),
    ensures
        newline_count(kid_part(n, idx, depth, hier, f, i, shown).0) == kid_part(
            n,
            idx,
            depth,
            hier,
            f,
            i,
            shown,
        ).1,
    decreases n, idx, 0nat,
{
    if idx < n.children@.len() {
        let child = n.children@[idx as int];
        let count = n.children@.len();
        if !(child is Gone) && shown < n.immut.max_display_children {
            let last = i == count - 1;
            let tick = seq![
                if last {
                    last_tick()
                } else {
                    bar_tick()
                },
                ' ',
            ];
            assert(nl_free(tick)) by {
                assert(tick[1] == ' ');
                assert(tick[0] == last_tick() || tick[0] == bar_tick());
            }
            assert(nl_free(seq!['.', ' '])) by {
                assert(seq!['.', ' '][0] == '.' && seq!['.', ' '][1] == ' ');
            }
            let head = seq!['.', ' '] + f.colors.gray@ + hier + tick;
            lemma_nl_concat(seq!['.', ' '], f.colors.gray@);
            lemma_nl_concat(seq!['.', ' '] + f.colors.gray@, hier);
            lemma_nl_concat(seq!['.', ' '] + f.colors.gray@ + hier, tick);
            lemma_count_nl_free(head);
            let sub = hier + if last {
                seq![' ', ' ']
            } else {
                seq![bar_bar(), ' ']
            };
            let w2 = sat_sub(f.width as nat, (depth + 2) * 2);
            lemma_count_newline();
            match child {
                ChildNode::Done(m) => {
                    lemma_fitting_nl_free(m@, w2);
                    lemma_nl_concat(f.colors.green@, fitting(m@, w2));
                    lemma_count_nl_free(f.colors.green@ + fitting(m@, w2));
                    lemma_count_nl_free(f.bar_color@);
                    lemma_count_concat(f.colors.green@ + fitting(m@, w2), seq!['\n']);
                    lemma_count_concat(f.colors.green@ + fitting(m@, w2) + seq!['\n'], f.bar_color@);
                    lemma_count_concat(head, f.colors.green@ + fitting(m@, w2) + seq!['\n'] + f.bar_color@);
                },
                ChildNode::Interrupted(m) => {
                    lemma_fitting_nl_free(m@, w2);
                    lemma_nl_concat(f.colors.yellow@, fitting(m@, w2));
                    lemma_count_nl_free(f.colors.yellow@ + fitting(m@, w2));
                    lemma_count_nl_free(f.bar_color@);
                    lemma_count_concat(f.colors.yellow@ + fitting(m@, w2), seq!['\n']);
                    lemma_count_concat(f.colors.yellow@ + fitting(m@, w2) + seq!['\n'], f.bar_color@);
                    lemma_count_concat(head, f.colors.yellow@ + fitting(m@, w2) + seq!['\n'] + f.bar_color@);
                },
                ChildNode::Progress(c) => {
                    assert(nl_free(sub)) by {
                        let t = if last {
                            seq![' ', ' ']
                        } else {
                            seq![bar_bar(), ' ']
                        };
                        assert(nl_free(t)) by {
                            assert(t[1] == ' ');
                            assert(t[0] == ' ' || t[0] == bar_bar());
                        }
                        lemma_nl_concat(hier, t);
                    }
                    lemma_node_count(*c, depth + 1, sub, f);
                    let (t, l) = node_text(*c, depth + 1, sub, f);
                    lemma_count_nl_free(f.bar_color@);
                    lemma_count_concat(f.bar_color@, t);
                    lemma_count_concat(head, f.bar_color@ + t);
                },
                ChildNode::Gone => {},
            }
        }
    }
}

/// Drawing a bar tree gives as its line count (what `format_at_depth`
/// returns) the number of newlines it writes, as long as no text in the
/// tree, the tree glyphs before it or the formatter's colors hold one.
pub proof fn law_tree_lines_are_newlines(n: BarNode, depth: nat, hier: Seq<char>, f: BarFormatter)
    requires
        tree_nl_free(n),
        nl_free(hier),
        formatter_nl_free(f),
    ensures
        newline_count(node_text(n, depth, hier, f).0) == node_text(n, depth, hier, f).1,
{
    lemma_node_count(n, depth, hier, f);
}

} // verus!
