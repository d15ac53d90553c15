//! How many lines a bar tree takes when drawn, counted without drawing it,
//! so that a tree is drawn only when its line count fits the `i32` that
//! drawing reports it in.
use vstd::prelude::*;
use crate::progress::{kid_part, kid_step, kids_text, node_text, BarFormatter, BarNode, ChildNode};

verus! {

/// The lines child `idx` adds, and the number of children counted after
/// it, given the number counted before it (see `kid_part`).
pub open spec fn kid_lines(n: BarNode, idx: nat, shown: int) -> (int, int)
    decreases n, idx, 0nat,
{
    if idx >= n.children@.len() {
        (0, shown)
    } else {
        match n.children@[idx as int] {
            ChildNode::Gone => (0, shown),
            ChildNode::Progress(c) => if shown >= n.immut.max_display_children {
                (0, shown + 1)
            } else {
                (node_lines(*c), shown + 1)
            },
            _ => if shown >= n.immut.max_display_children {
                (0, shown + 1)
            } else {
                (1, shown + 1)
            },
        }
    }
}

/// The lines of the bar's own line and its first `k` children, and the
/// number of children counted (see `kids_text`).
pub open spec fn kids_lines(n: BarNode, k: nat) -> (int, int)
    decreases n, k, 2nat,
{
    if k == 0 || k > n.children@.len() {
        (1, 0)
    } else {
        let acc = kids_lines(n, (k - 1) as nat);
        let p = kid_lines(n, (k - 1) as nat, acc.1);
        (acc.0 + p.0, p.1)
    }
}

/// The lines a bar tree takes when drawn: its line, its children's, and
/// one that sums up the children past `max_display_children`.
pub open spec fn node_lines(n: BarNode) -> int
    decreases n, n.children@.len() + 1, 3nat,
{
    let (l, shown) = kids_lines(n, n.children@.len());
    if shown > n.immut.max_display_children {
        l + 1
    } else {
        l
    }
}

/// The count past which drawing is refused: one more than `i32::MAX`.
pub open spec fn line_cap() -> int {
    0x8000_0000
}

/// `x`, or `line_cap()` when it is larger.
pub open spec fn capped(x: int) -> int {
    if x <= line_cap() {
        x
    } else {
        line_cap()
    }
}

proof fn lemma_node_lines_eq(n: BarNode, depth: nat, hier: Seq<char>, f: BarFormatter)
    ensures
        node_text(n, depth, hier, f).1 == node_lines(n),
        node_lines(n) >= 1,
    decreases n, n.children@.len() + 1, 3nat,
{
    lemma_kids_lines_eq(n, n.children@.len(), depth, hier, f);
}

proof fn lemma_kids_lines_eq(n: BarNode, k: nat, depth: nat, hier: Seq<char>, f: BarFormatter)
    requires
        k <= n.children@.len(),
    ensures
        kids_text(n, k, depth, hier, f).1 == kids_lines(n, k).0,
        kids_text(n, k, depth, hier, f).3 == kids_lines(n, k).1,
        kids_lines(n, k).0 >= 1,
        0 <= kids_lines(n, k).1 <= k,
    decreases n, k, 2nat,
{
    if k > 0 {
        lemma_kids_lines_eq(n, (k - 1) as nat, depth, hier, f);
        let acc = kids_text(n, (k - 1) as nat, depth, hier, f);
        assert(kids_text(n, k, depth, hier, f) == kid_step(n, (k - 1) as nat, depth, hier, f, acc));
        lemma_kid_lines_eq(n, (k - 1) as nat, depth, hier, f, acc.2, acc.3);
    }
}

proof fn lemma_kid_lines_eq(n: BarNode, idx: nat, depth: nat, hier: Seq<char>, f: BarFormatter, i: int, shown: int)
    ensures
        kid_part(n, idx, depth, hier, f, i, shown).1 == kid_lines(n, idx, shown).0,
        kid_part(n, idx, depth, hier, f, i, shown).3 == kid_lines(n, idx, shown).1,
        kid_lines(n, idx, shown).0 >= 0,
        shown <= kid_lines(n, idx, shown).1 <= shown + 1,
    decreases n, idx, 0nat,
{
    if idx < n.children@.len() {
        let count = n.children@.len();
        match n.children@[idx as int] {
            ChildNode::Progress(c) => {
                if shown < n.immut.max_display_children {
                    let last = i == count - 1;
                    let sub = hier + if last {
                        seq![' ', ' ']
                    } else {
                        seq![crate::progress::bar_bar(), ' ']
                    };
                    lemma_node_lines_eq(*c, depth + 1, sub, f);
                }
            },
            _ => {},
        }
    }
}

proof fn lemma_capped_sum(a: int, b: int)
    requires
        a >= 0,
        b >= 0,
    ensures
        capped(capped(a) + capped(b)) == capped(a + b),
{
}

impl BarNode {
    /// The lines child `idx` adds, capped, and the number of children
    /// counted after it (see `kid_lines`).
    fn kid_lines_capped(&self, idx: usize, shown: usize) -> (r: (u64, usize))
        requires
            idx < self.children@.len(),
            shown <= idx,
        ensures
            r.0 == capped(kid_lines(*self, idx as nat, shown as int).0),
            r.1 == kid_lines(*self, idx as nat, shown as int).1,
        decreases self, idx, 0nat,
    {
        let count = self.children.len();
        assert(shown < count);
        match &self.children[idx] {
            ChildNode::Gone => (0, shown),
            ChildNode::Progress(c) => {
                if shown >= self.immut.max_display_children {
                    (0, shown + 1)
                } else {
                    (c.lines_capped(), shown + 1)
                }
            },
            _ => {
                if shown >= self.immut.max_display_children {
                    (0, shown + 1)
                } else {
                    (1, shown + 1)
                }
            },
        }
    }

    /// The lines the tree takes when drawn (see `node_lines`), capped at
    /// one more than `i32::MAX`.
    pub fn lines_capped(&self) -> (r: u64)
        ensures
            r == capped(node_lines(*self)),
        decreases self, self.children@.len() + 1, 3nat,
    {
        let ghost n = *self;
        proof {
            lemma_node_lines_eq(n, 0, Seq::empty(), arbitrary());
            lemma_kids_lines_eq(n, n.children@.len(), 0, Seq::empty(), arbitrary());
        }
        let count = self.children.len();
        let mut lines: u64 = 1;
        let mut shown: usize = 0;
        let mut k: usize = 0;
        while k < count
            invariant
                k <= count,
                count == n.children@.len(),
                n == *self,
                lines == capped(kids_lines(n, k as nat).0),
                shown == kids_lines(n, k as nat).1,
                shown <= k,
            decreases count - k,
        {
            proof {
                lemma_kids_lines_eq(n, k as nat, 0, Seq::empty(), arbitrary());
                lemma_kid_lines_eq(n, k as nat, 0, Seq::empty(), arbitrary(), 0, shown as int);
                lemma_capped_sum(kids_lines(n, k as nat).0, kid_lines(n, k as nat, shown as int).0);
            }
            let (a, s) = self.kid_lines_capped(k, shown);
            let sum = lines + a;
            lines = if sum <= 0x8000_0000 {
                sum
            } else {
                0x8000_0000
            };
            shown = s;
            k = k + 1;
        }
        if shown > self.immut.max_display_children {
            proof {
                lemma_capped_sum(kids_lines(n, k as nat).0, 1);
            }
            let sum = lines + 1;
            if sum <= 0x8000_0000 {
                sum
            } else {
                0x8000_0000
            }
        } else {
            lines
        }
    }

    /// Draws the bar and its children (see `node_text`, at depth 0 with no
    /// tree glyphs before it) and gives the number of lines drawn; when
    /// that number would not fit an `i32`, draws nothing and gives `None`.
    pub fn format(&self, fmt: &BarFormatter, out: &mut String) -> (r: Option<i32>)
        ensures
            node_lines(*self) <= i32::MAX ==> r == Some(node_text(*self, 0, Seq::empty(), *fmt).1 as i32)
                && final(out)@ == old(out)@ + node_text(*self, 0, Seq::empty(), *fmt).0,
            node_lines(*self) > i32::MAX ==> r is None && final(out)@ == old(out)@,
    {
        proof {
            lemma_node_lines_eq(*self, 0, Seq::empty(), *fmt);
            reveal_strlit("");
        }
        if self.lines_capped() > 0x7fff_ffff {
            return None;
        }
        assert(""@ =~= Seq::<char>::empty());
        Some(self.format_at_depth(0, "", fmt, out))
    }
}

} // verus!
