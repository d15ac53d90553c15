//! A set of strings kept in order, as a `BTreeSet<String>` keeps it:
//! ordered by character (which is the byte order of UTF-8), each string
//! once.
use vstd::prelude::*;

verus! {

/// `a` comes strictly before `b`: at the first character where they
/// differ, `a`'s is smaller; or `a` is a proper prefix of `b`.
pub open spec fn text_lt(a: Seq<char>, b: Seq<char>) -> bool
    decreases a.len(),
{
    if a.len() == 0 {
        b.len() > 0
    } else if b.len() == 0 {
        false
    } else if a[0] != b[0] {
        (a[0] as u32) < (b[0] as u32)
    } else {
        text_lt(a.drop_first(), b.drop_first())
    }
}

/// Each string comes strictly before the next.
pub open spec fn strictly_sorted(s: Seq<Seq<char>>) -> bool {
    forall|i: int, j: int| 0 <= i < j < s.len() ==> text_lt(#[trigger] s[i], #[trigger] s[j])
}

pub proof fn lemma_lt_irreflexive(a: Seq<char>)
    ensures
        !text_lt(a, a),
    decreases a.len(),
{
    if a.len() > 0 {
        lemma_lt_irreflexive(a.drop_first());
    }
}

pub proof fn lemma_lt_transitive(a: Seq<char>, b: Seq<char>, c: Seq<char>)
    requires
        text_lt(a, b),
        text_lt(b, c),
    ensures
        text_lt(a, c),
    decreases a.len(),
{
    if a.len() > 0 && b.len() > 0 && c.len() > 0 {
        if a[0] == b[0] && b[0] == c[0] {
            lemma_lt_transitive(a.drop_first(), b.drop_first(), c.drop_first());
        }
    }
}

pub proof fn lemma_lt_total(a: Seq<char>, b: Seq<char>)
    ensures
        text_lt(a, b) || a == b || text_lt(b, a),
    decreases a.len(),
{
    if a.len() > 0 && b.len() > 0 {
        if a[0] == b[0] {
            lemma_lt_total(a.drop_first(), b.drop_first());
            if a.drop_first() == b.drop_first() {
                assert(a =~= seq![a[0]] + a.drop_first());
                assert(b =~= seq![b[0]] + b.drop_first());
            }
        } else {
            vstd::utf8::char_u32_cast(a[0], a[0] as u32);
            vstd::utf8::char_u32_cast(b[0], b[0] as u32);
            assert((a[0] as u32) != (b[0] as u32));
        }
    } else if a.len() == 0 && b.len() == 0 {
        assert(a =~= b);
    }
}

pub proof fn lemma_lt_asymmetric(a: Seq<char>, b: Seq<char>)
    requires
        text_lt(a, b),
    ensures
        !text_lt(b, a),
        a != b,
{
    if text_lt(b, a) {
        lemma_lt_transitive(a, b, a);
        lemma_lt_irreflexive(a);
    }
    if a == b {
        lemma_lt_irreflexive(a);
    }
}

/// Compares two strings: negative, zero or positive as `a` comes before,
/// equals or comes after `b`.
pub fn compare_text(a: &str, b: &str) -> (r: i8)
    ensures
        r < 0 <==> text_lt(a@, b@),
        r == 0 <==> a@ == b@,
        r > 0 <==> text_lt(b@, a@),
{
    let x = crate::text::str_chars(a);
    let y = crate::text::str_chars(b);
    let mut k: usize = 0;
    while k < x.len() && k < y.len() && x[k] == y[k]
        invariant
            k <= x@.len(),
            k <= y@.len(),
            x@ == a@,
            y@ == b@,
            x@.take(k as int) == y@.take(k as int),
        decreases x.len() - k,
    {
        assert(x@.take(k + 1) =~= x@.take(k as int).push(x@[k as int]));
        assert(y@.take(k + 1) =~= y@.take(k as int).push(y@[k as int]));
        k = k + 1;
    }
    proof {
        lemma_lt_skip(x@, y@, k as nat);
        lemma_lt_skip(y@, x@, k as nat);
        lemma_lt_total(a@, b@);
        if a@ == b@ {
            lemma_lt_irreflexive(a@);
        }
        if text_lt(a@, b@) {
            lemma_lt_asymmetric(a@, b@);
        }
        if text_lt(b@, a@) {
            lemma_lt_asymmetric(b@, a@);
        }
    }
    if k < x.len() && k < y.len() {
        if (x[k] as u32) < (y[k] as u32) {
            -1
        } else {
            1
        }
    } else if k < y.len() {
        -1
    } else if k < x.len() {
        1
    } else {
        assert(x@ =~= x@.take(k as int));
        assert(y@ =~= y@.take(k as int));
        0
    }
}

/// With a common prefix of `k`, the order is decided after it.
proof fn lemma_lt_skip(a: Seq<char>, b: Seq<char>, k: nat)
    requires
        k <= a.len(),
        k <= b.len(),
        a.take(k as int) == b.take(k as int),
    ensures
        text_lt(a, b) == text_lt(a.skip(k as int), b.skip(k as int)),
    decreases k,
{
    if k > 0 {
        assert(a[0] == a.take(k as int)[0]);
        assert(b[0] == b.take(k as int)[0]);
        assert(a.drop_first().take(k - 1) =~= a.take(k as int).drop_first());
        assert(b.drop_first().take(k - 1) =~= b.take(k as int).drop_first());
        lemma_lt_skip(a.drop_first(), b.drop_first(), (k - 1) as nat);
        assert(a.drop_first().skip(k - 1) =~= a.skip(k as int));
        assert(b.drop_first().skip(k - 1) =~= b.skip(k as int));
    } else {
        assert(a.skip(0) =~= a);
        assert(b.skip(0) =~= b);
    }
}

/// Dropping the first element of a strictly sorted list removes exactly
/// that element from its set.
proof fn lemma_sorted_drop_first_set(a: Seq<Seq<char>>)
    requires
        strictly_sorted(a),
        a.len() > 0,
    ensures
        strictly_sorted(a.drop_first()),
        a.drop_first().to_set() == a.to_set().remove(a[0]),
{
    assert forall|i: int, j: int| 0 <= i < j < a.drop_first().len() implies text_lt(
        #[trigger] a.drop_first()[i],
        #[trigger] a.drop_first()[j],
    ) by {
        assert(text_lt(a[i + 1], a[j + 1]));
    }
    assert forall|x: Seq<char>| #[trigger] a.drop_first().to_set().contains(x) <==> a.to_set().remove(
        a[0],
    ).contains(x) by {
        if a.drop_first().to_set().contains(x) {
            let k = a.drop_first().index_of(x);
            assert(a[k + 1] == x);
            assert(text_lt(a[0], a[k + 1]));
            lemma_lt_asymmetric(a[0], a[k + 1]);
            assert(a.to_set().contains(x));
        }
        if a.to_set().remove(a[0]).contains(x) {
            let k = a.index_of(x);
            assert(k != 0);
            assert(a.drop_first()[k - 1] == x);
            assert(a.drop_first().to_set().contains(x));
        }
    }
    assert(a.drop_first().to_set() =~= a.to_set().remove(a[0]));
}

/// A strictly sorted list is determined by its elements: two strictly
/// sorted lists that hold the same strings are the same list. So the list
/// of crates in progress is the same whatever order the updates came in.
pub proof fn law_sorted_determined_by_elements(a: Seq<Seq<char>>, b: Seq<Seq<char>>)
    requires
        strictly_sorted(a),
        strictly_sorted(b),
        a.to_set() == b.to_set(),
    ensures
        a == b,
    decreases a.len(),
{
    if a.len() == 0 {
        if b.len() > 0 {
            assert(b.to_set().contains(b[0]));
        }
        assert(a =~= b);
    } else {
        assert(a.to_set().contains(a[0]));
        assert(b.len() > 0);
        assert(b.to_set().contains(b[0]));
        let i = a.index_of(b[0]);
        let j = b.index_of(a[0]);
        if a[0] != b[0] {
            assert(i > 0 && j > 0);
            assert(text_lt(a[0], a[i]));
            assert(text_lt(b[0], b[j]));
            lemma_lt_asymmetric(a[0], b[0]);
        }
        lemma_sorted_drop_first_set(a);
        lemma_sorted_drop_first_set(b);
        law_sorted_determined_by_elements(a.drop_first(), b.drop_first());
        assert(a =~= seq![a[0]] + a.drop_first());
        assert(b =~= seq![b[0]] + b.drop_first());
    }
}

/// Removing a string that was just inserted gives the list back: after
/// `sorted_insert` of a string not in the list and `sorted_remove` of it,
/// the list is what it was.
pub proof fn law_remove_undoes_insert(
    s: Seq<Seq<char>>,
    inserted: Seq<Seq<char>>,
    removed: Seq<Seq<char>>,
    x: Seq<char>,
)
    requires
        strictly_sorted(s),
        strictly_sorted(inserted),
        strictly_sorted(removed),
        !s.to_set().contains(x),
        inserted.to_set() == s.to_set().insert(x),
        removed.to_set() == inserted.to_set().remove(x),
    ensures
        removed == s,
{
    assert(removed.to_set() =~= s.to_set());
    law_sorted_determined_by_elements(removed, s);
}

/// The strings of a vector, as characters.
pub open spec fn texts(v: Seq<String>) -> Seq<Seq<char>> {
    v.map_values(|s: String| s@)
}

/// Inserts `x` into a sorted vector, unless it is there already.
pub fn sorted_insert(v: &mut Vec<String>, x: String)
    requires
        strictly_sorted(texts(old(v)@)),
    ensures
        strictly_sorted(texts(final(v)@)),
        texts(final(v)@).to_set() == texts(old(v)@).to_set().insert(x@),
{
    let ghost s = texts(v@);
    let mut k: usize = 0;
    while k < v.len() && compare_text(v[k].as_str(), x.as_str()) < 0
        invariant
            k <= v@.len(),
            s == texts(v@),
            strictly_sorted(s),
            forall|j: int| 0 <= j < k ==> text_lt(#[trigger] s[j], x@),
        decreases v.len() - k,
    {
        k = k + 1;
    }
    if k < v.len() && compare_text(v[k].as_str(), x.as_str()) == 0 {
        assert(s.to_set() =~= s.to_set().insert(x@)) by {
            assert(s[k as int] == x@);
        }
        return;
    }
    proof {
        if k < v@.len() {
            lemma_lt_total(s[k as int], x@);
            assert(text_lt(x@, s[k as int]));
        }
    }
    v.insert(k, x);
    proof {
        let t = texts(v@);
        assert(t =~= s.insert(k as int, x@));
        assert forall|i: int, j: int| 0 <= i < j < t.len() implies text_lt(#[trigger] t[i], #[trigger] t[j]) by {
            if j < k {
            } else if i < k && j == k {
            } else if i < k && j > k {
                assert(t[j] == s[j - 1]);
                if k < s.len() {
                    if j - 1 > k {
                        lemma_lt_transitive(x@, s[k as int], s[j - 1]);
                    }
                    lemma_lt_transitive(s[i], x@, s[j - 1]);
                }
            } else if i == k {
                assert(t[j] == s[j - 1]);
                if j - 1 > k {
                    lemma_lt_transitive(x@, s[k as int], s[j - 1]);
                }
            } else {
                assert(t[i] == s[i - 1]);
                assert(t[j] == s[j - 1]);
            }
        }
        assert(t.to_set() =~= s.to_set().insert(x@)) by {
            assert forall|e: Seq<char>| t.to_set().contains(e) <==> s.to_set().insert(x@).contains(e) by {
                if t.to_set().contains(e) {
                    let i = choose|i: int| 0 <= i < t.len() && t[i] == e;
                    if i < k {
                        assert(s[i] == e);
                    } else if i > k {
                        assert(s[i - 1] == e);
                    }
                }
                if s.to_set().contains(e) {
                    let i = choose|i: int| 0 <= i < s.len() && s[i] == e;
                    if i < k {
                        assert(t[i] == e);
                    } else {
                        assert(t[i + 1] == e);
                    }
                }
                if e == x@ {
                    assert(t[k as int] == e);
                }
            }
        }
    }
}

/// Removes `x` from a sorted vector, if it is there.
pub fn sorted_remove(v: &mut Vec<String>, x: &str)
    requires
        strictly_sorted(texts(old(v)@)),
    ensures
        strictly_sorted(texts(final(v)@)),
        texts(final(v)@).to_set() == texts(old(v)@).to_set().remove(x@),
{
    let ghost s = texts(v@);
    let mut k: usize = 0;
    while k < v.len() && compare_text(v[k].as_str(), x) != 0
        invariant
            k <= v@.len(),
            s == texts(v@),
            strictly_sorted(s),
            forall|j: int| 0 <= j < k ==> #[trigger] s[j] != x@,
        decreases v.len() - k,
    {
        k = k + 1;
    }
    if k == v.len() {
        assert(s.to_set() =~= s.to_set().remove(x@));
        return;
    }
    v.remove(k);
    proof {
        let t = texts(v@);
        assert(t =~= s.remove(k as int));
        assert forall|i: int, j: int| 0 <= i < j < t.len() implies text_lt(#[trigger] t[i], #[trigger] t[j]) by {
            if i >= k {
                assert(t[i] == s[i + 1]);
            }
            if j >= k {
                assert(t[j] == s[j + 1]);
            }
        }
        assert(t.to_set() =~= s.to_set().remove(x@)) by {
            assert forall|e: Seq<char>| t.to_set().contains(e) <==> s.to_set().remove(x@).contains(e) by {
                if t.to_set().contains(e) {
                    let i = choose|i: int| 0 <= i < t.len() && t[i] == e;
                    if i < k {
                        assert(s[i] == e);
                        lemma_lt_asymmetric(s[i], s[k as int]);
                    } else {
                        assert(s[i + 1] == e);
                        lemma_lt_asymmetric(s[k as int], s[i + 1]);
                    }
                }
                if s.to_set().remove(x@).contains(e) {
                    let i = choose|i: int| 0 <= i < s.len() && s[i] == e;
                    if i < k {
                        assert(t[i] == e);
                    } else if i > k {
                        assert(t[i - 1] == e);
                    }
                }
            }
        }
    }
}

} // verus!
