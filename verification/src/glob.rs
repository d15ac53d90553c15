//! Glob patterns with brace alternation (`{a,b}`).
//!
//! A pattern is expanded into every permutation that its alternations
//! describe; each permutation is compiled with the `glob` crate, and a string
//! matches when it matches any of them.
use vstd::prelude::*;

verus! {

/// Maximum number of patterns that one input may expand into.
pub const MAX_PERMUTATIONS: usize = 4096;

/// Why a brace pattern could not be expanded or compiled.
#[derive(Debug, Clone, Copy, PartialEq, Eq)]
pub enum GlobError {
    /// A `{` without its `}`.
    UnmatchedOpen,
    /// A `}` without its `{`.
    UnmatchedClose,
    /// An empty alternative, as in `{a,}`, `{,a}` or `{}`.
    EmptyAlternative,
    /// The pattern expands into more than 4096 permutations.
    TooManyPermutations,
    /// An expanded permutation is not a valid glob.
    InvalidGlob,
}

/// First index `j >= k` with `p[j] == c`, if any.
pub open spec fn find_from(p: Seq<char>, c: char, k: int) -> Option<int>
    decreases p.len() - k,
{
    if k < 0 || k >= p.len() {
        None
    } else if p[k] == c {
        Some(k)
    } else {
        find_from(p, c, k + 1)
    }
}

/// For a `[` at index `i`, the index just past the `]` that closes the
/// character class, following the bracket rules of the `glob` crate: a
/// leading `!` negates, and the first character of the class (after the
/// optional `!`) is always literal, so `[]]` and `[!]]` are classes.
pub open spec fn class_end(p: Seq<char>, i: int) -> Option<int> {
    if i + 4 <= p.len() && p[i + 1] == '!' {
        match find_from(p, ']', i + 3) {
            Some(j) => Some(j + 1),
            None => None,
        }
    } else if i + 3 <= p.len() && p[i + 1] != '!' {
        match find_from(p, ']', i + 2) {
            Some(j) => Some(j + 1),
            None => None,
        }
    } else {
        None
    }
}

/// Every string of `list`, with `s` appended.
pub open spec fn append_all(list: Seq<Seq<char>>, s: Seq<char>) -> Seq<Seq<char>> {
    Seq::new(list.len(), |k: int| list[k] + s)
}

/// Every `x + y` with `x` from `a` and `y` from `b`, ordered by `x` first.
pub open spec fn product(a: Seq<Seq<char>>, b: Seq<Seq<char>>) -> Seq<Seq<char>>
    decreases a.len(),
{
    if a.len() == 0 {
        Seq::empty()
    } else {
        product(a.drop_last(), b) + Seq::new(b.len(), |k: int| a.last() + b[k])
    }
}

/// One alternation being read: the expansions of the alternatives already
/// closed by a `,`, the expansions of the alternative being read, and whether
/// that alternative holds anything yet.
pub struct Frame {
    pub done: Seq<Seq<char>>,
    pub cur: Seq<Seq<char>>,
    pub nonempty: bool,
}

/// A fresh alternative: one empty expansion, nothing read.
pub open spec fn fresh_frame(done: Seq<Seq<char>>) -> Frame {
    Frame { done, cur: seq![Seq::<char>::empty()], nonempty: false }
}

/// Reading `p` from index `i`, with `parents` the enclosing alternations
/// (outermost first) and `top` the innermost one: the expansions of the whole
/// pattern, or why it has none.
///
/// - a character class `[...]` is copied verbatim, braces and commas in it
///   included;
/// - `{` opens an alternation;
/// - inside one, `,` closes the current alternative, which must not be empty;
/// - `}` closes the alternation: its expansions are every alternative's, in
///   order, and the enclosing alternative's expansions become the product of
///   its own with them; more than 4096 of them is an error;
/// - every other character (`,` at the top level too) is literal.
pub open spec fn expand_from(p: Seq<char>, i: int, parents: Seq<Frame>, top: Frame) -> Result<
    Seq<Seq<char>>,
    GlobError,
>
    decreases p.len() - i,
{
    if i < 0 || i >= p.len() {
        if parents.len() == 0 {
            Ok(top.cur)
        } else {
            Err(GlobError::UnmatchedOpen)
        }
    } else {
        let c = p[i];
        if c == '[' && class_end(p, i) is Some {
            let e = class_end(p, i)->0;
            if e <= i || e > p.len() {
                Err(GlobError::InvalidGlob)
            } else {
                expand_from(
                    p,
                    e,
                    parents,
                    Frame { cur: append_all(top.cur, p.subrange(i, e)), nonempty: true, ..top },
                )
            }
        } else if c == '{' {
            expand_from(p, i + 1, parents.push(top), fresh_frame(Seq::empty()))
        } else if c == ',' && parents.len() > 0 {
            if !top.nonempty {
                Err(GlobError::EmptyAlternative)
            } else {
                expand_from(p, i + 1, parents, fresh_frame(top.done + top.cur))
            }
        } else if c == '}' {
            if parents.len() == 0 {
                Err(GlobError::UnmatchedClose)
            } else if !top.nonempty {
                Err(GlobError::EmptyAlternative)
            } else {
                let parent = parents.last();
                let joined = product(parent.cur, top.done + top.cur);
                if joined.len() > MAX_PERMUTATIONS {
                    Err(GlobError::TooManyPermutations)
                } else {
                    expand_from(
                        p,
                        i + 1,
                        parents.drop_last(),
                        Frame { cur: joined, nonempty: true, ..parent },
                    )
                }
            }
        } else {
            expand_from(
                p,
                i + 1,
                parents,
                Frame { cur: append_all(top.cur, seq![c]), nonempty: true, ..top },
            )
        }
    }
}

/// The permutations that a brace pattern describes, in order, or why it
/// describes none.
pub open spec fn brace_expansion(p: Seq<char>) -> Result<Seq<Seq<char>>, GlobError> {
    expand_from(p, 0, Seq::empty(), fresh_frame(Seq::empty()))
}

} // verus!

verus! {

/// The character sequences held by a list of character vectors.
pub open spec fn strs(v: Seq<Vec<char>>) -> Seq<Seq<char>> {
    v.map_values(|x: Vec<char>| x@)
}

/// An alternation being read, as held while expanding.
pub struct ExpFrame {
    pub done: Vec<Vec<char>>,
    pub cur: Vec<Vec<char>>,
    pub nonempty: bool,
}

impl ExpFrame {
    pub open spec fn view_frame(&self) -> Frame {
        Frame { done: strs(self.done@), cur: strs(self.cur@), nonempty: self.nonempty }
    }
}

pub open spec fn frames(v: Seq<ExpFrame>) -> Seq<Frame> {
    v.map_values(|f: ExpFrame| f.view_frame())
}

proof fn lemma_find_from_range(p: Seq<char>, c: char, k: int)
    ensures
        find_from(p, c, k) matches Some(j) ==> k <= j < p.len() && p[j] == c,
    decreases p.len() - k,
{
    if 0 <= k < p.len() && p[k] != c {
        lemma_find_from_range(p, c, k + 1);
    }
}

fn find_from_exec(p: &Vec<char>, c: char, k: usize) -> (r: Option<usize>)
    ensures
        r matches Some(j) ==> k <= j < p.len(),
        match r {
            Some(j) => find_from(p@, c, k as int) == Some(j as int),
            None => find_from(p@, c, k as int) is None,
        },
{
    let mut j = k;
    while j < p.len()
        invariant
            k <= j,
            find_from(p@, c, k as int) == find_from(p@, c, j as int),
        decreases p.len() - j,
    {
        if p[j] == c {
            return Some(j);
        }
        j = j + 1;
    }
    None
}

fn class_end_exec(p: &Vec<char>, i: usize) -> (r: Option<usize>)
    requires
        i < p.len(),
    ensures
        match r {
            Some(e) => class_end(p@, i as int) == Some(e as int),
            None => class_end(p@, i as int) is None,
        },
{
    let n = p.len();
    proof {
        lemma_find_from_range(p@, ']', i + 3);
        lemma_find_from_range(p@, ']', i + 2);
    }
    if n >= 4 && i <= n - 4 && p[i + 1] == '!' {
        match find_from_exec(p, ']', i + 3) {
            Some(j) => {
                if j < n {
                    Some(j + 1)
                } else {
                    None
                }
            },
            None => None,
        }
    } else if n >= 3 && i <= n - 3 && p[i + 1] != '!' {
        match find_from_exec(p, ']', i + 2) {
            Some(j) => {
                if j < n {
                    Some(j + 1)
                } else {
                    None
                }
            },
            None => None,
        }
    } else {
        None
    }
}

} // verus!

verus! {

fn concat_chars(a: &Vec<char>, b: &Vec<char>) -> (r: Vec<char>)
    ensures
        r@ == a@ + b@,
{
    let mut r: Vec<char> = Vec::new();
    let mut k: usize = 0;
    while k < a.len()
        invariant
            k <= a.len(),
            r@ == a@.take(k as int),
        decreases a.len() - k,
    {
        r.push(a[k]);
        k = k + 1;
        assert(r@ == a@.take(k as int));
    }
    let mut k: usize = 0;
    while k < b.len()
        invariant
            k <= b.len(),
            r@ == a@ + b@.take(k as int),
        decreases b.len() - k,
    {
        r.push(b[k]);
        k = k + 1;
        assert(r@ == a@ + b@.take(k as int));
    }
    assert(b@.take(b.len() as int) == b@);
    r
}

fn append_all_exec(list: &Vec<Vec<char>>, s: &Vec<char>) -> (r: Vec<Vec<char>>)
    ensures
        strs(r@) == append_all(strs(list@), s@),
{
    let mut r: Vec<Vec<char>> = Vec::new();
    let mut k: usize = 0;
    while k < list.len()
        invariant
            k <= list.len(),
            strs(r@) == append_all(strs(list@), s@).take(k as int),
        decreases list.len() - k,
    {
        let x = concat_chars(&list[k], s);
        let ghost old_r = r@;
        r.push(x);
        assert(strs(r@) =~= strs(old_r).push(x@));
        k = k + 1;
        assert(strs(r@) =~= append_all(strs(list@), s@).take(k as int));
    }
    assert(append_all(strs(list@), s@).take(list.len() as int) == append_all(strs(list@), s@));
    r
}

proof fn lemma_product_len(a: Seq<Seq<char>>, b: Seq<Seq<char>>)
    ensures
        product(a, b).len() == a.len() * b.len(),
    decreases a.len(),
{
    if a.len() > 0 {
        lemma_product_len(a.drop_last(), b);
        assert(a.len() * b.len() == (a.len() - 1) * b.len() + b.len()) by (nonlinear_arith);
    }
}

fn product_exec(a: &Vec<Vec<char>>, b: &Vec<Vec<char>>) -> (r: Vec<Vec<char>>)
    ensures
        strs(r@) == product(strs(a@), strs(b@)),
{
    let mut r: Vec<Vec<char>> = Vec::new();
    let mut i: usize = 0;
    while i < a.len()
        invariant
            i <= a.len(),
            strs(r@) == product(strs(a@).take(i as int), strs(b@)),
        decreases a.len() - i,
    {
        let ghost prev = strs(r@);
        let mut j: usize = 0;
        while j < b.len()
            invariant
                i < a.len(),
                j <= b.len(),
                strs(r@) == prev + Seq::new(j as nat, |k: int| strs(a@)[i as int] + strs(b@)[k]),
            decreases b.len() - j,
        {
            let x = concat_chars(&a[i], &b[j]);
            let ghost old_r = r@;
            r.push(x);
            assert(strs(r@) =~= strs(old_r).push(x@));
            j = j + 1;
            assert(strs(r@) =~= prev + Seq::new(j as nat, |k: int| strs(a@)[i as int] + strs(b@)[k]));
        }
        let ghost ai = strs(a@).take(i + 1);
        assert(ai.drop_last() == strs(a@).take(i as int));
        assert(ai.last() == strs(a@)[i as int]);
        i = i + 1;
    }
    assert(strs(a@).take(a.len() as int) == strs(a@));
    r
}

} // verus!

verus! {

fn fresh_exec(done: Vec<Vec<char>>) -> (f: ExpFrame)
    ensures
        f.view_frame() == fresh_frame(strs(done@)),
{
    let mut cur: Vec<Vec<char>> = Vec::new();
    cur.push(Vec::new());
    let f = ExpFrame { done, cur, nonempty: false };
    assert(strs(f.cur@) =~= seq![Seq::<char>::empty()]);
    f
}

fn fresh_empty() -> (f: ExpFrame)
    ensures
        f.view_frame() == fresh_frame(Seq::empty()),
{
    let done: Vec<Vec<char>> = Vec::new();
    assert(strs(done@) =~= Seq::<Seq<char>>::empty());
    fresh_exec(done)
}

fn copy_range(p: &Vec<char>, from: usize, to: usize) -> (r: Vec<char>)
    requires
        from <= to <= p.len(),
    ensures
        r@ == p@.subrange(from as int, to as int),
{
    let mut r: Vec<char> = Vec::new();
    let mut k = from;
    while k < to
        invariant
            from <= k <= to <= p.len(),
            r@ == p@.subrange(from as int, k as int),
        decreases to - k,
    {
        r.push(p[k]);
        k = k + 1;
        assert(r@ =~= p@.subrange(from as int, k as int));
    }
    r
}

/// Expands the brace alternations of `pattern` into the permutations they
/// describe (see [`brace_expansion`]).
///
/// Runs in a loop with an explicit stack, so deeply nested or very long
/// patterns do not exhaust the call stack.
pub fn expand_braces(pattern: &str) -> (r: Result<Vec<Vec<char>>, GlobError>)
    ensures
        match r {
            Ok(v) => brace_expansion(pattern@) == Ok::<Seq<Seq<char>>, GlobError>(strs(v@)),
            Err(e) => brace_expansion(pattern@) == Err::<Seq<Seq<char>>, GlobError>(e),
        },
{
    let p = crate::text::str_chars(pattern);
    let mut parents: Vec<ExpFrame> = Vec::new();
    let mut top = fresh_empty();
    assert(frames(parents@) =~= Seq::<Frame>::empty());
    let mut i: usize = 0;
    while i < p.len()
        invariant
            i <= p.len(),
            p@ == pattern@,
            expand_from(p@, i as int, frames(parents@), top.view_frame()) == brace_expansion(
                p@,
            ),
        decreases p.len() - i,
    {
        let c = p[i];
        if c == '[' {
            match class_end_exec(&p, i) {
                Some(e) => {
                    if e <= i || e > p.len() {
                        return Err(GlobError::InvalidGlob);
                    }
                    let seg = copy_range(&p, i, e);
                    let cur = append_all_exec(&top.cur, &seg);
                    top = ExpFrame { done: top.done, cur, nonempty: true };
                    i = e;
                    continue ;
                },
                None => {},
            }
        }
        if c == '{' {
            let ghost old_parents = frames(parents@);
            let ghost old_top = top.view_frame();
            parents.push(top);
            top = fresh_empty();
            assert(frames(parents@) =~= old_parents.push(old_top));
        } else if c == ',' && parents.len() > 0 {
            if !top.nonempty {
                return Err(GlobError::EmptyAlternative);
            }
            let ExpFrame { mut done, mut cur, nonempty: _ } = top;
            let ghost d = strs(done@);
            let ghost cu = strs(cur@);
            done.append(&mut cur);
            assert(strs(done@) =~= d + cu);
            top = fresh_exec(done);
        } else if c == '}' {
            if parents.len() == 0 {
                return Err(GlobError::UnmatchedClose);
            }
            if !top.nonempty {
                return Err(GlobError::EmptyAlternative);
            }
            let ghost old_parents = frames(parents@);
            let parent = parents.pop().unwrap();
            assert(frames(parents@) =~= old_parents.drop_last());
            assert(parent.view_frame() == old_parents.last());
            let ExpFrame { mut done, mut cur, nonempty: _ } = top;
            let ghost d = strs(done@);
            let ghost cu = strs(cur@);
            done.append(&mut cur);
            assert(strs(done@) =~= d + cu);
            proof {
                lemma_product_len(strs(parent.cur@), strs(done@));
            }
            let a_len = parent.cur.len() as u128;
            let b_len = done.len() as u128;
            assert(a_len * b_len <= 0xffff_ffff_ffff_ffff_u128 * 0xffff_ffff_ffff_ffff_u128)
                by (nonlinear_arith)
                requires
                    a_len <= 0xffff_ffff_ffff_ffff_u128,
                    b_len <= 0xffff_ffff_ffff_ffff_u128,
            ;
            if a_len * b_len > 4096 {
                return Err(GlobError::TooManyPermutations);
            }
            let joined = product_exec(&parent.cur, &done);
            top = ExpFrame { done: parent.done, cur: joined, nonempty: true };
        } else {
            let mut one: Vec<char> = Vec::new();
            one.push(c);
            assert(one@ =~= seq![c]);
            let cur = append_all_exec(&top.cur, &one);
            top = ExpFrame { done: top.done, cur, nonempty: true };
        }
        i = i + 1;
    }
    if parents.len() == 0 {
        Ok(top.cur)
    } else {
        Err(GlobError::UnmatchedOpen)
    }
}

} // verus!

verus! {

#[verifier::external_type_specification]
#[verifier::external_body]
pub struct ExPattern(glob::Pattern);

#[verifier::external_type_specification]
#[verifier::external_body]
pub struct ExPatternError(glob::PatternError);

/// The compiled patterns, held in the `smallvec::SmallVec` that the library
/// stores them in. Verus refuses to declare `SmallVec` itself (its `Array`
/// bound), so the collection sits in this opaque holder; `compiled_sources`
/// names what it holds.
#[verifier::external_body]
pub struct CompiledPatterns {
    inner: smallvec::SmallVec<[glob::Pattern; 4]>,
}

/// The pattern string that a compiled `glob::Pattern` was built
/// from (what `glob::Pattern::as_str` returns).
pub uninterp spec fn pattern_source(p: glob::Pattern) -> Seq<char>;

/// Whether `glob::Pattern::new` accepts the given pattern string.
pub uninterp spec fn glob_compiles(src: Seq<char>) -> bool;

/// Whether the glob compiled from `src` matches `s`, with the default match
/// options (what `glob::Pattern::matches` returns).
pub uninterp spec fn glob_matches(src: Seq<char>, s: Seq<char>) -> bool;

/// The pattern strings of the compiled patterns held, in order.
pub uninterp spec fn compiled_sources(v: CompiledPatterns) -> Seq<Seq<char>>;

/// `glob::Pattern::new`: compiles a glob. Claimed: it succeeds exactly when
/// the string is accepted (`glob_compiles`), and the compiled pattern keeps
/// the string it was built from (the crate stores `pattern.to_string()` and
/// `as_str` returns it).
#[verifier::external_body]
fn compile_glob(src: &str) -> (r: Result<glob::Pattern, glob::PatternError>)
    ensures
        r is Ok <==> glob_compiles(src@),
        r matches Ok(p) ==> pattern_source(p) == src@,
{
    glob::Pattern::new(src)
}

/// `glob::Pattern::matches`: claimed to depend on the pattern's source string
/// and the input alone, as `glob_matches` names it.
#[verifier::external_body]
fn glob_pattern_matches(p: &glob::Pattern, s: &str) -> (r: bool)
    ensures
        r == glob_matches(pattern_source(*p), s@),
{
    p.matches(s)
}

/// `glob::Pattern::matches_path` on a path given as text: its source
/// converts the path back to text and calls `matches`, so it is claimed to
/// agree with `glob_matches`.
#[verifier::external_body]
fn glob_pattern_matches_path(p: &glob::Pattern, path: &str) -> (r: bool)
    ensures
        r == glob_matches(pattern_source(*p), path@),
{
    p.matches_path(std::path::Path::new(path))
}

/// `smallvec::SmallVec::new`: claimed to hold nothing.
#[verifier::external_body]
fn compiled_new() -> (r: CompiledPatterns)
    ensures
        compiled_sources(r) == Seq::<Seq<char>>::empty(),
{
    CompiledPatterns { inner: smallvec::SmallVec::new() }
}

/// `smallvec::SmallVec::push`: claimed to append the pattern at the end (the
/// crate panics on capacity overflow, which `requires` rules out).
#[verifier::external_body]
fn compiled_push(v: &mut CompiledPatterns, p: glob::Pattern)
    requires
        compiled_sources(*old(v)).len() < usize::MAX,
    ensures
        compiled_sources(*final(v)) == compiled_sources(*old(v)).push(pattern_source(p)),
{
    v.inner.push(p)
}

/// `smallvec::SmallVec::len`: claimed to be the number of held patterns.
#[verifier::external_body]
fn compiled_len(v: &CompiledPatterns) -> (r: usize)
    ensures
        r == compiled_sources(*v).len(),
{
    v.inner.len()
}

/// Indexing a `smallvec::SmallVec`: claimed to give the pattern at `i`.
#[verifier::external_body]
fn compiled_get(v: &CompiledPatterns, i: usize) -> (r: &glob::Pattern)
    requires
        i < compiled_sources(*v).len(),
    ensures
        pattern_source(*r) == compiled_sources(*v)[i as int],
{
    &v.inner[i]
}

/// Whether every expanded permutation is accepted by `glob::Pattern::new`.
pub open spec fn all_compile(list: Seq<Seq<char>>) -> bool {
    forall|k: int| 0 <= k < list.len() ==> glob_compiles(#[trigger] list[k])
}

/// A glob pattern that additionally supports brace alternation (`{a,b}`).
///
/// All the usual glob syntax is supported (`*`, `**`, `?` and `[...]`
/// character classes), plus `{a,b}` segments, which mean "either `a` or
/// `b`".
pub struct GlobPattern(CompiledPatterns);

impl GlobPattern {
    /// The permutations this pattern was expanded into, in order.
    pub closed spec fn sources(&self) -> Seq<Seq<char>> {
        compiled_sources(self.0)
    }

    /// Compiles a glob pattern, expanding any `{a,b}` alternations.
    ///
    /// Alternations may be nested (`{a,{b,c}}`) and combined (`{a,b}/{c,d}`
    /// describes 4 patterns); `{a}` simply means `a`. Braces and commas inside
    /// `[...]` are literal.
    ///
    /// Errors on an unmatched `{` or `}`, an empty alternative, more than
    /// 4096 permutations, or a permutation that is not a valid glob.
    pub fn new(pattern: &str) -> (r: Result<Self, GlobError>)
        ensures
            brace_expansion(pattern@) matches Err(e) ==> r == Err::<Self, GlobError>(e),
            brace_expansion(pattern@) matches Ok(list) ==> {
                &&& (r is Ok <==> all_compile(list))
                &&& (r is Err ==> r == Err::<Self, GlobError>(GlobError::InvalidGlob))
                &&& (r matches Ok(g) ==> g.sources() == list)
            },
    {
        let list = match expand_braces(pattern) {
            Ok(list) => list,
            Err(e) => return Err(e),
        };
        let mut compiled = compiled_new();
        let mut k: usize = 0;
        while k < list.len()
            invariant
                k <= list.len(),
                brace_expansion(pattern@) == Ok::<Seq<Seq<char>>, GlobError>(strs(list@)),
                compiled_sources(compiled) == strs(list@).take(k as int),
                forall|j: int| 0 <= j < k ==> glob_compiles(#[trigger] strs(list@)[j]),
            decreases list.len() - k,
        {
            let src = crate::text::chars_to_string(&list[k]);
            match compile_glob(src.as_str()) {
                Ok(p) => {
                    compiled_push(&mut compiled, p);
                    assert(strs(list@).take(k + 1) =~= strs(list@).take(k as int).push(
                        list@[k as int]@,
                    ));
                },
                Err(_) => {
                    assert(strs(list@)[k as int] == list@[k as int]@);
                    assert(src@ == list@[k as int]@);
                    assert(!glob_compiles(strs(list@)[k as int]));
                    assert(!all_compile(strs(list@)));
                    return Err(GlobError::InvalidGlob);
                },
            }
            k = k + 1;
        }
        assert(strs(list@).take(list.len() as int) =~= strs(list@));
        Ok(GlobPattern(compiled))
    }

    /// Whether some expanded pattern matches `s`.
    pub open spec fn accepts(&self, s: Seq<char>) -> bool {
        exists|k: int| 0 <= k < self.sources().len() && glob_matches(#[trigger] self.sources()[k], s)
    }

    /// Whether `s` matches any of the expanded patterns.
    pub fn matches(&self, s: &str) -> (r: bool)
        ensures
            r == self.accepts(s@),
    {
        let n = compiled_len(&self.0);
        let mut k: usize = 0;
        while k < n
            invariant
                k <= n,
                n == self.sources().len(),
                forall|j: int| 0 <= j < k ==> !glob_matches(#[trigger] self.sources()[j], s@),
            decreases n - k,
        {
            let p = compiled_get(&self.0, k);
            if glob_pattern_matches(p, s) {
                return true;
            }
            k = k + 1;
        }
        false
    }

    /// Checks if a path (given as text) matches any of the expanded
    /// patterns; the same as `matches`.
    pub fn matches_path(&self, path: &str) -> (r: bool)
        ensures
            r == self.accepts(path@),
    {
        let n = compiled_len(&self.0);
        let mut k: usize = 0;
        while k < n
            invariant
                k <= n,
                n == self.sources().len(),
                forall|j: int| 0 <= j < k ==> !glob_matches(#[trigger] self.sources()[j], path@),
            decreases n - k,
        {
            let p = compiled_get(&self.0, k);
            if glob_pattern_matches_path(p, path) {
                return true;
            }
            k = k + 1;
        }
        false
    }
}

} // verus!

verus! {

/// Every alternation being read has between 1 and 4096 expansions in its
/// current alternative.
pub open spec fn frame_bounded(f: Frame) -> bool {
    1 <= f.cur.len() <= MAX_PERMUTATIONS
}

proof fn lemma_expand_bounded(p: Seq<char>, i: int, parents: Seq<Frame>, top: Frame)
    requires
        forall|k: int| 0 <= k < parents.len() ==> frame_bounded(#[trigger] parents[k]),
        frame_bounded(top),
    ensures
        expand_from(p, i, parents, top) matches Ok(list) ==> 1 <= list.len() <= MAX_PERMUTATIONS,
    decreases p.len() - i,
{
    if i < 0 || i >= p.len() {
    } else {
        let c = p[i];
        if c == '[' && class_end(p, i) is Some {
            let e = class_end(p, i)->0;
            if !(e <= i || e > p.len()) {
                lemma_expand_bounded(
                    p,
                    e,
                    parents,
                    Frame { cur: append_all(top.cur, p.subrange(i, e)), nonempty: true, ..top },
                );
            }
        } else if c == '{' {
            let np = parents.push(top);
            assert forall|k: int| 0 <= k < np.len() implies frame_bounded(#[trigger] np[k]) by {
                if k < parents.len() {
                    assert(np[k] == parents[k]);
                }
            }
            lemma_expand_bounded(p, i + 1, np, fresh_frame(Seq::empty()));
        } else if c == ',' && parents.len() > 0 {
            if top.nonempty {
                lemma_expand_bounded(p, i + 1, parents, fresh_frame(top.done + top.cur));
            }
        } else if c == '}' {
            if parents.len() > 0 && top.nonempty {
                let parent = parents.last();
                let group = top.done + top.cur;
                let joined = product(parent.cur, group);
                lemma_product_len(parent.cur, group);
                assert(frame_bounded(parent));
                let a = parent.cur.len();
                let b = group.len();
                assert(a * b >= 1) by (nonlinear_arith)
                    requires
                        a >= 1,
                        b >= 1,
                ;
                if joined.len() <= MAX_PERMUTATIONS {
                    let np = parents.drop_last();
                    assert forall|k: int| 0 <= k < np.len() implies frame_bounded(
                        #[trigger] np[k],
                    ) by {
                        assert(np[k] == parents[k]);
                    }
                    lemma_expand_bounded(
                        p,
                        i + 1,
                        np,
                        Frame { cur: joined, nonempty: true, ..parent },
                    );
                }
            }
        } else {
            lemma_expand_bounded(
                p,
                i + 1,
                parents,
                Frame { cur: append_all(top.cur, seq![c]), nonempty: true, ..top },
            );
        }
    }
}

/// A pattern expands into at least one and at most 4096 permutations.
pub proof fn law_expansion_count_bounded(p: Seq<char>)
    ensures
        brace_expansion(p) matches Ok(list) ==> 1 <= list.len() <= MAX_PERMUTATIONS,
{
    lemma_expand_bounded(p, 0, Seq::empty(), fresh_frame(Seq::empty()));
}

proof fn lemma_expand_no_braces(p: Seq<char>, i: int, s: Seq<char>, done: Seq<Seq<char>>, ne: bool)
    requires
        0 <= i <= p.len(),
        forall|k: int| i <= k < p.len() ==> #[trigger] p[k] != '{' && p[k] != '}',
    ensures
        expand_from(p, i, Seq::empty(), Frame { done, cur: seq![s], nonempty: ne }) == Ok::<
            Seq<Seq<char>>,
            GlobError,
        >(seq![s + p.subrange(i, p.len() as int)]),
    decreases p.len() - i,
{
    let top = Frame { done, cur: seq![s], nonempty: ne };
    if i >= p.len() {
        assert(s + p.subrange(i, p.len() as int) =~= s);
    } else {
        let c = p[i];
        if c == '[' && class_end(p, i) is Some {
            let e = class_end(p, i)->0;
            lemma_find_from_range(p, ']', i + 3);
            lemma_find_from_range(p, ']', i + 2);
            assert(i < e <= p.len());
            assert(append_all(top.cur, p.subrange(i, e)) =~= seq![s + p.subrange(i, e)]);
            lemma_expand_no_braces(p, e, s + p.subrange(i, e), done, true);
            assert(s + p.subrange(i, e) + p.subrange(e, p.len() as int) =~= s + p.subrange(
                i,
                p.len() as int,
            ));
        } else {
            assert(append_all(top.cur, seq![c]) =~= seq![s + seq![c]]);
            lemma_expand_no_braces(p, i + 1, s + seq![c], done, true);
            assert(s + seq![c] + p.subrange(i + 1, p.len() as int) =~= s + p.subrange(
                i,
                p.len() as int,
            ));
        }
    }
}

/// A pattern with no braces describes exactly itself.
pub proof fn law_no_braces_is_identity(p: Seq<char>)
    requires
        forall|k: int| 0 <= k < p.len() ==> #[trigger] p[k] != '{' && p[k] != '}',
    ensures
        brace_expansion(p) == Ok::<Seq<Seq<char>>, GlobError>(seq![p]),
{
    lemma_expand_no_braces(p, 0, Seq::empty(), Seq::empty(), false);
    assert(Seq::<char>::empty() + p.subrange(0, p.len() as int) =~= p);
}

} // verus!
