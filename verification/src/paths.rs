//! Paths as UTF-8 text with `/` separators: joining, normalizing without
//! touching the file system, file names and relative paths. What needs
//! the file system (canonicalizing) is done by the caller, whose results
//! these functions take.
use vstd::prelude::*;
use vstd::string::StringExecFns;
use crate::text::{push_char, str_chars};

verus! {

/// Why a path operation failed.
#[derive(Debug, Clone, PartialEq, Eq)]
pub enum PathError {
    /// The path goes above the root (the path is given).
    ParentOfRoot(String),
    /// The path has no file name (the path is given).
    NoFileName(String),
    /// The current directory could not be resolved (for the given path).
    NoCurrentDir(String),
    /// An executable's path does not exist (the path is given).
    NotFound(String),
    /// An executable's path is a directory (the path is given).
    IsDirectory(String),
}

/// Whether a path is absolute: it starts at the root.
pub open spec fn is_absolute_spec(p: Seq<char>) -> bool {
    p.len() > 0 && p[0] == '/'
}

/// Whether a path is absolute.
pub fn is_absolute(p: &str) -> (r: bool)
    ensures
        r == is_absolute_spec(p@),
{
    let cs = str_chars(p);
    cs.len() > 0 && cs[0] == '/'
}

/// `buf` with `seg` pushed as `PathBuf::push` does: an absolute segment
/// replaces it; otherwise a separator is added unless `buf` is empty or
/// already ends with one.
pub open spec fn push_spec(buf: Seq<char>, seg: Seq<char>) -> Seq<char> {
    if is_absolute_spec(seg) {
        seg
    } else if buf.len() > 0 && buf.last() != '/' {
        buf + seq!['/'] + seg
    } else {
        buf + seg
    }
}

/// Pushes a segment onto a path (see `push_spec`).
pub fn path_push(buf: &mut String, seg: &str)
    ensures
        final(buf)@ == push_spec(old(buf)@, seg@),
{
    if is_absolute(seg) {
        *buf = String::from_str(seg);
        return;
    }
    let cs = str_chars(buf.as_str());
    if cs.len() > 0 && cs[cs.len() - 1] != '/' {
        push_char(buf, '/');
    }
    buf.append(seg);
}

/// `first` with each of `rest` pushed in turn.
pub open spec fn join_spec(first: Seq<char>, rest: Seq<Seq<char>>) -> Seq<char>
    decreases rest.len(),
{
    if rest.len() == 0 {
        first
    } else {
        push_spec(join_spec(first, rest.drop_last()), rest.last())
    }
}

/// A path joined from a first segment and the rest, each pushed in turn
/// (what the `path!` macro builds).
pub fn path_join(first: &str, rest: &[&str]) -> (r: String)
    ensures
        r@ == join_spec(first@, rest@.map_values(|s: &str| s@)),
{
    let ghost segs = rest@.map_values(|s: &str| s@);
    let mut r = String::from_str(first);
    let mut k: usize = 0;
    while k < rest.len()
        invariant
            k <= rest@.len(),
            segs == rest@.map_values(|s: &str| s@),
            r@ == join_spec(first@, segs.take(k as int)),
        decreases rest@.len() - k,
    {
        path_push(&mut r, rest[k]);
        assert(segs.take(k + 1).drop_last() =~= segs.take(k as int));
        k = k + 1;
    }
    assert(segs.take(k as int) =~= segs);
    r
}

/// The pieces of a path between separators, in order (empty pieces
/// included).
pub open spec fn pieces(p: Seq<char>) -> Seq<Seq<char>>
    decreases p.len(),
{
    if p.len() == 0 {
        seq![Seq::empty()]
    } else {
        let rest = pieces(p.drop_last());
        if p.last() == '/' {
            rest.push(Seq::empty())
        } else {
            rest.drop_last().push(rest.last().push(p.last()))
        }
    }
}

/// Normalizing the pieces of a path: empty pieces and `.` are dropped,
/// `..` drops the piece before it (`None` when there is none), and other
/// pieces are kept.
pub open spec fn normalize_pieces(ps: Seq<Seq<char>>) -> Option<Seq<Seq<char>>>
    decreases ps.len(),
{
    if ps.len() == 0 {
        Some(Seq::empty())
    } else {
        match normalize_pieces(ps.drop_last()) {
            None => None,
            Some(kept) => {
                let p = ps.last();
                if p.len() == 0 || p == seq!['.'] {
                    Some(kept)
                } else if p == seq!['.', '.'] {
                    if kept.len() == 0 {
                        None
                    } else {
                        Some(kept.drop_last())
                    }
                } else {
                    Some(kept.push(p))
                }
            }
        }
    }
}

/// Pieces joined after the root: `/a/b`, or `/`.
pub open spec fn rooted(ps: Seq<Seq<char>>) -> Seq<char>
    decreases ps.len(),
{
    if ps.len() == 0 {
        seq!['/']
    } else {
        push_spec(rooted(ps.drop_last()), ps.last())
    }
}

/// An absolute path normalized without the file system: `.` and empty
/// pieces dropped and `..` resolved; `None` when it goes above the root.
pub open spec fn normalize_absolute_spec(p: Seq<char>) -> Option<Seq<char>> {
    match normalize_pieces(pieces(p)) {
        None => None,
        Some(ps) => Some(rooted(ps)),
    }
}

/// The pieces of a path.
fn split_pieces(p: &str) -> (r: Vec<Vec<char>>)
    ensures
        r@.len() == pieces(p@).len(),
        forall|i: int| 0 <= i < r@.len() ==> (#[trigger] r@[i])@ == pieces(p@)[i],
{
    let cs = str_chars(p);
    let mut r: Vec<Vec<char>> = Vec::new();
    let mut cur: Vec<char> = Vec::new();
    let mut k: usize = 0;
    while k < cs.len()
        invariant
            k <= cs@.len(),
            cs@ == p@,
            r@.len() + 1 == pieces(p@.take(k as int)).len(),
            forall|i: int| 0 <= i < r@.len() ==> (#[trigger] r@[i])@ == pieces(p@.take(k as int))[i],
            cur@ == pieces(p@.take(k as int)).last(),
        decreases cs@.len() - k,
    {
        let c = cs[k];
        assert(p@.take(k + 1).drop_last() =~= p@.take(k as int));
        if c == '/' {
            r.push(cur);
            cur = Vec::new();
            assert(cur@ =~= Seq::<char>::empty());
        } else {
            cur.push(c);
        }
        k = k + 1;
    }
    assert(p@.take(k as int) =~= p@);
    r.push(cur);
    r
}

fn chars_eq(v: &Vec<char>, w: &[char]) -> (r: bool)
    ensures
        r == (v@ == w@),
{
    if v.len() != w.len() {
        return false;
    }
    let mut k: usize = 0;
    while k < v.len()
        invariant
            k <= v@.len(),
            v@.len() == w@.len(),
            forall|j: int| 0 <= j < k ==> v@[j] == w@[j],
        decreases v@.len() - k,
    {
        if v[k] != w[k] {
            return false;
        }
        k = k + 1;
    }
    assert(v@ =~= w@);
    true
}

/// Normalizes an absolute path that could not be canonicalized (see
/// `normalize_absolute_spec`).
pub fn fallback_normalize_absolute(path: &str) -> (r: Result<String, PathError>)
    ensures
        match r {
            Ok(s) => normalize_absolute_spec(path@) == Some(s@),
            Err(e) => normalize_absolute_spec(path@) is None && (e matches PathError::ParentOfRoot(
                s,
            ) && s@ == path@),
        },
{
    let ps = split_pieces(path);
    let ghost sp = pieces(path@);
    let mut kept: Vec<Vec<char>> = Vec::new();
    let dot = ['.'];
    let dotdot = ['.', '.'];
    assert(dot@ =~= seq!['.']);
    assert(dotdot@ =~= seq!['.', '.']);
    let mut k: usize = 0;
    while k < ps.len()
        invariant
            k <= ps@.len(),
            ps@.len() == sp.len(),
            sp == pieces(path@),
            forall|i: int| 0 <= i < ps@.len() ==> (#[trigger] ps@[i])@ == sp[i],
            dot@ == seq!['.'],
            dotdot@ == seq!['.', '.'],
            normalize_pieces(sp.take(k as int)) == Some(kept@.map_values(|v: Vec<char>| v@)),
        decreases ps@.len() - k,
    {
        let p = &ps[k];
        assert(sp.take(k + 1).drop_last() =~= sp.take(k as int));
        assert(sp.take(k + 1).last() == p@);
        let ghost before = kept@.map_values(|v: Vec<char>| v@);
        if p.len() == 0 || chars_eq(p, &dot) {
        } else if chars_eq(p, &dotdot) {
            if kept.len() == 0 {
                proof {
                    lemma_normalize_none_extends(sp, (k + 1) as nat);
                }
                return Err(PathError::ParentOfRoot(String::from_str(path)));
            }
            kept.pop();
            assert(kept@.map_values(|v: Vec<char>| v@) =~= before.drop_last());
        } else {
            kept.push(p.clone());
            assert(kept@.map_values(|v: Vec<char>| v@) =~= before.push(p@));
        }
        k = k + 1;
    }
    assert(sp.take(k as int) =~= sp);
    let ghost kv = kept@.map_values(|v: Vec<char>| v@);
    let mut out = String::from_str("/");
    proof {
        reveal_strlit("/");
        assert(out@ =~= rooted(kv.take(0)));
    }
    let mut j: usize = 0;
    while j < kept.len()
        invariant
            j <= kept@.len(),
            kv == kept@.map_values(|v: Vec<char>| v@),
            out@ == rooted(kv.take(j as int)),
        decreases kept@.len() - j,
    {
        let seg = crate::text::chars_to_string(&kept[j]);
        path_push(&mut out, seg.as_str());
        assert(kv.take(j + 1).drop_last() =~= kv.take(j as int));
        j = j + 1;
    }
    assert(kv.take(j as int) =~= kv);
    Ok(out)
}

/// Once normalizing fails, it fails for every longer list of pieces.
proof fn lemma_normalize_none_extends(ps: Seq<Seq<char>>, k: nat)
    requires
        k <= ps.len(),
        normalize_pieces(ps.take(k as int)) is None,
    ensures
        normalize_pieces(ps) is None,
    decreases ps.len() - k,
{
    if k < ps.len() {
        assert(ps.take((k + 1) as int).drop_last() =~= ps.take(k as int));
        lemma_normalize_none_extends(ps, k + 1);
    } else {
        assert(ps.take(k as int) =~= ps);
    }
}


/// A piece that a normalized path keeps: not empty, not `.` or `..`, and
/// without a separator.
pub open spec fn clean_piece(p: Seq<char>) -> bool {
    p.len() > 0 && p != seq!['.'] && p != seq!['.', '.'] && !p.contains('/')
}

proof fn lemma_pieces_no_slash(p: Seq<char>)
    ensures
        pieces(p).len() >= 1,
        forall|i: int| 0 <= i < pieces(p).len() ==> !(#[trigger] pieces(p)[i]).contains('/'),
    decreases p.len(),
{
    if p.len() > 0 {
        lemma_pieces_no_slash(p.drop_last());
        let rest = pieces(p.drop_last());
        if p.last() != '/' {
            let l = rest.last().push(p.last());
            assert forall|k: int| 0 <= k < l.len() implies l[k] != '/' by {
                if k < rest.last().len() {
                    assert(rest.last()[k] == l[k]);
                }
            }
            assert forall|i: int| 0 <= i < pieces(p).len() implies !(#[trigger] pieces(p)[i]).contains(
                '/',
            ) by {
                if i < rest.len() - 1 {
                    assert(pieces(p)[i] == rest[i]);
                } else {
                    assert(pieces(p)[i] == l);
                }
            }
        } else {
            assert forall|i: int| 0 <= i < pieces(p).len() implies !(#[trigger] pieces(p)[i]).contains(
                '/',
            ) by {
                if i < rest.len() {
                    assert(pieces(p)[i] == rest[i]);
                } else {
                    assert(pieces(p)[i] =~= Seq::<char>::empty());
                }
            }
        }
    }
}

proof fn lemma_normalize_pieces_clean(ps: Seq<Seq<char>>)
    requires
        forall|i: int| 0 <= i < ps.len() ==> !(#[trigger] ps[i]).contains('/'),
        normalize_pieces(ps) is Some,
    ensures
        forall|i: int|
            0 <= i < normalize_pieces(ps)->0.len() ==> clean_piece(#[trigger] normalize_pieces(ps)->0[i]),
    decreases ps.len(),
{
    if ps.len() > 0 {
        let d = ps.drop_last();
        assert forall|i: int| 0 <= i < d.len() implies !(#[trigger] d[i]).contains('/') by {
            assert(d[i] == ps[i]);
        }
        lemma_normalize_pieces_clean(d);
        let kept = normalize_pieces(d)->0;
        let r = normalize_pieces(ps)->0;
        assert(!ps[ps.len() - 1].contains('/'));
        assert forall|i: int| 0 <= i < r.len() implies clean_piece(#[trigger] r[i]) by {
            if i < kept.len() {
                assert(r[i] == kept[i]);
            } else {
                assert(r[i] == ps.last());
            }
        }
    }
}

proof fn lemma_pieces_single(t: Seq<char>)
    requires
        !t.contains('/'),
    ensures
        pieces(t) == seq![t],
    decreases t.len(),
{
    if t.len() > 0 {
        assert forall|k: int| 0 <= k < t.drop_last().len() implies t.drop_last()[k] != '/' by {
            assert(t.drop_last()[k] == t[k]);
        }
        lemma_pieces_single(t.drop_last());
        assert(t.drop_last().push(t.last()) =~= t);
        assert(pieces(t) =~= seq![t]);
    } else {
        assert(t =~= Seq::<char>::empty());
    }
}

proof fn lemma_pieces_concat(s: Seq<char>, t: Seq<char>)
    ensures
        pieces(s + seq!['/'] + t) == pieces(s) + pieces(t),
    decreases t.len(),
{
    let u = s + seq!['/'] + t;
    if t.len() == 0 {
        assert(u.drop_last() =~= s);
        assert(pieces(u) =~= pieces(s) + pieces(t));
    } else {
        lemma_pieces_concat(s, t.drop_last());
        assert(u.drop_last() =~= s + seq!['/'] + t.drop_last());
        assert(u.last() == t.last());
        lemma_pieces_no_slash(t.drop_last());
        assert(pieces(u) =~= pieces(s) + pieces(t));
    }
}

proof fn lemma_rooted_shape(ps: Seq<Seq<char>>)
    requires
        forall|i: int| 0 <= i < ps.len() ==> clean_piece(#[trigger] ps[i]),
    ensures
        rooted(ps).len() > 0,
        rooted(ps)[0] == '/',
        ps.len() > 0 ==> rooted(ps).last() != '/',
        pieces(rooted(ps)) == if ps.len() == 0 {
            seq![Seq::<char>::empty(), Seq::<char>::empty()]
        } else {
            seq![Seq::<char>::empty()] + ps
        },
    decreases ps.len(),
{
    if ps.len() == 0 {
        assert(seq!['/'].drop_last() =~= Seq::<char>::empty());
        assert(pieces(Seq::<char>::empty()) =~= seq![Seq::<char>::empty()]);
        assert(seq!['/'].last() == '/');
        assert(pieces(seq!['/']) =~= seq![Seq::<char>::empty(), Seq::<char>::empty()]);
    } else {
        let d = ps.drop_last();
        let last = ps.last();
        assert forall|i: int| 0 <= i < d.len() implies clean_piece(#[trigger] d[i]) by {
            assert(d[i] == ps[i]);
        }
        lemma_rooted_shape(d);
        assert(clean_piece(ps[ps.len() - 1]));
        let r0 = rooted(d);
        assert(!is_absolute_spec(last)) by {
            if last.len() > 0 && last[0] == '/' {
                assert(last.contains('/'));
            }
        }
        lemma_pieces_single(last);
        if d.len() == 0 {
            assert(r0 =~= seq!['/']);
            assert(rooted(ps) =~= Seq::<char>::empty() + seq!['/'] + last);
            lemma_pieces_concat(Seq::<char>::empty(), last);
            assert(pieces(Seq::<char>::empty()) =~= seq![Seq::<char>::empty()]);
            assert(pieces(rooted(ps)) =~= seq![Seq::<char>::empty()] + ps);
        } else {
            assert(rooted(ps) == r0 + seq!['/'] + last);
            lemma_pieces_concat(r0, last);
            assert(ps =~= d.push(last));
            assert(pieces(rooted(ps)) =~= seq![Seq::<char>::empty()] + ps);
        }
        assert(rooted(ps).last() == last.last());
        assert(last.last() != '/') by {
            assert(last[last.len() - 1] == last.last());
        }
    }
}

proof fn lemma_normalize_clean_fixed(ps: Seq<Seq<char>>)
    requires
        forall|i: int| 0 <= i < ps.len() ==> clean_piece(#[trigger] ps[i]),
    ensures
        normalize_pieces(seq![Seq::<char>::empty()] + ps) == Some(ps),
        normalize_pieces(seq![Seq::<char>::empty(), Seq::<char>::empty()]) == Some(
            Seq::<Seq<char>>::empty(),
        ),
    decreases ps.len(),
{
    let e = Seq::<char>::empty();
    assert(seq![e].drop_last() =~= Seq::<Seq<char>>::empty());
    assert(seq![e, e].drop_last() =~= seq![e]);
    assert(normalize_pieces(Seq::<Seq<char>>::empty()) == Some(Seq::<Seq<char>>::empty()));
    assert(normalize_pieces(seq![e]) == Some(Seq::<Seq<char>>::empty()));
    assert(normalize_pieces(seq![e, e]) == Some(Seq::<Seq<char>>::empty()));
    if ps.len() > 0 {
        let d = ps.drop_last();
        assert forall|i: int| 0 <= i < d.len() implies clean_piece(#[trigger] d[i]) by {
            assert(d[i] == ps[i]);
        }
        lemma_normalize_clean_fixed(d);
        assert((seq![e] + ps).drop_last() =~= seq![e] + d);
        assert((seq![e] + ps).last() == ps.last());
        assert(clean_piece(ps[ps.len() - 1]));
        assert(d.push(ps.last()) =~= ps);
        assert(normalize_pieces(seq![e] + ps) == Some(d.push(ps.last())));
    } else {
        assert(seq![e] + ps =~= seq![e]);
    }
}

/// Normalizing is idempotent: an absolute path that normalizes gives an
/// absolute path whose pieces after the root are all named (no empty, `.`
/// or `..` piece is left), and that path normalizes to itself.
pub proof fn law_normalize_idempotent(p: Seq<char>)
    requires
        normalize_absolute_spec(p) is Some,
    ensures
        ({
            let r = normalize_absolute_spec(p)->0;
            &&& is_absolute_spec(r)
            &&& normalize_pieces(pieces(r)) is Some
            &&& forall|i: int|
                0 <= i < normalize_pieces(pieces(r))->0.len() ==> clean_piece(
                    #[trigger] normalize_pieces(pieces(r))->0[i],
                )
            &&& normalize_absolute_spec(r) == Some(r)
        }),
{
    lemma_pieces_no_slash(p);
    lemma_normalize_pieces_clean(pieces(p));
    let ps = normalize_pieces(pieces(p))->0;
    lemma_rooted_shape(ps);
    lemma_normalize_clean_fixed(ps);
}

} // verus!

verus! {

/// The pieces that name something: not empty, not `.`.
pub open spec fn named_pieces(ps: Seq<Seq<char>>) -> Seq<Seq<char>>
    decreases ps.len(),
{
    if ps.len() == 0 {
        Seq::empty()
    } else {
        let rest = named_pieces(ps.drop_last());
        let p = ps.last();
        if p.len() == 0 || p == seq!['.'] {
            rest
        } else {
            rest.push(p)
        }
    }
}

/// The file name of a path, as `Path::file_name` gives it: its last
/// named piece, unless that is `..` or there is none.
pub open spec fn file_name_spec(p: Seq<char>) -> Option<Seq<char>> {
    let ns = named_pieces(pieces(p));
    if ns.len() == 0 || ns.last() == seq!['.', '.'] {
        None
    } else {
        Some(ns.last())
    }
}

/// The file name of a path (see `file_name_spec`), or an error naming the
/// path.
pub fn file_name_str(path: &str) -> (r: Result<String, PathError>)
    ensures
        match r {
            Ok(s) => file_name_spec(path@) == Some(s@),
            Err(e) => file_name_spec(path@) is None && (e matches PathError::NoFileName(s) && s@
                == path@),
        },
{
    let ps = split_pieces(path);
    let ghost sp = pieces(path@);
    let dot = ['.'];
    let dotdot = ['.', '.'];
    assert(dot@ =~= seq!['.']);
    assert(dotdot@ =~= seq!['.', '.']);
    let mut last: Option<usize> = None;
    let mut k: usize = 0;
    while k < ps.len()
        invariant
            k <= ps@.len(),
            ps@.len() == sp.len(),
            sp == pieces(path@),
            forall|i: int| 0 <= i < ps@.len() ==> (#[trigger] ps@[i])@ == sp[i],
            dot@ == seq!['.'],
            match last {
                None => named_pieces(sp.take(k as int)).len() == 0,
                Some(j) => j < k && named_pieces(sp.take(k as int)).len() > 0 && named_pieces(
                    sp.take(k as int),
                ).last() == sp[j as int],
            },
        decreases ps@.len() - k,
    {
        assert(sp.take(k + 1).drop_last() =~= sp.take(k as int));
        assert(sp.take(k + 1).last() == ps@[k as int]@);
        if !(ps[k].len() == 0 || chars_eq(&ps[k], &dot)) {
            last = Some(k);
        }
        k = k + 1;
    }
    assert(sp.take(k as int) =~= sp);
    match last {
        None => Err(PathError::NoFileName(String::from_str(path))),
        Some(j) => {
            if chars_eq(&ps[j], &dotdot) {
                Err(PathError::NoFileName(String::from_str(path)))
            } else {
                Ok(crate::text::chars_to_string(&ps[j]))
            }
        },
    }
}

/// Normalizing a path given what the file system said: its canonical form
/// when there is one; otherwise an absolute path is normalized as it is,
/// and a relative one after the current directory (an error when that is
/// not known).
pub open spec fn normalize_spec(
    path: Seq<char>,
    canonical: Option<Seq<char>>,
    cwd: Option<Seq<char>>,
) -> Option<Seq<char>> {
    match canonical {
        Some(c) => Some(c),
        None => if is_absolute_spec(path) {
            normalize_absolute_spec(path)
        } else {
            match cwd {
                None => None,
                Some(b) => normalize_absolute_spec(push_spec(b, path)),
            }
        },
    }
}

/// A `String` option as characters.
pub open spec fn opt_view(o: Option<String>) -> Option<Seq<char>> {
    match o {
        Some(s) => Some(s@),
        None => None,
    }
}

/// The absolute form of a path (see `normalize_spec`). `canonical` is what
/// canonicalizing the path gave, and `cwd` what canonicalizing the current
/// directory gave; the caller asks the file system.
pub fn normalize_with(path: &str, canonical: Option<String>, cwd: Option<String>) -> (r: Result<
    String,
    PathError,
>)
    ensures
        match r {
            Ok(s) => normalize_spec(path@, opt_view(canonical), opt_view(cwd)) == Some(s@),
            Err(e) => normalize_spec(path@, opt_view(canonical), opt_view(cwd)) is None
                && canonical is None && if is_absolute_spec(path@) {
                e matches PathError::ParentOfRoot(s) && s@ == path@
            } else {
                match opt_view(cwd) {
                    None => e matches PathError::NoCurrentDir(s) && s@ == path@,
                    Some(b) => e matches PathError::ParentOfRoot(s) && s@ == push_spec(b, path@),
                }
            },
        },
{
    match canonical {
        Some(c) => Ok(c),
        None => {
            if is_absolute(path) {
                return fallback_normalize_absolute(path);
            }
            match cwd {
                None => Err(PathError::NoCurrentDir(String::from_str(path))),
                Some(b) => {
                    let mut base = b;
                    path_push(&mut base, path);
                    fallback_normalize_absolute(base.as_str())
                },
            }
        },
    }
}

/// The absolute form of an executable's path, which keeps its file name:
/// like `normalize_with` but never canonical (that would resolve symbolic
/// links and change the name). Whether the result exists and is not a
/// directory is for the caller to check.
pub fn normalize_executable_with(path: &str, cwd: Option<String>) -> (r: Result<String, PathError>)
    ensures
        match r {
            Ok(s) => normalize_spec(path@, None, opt_view(cwd)) == Some(s@),
            Err(e) => normalize_spec(path@, None, opt_view(cwd)) is None && if is_absolute_spec(
                path@,
            ) {
                e matches PathError::ParentOfRoot(s) && s@ == path@
            } else {
                match opt_view(cwd) {
                    None => e matches PathError::NoCurrentDir(s) && s@ == path@,
                    Some(b) => e matches PathError::ParentOfRoot(s) && s@ == push_spec(b, path@),
                }
            },
        },
{
    normalize_with(path, None, cwd)
}

/// Checks an executable's normalized path against what the file system
/// says of it: an error when it does not exist, or when it is a directory;
/// otherwise the path itself.
pub fn check_executable(path: String, exists: bool, is_dir: bool) -> (r: Result<String, PathError>)
    ensures
        !exists ==> (r matches Err(PathError::NotFound(s)) && s@ == path@),
        exists && is_dir ==> (r matches Err(PathError::IsDirectory(s)) && s@ == path@),
        exists && !is_dir ==> (r matches Ok(s) && s@ == path@),
{
    if !exists {
        Err(PathError::NotFound(path))
    } else if is_dir {
        Err(PathError::IsDirectory(path))
    } else {
        Ok(path)
    }
}

proof fn lemma_rooted_absolute(ps: Seq<Seq<char>>)
    ensures
        is_absolute_spec(rooted(ps)),
    decreases ps.len(),
{
    if ps.len() > 0 {
        lemma_rooted_absolute(ps.drop_last());
        let b = rooted(ps.drop_last());
        let seg = ps.last();
        if !is_absolute_spec(seg) {
            if b.len() > 0 && b.last() != '/' {
                assert((b + seq!['/'] + seg)[0] == b[0]);
            } else {
                assert((b + seg)[0] == b[0]);
            }
        }
    }
}

/// What normalizing gives, when it gives anything, is absolute.
pub proof fn law_normalize_is_absolute(
    path: Seq<char>,
    canonical: Option<Seq<char>>,
    cwd: Option<Seq<char>>,
)
    requires
        canonical is None || is_absolute_spec(canonical->0),
        normalize_spec(path, canonical, cwd) is Some,
    ensures
        is_absolute_spec(normalize_spec(path, canonical, cwd)->0),
{
    if canonical is None {
        let full = if is_absolute_spec(path) {
            path
        } else {
            push_spec(cwd->0, path)
        };
        lemma_rooted_absolute(normalize_pieces(pieces(full))->0);
    }
}

proof fn lemma_named_concat(a: Seq<Seq<char>>, b: Seq<Seq<char>>)
    ensures
        named_pieces(a + b) == named_pieces(a) + named_pieces(b),
    decreases b.len(),
{
    if b.len() == 0 {
        assert(a + b =~= a);
        assert(named_pieces(a) + named_pieces(b) =~= named_pieces(a));
    } else {
        lemma_named_concat(a, b.drop_last());
        assert((a + b).drop_last() =~= a + b.drop_last());
        assert((a + b).last() == b.last());
        assert(named_pieces(a + b) =~= named_pieces(a) + named_pieces(b));
    }
}

proof fn lemma_normalize_last_named(qs: Seq<Seq<char>>)
    requires
        normalize_pieces(qs) is Some,
        named_pieces(qs).len() > 0,
        named_pieces(qs).last() != seq!['.', '.'],
    ensures
        normalize_pieces(qs)->0.len() > 0,
        normalize_pieces(qs)->0.last() == named_pieces(qs).last(),
    decreases qs.len(),
{
    if qs.len() > 0 {
        let d = qs.drop_last();
        let p = qs.last();
        if p.len() == 0 || p == seq!['.'] {
            lemma_normalize_last_named(d);
        }
    }
}

/// Normalizing keeps the file name: where a path has one, the absolute
/// path that normalizing it without canonicalizing gives has the same one.
/// This is what makes `normalize_executable_with` safe for multi-call
/// binaries, which act on the name they were called by.
pub proof fn law_normalize_keeps_file_name(path: Seq<char>, cwd: Option<Seq<char>>)
    requires
        file_name_spec(path) is Some,
        normalize_spec(path, None, cwd) is Some,
    ensures
        file_name_spec(normalize_spec(path, None, cwd)->0) == file_name_spec(path),
{
    let full = if is_absolute_spec(path) {
        path
    } else {
        push_spec(cwd->0, path)
    };
    assert(normalize_spec(path, None, cwd) == normalize_absolute_spec(full));
    let n = named_pieces(pieces(path));
    if !is_absolute_spec(path) {
        let b = cwd->0;
        if b.len() > 0 && b.last() != '/' {
            lemma_pieces_concat(b, path);
            lemma_named_concat(pieces(b), pieces(path));
        } else if b.len() > 0 {
            assert(b =~= b.drop_last() + seq!['/']);
            assert(full =~= b.drop_last() + seq!['/'] + path);
            lemma_pieces_concat(b.drop_last(), path);
            lemma_named_concat(pieces(b.drop_last()), pieces(path));
        } else {
            assert(full =~= path);
        }
    }
    assert(named_pieces(pieces(full)).last() == n.last());
    lemma_normalize_last_named(pieces(full));
    lemma_pieces_no_slash(full);
    lemma_normalize_pieces_clean(pieces(full));
    let ks = normalize_pieces(pieces(full))->0;
    lemma_named_of_rooted(ks);
    assert(clean_piece(ks[ks.len() - 1]));
}

/// The parent of a normalized path `x` times over: its named pieces
/// without the last `x`, from the root; `None` when that goes above the
/// root.
pub open spec fn parent_times_spec(p: Seq<char>, x: nat) -> Option<Seq<char>> {
    let ns = named_pieces(pieces(p));
    if x > ns.len() {
        None
    } else {
        Some(rooted(ns.take(ns.len() - x)))
    }
}

proof fn lemma_named_of_rooted(qs: Seq<Seq<char>>)
    requires
        forall|i: int| 0 <= i < qs.len() ==> clean_piece(#[trigger] qs[i]),
    ensures
        named_pieces(pieces(rooted(qs))) == qs,
    decreases qs.len(),
{
    lemma_rooted_shape(qs);
    let e = Seq::<char>::empty();
    assert(seq![e].drop_last() =~= Seq::<Seq<char>>::empty());
    assert(seq![e, e].drop_last() =~= seq![e]);
    assert(named_pieces(Seq::<Seq<char>>::empty()) == Seq::<Seq<char>>::empty());
    assert(named_pieces(seq![e]) == Seq::<Seq<char>>::empty());
    assert(named_pieces(seq![e, e]) == Seq::<Seq<char>>::empty());
    if qs.len() > 0 {
        let d = qs.drop_last();
        assert forall|i: int| 0 <= i < d.len() implies clean_piece(#[trigger] d[i]) by {
            assert(d[i] == qs[i]);
        }
        lemma_named_of_rooted(d);
        lemma_rooted_shape(d);
        assert((seq![e] + qs).drop_last() =~= seq![e] + d);
        assert(clean_piece(qs[qs.len() - 1]));
        if d.len() == 0 {
            assert(named_pieces(seq![e] + d) == Seq::<Seq<char>>::empty()) by {
                assert(seq![e] + d =~= seq![e]);
            }
        } else {
            assert(named_pieces(seq![e] + d) == d);
        }
        assert(d.push(qs.last()) =~= qs);
        assert(named_pieces(seq![e] + qs) == d.push(qs.last()));
    } else {
        assert(qs =~= Seq::<Seq<char>>::empty());
    }
}

/// Going up `x` levels and then `y` more is going up `x + y` levels at once,
/// for a normalized absolute path (one that normalizes to itself); going
/// above the root fails either way.
pub proof fn law_parent_times_compose(p: Seq<char>, x: nat, y: nat)
    requires
        normalize_absolute_spec(p) == Some(p),
    ensures
        parent_times_spec(p, x + y) == match parent_times_spec(p, x) {
            None => None,
            Some(q) => parent_times_spec(q, y),
        },
{
    lemma_pieces_no_slash(p);
    lemma_normalize_pieces_clean(pieces(p));
    let ps = normalize_pieces(pieces(p))->0;
    assert(p == rooted(ps));
    lemma_named_of_rooted(ps);
    let n = ps.len();
    if x <= n {
        let qs = ps.take(n - x);
        assert forall|i: int| 0 <= i < qs.len() implies clean_piece(#[trigger] qs[i]) by {
            assert(qs[i] == ps[i]);
        }
        lemma_named_of_rooted(qs);
        if y <= n - x {
            assert(qs.take(qs.len() - y) =~= ps.take(n - (x + y)));
        }
    }
}

/// The parent of a normalized absolute path, `x` times over (see
/// `parent_times_spec`).
pub fn parent_abs_times(normalized: &str, x: usize) -> (r: Result<String, PathError>)
    ensures
        match r {
            Ok(s) => parent_times_spec(normalized@, x as nat) == Some(s@),
            Err(e) => parent_times_spec(normalized@, x as nat) is None && (e matches PathError::ParentOfRoot(s) && s@ == normalized@),
        },
{
    let ps = split_pieces(normalized);
    let ghost sp = pieces(normalized@);
    let dot = ['.'];
    assert(dot@ =~= seq!['.']);
    let mut named: Vec<Vec<char>> = Vec::new();
    let mut k: usize = 0;
    while k < ps.len()
        invariant
            k <= ps@.len(),
            ps@.len() == sp.len(),
            sp == pieces(normalized@),
            forall|i: int| 0 <= i < ps@.len() ==> (#[trigger] ps@[i])@ == sp[i],
            dot@ == seq!['.'],
            named@.map_values(|v: Vec<char>| v@) == named_pieces(sp.take(k as int)),
        decreases ps@.len() - k,
    {
        assert(sp.take(k + 1).drop_last() =~= sp.take(k as int));
        assert(sp.take(k + 1).last() == ps@[k as int]@);
        let ghost before = named@.map_values(|v: Vec<char>| v@);
        if !(ps[k].len() == 0 || chars_eq(&ps[k], &dot)) {
            named.push(ps[k].clone());
            assert(named@.map_values(|v: Vec<char>| v@) =~= before.push(ps@[k as int]@));
        }
        k = k + 1;
    }
    assert(sp.take(k as int) =~= sp);
    if x > named.len() {
        return Err(PathError::ParentOfRoot(String::from_str(normalized)));
    }
    let keep = named.len() - x;
    let ghost kv = named@.map_values(|v: Vec<char>| v@).take(keep as int);
    let mut out = String::from_str("/");
    proof {
        reveal_strlit("/");
        assert(out@ =~= rooted(kv.take(0)));
    }
    let mut j: usize = 0;
    while j < keep
        invariant
            j <= keep,
            keep <= named@.len(),
            kv == named@.map_values(|v: Vec<char>| v@).take(keep as int),
            out@ == rooted(kv.take(j as int)),
        decreases keep - j,
    {
        let seg = crate::text::chars_to_string(&named[j]);
        assert(kv[j as int] == named@[j as int]@);
        path_push(&mut out, seg.as_str());
        assert(kv.take(j + 1).drop_last() =~= kv.take(j as int));
        j = j + 1;
    }
    assert(kv.take(j as int) =~= kv);
    Ok(out)
}

} // verus!

verus! {

/// What `pathdiff::diff_paths` gives for a path and a base, as text: the
/// path relative to the base, or `None` when there is no such path.
pub uninterp spec fn path_diff(path: Seq<char>, base: Seq<char>) -> Option<Seq<char>>;

/// `pathdiff::diff_paths`, on paths read with `/` separators: claimed to
/// give what `path_diff` names. Its
/// source, a function of the two paths only, works on their components;
/// its rules are not restated here.
#[verifier::external_body]
fn diff_paths(path: &str, base: &str) -> (r: Option<String>)
    ensures
        opt_view(r) == path_diff(path@, base@),
{
    match pathdiff::diff_paths(path, base) {
        Some(p) => Some(p.to_string_lossy().into_owned()),
        None => None,
    }
}

/// A path relative to a base, as far as it can be made: absolute paths are
/// compared as they are, a relative one after normalizing it (`self_norm`
/// and `base_norm` are the normalized forms, or `None` when normalizing
/// failed); when anything fails, the path itself.
pub open spec fn rel_spec(
    path: Seq<char>,
    base: Seq<char>,
    self_norm: Option<Seq<char>>,
    base_norm: Option<Seq<char>>,
) -> Seq<char> {
    let pa = is_absolute_spec(path);
    let ba = is_absolute_spec(base);
    let res = if pa && ba {
        path_diff(path, base)
    } else if pa {
        match base_norm {
            None => None,
            Some(b) => path_diff(path, b),
        }
    } else if ba {
        match self_norm {
            None => None,
            Some(s) => path_diff(s, base),
        }
    } else {
        match (self_norm, base_norm) {
            (Some(s), Some(b)) => path_diff(s, b),
            _ => None,
        }
    };
    match res {
        None => path,
        Some(x) => x,
    }
}

/// Tries to make `path` relative to `base` (see `rel_spec`). The caller
/// normalizes relative paths, which needs the file system.
pub fn try_to_rel_from(path: &str, base: &str, self_norm: Option<String>, base_norm: Option<String>) -> (r: String)
    ensures
        r@ == rel_spec(path@, base@, opt_view(self_norm), opt_view(base_norm)),
{
    let pa = is_absolute(path);
    let ba = is_absolute(base);
    let res = if pa && ba {
        diff_paths(path, base)
    } else if pa {
        match &base_norm {
            None => None,
            Some(b) => diff_paths(path, b.as_str()),
        }
    } else if ba {
        match &self_norm {
            None => None,
            Some(s) => diff_paths(s.as_str(), base),
        }
    } else {
        match (&self_norm, &base_norm) {
            (Some(s), Some(b)) => diff_paths(s.as_str(), b.as_str()),
            _ => None,
        }
    };
    match res {
        None => String::from_str(path),
        Some(x) => x,
    }
}

/// A relative base counts only through its normalized form: making a path
/// relative to it gives what making the path relative to that normalized
/// form gives.
pub proof fn law_rel_base_by_normal_form(
    path: Seq<char>,
    base: Seq<char>,
    self_norm: Option<Seq<char>>,
    base_norm: Seq<char>,
    other_norm: Option<Seq<char>>,
)
    requires
        !is_absolute_spec(base),
        is_absolute_spec(base_norm),
    ensures
        rel_spec(path, base, self_norm, Some(base_norm)) == rel_spec(path, base_norm, self_norm, other_norm),
{
}

/// Two relative bases with the same normalized form give the same result.
pub proof fn law_rel_same_normal_base(
    path: Seq<char>,
    base1: Seq<char>,
    base2: Seq<char>,
    self_norm: Option<Seq<char>>,
    base_norm: Option<Seq<char>>,
)
    requires
        !is_absolute_spec(base1),
        !is_absolute_spec(base2),
    ensures
        rel_spec(path, base1, self_norm, base_norm) == rel_spec(path, base2, self_norm, base_norm),
{
}

/// When a relative base cannot be normalized, the path comes back as it
/// is.
pub proof fn law_rel_unnormalizable_base(path: Seq<char>, base: Seq<char>, self_norm: Option<Seq<char>>)
    requires
        !is_absolute_spec(base),
    ensures
        rel_spec(path, base, self_norm, None) == path,
{
}

/// A relative path counts only through its normalized form: where making
/// it relative gives anything but the path itself, that is what making its
/// normalized form relative gives.
pub proof fn law_rel_path_by_normal_form(
    path: Seq<char>,
    base: Seq<char>,
    self_norm: Seq<char>,
    base_norm: Option<Seq<char>>,
    other_norm: Option<Seq<char>>,
)
    requires
        !is_absolute_spec(path),
        is_absolute_spec(self_norm),
    ensures
        rel_spec(path, base, Some(self_norm), base_norm) == path || rel_spec(
            path,
            base,
            Some(self_norm),
            base_norm,
        ) == rel_spec(self_norm, base, other_norm, base_norm),
{
}

/// `dunce::simplified`: its source gives back the path, or on Windows the
/// path without its `\\?\` prefix (its first four characters) where that
/// is safe; which one is left unsaid here, as it depends on the platform.
#[verifier::external_body]
fn dunce_simplified(p: &str) -> (r: String)
    ensures
        r@ == p@ || (p@.len() >= 4 && r@ == p@.skip(4)),
{
    dunce::simplified(std::path::Path::new(p)).to_string_lossy().into_owned()
}

/// The path without a Windows UNC prefix where one can be dropped: only a
/// path that starts with `\\` is looked at.
pub fn simplified(p: &str) -> (r: String)
    ensures
        !(p@.len() >= 2 && p@[0] == '\\' && p@[1] == '\\') ==> r@ == p@,
        r@ == p@ || (p@.len() >= 4 && r@ == p@.skip(4)),
{
    let cs = str_chars(p);
    if cs.len() >= 2 && cs[0] == '\\' && cs[1] == '\\' {
        dunce_simplified(p)
    } else {
        String::from_str(p)
    }
}

} // verus!
