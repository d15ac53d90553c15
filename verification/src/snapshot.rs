//! Snapshot testing of a program's terminal output: the output streams
//! rendered with their control bytes made visible, the comparison with a
//! stored snapshot, and the test cases read from the comment lines at the
//! top of an example (`// $ args`, `// $- args` for a skipped case, and
//! `< file` for the stdin).
use vstd::prelude::*;
use vstd::string::StringExecFns;
use crate::text::{lines, push_char, split_lines, str_chars, trim, trim_bounds};

verus! {

/// The uppercase hex digit of `d` (0 to 15).
pub open spec fn hex_digit(d: nat) -> char {
    if d < 10 {
        (('0' as nat) + d) as char
    } else {
        (('A' as nat) + d - 10) as char
    }
}

/// One byte of output made visible: printable ASCII as itself, `\r` and
/// `\n` as `^CR` and `^LF` and a line break, anything else as `\xHH`.
pub open spec fn byte_text(b: u8) -> Seq<char> {
    if 0x20 <= b && b <= 0x7e {
        seq![b as char]
    } else if b == 0x0d {
        seq!['^', 'C', 'R', '\n']
    } else if b == 0x0a {
        seq!['^', 'L', 'F', '\n']
    } else {
        seq!['\\', 'x', hex_digit((b / 16) as nat), hex_digit((b % 16) as nat)]
    }
}

/// A stream of output made visible, byte by byte.
pub open spec fn stream_text(bytes: Seq<u8>) -> Seq<char>
    decreases bytes.len(),
{
    if bytes.len() == 0 {
        Seq::empty()
    } else {
        stream_text(bytes.drop_last()) + byte_text(bytes.last())
    }
}

fn hex_digit_exec(d: u8) -> (c: char)
    requires
        d < 16,
    ensures
        c == hex_digit(d as nat),
{
    if d < 10 {
        (d + 48) as char
    } else {
        (d - 10 + 65) as char
    }
}

/// Appends a stream of output made visible (see `stream_text`).
pub fn decode_output_stream(out: &mut String, buffer: &[u8])
    ensures
        final(out)@ == old(out)@ + stream_text(buffer@),
{
    let mut k: usize = 0;
    while k < buffer.len()
        invariant
            k <= buffer@.len(),
            out@ == old(out)@ + stream_text(buffer@.take(k as int)),
        decreases buffer@.len() - k,
    {
        let b = buffer[k];
        if 0x20 <= b && b <= 0x7e {
            push_char(out, b as char);
        } else if b == 0x0d {
            push_char(out, '^');
            push_char(out, 'C');
            push_char(out, 'R');
            push_char(out, '\n');
        } else if b == 0x0a {
            push_char(out, '^');
            push_char(out, 'L');
            push_char(out, 'F');
            push_char(out, '\n');
        } else {
            push_char(out, '\\');
            push_char(out, 'x');
            push_char(out, hex_digit_exec(b / 16));
            push_char(out, hex_digit_exec(b % 16));
        }
        assert(buffer@.take(k + 1).drop_last() =~= buffer@.take(k as int));
        k = k + 1;
        assert(out@ =~= old(out)@ + stream_text(buffer@.take(k as int)));
    }
    assert(buffer@.take(k as int) =~= buffer@);
}

/// The line that opens a stream's section.
pub open spec fn open_line(name: Seq<char>) -> Seq<char> {
    name + seq![' '] + Seq::new(42, |i: int| '>') + seq!['\n']
}

/// The lines that close a stream's section.
pub open spec fn close_lines() -> Seq<char> {
    seq!['^', '<', 'E', 'O', 'F', '\n'] + Seq::new(49, |i: int| '<') + seq!['\n']
}

/// The text of a test's output: the command, both streams, and the exit
/// status (given as its display) or `timed out`.
pub open spec fn output_text(command: Seq<char>, stdout: Seq<u8>, stderr: Seq<u8>, status: Option<Seq<char>>) -> Seq<char> {
    seq!['$', ' '] + command + seq!['\n'] + open_line(seq!['S', 'T', 'D', 'O', 'U', 'T'])
        + stream_text(stdout) + close_lines() + open_line(seq!['S', 'T', 'D', 'E', 'R', 'R'])
        + stream_text(stderr) + close_lines() + match status {
        Some(s) => seq!['s', 't', 'a', 't', 'u', 's', ':', ' '] + s + seq!['\n'],
        None => seq!['t', 'i', 'm', 'e', 'd', ' ', 'o', 'u', 't', '\n'],
    }
}

fn push_repeat(out: &mut String, c: char, n: usize)
    ensures
        final(out)@ == old(out)@ + Seq::new(n as nat, |i: int| c),
{
    let mut k: usize = 0;
    while k < n
        invariant
            k <= n,
            out@ == old(out)@ + Seq::new(k as nat, |i: int| c),
        decreases n - k,
    {
        push_char(out, c);
        k = k + 1;
        assert(out@ =~= old(out)@ + Seq::new(k as nat, |i: int| c));
    }
}

/// The text of a test's output (see `output_text`). `status` is the exit
/// status as displayed, or `None` when the test timed out.
pub fn decode_output_streams(command: &str, stdout: &[u8], stderr: &[u8], status: Option<&str>) -> (r: String)
    ensures
        r@ == output_text(command@, stdout@, stderr@, match status {
            Some(s) => Some(s@),
            None => None,
        }),
{
    let mut out = String::new();
    push_char(&mut out, '$');
    push_char(&mut out, ' ');
    out.append(command);
    push_char(&mut out, '\n');
    proof {
        reveal_strlit("STDOUT ");
        reveal_strlit("STDERR ");
        reveal_strlit("^<EOF\n");
        reveal_strlit("status: ");
        reveal_strlit("timed out\n");
    }
    out.append("STDOUT ");
    push_repeat(&mut out, '>', 42);
    push_char(&mut out, '\n');
    decode_output_stream(&mut out, stdout);
    out.append("^<EOF\n");
    push_repeat(&mut out, '<', 49);
    push_char(&mut out, '\n');
    out.append("STDERR ");
    push_repeat(&mut out, '>', 42);
    push_char(&mut out, '\n');
    decode_output_stream(&mut out, stderr);
    out.append("^<EOF\n");
    push_repeat(&mut out, '<', 49);
    push_char(&mut out, '\n');
    match status {
        Some(s) => {
            out.append("status: ");
            out.append(s);
            push_char(&mut out, '\n');
        },
        None => {
            out.append("timed out\n");
        },
    }
    assert(out@ =~= output_text(command@, stdout@, stderr@, match status {
        Some(s) => Some(s@),
        None => None,
    }));
    out
}

/// Lines joined with `\n`.
pub open spec fn join_lines(ls: Seq<Seq<char>>) -> Seq<char>
    decreases ls.len(),
{
    if ls.len() == 0 {
        Seq::empty()
    } else if ls.len() == 1 {
        ls[0]
    } else {
        join_lines(ls.drop_last()) + seq!['\n'] + ls.last()
    }
}

/// Whether an output matches a stored snapshot: the snapshot's lines are
/// joined with `\n` (so `\r\n` endings count as `\n`), and both are
/// compared without surrounding whitespace.
pub open spec fn snapshot_matches_spec(expected: Seq<char>, output: Seq<char>) -> bool {
    trim(join_lines(lines(expected))) == trim(output)
}

/// Checks an output against a stored snapshot (see
/// `snapshot_matches_spec`).
pub fn snapshot_matches(expected: &str, output: &str) -> (r: bool)
    ensures
        r == snapshot_matches_spec(expected@, output@),
{
    let ls = split_lines(expected);
    let ghost lv = ls@.map_values(|s: String| s@);
    assert(lv =~= lines(expected@));
    let mut joined: Vec<char> = Vec::new();
    let mut k: usize = 0;
    while k < ls.len()
        invariant
            k <= ls@.len(),
            lv == ls@.map_values(|s: String| s@),
            joined@ == join_lines(lv.take(k as int)),
        decreases ls@.len() - k,
    {
        if k > 0 {
            joined.push('\n');
        }
        let cs = str_chars(ls[k].as_str());
        let mut j: usize = 0;
        let ghost before = joined@;
        while j < cs.len()
            invariant
                j <= cs@.len(),
                joined@ == before + cs@.take(j as int),
            decreases cs@.len() - j,
        {
            joined.push(cs[j]);
            j = j + 1;
            assert(joined@ =~= before + cs@.take(j as int));
        }
        assert(cs@.take(j as int) =~= cs@);
        assert(lv.take(k + 1).drop_last() =~= lv.take(k as int));
        k = k + 1;
        assert(joined@ =~= join_lines(lv.take(k as int)));
    }
    assert(lv.take(k as int) =~= lv);
    let (a, b) = trim_bounds(&joined);
    let out = str_chars(output);
    let (c, d) = trim_bounds(&out);
    let ghost te = trim(join_lines(lines(expected@)));
    let ghost to = trim(output@);
    assert(joined@.subrange(a as int, b as int) == te);
    assert(out@.subrange(c as int, d as int) == to);
    if b - a != d - c {
        assert(te.len() != to.len());
        return false;
    }
    let mut i: usize = 0;
    while i < b - a
        invariant
            a <= b <= joined@.len(),
            c <= d <= out@.len(),
            b - a == d - c,
            i <= b - a,
            joined@.subrange(a as int, b as int) == te,
            out@.subrange(c as int, d as int) == to,
            te == trim(join_lines(lines(expected@))),
            to == trim(output@),
            forall|j: int| 0 <= j < i ==> #[trigger] te[j] == to[j],
        decreases b - a - i,
    {
        assert(te[i as int] == joined@[a + i]);
        assert(to[i as int] == out@[c + i]);
        if joined[a + i] != out[c + i] {
            assert(te[i as int] != to[i as int]);
            return false;
        }
        i = i + 1;
    }
    assert(te =~= to);
    true
}

} // verus!

verus! {

/// How shell_words splits a command line into words (`shell_words::split`),
/// or `None` when it refuses the line (an unmatched quote, say).
pub uninterp spec fn shell_split(s: Seq<char>) -> Option<Seq<Seq<char>>>;

/// How shell_words joins words into a command line (`shell_words::join`),
/// quoting where needed.
pub uninterp spec fn shell_join(words: Seq<Seq<char>>) -> Seq<char>;

/// `shell_words::split`: claimed to give the words `shell_split` names
/// (the crate's error is dropped).
#[verifier::external_body]
fn shell_words_split(s: &str) -> (r: Option<Vec<String>>)
    ensures
        match r {
            Some(v) => shell_split(s@) == Some(v@.map_values(|x: String| x@)),
            None => shell_split(s@) is None,
        },
{
    shell_words::split(s).ok()
}

/// `shell_words::join`: claimed to give the line `shell_join` names.
#[verifier::external_body]
fn shell_words_join(words: &Vec<String>) -> (r: String)
    ensures
        r@ == shell_join(words@.map_values(|x: String| x@)),
{
    shell_words::join(words)
}

/// The command line of a test case, for display (see `shell_join`).
pub fn command_line(args: &Vec<String>) -> (r: String)
    ensures
        r@ == shell_join(args@.map_values(|x: String| x@)),
{
    shell_words_join(args)
}

/// A test case read from an example: its arguments, the file given as its
/// stdin (after `<`), and whether it is skipped.
pub struct TestCase {
    pub args: Vec<String>,
    pub stdin_path: Option<String>,
    pub skip: bool,
}

/// A test-case line whose command line cannot be split.
#[derive(Debug, Clone, PartialEq, Eq)]
pub struct BadCommandLine(pub String);

/// A test case as plain values.
pub open spec fn case_view(c: TestCase) -> (Seq<Seq<char>>, Option<Seq<char>>, bool) {
    (
        c.args@.map_values(|x: String| x@),
        match c.stdin_path {
            Some(p) => Some(p@),
            None => None,
        },
        c.skip,
    )
}

/// The test case a line gives: `None` when the line is not a test-case
/// comment (`// $`); else its words (after an optional `-`, which marks
/// the case skipped), with a final `< file` taken as the stdin; an error
/// with the rest of the line when it cannot be split.
pub open spec fn case_of_line(line: Seq<char>) -> Option<
    Result<(Seq<Seq<char>>, Option<Seq<char>>, bool), Seq<char>>,
> {
    let tag = seq!['/', '/', ' ', '$'];
    if line.len() < 4 || line.take(4) != tag {
        None
    } else {
        let rest0 = line.skip(4);
        let skip = rest0.len() > 0 && rest0[0] == '-';
        let rest = if skip {
            rest0.skip(1)
        } else {
            rest0
        };
        match shell_split(trim(rest)) {
            None => Some(Err(rest)),
            Some(words) => if words.len() >= 2 && words[words.len() - 2] == seq!['<'] {
                Some(Ok((words.take(words.len() - 2), Some(words.last()), skip)))
            } else {
                Some(Ok((words, None, skip)))
            },
        }
    }
}

/// The test cases of an example: one per line from the top, up to the
/// first line that is not a test-case comment; the first line that cannot
/// be split is an error.
pub open spec fn cases_spec(ls: Seq<Seq<char>>) -> Result<
    Seq<(Seq<Seq<char>>, Option<Seq<char>>, bool)>,
    Seq<char>,
>
    decreases ls.len(),
{
    if ls.len() == 0 {
        Ok(Seq::empty())
    } else {
        match case_of_line(ls[0]) {
            None => Ok(Seq::empty()),
            Some(Err(e)) => Err(e),
            Some(Ok(c)) => match cases_spec(ls.drop_first()) {
                Ok(rest) => Ok(seq![c] + rest),
                Err(e) => Err(e),
            },
        }
    }
}

/// `acc` before the cases of a result.
pub open spec fn prepend_cases(
    acc: Seq<(Seq<Seq<char>>, Option<Seq<char>>, bool)>,
    r: Result<Seq<(Seq<Seq<char>>, Option<Seq<char>>, bool)>, Seq<char>>,
) -> Result<Seq<(Seq<Seq<char>>, Option<Seq<char>>, bool)>, Seq<char>> {
    match r {
        Ok(rest) => Ok(acc + rest),
        Err(e) => Err(e),
    }
}

fn parse_case_line(line: &str) -> (r: Option<Result<TestCase, BadCommandLine>>)
    ensures
        match r {
            None => case_of_line(line@) is None,
            Some(Ok(c)) => case_of_line(line@) == Some(
                Ok::<(Seq<Seq<char>>, Option<Seq<char>>, bool), Seq<char>>(case_view(c)),
            ),
            Some(Err(e)) => case_of_line(line@) == Some(
                Err::<(Seq<Seq<char>>, Option<Seq<char>>, bool), Seq<char>>(e.0@),
            ),
        },
{
    let cs = str_chars(line);
    let ghost tag = seq!['/', '/', ' ', '$'];
    if cs.len() < 4 || cs[0] != '/' || cs[1] != '/' || cs[2] != ' ' || cs[3] != '$' {
        proof {
            if line@.len() >= 4 && line@.take(4) == tag {
                assert(line@.take(4)[0] == '/');
                assert(line@.take(4)[1] == '/');
                assert(line@.take(4)[2] == ' ');
                assert(line@.take(4)[3] == '$');
            }
        }
        return None;
    }
    assert(line@.take(4) =~= tag);
    let skip = cs.len() > 4 && cs[4] == '-';
    let start: usize = if skip {
        5
    } else {
        4
    };
    let mut rest_v: Vec<char> = Vec::new();
    let mut k = start;
    while k < cs.len()
        invariant
            start <= k <= cs@.len(),
            rest_v@ == cs@.subrange(start as int, k as int),
        decreases cs@.len() - k,
    {
        rest_v.push(cs[k]);
        k = k + 1;
        assert(rest_v@ =~= cs@.subrange(start as int, k as int));
    }
    let ghost rest0 = line@.skip(4);
    assert(rest_v@ =~= if skip { rest0.skip(1) } else { rest0 });
    let rest = crate::text::chars_to_string(&rest_v);
    let (a, b) = trim_bounds(&rest_v);
    let mut t: Vec<char> = Vec::new();
    let mut j = a;
    while j < b
        invariant
            a <= j <= b <= rest_v@.len(),
            t@ == rest_v@.subrange(a as int, j as int),
        decreases b - j,
    {
        t.push(rest_v[j]);
        j = j + 1;
        assert(t@ =~= rest_v@.subrange(a as int, j as int));
    }
    let ts = crate::text::chars_to_string(&t);
    match shell_words_split(ts.as_str()) {
        None => Some(Err(BadCommandLine(rest))),
        Some(mut words) => {
            let n = words.len();
            let ghost wv = words@.map_values(|x: String| x@);
            let lt = ['<'];
            assert(lt@ =~= seq!['<']);
            if n >= 2 && crate::sorted::compare_text(words[n - 2].as_str(), "<") == 0 {
                proof {
                    reveal_strlit("<");
                    assert("<"@ =~= seq!['<']);
                }
                let path = words.pop().unwrap();
                words.pop();
                assert(words@.map_values(|x: String| x@) =~= wv.take(n - 2));
                Some(Ok(TestCase { args: words, stdin_path: Some(path), skip }))
            } else {
                proof {
                    reveal_strlit("<");
                    assert("<"@ =~= seq!['<']);
                }
                Some(Ok(TestCase { args: words, stdin_path: None, skip }))
            }
        },
    }
}

/// The test cases written at the top of an example (see `cases_spec`).
pub fn parse_test_cases(content: &str) -> (r: Result<Vec<TestCase>, BadCommandLine>)
    ensures
        match r {
            Ok(v) => cases_spec(lines(content@)) == Ok::<
                Seq<(Seq<Seq<char>>, Option<Seq<char>>, bool)>,
                Seq<char>,
            >(v@.map_values(|c: TestCase| case_view(c))),
            Err(e) => cases_spec(lines(content@)) == Err::<
                Seq<(Seq<Seq<char>>, Option<Seq<char>>, bool)>,
                Seq<char>,
            >(e.0@),
        },
{
    let ls = split_lines(content);
    let ghost lv = ls@.map_values(|s: String| s@);
    assert(lv =~= lines(content@));
    let mut cases: Vec<TestCase> = Vec::new();
    let mut k: usize = 0;
    assert(lv.skip(0) =~= lv);
    assert(cases@.map_values(|c: TestCase| case_view(c)) =~= Seq::<(Seq<Seq<char>>, Option<Seq<char>>, bool)>::empty());
    while k < ls.len()
        invariant
            k <= ls@.len(),
            lv == ls@.map_values(|s: String| s@),
            lv == lines(content@),
            cases_spec(lv) == prepend_cases(
                cases@.map_values(|c: TestCase| case_view(c)),
                cases_spec(lv.skip(k as int)),
            ),
        decreases ls@.len() - k,
    {
        assert(lv.skip(k as int)[0] == ls@[k as int]@);
        assert(lv.skip(k as int).drop_first() =~= lv.skip(k + 1));
        let ghost before = cases@.map_values(|c: TestCase| case_view(c));
        match parse_case_line(ls[k].as_str()) {
            None => {
                assert(cases_spec(lv.skip(k as int)) == Ok::<
                    Seq<(Seq<Seq<char>>, Option<Seq<char>>, bool)>,
                    Seq<char>,
                >(Seq::empty()));
                assert(before + Seq::<(Seq<Seq<char>>, Option<Seq<char>>, bool)>::empty() =~= before);
                return Ok(cases);
            },
            Some(Err(e)) => {
                return Err(e);
            },
            Some(Ok(c)) => {
                cases.push(c);
                proof {
                    let after = cases@.map_values(|c: TestCase| case_view(c));
                    assert(after =~= before.push(case_view(c)));
                    match cases_spec(lv.skip(k + 1)) {
                        Ok(rest) => {
                            assert(before + (seq![case_view(c)] + rest) =~= after + rest);
                        },
                        Err(_) => {},
                    }
                }
            },
        }
        k = k + 1;
    }
    assert(lv.skip(k as int).len() == 0);
    assert(cases@.map_values(|c: TestCase| case_view(c)) + Seq::<(Seq<Seq<char>>, Option<Seq<char>>, bool)>::empty()
        =~= cases@.map_values(|c: TestCase| case_view(c)));
    Ok(cases)
}

} // verus!
