//! Turning the output of a child process into lines for display: the bytes
//! read are decoded as UTF-8, control characters are dropped except color
//! codes, a `\r` starts the line over (progress output), and the last
//! complete line read is kept.
use vstd::prelude::*;
use vstd::string::StringExecFns;
use vstd::string::StrSliceExecFns;
use crate::ansi::is_esc_end;
use crate::text::{push_char, str_chars, trim, trim_bounds};
use crate::utf8::{decode_char, decode_char_spec, incomplete, lead_width};

verus! {

/// A control character (Unicode `Cc`), as `char::is_control` tells.
pub open spec fn is_control(c: char) -> bool {
    (c as u32) < 0x20 || (0x7f <= (c as u32) && (c as u32) <= 0x9f)
}

/// Where reading a buffer stands.
pub struct ProcState {
    /// Bytes read.
    pub i: nat,
    /// An undecodable byte was met since the last escape started.
    pub invalid: bool,
    /// The escape sequence being read, if any.
    pub esc: Option<Seq<char>>,
    /// The text of the line being read.
    pub out: Seq<char>,
    /// The last line ended (or the lines kept).
    pub line: Seq<char>,
    /// Whether the last line ended with `\n`.
    pub full: bool,
    /// The last character read.
    pub last: char,
}

/// Reading one character `c` of `l` bytes: an escape sequence is dropped
/// unless it is a color code (ending in `m`, with every byte decoded); a
/// line break ends the line (a `\r` before `\n` is one break); other
/// control characters are dropped.
pub open spec fn char_step(st: ProcState, c: char, l: nat, only_last: bool) -> ProcState {
    let prev = st.last;
    let st = ProcState { i: st.i + l, last: c, ..st };
    match st.esc {
        Some(e) => if is_esc_end(c) {
            ProcState {
                esc: None,
                out: if !st.invalid && c == 'm' {
                    st.out + e.push(c)
                } else {
                    st.out
                },
                ..st
            }
        } else {
            ProcState { esc: Some(e.push(c)), ..st }
        },
        None => if c == '\u{1b}' {
            ProcState { invalid: false, esc: Some(seq![c]), ..st }
        } else if c == '\r' || c == '\n' {
            if c == '\n' && prev == '\r' {
                ProcState { full: true, out: Seq::empty(), ..st }
            } else {
                ProcState {
                    line: (if only_last || !st.full {
                        Seq::empty()
                    } else {
                        st.line.push('\n')
                    }) + st.out,
                    full: c == '\n',
                    out: Seq::empty(),
                    ..st
                }
            }
        } else if is_control(c) {
            st
        } else {
            ProcState { out: st.out.push(c), ..st }
        },
    }
}

/// Reading `buf` from the state `st` until the bytes run out or end in the
/// middle of a character; an undecodable byte is skipped.
pub open spec fn proc_from(buf: Seq<u8>, st: ProcState, only_last: bool) -> ProcState
    decreases buf.len() - st.i,
{
    if st.i >= buf.len() {
        st
    } else {
        match decode_char_spec(buf.subrange(st.i as int, buf.len() as int)) {
            Err(true) => proc_from(buf, ProcState { i: st.i + 1, invalid: true, ..st }, only_last),
            Err(false) => st,
            Ok((c, l)) => if l > 0 {
                proc_from(buf, char_step(st, c, l, only_last), only_last)
            } else {
                st
            },
        }
    }
}

/// Reading a buffer from its start, with `out` holding the part of the
/// line read before.
pub open spec fn process_spec(buf: Seq<u8>, out: Seq<char>, only_last: bool) -> ProcState {
    proc_from(
        buf,
        ProcState {
            i: 0,
            invalid: false,
            esc: None,
            out,
            line: Seq::empty(),
            full: false,
            last: '\0',
        },
        only_last,
    )
}

/// Reads `buf` (see `process_spec`): `out` keeps the part of a line not
/// yet ended, `line` gets the last line ended (all lines ended, one per
/// line, unless `only_last_line`). Gives the number of bytes used (the
/// rest start a character not yet complete) and whether the line ended
/// with `\n`.
pub fn process(buf: &[u8], out: &mut String, line: &mut String, only_last_line: bool) -> (r: (usize, bool))
    ensures
        ({
            let st = process_spec(buf@, old(out)@, only_last_line);
            &&& r.0 == st.i
            &&& r.1 == st.full
            &&& final(out)@ == st.out
            &&& final(line)@ == st.line
        }),
        r.0 <= buf@.len(),
{
    let ghost init = ProcState {
        i: 0,
        invalid: false,
        esc: None,
        out: old(out)@,
        line: Seq::empty(),
        full: false,
        last: '\0',
    };
    let ghost target = process_spec(buf@, old(out)@, only_last_line);
    let mut i: usize = 0;
    let mut invalid = false;
    let mut escaping = false;
    let mut esc = String::new();
    *line = String::new();
    let mut full = false;
    let mut last = '\0';
    let n = buf.len();
    loop
        invariant
            n == buf@.len(),
            i <= n,
            target == process_spec(buf@, init.out, only_last_line),
            target == proc_from(
                buf@,
                ProcState {
                    i: i as nat,
                    invalid,
                    esc: if escaping {
                        Some(esc@)
                    } else {
                        None
                    },
                    out: out@,
                    line: line@,
                    full,
                    last,
                },
                only_last_line,
            ),
        ensures
            target == (ProcState {
                i: i as nat,
                invalid,
                esc: if escaping {
                    Some(esc@)
                } else {
                    None
                },
                out: out@,
                line: line@,
                full,
                last,
            }),
        decreases n - i,
    {
        if i >= n {
            break;
        }
        match decode_char(buf, i) {
            Err(true) => {
                i = i + 1;
                invalid = true;
            },
            Err(false) => {
                break;
            },
            Ok((c, l)) => {
                let prev = last;
                i = i + l;
                last = c;
                if escaping {
                    if is_esc_end_char(c) {
                        escaping = false;
                        if !invalid && c == 'm' {
                            push_char(&mut esc, c);
                            out.append(esc.as_str());
                        }
                        esc = String::new();
                    } else {
                        push_char(&mut esc, c);
                    }
                } else if c == '\u{1b}' {
                    invalid = false;
                    escaping = true;
                    esc = String::new();
                    push_char(&mut esc, c);
                } else if c == '\r' || c == '\n' {
                    if c == '\n' && prev == '\r' {
                        full = true;
                    } else {
                        if only_last_line || !full {
                            *line = String::new();
                        } else {
                            push_char(line, '\n');
                        }
                        line.append(out.as_str());
                        full = c == '\n';
                    }
                    *out = String::new();
                } else if !is_control_char(c) {
                    push_char(out, c);
                }
            },
        }
    }
    (i, full)
}

fn is_esc_end_char(c: char) -> (r: bool)
    ensures
        r == is_esc_end(c),
{
    c == 'm' || c == 'A' || c == 'K' || c == 'G' || c == 'J' || c == 'B' || c == 'C' || c == 'D'
        || c == 'E' || c == 'F' || c == 'H' || c == 'S' || c == 'T' || c == 'f' || c == 'h'
        || c == 'l' || c == 'i' || c == 'n'
}

fn is_control_char(c: char) -> (r: bool)
    ensures
        r == is_control(c),
{
    let v = c as u32;
    v < 0x20 || (0x7f <= v && v <= 0x9f)
}

} // verus!

verus! {

/// What a read of the child's output gave.
pub enum DriverOutput {
    /// A non-empty line that ended with a line break.
    Line(String),
    /// A non-empty progress line, typically because a `\r` came.
    Progress(String),
    /// No output yet; read again.
    Pending,
    /// An empty line.
    Empty,
    /// Nothing more to read.
    Done,
}

/// A driver output as a kind (0: line, 1: progress, 2: pending, 3: empty,
/// 4: done) and its text.
pub open spec fn output_view(o: DriverOutput) -> (int, Seq<char>) {
    match o {
        DriverOutput::Line(s) => (0, s@),
        DriverOutput::Progress(s) => (1, s@),
        DriverOutput::Pending => (2, Seq::empty()),
        DriverOutput::Empty => (3, Seq::empty()),
        DriverOutput::Done => (4, Seq::empty()),
    }
}

/// The output for the last line read: trimmed, it is empty, a line (when
/// it ended with `\n`) or a progress line.
pub open spec fn classify(line: Seq<char>, lf: bool) -> (int, Seq<char>) {
    let t = trim(line);
    if t.len() == 0 {
        (3, Seq::empty())
    } else if lf {
        (0, t)
    } else {
        (1, t)
    }
}

impl DriverOutput {
    /// The output for the last line read (see `classify`).
    pub fn new(line: &str, lf: bool) -> (r: Self)
        ensures
            output_view(r) == classify(line@, lf),
    {
        let cs = str_chars(line);
        let (a, b) = trim_bounds(&cs);
        if a == b {
            return DriverOutput::Empty;
        }
        let mut t = String::new();
        let mut k = a;
        while k < b
            invariant
                a <= k <= b <= cs@.len(),
                t@ == cs@.subrange(a as int, k as int),
            decreases b - k,
        {
            push_char(&mut t, cs[k]);
            k = k + 1;
            assert(t@ =~= cs@.subrange(a as int, k as int));
        }
        if lf {
            DriverOutput::Line(t)
        } else {
            DriverOutput::Progress(t)
        }
    }
}

/// Reads the output and error streams of a child into lines. The caller
/// reads the streams and hands over what it read.
pub struct Driver {
    out_buf: String,
    err_buf: String,
    out_pending: Vec<u8>,
    err_pending: Vec<u8>,
    line_buf: String,
    only_last_line: bool,
    out_open: bool,
    err_open: bool,
}

impl Driver {
    /// A driver for the given streams.
    pub fn new(has_out: bool, has_err: bool, only_last_line: bool) -> (r: Self)
        ensures
            r.out_open() == has_out,
            r.err_open() == has_err,
            r.pending(false) == Seq::<u8>::empty(),
            r.pending(true) == Seq::<u8>::empty(),
            r.partial(false) == Seq::<char>::empty(),
            r.partial(true) == Seq::<char>::empty(),
            r.only_last_line() == only_last_line,
    {
        Driver {
            out_buf: String::new(),
            err_buf: String::new(),
            out_pending: Vec::new(),
            err_pending: Vec::new(),
            line_buf: String::new(),
            only_last_line,
            out_open: has_out,
            err_open: has_err,
        }
    }

    /// Whether the output stream is still read.
    pub closed spec fn out_open(&self) -> bool {
        self.out_open
    }

    /// Whether the error stream is still read.
    pub closed spec fn err_open(&self) -> bool {
        self.err_open
    }

    /// Whether only the last line of a read is kept.
    pub closed spec fn only_last_line(&self) -> bool {
        self.only_last_line
    }

    /// The bytes of a stream that start a character not yet complete.
    pub closed spec fn pending(&self, is_err: bool) -> Seq<u8> {
        if is_err {
            self.err_pending@
        } else {
            self.out_pending@
        }
    }

    /// The part of a stream's line not yet ended.
    pub closed spec fn partial(&self, is_err: bool) -> Seq<char> {
        if is_err {
            self.err_buf@
        } else {
            self.out_buf@
        }
    }

    /// Whether the output stream is still read.
    pub fn is_out_open(&self) -> (r: bool)
        ensures
            r == self.out_open(),
    {
        self.out_open
    }

    /// Whether the error stream is still read.
    pub fn is_err_open(&self) -> (r: bool)
        ensures
            r == self.err_open(),
    {
        self.err_open
    }

    /// Takes bytes read from a stream (the error stream if `is_err`):
    /// they are read after the bytes left over from before (see
    /// `process_spec`), and the last line read is classified.
    pub fn feed(&mut self, is_err: bool, bytes: &[u8]) -> (r: DriverOutput)
        ensures
            ({
                let all = old(self).pending(is_err) + bytes@;
                let st = process_spec(all, old(self).partial(is_err), old(self).only_last_line());
                &&& output_view(r) == classify(st.line, st.full)
                &&& final(self).pending(is_err) == all.subrange(st.i as int, all.len() as int)
                &&& final(self).partial(is_err) == st.out
                &&& final(self).pending(!is_err) == old(self).pending(!is_err)
                &&& final(self).partial(!is_err) == old(self).partial(!is_err)
                &&& final(self).out_open() == old(self).out_open()
                &&& final(self).err_open() == old(self).err_open()
                &&& final(self).only_last_line() == old(self).only_last_line()
            }),
    {
        let mut all: Vec<u8> = if is_err {
            self.err_pending.clone()
        } else {
            self.out_pending.clone()
        };
        let mut k: usize = 0;
        let ghost start = all@;
        while k < bytes.len()
            invariant
                k <= bytes@.len(),
                all@ == start + bytes@.take(k as int),
            decreases bytes@.len() - k,
        {
            all.push(bytes[k]);
            k = k + 1;
            assert(all@ =~= start + bytes@.take(k as int));
        }
        assert(bytes@.take(bytes@.len() as int) =~= bytes@);
        let (used, lf) = if is_err {
            process(all.as_slice(), &mut self.err_buf, &mut self.line_buf, self.only_last_line)
        } else {
            process(all.as_slice(), &mut self.out_buf, &mut self.line_buf, self.only_last_line)
        };
        let mut rest: Vec<u8> = Vec::new();
        let mut j = used;
        while j < all.len()
            invariant
                used <= j <= all@.len(),
                rest@ == all@.subrange(used as int, j as int),
            decreases all@.len() - j,
        {
            rest.push(all[j]);
            j = j + 1;
            assert(rest@ =~= all@.subrange(used as int, j as int));
        }
        if is_err {
            self.err_pending = rest;
        } else {
            self.out_pending = rest;
        }
        DriverOutput::new(self.line_buf.as_str(), lf)
    }

    /// A stream ended (or failed): with the other stream still open, the
    /// caller reads on (`Pending`); otherwise reading is `Done`.
    pub fn end_stream(&mut self, is_err: bool) -> (r: DriverOutput)
        ensures
            output_view(r).0 == if old(self).out_open() && old(self).err_open() { 2int } else { 4int },
            final(self).out_open() == (old(self).out_open() && is_err),
            final(self).err_open() == (old(self).err_open() && !is_err),
            final(self).pending(false) == old(self).pending(false),
            final(self).pending(true) == old(self).pending(true),
            final(self).partial(false) == old(self).partial(false),
            final(self).partial(true) == old(self).partial(true),
            final(self).only_last_line() == old(self).only_last_line(),
    {
        let both = self.out_open && self.err_open;
        if is_err {
            self.err_open = false;
        } else {
            self.out_open = false;
        }
        if both {
            DriverOutput::Pending
        } else {
            DriverOutput::Done
        }
    }
}


proof fn lemma_proc_from_rest(buf: Seq<u8>, st: ProcState, only_last: bool)
    requires
        st.i <= buf.len(),
    ensures
        proc_from(buf, st, only_last).i <= buf.len(),
        incomplete(buf.subrange(proc_from(buf, st, only_last).i as int, buf.len() as int)),
    decreases buf.len() - st.i,
{
    if st.i >= buf.len() {
        assert(buf.subrange(st.i as int, buf.len() as int).len() == 0);
    } else {
        let sub = buf.subrange(st.i as int, buf.len() as int);
        match decode_char_spec(sub) {
            Err(true) => {
                lemma_proc_from_rest(buf, ProcState { i: st.i + 1, invalid: true, ..st }, only_last);
            },
            Err(false) => {},
            Ok((c, l)) => {
                assert(1 <= l <= sub.len());
                lemma_proc_from_rest(buf, char_step(st, c, l, only_last), only_last);
            },
        }
    }
}

/// Reading a buffer stops only at its end or before a character whose
/// bytes have not all come: what is left over (and kept by `Driver::feed`
/// for the next read) is at most three bytes, the start of one character.
pub proof fn law_leftover_is_partial_char(buf: Seq<u8>, out: Seq<char>, only_last: bool)
    ensures
        process_spec(buf, out, only_last).i <= buf.len(),
        buf.len() - process_spec(buf, out, only_last).i <= 3,
        incomplete(buf.subrange(process_spec(buf, out, only_last).i as int, buf.len() as int)),
{
    let init = ProcState {
        i: 0,
        invalid: false,
        esc: None,
        out,
        line: Seq::empty(),
        full: false,
        last: '\0',
    };
    lemma_proc_from_rest(buf, init, only_last);
    let rest = buf.subrange(process_spec(buf, out, only_last).i as int, buf.len() as int);
    if rest.len() > 0 {
        assert(lead_width(rest[0]) <= 4);
    }
}

} // verus!
