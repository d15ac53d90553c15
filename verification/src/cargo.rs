//! Following a cargo build: status lines from cargo's stderr put the crates
//! being compiled on the progress bar; its JSON messages on stdout count
//! finished crates, forward compiler diagnostics and tell when the build
//! is done. What to print and show is returned as actions for the caller.
use vstd::prelude::*;
use vstd::string::StringExecFns;
use vstd::string::StringSliceAdditionalSpecFns;
use vstd::utf8::{decode_utf8, encode_utf8, is_char_boundary};
use crate::level::Lv;
use crate::sorted::{sorted_insert, sorted_remove, strictly_sorted, texts};
use crate::text::{decimal, push_char, push_decimal, str_chars, trim, trim_bounds};

verus! {

#[verifier::external_type_specification]
#[verifier::external_body]
pub struct ExRegex(regex::Regex);

#[verifier::external_type_specification]
#[verifier::external_body]
pub struct ExRegexError(regex::Error);

/// The pattern a compiled regex was built from (what `Regex::as_str`
/// returns).
pub uninterp spec fn regex_source(r: regex::Regex) -> Seq<char>;

/// Whether `Regex::new` accepts a pattern.
pub uninterp spec fn regex_valid(p: Seq<char>) -> bool;

/// The byte range of the first match of a pattern in a text (what
/// `Regex::find` gives).
pub uninterp spec fn regex_find_range(p: Seq<char>, text: Seq<char>) -> Option<(usize, usize)>;

/// Whether a pattern matches somewhere in a text (what `Regex::is_match`
/// gives).
pub uninterp spec fn regex_is_match(p: Seq<char>, text: Seq<char>) -> bool;

/// `regex::Regex::new`: claimed to succeed exactly on the patterns it
/// accepts, and to keep the pattern (which `as_str` gives back).
#[verifier::external_body]
fn regex_new(p: &str) -> (r: Result<regex::Regex, regex::Error>)
    ensures
        r is Ok <==> regex_valid(p@),
        r matches Ok(re) ==> regex_source(re) == p@,
{
    regex::Regex::new(p)
}

/// `regex::Regex::find`: claimed to give the range named by
/// `regex_find_range` for the regex's pattern; the crate documents that
/// the range lies in the text and that its ends fall on character
/// boundaries.
#[verifier::external_body]
fn regex_find(re: &regex::Regex, text: &str) -> (r: Option<(usize, usize)>)
    ensures
        r == regex_find_range(regex_source(*re), text@),
        r is Some ==> r.unwrap().0 <= r.unwrap().1 <= text.spec_bytes().len(),
        r is Some ==> is_char_boundary(text.spec_bytes(), r.unwrap().1 as int),
{
    match re.find(text) {
        Some(m) => Some((m.start(), m.end())),
        None => None,
    }
}

/// `regex::Regex::is_match`: claimed to be what `regex_is_match` names for
/// the regex's pattern.
#[verifier::external_body]
fn regex_matches(re: &regex::Regex, text: &str) -> (r: bool)
    ensures
        r == regex_is_match(regex_source(*re), text@),
{
    re.is_match(text)
}

/// A cargo status line: `Compiling` or `Checking` after color codes and
/// spaces.
pub const STATUS_PATTERN: &'static str = "^((\x1b[^m]*m)|\\s)*(Compiling|Checking)((\x1b[^m]*m)|\\s)*";

/// A line that starts an error message.
pub const ERROR_PATTERN: &'static str = "^((\x1b[^m]*m)|\\s)*error";

/// A line that starts a warning message.
pub const WARNING_PATTERN: &'static str = "^((\x1b[^m]*m)|\\s)*warning";

/// A JSON message from cargo, as far as it is read.
pub struct Payload {
    pub reason: String,
    /// The target's name.
    pub target_name: Option<String>,
    pub message: Option<PayloadMessage>,
    pub success: Option<bool>,
}

/// A compiler message inside a cargo message.
pub struct PayloadMessage {
    pub level: Option<String>,
    /// The message, rendered with color codes.
    pub rendered: Option<String>,
}

/// What following the build asks of the caller.
pub enum CargoAction {
    /// Print the text at the level.
    Print(Lv, String),
    /// Hand a diagnostic to the hook: whether it is a warning, and the text.
    Diagnostic(bool, String),
    /// Set the progress bar's message.
    Progress(String),
    /// Mark the progress bar done.
    Done,
}

/// An action as a kind (0: print, 1: diagnostic, 2: progress, 3: done),
/// level, flag and text.
pub open spec fn action_view(a: CargoAction) -> (int, Option<Lv>, bool, Seq<char>) {
    match a {
        CargoAction::Print(lv, s) => (0, Some(lv), false, s@),
        CargoAction::Diagnostic(w, s) => (1, None, w, s@),
        CargoAction::Progress(s) => (2, None, false, s@),
        CargoAction::Done => (3, None, false, Seq::empty()),
    }
}

/// Actions as views.
pub open spec fn actions_view(v: Seq<CargoAction>) -> Seq<(int, Option<Lv>, bool, Seq<char>)> {
    v.map_values(|a: CargoAction| action_view(a))
}

/// A print action.
pub open spec fn print_of(lv: Lv, s: Seq<char>) -> (int, Option<Lv>, bool, Seq<char>) {
    (0, Some(lv), false, s)
}

/// Names joined with `, `.
pub open spec fn join(names: Seq<Seq<char>>) -> Seq<char>
    decreases names.len(),
{
    if names.len() == 0 {
        Seq::empty()
    } else if names.len() == 1 {
        names[0]
    } else {
        join(names.drop_last()) + seq![',', ' '] + names.last()
    }
}

/// The bar's message: the count of crates done and the crates compiling
/// (in order), or only the count, or nothing before anything happened.
pub open spec fn bar_message(count: nat, names: Seq<Seq<char>>) -> Option<Seq<char>> {
    if names.len() > 0 {
        Some(
            decimal(count) + seq![
                ' ',
                'd',
                'o',
                'n',
                'e',
                ',',
                ' ',
                'c',
                'o',
                'm',
                'p',
                'i',
                'l',
                'i',
                'n',
                'g',
                ':',
                ' ',
            ] + join(names),
        )
    } else if count != 0 {
        Some(decimal(count) + seq![' ', 'd', 'o', 'n', 'e'])
    } else {
        None
    }
}

/// The text of `s` after its first `b` bytes of UTF-8.
pub open spec fn after_byte(s: Seq<char>, b: nat) -> Seq<char> {
    decode_utf8(encode_utf8(s).subrange(b as int, encode_utf8(s).len() as int))
}

/// The text up to the first space.
pub open spec fn first_word(s: Seq<char>) -> Seq<char>
    decreases s.len(),
{
    if s.len() == 0 || s[0] == ' ' {
        Seq::empty()
    } else {
        seq![s[0]] + first_word(s.drop_first())
    }
}

/// `-` replaced by `_`.
pub open spec fn underscored(s: Seq<char>) -> Seq<char> {
    Seq::new(s.len(), |i: int| if s[i] == '-' { '_' } else { s[i] })
}

/// The crate named in the rest of a status line: its first word (crate
/// names hold no spaces), with `-` as `_`.
pub open spec fn crate_name(rest: Seq<char>) -> Seq<char> {
    underscored(first_word(trim(rest)))
}

/// The state of following a cargo build.
pub struct PrintState {
    error_lv: Lv,
    warning_lv: Lv,
    other_lv: Lv,
    done_count: usize,
    in_progress: Vec<String>,
    stderr_lv: Option<Lv>,
    has_hook: bool,
    status_re: regex::Regex,
    error_re: regex::Regex,
    warning_re: regex::Regex,
}

impl PrintState {
    /// The state's invariant: the crates compiling are sorted, each once,
    /// and the regexes are the three patterns.
    pub closed spec fn wf(&self) -> bool {
        &&& strictly_sorted(texts(self.in_progress@))
        &&& regex_source(self.status_re) == STATUS_PATTERN@
        &&& regex_source(self.error_re) == ERROR_PATTERN@
        &&& regex_source(self.warning_re) == WARNING_PATTERN@
    }

    /// Crates done.
    pub closed spec fn done_count(&self) -> nat {
        self.done_count as nat
    }

    /// Crates compiling, in order.
    pub closed spec fn in_progress(&self) -> Seq<Seq<char>> {
        texts(self.in_progress@)
    }

    /// The level of the error or warning message being printed from
    /// stderr, if one is.
    pub closed spec fn stderr_lv(&self) -> Option<Lv> {
        self.stderr_lv
    }

    /// The levels for errors, warnings and other messages.
    pub closed spec fn levels(&self) -> (Lv, Lv, Lv) {
        (self.error_lv, self.warning_lv, self.other_lv)
    }

    /// Whether a diagnostic hook takes the diagnostics.
    pub closed spec fn has_hook(&self) -> bool {
        self.has_hook
    }

    /// Crates done so far.
    pub fn crates_done(&self) -> (r: usize)
        ensures
            r == self.done_count(),
    {
        self.done_count
    }

    /// A state with nothing done. `None` only if the regex crate refused
    /// one of the three patterns.
    pub fn new(error_lv: Lv, warning_lv: Lv, other_lv: Lv, has_hook: bool) -> (r: Option<Self>)
        ensures
            r is Some <==> (regex_valid(STATUS_PATTERN@) && regex_valid(ERROR_PATTERN@)
                && regex_valid(WARNING_PATTERN@)),
            r matches Some(st) ==> {
                &&& st.wf()
                &&& st.done_count() == 0
                &&& st.in_progress() == Seq::<Seq<char>>::empty()
                &&& st.stderr_lv() is None
                &&& st.levels() == (error_lv, warning_lv, other_lv)
                &&& st.has_hook() == has_hook
            },
    {
        let status_re = match regex_new(STATUS_PATTERN) {
            Ok(r) => r,
            Err(_) => return None,
        };
        let error_re = match regex_new(ERROR_PATTERN) {
            Ok(r) => r,
            Err(_) => return None,
        };
        let warning_re = match regex_new(WARNING_PATTERN) {
            Ok(r) => r,
            Err(_) => return None,
        };
        let st = PrintState {
            error_lv,
            warning_lv,
            other_lv,
            done_count: 0,
            in_progress: Vec::new(),
            stderr_lv: None,
            has_hook,
            status_re,
            error_re,
            warning_re,
        };
        assert(texts(st.in_progress@) =~= Seq::<Seq<char>>::empty());
        Some(st)
    }
}

} // verus!

verus! {

/// The action that sets the bar's message, if there is a message.
pub open spec fn bar_actions(count: nat, names: Seq<Seq<char>>) -> Seq<(int, Option<Lv>, bool, Seq<char>)> {
    match bar_message(count, names) {
        Some(m) => seq![(2, None, false, m)],
        None => Seq::empty(),
    }
}

/// What a compiler message asks for: a warning or an error goes to the
/// hook when there is one, else it is printed at its level; other
/// messages are printed at the level for other messages.
pub open spec fn message_actions(
    levels: (Lv, Lv, Lv),
    has_hook: bool,
    msg: Option<PayloadMessage>,
) -> Seq<(int, Option<Lv>, bool, Seq<char>)> {
    match msg {
        None => Seq::empty(),
        Some(m) => match m.rendered {
            None => Seq::empty(),
            Some(r) => {
                let is_warning = m.level matches Some(l) && l@ == "warning"@;
                let is_error = m.level matches Some(l) && l@ == "error"@;
                if is_warning {
                    if has_hook {
                        seq![(1, None, true, r@)]
                    } else {
                        seq![print_of(levels.1, r@)]
                    }
                } else if is_error {
                    if has_hook {
                        seq![(1, None, false, r@)]
                    } else {
                        seq![print_of(levels.0, r@)]
                    }
                } else {
                    seq![print_of(levels.2, r@)]
                }
            },
        },
    }
}

fn eq_text(a: &str, b: &str) -> (r: bool)
    ensures
        r == (a@ == b@),
{
    crate::sorted::compare_text(a, b) == 0
}

/// The crate named in the rest of a status line (see `crate_name`).
fn crate_name_of(rest: &str) -> (r: String)
    ensures
        r@ == crate_name(rest@),
{
    let cs = str_chars(rest);
    let (a, b) = trim_bounds(&cs);
    let ghost t = cs@.subrange(a as int, b as int);
    let mut r = String::new();
    let mut k = a;
    while k < b && cs[k] != ' '
        invariant
            a <= k <= b <= cs@.len(),
            t == cs@.subrange(a as int, b as int),
            r@ == underscored(t.take(k - a)),
            forall|j: int| 0 <= j < k - a ==> t[j] != ' ',
        decreases b - k,
    {
        let c = cs[k];
        push_char(&mut r, if c == '-' { '_' } else { c });
        k = k + 1;
        assert(r@ =~= underscored(t.take(k - a)));
    }
    proof {
        lemma_first_word_prefix(t, (k - a) as nat);
    }
    r
}

/// The first word is the prefix before the first space.
proof fn lemma_first_word_prefix(t: Seq<char>, k: nat)
    requires
        k <= t.len(),
        forall|j: int| 0 <= j < k ==> t[j] != ' ',
        k == t.len() || t[k as int] == ' ',
    ensures
        first_word(t) == t.take(k as int),
    decreases k,
{
    if k == 0 {
        assert(t.take(0) =~= Seq::<char>::empty());
    } else {
        lemma_first_word_prefix(t.drop_first(), (k - 1) as nat);
        assert(t.take(k as int) =~= seq![t[0]] + t.drop_first().take(k - 1));
    }
}

impl PrintState {
    /// The bar's message (see `bar_message`).
    pub fn update_bar(&self) -> (r: Option<String>)
        ensures
            match r {
                Some(m) => bar_message(self.done_count(), self.in_progress()) == Some(m@),
                None => bar_message(self.done_count(), self.in_progress()) is None,
            },
    {
        let ghost names = texts(self.in_progress@);
        let n = self.in_progress.len();
        if n == 0 {
            if self.done_count != 0 {
                let mut m = String::new();
                push_decimal(&mut m, self.done_count as u64);
                proof {
                    reveal_strlit(" done");
                }
                m.append(" done");
                assert(m@ =~= decimal(self.done_count as nat) + seq![' ', 'd', 'o', 'n', 'e']);
                return Some(m);
            }
            return None;
        }
        let mut list = String::new();
        list.append(self.in_progress[0].as_str());
        assert(names.take(1).drop_last() =~= Seq::<Seq<char>>::empty());
        assert(list@ =~= join(names.take(1)));
        let mut k: usize = 1;
        while k < n
            invariant
                1 <= k <= n,
                n == self.in_progress@.len(),
                names == texts(self.in_progress@),
                list@ == join(names.take(k as int)),
            decreases n - k,
        {
            push_char(&mut list, ',');
            push_char(&mut list, ' ');
            list.append(self.in_progress[k].as_str());
            assert(names.take(k + 1).drop_last() =~= names.take(k as int));
            k = k + 1;
            assert(list@ =~= join(names.take(k as int)));
        }
        assert(names.take(n as int) =~= names);
        let mut m = String::new();
        push_decimal(&mut m, self.done_count as u64);
        proof {
            reveal_strlit(" done, compiling: ");
        }
        m.append(" done, compiling: ");
        m.append(list.as_str());
        assert(m@ =~= bar_message(self.done_count(), self.in_progress()).unwrap());
        Some(m)
    }
}

} // verus!

verus! {

/// A `String` option as characters.
pub open spec fn opt_view(o: Option<String>) -> Option<Seq<char>> {
    match o {
        Some(s) => Some(s@),
        None => None,
    }
}

/// What handling a cargo message does to the state (from `old` to
/// `new`) and which actions `r` it asks for.
pub open spec fn payload_effect(
    before: PrintState,
    after: PrintState,
    p: Payload,
    r: Seq<(int, Option<Lv>, bool, Seq<char>)>,
) -> bool {
    if p.reason@ == "compiler-artifact"@ && (p.target_name matches Some(n) && n@
        != "build-script-build"@) {
        &&& after.done_count() == before.done_count() + 1
        &&& after.in_progress().to_set() == before.in_progress().to_set().remove(
            p.target_name.unwrap()@,
        )
        &&& r == bar_actions(
            after.done_count(),
            after.in_progress(),
        )
    } else {
        &&& after.done_count() == before.done_count()
        &&& after.in_progress() == before.in_progress()
        &&& r == if p.reason@ == "compiler-artifact"@ {
            Seq::empty()
        } else if p.reason@ == "compiler-message"@ {
            message_actions(before.levels(), before.has_hook(), p.message)
        } else if p.reason@ == "build-finished"@ {
            if p.success == Some(true) {
                seq![(3, None, false, Seq::empty()), print_of(Lv::Trace, "cargo build successful"@)]
            } else {
                seq![print_of(Lv::Trace, "cargo build failed"@)]
            }
        } else if p.reason@ == "build-script-executed"@ {
            Seq::empty()
        } else {
            seq![print_of(Lv::Trace, "unhandled cargo message reason: "@ + p.reason@)]
        }
    }
}

impl PrintState {
    /// Handles a line from cargo's stderr. A status line (`Compiling x`,
    /// `Checking x`) is printed at the level for other messages, ends any
    /// error or warning being printed, and puts its crate on the bar. Other
    /// lines continue the error or warning being printed, or start one, or
    /// are printed at the level for other messages.
    pub fn handle_stderr(&mut self, line: &str) -> (r: Vec<CargoAction>)
        requires
            old(self).wf(),
        ensures
            final(self).wf(),
            final(self).levels() == old(self).levels(),
            final(self).has_hook() == old(self).has_hook(),
            final(self).done_count() == old(self).done_count(),
            match regex_find_range(STATUS_PATTERN@, line@) {
                None => {
                    &&& final(self).in_progress() == old(self).in_progress()
                    &&& match old(self).stderr_lv() {
                        Some(lv) => final(self).stderr_lv() == Some(lv) && actions_view(r@) == seq![
                            print_of(lv, line@),
                        ],
                        None => if regex_is_match(ERROR_PATTERN@, line@) {
                            final(self).stderr_lv() == Some(old(self).levels().0) && actions_view(
                                r@,
                            ) == seq![print_of(old(self).levels().0, line@)]
                        } else if regex_is_match(WARNING_PATTERN@, line@) {
                            final(self).stderr_lv() == Some(old(self).levels().1) && actions_view(
                                r@,
                            ) == seq![print_of(old(self).levels().1, line@)]
                        } else {
                            final(self).stderr_lv() is None && actions_view(r@) == seq![
                                print_of(old(self).levels().2, line@),
                            ]
                        },
                    }
                },
                Some((_, e)) => {
                    &&& final(self).stderr_lv() is None
                    &&& final(self).in_progress().to_set() == old(self).in_progress().to_set().insert(
                        crate_name(after_byte(line@, e as nat)),
                    )
                    &&& actions_view(r@) == seq![print_of(old(self).levels().2, line@)] + bar_actions(
                        final(self).done_count(),
                        final(self).in_progress(),
                    )
                },
            },
    {
        let mut r: Vec<CargoAction> = Vec::new();
        match regex_find(&self.status_re, line) {
            None => {
                match self.stderr_lv {
                    Some(lv) => {
                        r.push(CargoAction::Print(lv, String::from_str(line)));
                    },
                    None => {
                        if regex_matches(&self.error_re, line) {
                            r.push(CargoAction::Print(self.error_lv, String::from_str(line)));
                            self.stderr_lv = Some(self.error_lv);
                        } else if regex_matches(&self.warning_re, line) {
                            r.push(CargoAction::Print(self.warning_lv, String::from_str(line)));
                            self.stderr_lv = Some(self.warning_lv);
                        } else {
                            r.push(CargoAction::Print(self.other_lv, String::from_str(line)));
                        }
                    },
                }
                assert(actions_view(r@) =~= seq![action_view(r@[0])]);
                r
            },
            Some((_, e)) => {
                r.push(CargoAction::Print(self.other_lv, String::from_str(line)));
                self.stderr_lv = None;
                let (_, rest) = line.split_at(e);
                proof {
                    vstd::utf8::encode_utf8_decode_utf8(rest@);
                    assert(rest@ == after_byte(line@, e as nat));
                }
                let name = crate_name_of(rest);
                sorted_insert(&mut self.in_progress, name);
                let ghost first = actions_view(r@);
                match self.update_bar() {
                    Some(m) => r.push(CargoAction::Progress(m)),
                    None => {},
                }
                assert(actions_view(r@) =~= first + bar_actions(
                    self.done_count as nat,
                    texts(self.in_progress@),
                ));
                r
            },
        }
    }

    /// Handles a JSON message from cargo (see `message_actions` for
    /// compiler messages): a finished crate (other than a build script) is
    /// counted and leaves the bar's list, and a successful build marks the
    /// bar done.
    pub fn handle_payload(&mut self, p: &Payload) -> (r: Vec<CargoAction>)
        requires
            old(self).wf(),
            old(self).done_count() < usize::MAX,
        ensures
            final(self).wf(),
            final(self).levels() == old(self).levels(),
            final(self).has_hook() == old(self).has_hook(),
            final(self).stderr_lv() == old(self).stderr_lv(),
            payload_effect(*old(self), *final(self), *p, actions_view(r@)),
    {
        let ghost os = *self;
        let mut r: Vec<CargoAction> = Vec::new();
        if eq_text(p.reason.as_str(), "compiler-artifact") {
            match &p.target_name {
                None => {
                    assert(actions_view(r@) =~= Seq::empty());
                },
                Some(n) => {
                    if eq_text(n.as_str(), "build-script-build") {
                        assert(actions_view(r@) =~= Seq::empty());
                    } else {
                        self.done_count = self.done_count + 1;
                        sorted_remove(&mut self.in_progress, n.as_str());
                        match self.update_bar() {
                            Some(m) => r.push(CargoAction::Progress(m)),
                            None => {},
                        }
                        assert(actions_view(r@) =~= bar_actions(
                            self.done_count as nat,
                            texts(self.in_progress@),
                        ));
                    }
                },
            }
            assert(payload_effect(os, *self, *p, actions_view(r@)));
            return r;
        }
        if eq_text(p.reason.as_str(), "compiler-message") {
            match &p.message {
                None => {},
                Some(m) => match &m.rendered {
                    None => {},
                    Some(rendered) => {
                        let is_warning = match &m.level {
                            Some(l) => eq_text(l.as_str(), "warning"),
                            None => false,
                        };
                        let is_error = match &m.level {
                            Some(l) => eq_text(l.as_str(), "error"),
                            None => false,
                        };
                        if is_warning {
                            if self.has_hook {
                                r.push(CargoAction::Diagnostic(true, rendered.clone()));
                            } else {
                                r.push(CargoAction::Print(self.warning_lv, rendered.clone()));
                            }
                        } else if is_error {
                            if self.has_hook {
                                r.push(CargoAction::Diagnostic(false, rendered.clone()));
                            } else {
                                r.push(CargoAction::Print(self.error_lv, rendered.clone()));
                            }
                        } else {
                            r.push(CargoAction::Print(self.other_lv, rendered.clone()));
                        }
                    },
                },
            }
            assert(actions_view(r@) =~= message_actions(
                (self.error_lv, self.warning_lv, self.other_lv),
                self.has_hook,
                p.message,
            ));
            assert(payload_effect(os, *self, *p, actions_view(r@)));
            return r;
        }
        if eq_text(p.reason.as_str(), "build-finished") {
            if p.success == Some(true) {
                r.push(CargoAction::Done);
                r.push(CargoAction::Print(Lv::Trace, String::from_str("cargo build successful")));
            } else {
                r.push(CargoAction::Print(Lv::Trace, String::from_str("cargo build failed")));
            }
            assert(actions_view(r@) =~= if p.success == Some(true) {
                seq![(3, None, false, Seq::<char>::empty()), print_of(Lv::Trace, "cargo build successful"@)]
            } else {
                seq![print_of(Lv::Trace, "cargo build failed"@)]
            });
            assert(payload_effect(os, *self, *p, actions_view(r@)));
            return r;
        }
        if eq_text(p.reason.as_str(), "build-script-executed") {
            assert(actions_view(r@) =~= Seq::empty());
            assert(payload_effect(os, *self, *p, actions_view(r@)));
            return r;
        }
        let mut t = String::from_str("unhandled cargo message reason: ");
        t.append(p.reason.as_str());
        r.push(CargoAction::Print(Lv::Trace, t));
        assert(actions_view(r@) =~= seq![print_of(Lv::Trace, "unhandled cargo message reason: "@ + p.reason@)]);
        r
    }
}

} // verus!

verus! {

/// Whether a line of cargo's stdout is a JSON message: it starts with `{`.
pub fn is_json_line(line: &str) -> (r: bool)
    ensures
        r == (line@.len() > 0 && line@[0] == '{'),
{
    let cs = str_chars(line);
    cs.len() > 0 && cs[0] == '{'
}

impl PrintState {
    /// Handles a line from cargo's stdout, given what reading it as a cargo
    /// message gave (looked at only for JSON lines): other lines are traced,
    /// as are messages that could not be read; messages are handled by
    /// `handle_payload`.
    pub fn handle_stdout(&mut self, line: &str, parsed: Result<Payload, String>) -> (r: Vec<CargoAction>)
        requires
            old(self).wf(),
            old(self).done_count() < usize::MAX,
        ensures
            final(self).wf(),
            final(self).levels() == old(self).levels(),
            final(self).has_hook() == old(self).has_hook(),
            final(self).stderr_lv() == old(self).stderr_lv(),
            !(line@.len() > 0 && line@[0] == '{') ==> {
                &&& actions_view(r@) == seq![print_of(Lv::Trace, line@)]
                &&& final(self).done_count() == old(self).done_count()
                &&& final(self).in_progress() == old(self).in_progress()
            },
            (line@.len() > 0 && line@[0] == '{' && parsed is Err) ==> {
                &&& actions_view(r@) == seq![
                    print_of(Lv::Trace, "failed to parse cargo json output: "@ + parsed->Err_0@),
                ]
                &&& final(self).done_count() == old(self).done_count()
                &&& final(self).in_progress() == old(self).in_progress()
            },
            (line@.len() > 0 && line@[0] == '{' && parsed is Ok) ==> payload_effect(
                *old(self),
                *final(self),
                parsed->Ok_0,
                actions_view(r@),
            ),
    {
        if !is_json_line(line) {
            let mut r: Vec<CargoAction> = Vec::new();
            r.push(CargoAction::Print(Lv::Trace, String::from_str(line)));
            assert(actions_view(r@) =~= seq![print_of(Lv::Trace, line@)]);
            return r;
        }
        match parsed {
            Err(e) => {
                let mut t = String::from_str("failed to parse cargo json output: ");
                t.append(e.as_str());
                let mut r: Vec<CargoAction> = Vec::new();
                r.push(CargoAction::Print(Lv::Trace, t));
                assert(actions_view(r@) =~= seq![
                    print_of(Lv::Trace, "failed to parse cargo json output: "@ + e@),
                ]);
                r
            },
            Ok(p) => self.handle_payload(&p),
        }
    }
}


/// The bar's message depends only on the crates compiling, not on the
/// order their status lines came in: two states with the same crates
/// compiling and the same count show the same message.
pub proof fn law_bar_message_ignores_order(a: PrintState, b: PrintState)
    requires
        a.wf(),
        b.wf(),
        a.in_progress().to_set() == b.in_progress().to_set(),
        a.done_count() == b.done_count(),
    ensures
        bar_message(a.done_count(), a.in_progress()) == bar_message(b.done_count(), b.in_progress()),
{
    crate::sorted::law_sorted_determined_by_elements(a.in_progress(), b.in_progress());
}

} // verus!
