//! Reading a panic's payload, and the error text of a string that is not
//! UTF-8.
use vstd::prelude::*;
use vstd::string::StringExecFns;

verus! {

/// What a panic carried, as far as it can be read: its message (a `&str`
/// or a `String`), or something else.
pub enum PanicPayload {
    Message(String),
    Unknown,
}

/// The message of a panic, or `unknown panic info` when the payload is not
/// text.
pub fn best_effort_panic_info(payload: &PanicPayload) -> (r: &str)
    ensures
        r@ == match payload {
            PanicPayload::Message(s) => s@,
            PanicPayload::Unknown => "unknown panic info"@,
        },
{
    match payload {
        PanicPayload::Message(s) => s.as_str(),
        PanicPayload::Unknown => "unknown panic info",
    }
}

/// The error text of a path or OS string that is not UTF-8: `not utf-8: `
/// before the string's quoted, escaped form (its `Debug` text).
pub fn not_utf8_message(quoted: &str) -> (r: String)
    ensures
        r@ == seq!['n', 'o', 't', ' ', 'u', 't', 'f', '-', '8', ':', ' '] + quoted@,
{
    proof {
        reveal_strlit("not utf-8: ");
    }
    let mut r = String::from_str("not utf-8: ");
    r.append(quoted);
    assert(r@ =~= seq!['n', 'o', 't', ' ', 'u', 't', 'f', '-', '8', ':', ' '] + quoted@);
    r
}

} // verus!
