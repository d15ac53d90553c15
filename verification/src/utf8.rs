//! Decoding one UTF-8 character at the start of a byte buffer that may end
//! in the middle of a character.
use vstd::prelude::*;
use vstd::utf8::{
    decode_first_scalar, is_continuation_byte, is_leading_byte_width_1, is_leading_byte_width_2,
    is_leading_byte_width_3, is_leading_byte_width_4, length_of_first_scalar, valid_first_scalar,
};

verus! {

/// `char::from_u32` from std: the character with the given code, or
/// `None` for a surrogate or a value past U+10FFFF, as its documentation
/// says.
#[verifier::external_body]
fn char_from_u32(v: u32) -> (r: Option<char>)
    ensures
        r is Some <==> (v <= 0xD7FF || (0xE000 <= v && v <= 0x10FFFF)),
        r is Some ==> r.unwrap() as u32 == v && r.unwrap() == v as char,
{
    char::from_u32(v)
}

/// The number of bytes a leading byte announces, or 0 for a byte that
/// cannot lead.
pub open spec fn lead_width(b: u8) -> nat {
    if is_leading_byte_width_1(b) {
        1
    } else if is_leading_byte_width_2(b) {
        2
    } else if is_leading_byte_width_3(b) {
        3
    } else if is_leading_byte_width_4(b) {
        4
    } else {
        0
    }
}

/// The bytes end before the character they start is complete: they are
/// empty, or a leading byte is followed by fewer continuation bytes than it
/// announces, and by nothing else.
pub open spec fn incomplete(bytes: Seq<u8>) -> bool {
    bytes.len() == 0 || (lead_width(bytes[0]) > bytes.len() && forall|k: int|
        1 <= k < bytes.len() ==> is_continuation_byte(#[trigger] bytes[k]))
}

/// What decoding the start of `bytes` gives: the character and its length,
/// `Err(false)` when more bytes are needed, and `Err(true)` when the bytes
/// cannot start a character.
pub open spec fn decode_char_spec(bytes: Seq<u8>) -> Result<(char, nat), bool> {
    if valid_first_scalar(bytes) {
        Ok((decode_first_scalar(bytes) as char, length_of_first_scalar(bytes) as nat))
    } else if incomplete(bytes) {
        Err(false)
    } else {
        Err(true)
    }
}

/// Decodes the character that starts at `at` in `bytes` (see
/// `decode_char_spec`).
pub fn decode_char(bytes: &[u8], at: usize) -> (r: Result<(char, usize), bool>)
    requires
        at <= bytes@.len(),
    ensures
        match r {
            Ok((c, l)) => decode_char_spec(bytes@.subrange(at as int, bytes@.len() as int)) == Ok::<
                (char, nat),
                bool,
            >((c, l as nat)),
            Err(e) => decode_char_spec(bytes@.subrange(at as int, bytes@.len() as int)) == Err::<
                (char, nat),
                bool,
            >(e),
        },
{
    let ghost sb = bytes@.subrange(at as int, bytes@.len() as int);
    let n = bytes.len() - at;
    if n == 0 {
        return Err(false);
    }
    let b0 = bytes[at];
    let w: usize = if b0 <= 0x7f {
        1
    } else if 0xc0 <= b0 && b0 <= 0xdf {
        2
    } else if 0xe0 <= b0 && b0 <= 0xef {
        3
    } else if 0xf0 <= b0 && b0 <= 0xf7 {
        4
    } else {
        0
    };
    assert(w == lead_width(sb[0]));
    if w == 0 {
        return Err(true);
    }
    if w == 1 {
        let c = char_from_u32((b0 & 0x7f) as u32);
        assert((b0 & 0x7f) as u32 <= 0x7f) by (bit_vector);
        assert(valid_first_scalar(sb));
        return match c {
            Some(c) => Ok((c, 1)),
            None => Err(true),
        };
    }
    // the continuation bytes present
    let avail = if n < w {
        n
    } else {
        w
    };
    let blen = bytes.len();
    let mut k: usize = 1;
    while k < avail
        invariant
            blen == bytes@.len(),
            1 <= k <= avail,
            avail <= n,
            avail <= w,
            2 <= w <= 4,
            w == lead_width(sb[0]),
            n == sb.len(),
            at + n == bytes@.len(),
            sb == bytes@.subrange(at as int, bytes@.len() as int),
            forall|j: int| 1 <= j < k ==> is_continuation_byte(#[trigger] sb[j]),
        decreases avail - k,
    {
        if !(0x80 <= bytes[at + k] && bytes[at + k] <= 0xbf) {
            assert(!valid_first_scalar(sb));
            assert(!incomplete(sb)) by {
                if n < w {
                    assert(!is_continuation_byte(sb[k as int]));
                }
            }
            return Err(true);
        }
        k = k + 1;
    }
    if n < w {
        assert(!valid_first_scalar(sb));
        assert(incomplete(sb));
        return Err(false);
    }
    let b1 = bytes[at + 1];
    let b2 = if w >= 3 {
        bytes[at + 2]
    } else {
        0
    };
    let b3 = if w >= 4 {
        bytes[at + 3]
    } else {
        0
    };
    let cp: u32 = if w == 2 {
        (((b0 & 0x1f) as u32) << 6) | ((b1 & 0x3f) as u32)
    } else if w == 3 {
        (((b0 & 0x0f) as u32) << 12) | (((b1 & 0x3f) as u32) << 6) | ((b2 & 0x3f) as u32)
    } else {
        (((b0 & 0x07) as u32) << 18) | (((b1 & 0x3f) as u32) << 12) | (((b2 & 0x3f) as u32) << 6)
            | ((b3 & 0x3f) as u32)
    };
    let not_overlong = if w == 2 {
        0x80 <= cp
    } else if w == 3 {
        0x800 <= cp
    } else {
        0x10000 <= cp && cp <= 0x10ffff
    };
    let not_surrogate = !(0xD800 <= cp && cp <= 0xDFFF);
    if !not_overlong || !not_surrogate {
        assert(!valid_first_scalar(sb));
        assert(!incomplete(sb));
        return Err(true);
    }
    assert(valid_first_scalar(sb));
    assert(decode_first_scalar(sb) == cp);
    match char_from_u32(cp) {
        Some(c) => {
            assert(c == cp as char);
            Ok((c, w))
        },
        None => {
            assert(cp <= 0x10ffff) by {
                if w == 2 {
                    assert((((b0 & 0x1f) as u32) << 6) | ((b1 & 0x3f) as u32) <= 0x7ff) by (bit_vector);
                } else if w == 3 {
                    assert((((b0 & 0x0f) as u32) << 12) | (((b1 & 0x3f) as u32) << 6) | ((b2 & 0x3f)
                        as u32) <= 0xffff) by (bit_vector);
                }
            }
            Err(true)
        },
    }
}

} // verus!
