//! Byte counts in SI units with one decimal, such as `999.9T`.
use vstd::prelude::*;
use crate::text::{decimal, push_char, push_decimal};

verus! {

/// Formats an integer in SI bytes: `T`, `G`, `M` or `k` with one decimal,
/// or the plain count followed by `B` below a thousand.
pub struct ByteFormat(pub u64);

/// `n` in the unit of `unit` bytes, with one (truncated) decimal and the
/// unit's letter.
pub open spec fn unit_text(n: nat, unit: nat, letter: char) -> Seq<char> {
    decimal(n / unit) + seq!['.'] + decimal((n % unit) * 10 / unit) + seq![letter]
}

/// What `ByteFormat(n)` displays: the largest unit that `n` reaches.
pub open spec fn byte_text(n: nat) -> Seq<char> {
    if n >= 1_000_000_000_000 {
        unit_text(n, 1_000_000_000_000, 'T')
    } else if n >= 1_000_000_000 {
        unit_text(n, 1_000_000_000, 'G')
    } else if n >= 1_000_000 {
        unit_text(n, 1_000_000, 'M')
    } else if n >= 1000 {
        unit_text(n, 1000, 'k')
    } else {
        decimal(n).push('B')
    }
}

/// Appends `n` in unit `unit`.
fn push_unit(out: &mut String, n: u64, unit: u64, letter: char)
    requires
        1000 <= unit <= 1_000_000_000_000,
    ensures
        final(out)@ == old(out)@ + unit_text(n as nat, unit as nat, letter),
{
    let whole = n / unit;
    let deci = (n % unit) * 10 / unit;
    push_decimal(out, whole);
    push_char(out, '.');
    push_decimal(out, deci);
    push_char(out, letter);
    assert(final(out)@ =~= old(out)@ + unit_text(n as nat, unit as nat, letter));
}

impl ByteFormat {
    /// Appends the display of the count.
    pub fn write_to(&self, out: &mut String)
        ensures
            final(out)@ == old(out)@ + byte_text(self.0 as nat),
    {
        let n = self.0;
        if n >= 1_000_000_000_000 {
            push_unit(out, n, 1_000_000_000_000, 'T');
        } else if n >= 1_000_000_000 {
            push_unit(out, n, 1_000_000_000, 'G');
        } else if n >= 1_000_000 {
            push_unit(out, n, 1_000_000, 'M');
        } else if n >= 1000 {
            push_unit(out, n, 1000, 'k');
        } else {
            push_decimal(out, n);
            push_char(out, 'B');
            assert(final(out)@ =~= old(out)@ + byte_text(n as nat));
        }
    }

    /// The display of the count.
    pub fn to_string(&self) -> (r: String)
        ensures
            r@ == byte_text(self.0 as nat),
    {
        let mut r = String::new();
        self.write_to(&mut r);
        assert(r@ =~= byte_text(self.0 as nat));
        r
    }
}

/// The part after the point is one digit: a unit's display has exactly one
/// decimal.
pub proof fn law_byte_format_one_decimal(n: nat, unit: nat)
    requires
        unit > 0,
    ensures
        (n % unit) * 10 / unit < 10,
        decimal((n % unit) * 10 / unit).len() == 1,
{
    let r = n % unit;
    assert(r < unit);
    assert(r * 10 < unit * 10) by (nonlinear_arith)
        requires
            r < unit,
    ;
    assert((r * 10) / unit < 10) by (nonlinear_arith)
        requires
            r * 10 < unit * 10,
            unit > 0,
    ;
}

} // verus!
