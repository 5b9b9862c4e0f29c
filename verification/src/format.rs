//! Decimal notation of integers, as `format!("{}", n)` writes it.

use vstd::prelude::*;

use crate::text::push_char;

verus! {

/// The decimal digit of `d` (for `0 <= d < 10`).
pub open spec fn digit_char(d: int) -> char {
    ((d + 48) as u32) as char
}

/// The decimal digits of a non-negative number, most significant first.
pub open spec fn spec_digits(n: nat) -> Seq<char>
    decreases n,
{
    if n < 10 {
        seq![digit_char(n as int)]
    } else {
        spec_digits(n / 10) + seq![digit_char((n % 10) as int)]
    }
}

/// The decimal notation of `n`, with a leading `-` when negative.
pub open spec fn spec_decimal(n: int) -> Seq<char> {
    if n < 0 {
        seq!['-'] + spec_digits((-n) as nat)
    } else {
        spec_digits(n as nat)
    }
}

fn digit(d: u64) -> (c: char)
    requires
        d < 10,
    ensures
        c == digit_char(d as int),
{
    let code: u8 = (d as u8) + 48;
    code as char
}

/// The decimal digits of `n`, appended to `out`.
fn push_digits(out: &mut String, n: u64)
    ensures
        final(out)@ == old(out)@ + spec_digits(n as nat),
    decreases n,
{
    if n < 10 {
        push_char(out, digit(n));
        assert(old(out)@.push(digit_char(n as int)) =~= old(out)@ + seq![digit_char(n as int)]);
    } else {
        push_digits(out, n / 10);
        push_char(out, digit(n % 10));
        assert(old(out)@ + spec_digits((n / 10) as nat) + seq![digit_char((n % 10) as int)]
            =~= old(out)@ + spec_digits(n as nat));
    }
}

/// The decimal notation of `n`.
pub fn decimal_u64(n: u64) -> (s: String)
    ensures
        s@ == spec_decimal(n as int),
{
    let mut s = String::new();
    push_digits(&mut s, n);
    assert(Seq::<char>::empty() + spec_digits(n as nat) =~= spec_digits(n as nat));
    s
}

/// The decimal notation of `n`.
pub fn decimal_i64(n: i64) -> (s: String)
    ensures
        s@ == spec_decimal(n as int),
{
    let mut s = String::new();
    if n < 0 {
        push_char(&mut s, '-');
        let magnitude: u64 = ((-(n + 1)) as u64) + 1;
        push_digits(&mut s, magnitude);
        assert(seq!['-'] + spec_digits(magnitude as nat) =~= spec_decimal(n as int));
    } else {
        push_digits(&mut s, n as u64);
        assert(Seq::<char>::empty() + spec_digits(n as nat) =~= spec_digits(n as nat));
    }
    s
}

} // verus!
