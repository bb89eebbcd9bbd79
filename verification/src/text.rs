//! Small text helpers: pushing characters, decimal digits.

use vstd::prelude::*;

verus! {

/// Relies on `String::push`: appends exactly the given character.
pub assume_specification [ String::push ](s: &mut String, c: char)
    ensures
        final(s)@ == old(s)@.push(c),
;

/// Relies on `char::from_u32`: yields the character with the given code
/// point exactly when the value is a Unicode scalar value (not a
/// surrogate, not beyond the last code point).
pub assume_specification [ char::from_u32 ](u: u32) -> (r: Option<char>)
    ensures
        (r is Some) <==> (u < 0xD800 || (0xE000 <= u && u <= 0x10FFFF)),
        r matches Some(c) ==> c as u32 == u,
;

/// The decimal digits of `n`, most significant first.
pub open spec fn dec_digits(n: nat) -> Seq<char>
    decreases n,
{
    if n < 10 {
        seq![((48 + n) as char)]
    } else {
        dec_digits(n / 10).push(((48 + n % 10) as char))
    }
}

/// Appends the decimal digits of `n`.
pub fn push_decimal(s: &mut String, n: u64)
    ensures
        final(s)@ == old(s)@ + dec_digits(n as nat),
    decreases n,
{
    if n >= 10 {
        push_decimal(s, n / 10);
    }
    let d: u8 = (n % 10) as u8;
    let c: char = (48 + d) as char;
    s.push(c);
    proof {
        if n < 10 {
            assert(old(s)@ + dec_digits(n as nat) == old(s)@.push(c));
        } else {
            assert(old(s)@ + dec_digits(n as nat) == (old(s)@ + dec_digits((n / 10) as nat)).push(
                c,
            ));
        }
    }
}

/// The decimal digits of an integer, with a leading minus sign when
/// negative.
pub open spec fn signed_dec_digits(v: int) -> Seq<char> {
    if v < 0 {
        seq!['-'] + dec_digits((-v) as nat)
    } else {
        dec_digits(v as nat)
    }
}

/// Appends the signed decimal digits of `v`.
pub fn push_signed_decimal(s: &mut String, v: i64)
    requires
        v > i64::MIN,
    ensures
        final(s)@ == old(s)@ + signed_dec_digits(v as int),
{
    if v < 0 {
        s.push('-');
        push_decimal(s, (-v) as u64);
        proof {
            assert(old(s)@ + signed_dec_digits(v as int) =~= (old(s)@.push('-')) + dec_digits(
                (-v) as nat,
            ));
        }
    } else {
        push_decimal(s, v as u64);
    }
}

/// The decimal digits of `n` as a string.
pub fn decimal_string(n: u64) -> (s: String)
    ensures
        s@ == dec_digits(n as nat),
{
    let mut s: String = String::new();
    push_decimal(&mut s, n);
    proof {
        assert(Seq::<char>::empty() + dec_digits(n as nat) == dec_digits(n as nat));
    }
    s
}

} // verus!
