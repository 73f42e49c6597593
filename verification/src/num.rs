//! Base-10 rendering of the integer kinds and of the timestamp.
//!
//! The mathematical form lives in `dec_rep` and `dec_int`; the actual
//! digits are written by itoa, which the wrappers below hold to exactly
//! that form.
use vstd::prelude::*;

verus! {

/// The character for one decimal digit value below ten.
pub open spec fn dec_digit(d: int) -> char {
    if d == 0 {
        '0'
    } else if d == 1 {
        '1'
    } else if d == 2 {
        '2'
    } else if d == 3 {
        '3'
    } else if d == 4 {
        '4'
    } else if d == 5 {
        '5'
    } else if d == 6 {
        '6'
    } else if d == 7 {
        '7'
    } else if d == 8 {
        '8'
    } else {
        '9'
    }
}

/// The base-10 rendering of a natural number: most significant digit
/// first, no leading zeros (zero itself is the single digit `0`).
pub open spec fn dec_rep(n: nat) -> Seq<char>
    decreases n,
{
    if n < 10 {
        seq![dec_digit(n as int)]
    } else {
        dec_rep(n / 10) + seq![dec_digit((n % 10) as int)]
    }
}

/// The base-10 rendering of an integer: a minus sign before the digits
/// when the value is negative.
pub open spec fn dec_int(i: int) -> Seq<char> {
    if i < 0 {
        seq!['-'] + dec_rep((-i) as nat)
    } else {
        dec_rep(i as nat)
    }
}

/// One of the ten decimal digit characters.
pub open spec fn is_dec_digit(c: char) -> bool {
    c == '0' || c == '1' || c == '2' || c == '3' || c == '4' || c == '5' || c == '6' || c == '7'
        || c == '8' || c == '9'
}

/// The rendering of a natural number is never empty and holds decimal
/// digits only.
pub proof fn lemma_dec_rep_digits(n: nat)
    ensures
        dec_rep(n).len() >= 1,
        forall|i: int| 0 <= i < dec_rep(n).len() ==> is_dec_digit(#[trigger] dec_rep(n)[i]),
    decreases n,
{
    if n < 10 {
    } else {
        lemma_dec_rep_digits(n / 10);
    }
}

/// Relies on `itoa::Buffer::format` on a `u64`: it writes the value in
/// base 10 with no leading zeros, exactly as core's `Display` for `u64`
/// does.
#[verifier::external_body]
pub(crate) fn append_dec_u64(buf: &mut String, v: u64)
    ensures
        final(buf)@ == old(buf)@ + dec_rep(v as nat),
{
    let mut b = itoa::Buffer::new();
    buf.push_str(b.format(v));
}

/// Relies on `itoa::Buffer::format` on an `i64`: base 10, no leading
/// zeros, a leading minus sign when the value is negative, exactly as
/// core's `Display` for `i64` does.
#[verifier::external_body]
pub(crate) fn append_dec_i64(buf: &mut String, v: i64)
    ensures
        final(buf)@ == old(buf)@ + dec_int(v as int),
{
    let mut b = itoa::Buffer::new();
    buf.push_str(b.format(v));
}

} // verus!
