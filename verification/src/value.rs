//! The typed value a field carries, and its literal rendering rule.
//!
//! Each kind has a fixed textual form: text is quoted and escaped,
//! integers are base-10 digits with a trailing `i`, floats are the
//! decimal form that the native float-to-text conversion produced, with
//! no suffix. Because verified code holds no floating-point values, the
//! float kinds carry that pre-rendered decimal literal, and rendering
//! emits it verbatim.
use vstd::prelude::*;
use vstd::string::StringExecFns;

use crate::buf::push_char;
use crate::escape::build_escapedfieldstr;
use crate::escape::field_quoted;
use crate::num::append_dec_i64;
use crate::num::append_dec_u64;
use crate::num::dec_int;
use crate::num::dec_rep;
use crate::num::is_dec_digit;
use crate::num::lemma_dec_rep_digits;

verus! {

/// Why a record cannot be built or serialized.
#[derive(Clone, Copy, Debug, PartialEq, Eq, Structural)]
pub enum MetricError {
    /// The record declares no field; the format requires at least one.
    NoFields,
}

impl MetricError {
    /// A short description of the error.
    pub fn message(&self) -> (r: String)
        ensures
            r@ == "no fields defined for metric"@,
    {
        String::from_str("no fields defined for metric")
    }
}

/// The value (and kind) of one field.
pub enum FieldValue {
    /// Free text; rendered quoted and escaped.
    Str(String),
    /// Unsigned integer; rendered as digits with the suffix `i`.
    UInt32(u32),
    /// Unsigned integer; rendered as digits with the suffix `i`.
    UInt64(u64),
    /// Signed integer; rendered as digits with the suffix `i`.
    Int32(i32),
    /// Signed integer; rendered as digits with the suffix `i`.
    Int64(i64),
    /// A float, carried as the decimal literal the native float-to-text
    /// conversion produced; rendered verbatim, with no suffix.
    Float32(String),
    /// A float, carried as the decimal literal the native float-to-text
    /// conversion produced; rendered verbatim, with no suffix.
    Float64(String),
}

/// Digits at every position of `s` from `i` up to `j`, and at least one.
pub open spec fn span_of_digits(s: Seq<char>, i: int, j: int) -> bool {
    0 <= i < j <= s.len() && forall|k: int| i <= k < j ==> is_dec_digit(#[trigger] s[k])
}

/// Digits from `i` up to `j`, with or without a fractional part.
pub open spec fn span_of_mantissa(s: Seq<char>, i: int, j: int) -> bool {
    span_of_digits(s, i, j) || (exists|k: int|
        i < k < j && #[trigger] s[k] == '.' && span_of_digits(s, i, k) && span_of_digits(
            s,
            k + 1,
            j,
        ))
}

/// A mantissa from `i` up to `j`, with an optional leading minus sign.
pub open spec fn span_of_signed_mantissa(s: Seq<char>, i: int, j: int) -> bool {
    span_of_mantissa(s, i, j) || (i < j && s[i] == '-' && span_of_mantissa(s, i + 1, j))
}

/// Digits from `i` up to `j`, with an optional leading minus sign.
pub open spec fn span_of_signed_digits(s: Seq<char>, i: int, j: int) -> bool {
    span_of_digits(s, i, j) || (i < j && s[i] == '-' && span_of_digits(s, i + 1, j))
}

/// A decimal float literal: an optional minus sign, digits with an
/// optional fractional part, and an optional exponent part.
pub open spec fn matches_float_decimal(s: Seq<char>) -> bool {
    span_of_signed_mantissa(s, 0, s.len() as int) || (exists|k: int|
        0 < k < s.len() && #[trigger] s[k] == 'e' && span_of_signed_mantissa(s, 0, k)
            && span_of_signed_digits(s, k + 1, s.len() as int))
}

/// Everything the native float-to-text conversion can produce: a decimal
/// literal, or one of the three special spellings.
pub open spec fn matches_float_literal(s: Seq<char>) -> bool {
    matches_float_decimal(s) || s == "NaN"@ || s == "inf"@ || s == "-inf"@
}

/// The literal of an integer-kind value: an optional minus sign, then
/// decimal digits, then the suffix `i`.
pub open spec fn matches_int_literal(s: Seq<char>) -> bool {
    s.len() >= 2 && s.last() == 'i' && span_of_signed_digits(s, 0, s.len() - 1)
}

impl FieldValue {
    /// The exact literal this value renders as.
    pub open spec fn rendered(self) -> Seq<char> {
        match self {
            FieldValue::Str(s) => field_quoted(s@),
            FieldValue::UInt32(u) => dec_rep(u as nat) + seq!['i'],
            FieldValue::UInt64(u) => dec_rep(u as nat) + seq!['i'],
            FieldValue::Int32(i) => dec_int(i as int) + seq!['i'],
            FieldValue::Int64(i) => dec_int(i as int) + seq!['i'],
            FieldValue::Float32(l) => l@,
            FieldValue::Float64(l) => l@,
        }
    }

    /// A float kind is well formed when its literal is one the native
    /// float-to-text conversion could have produced; the other kinds
    /// carry no such obligation.
    pub open spec fn wf(self) -> bool {
        match self {
            FieldValue::Float32(l) => matches_float_literal(l@),
            FieldValue::Float64(l) => matches_float_literal(l@),
            _ => true,
        }
    }

    /// Appends the literal for this value to `sb`.
    pub fn build(&self, sb: &mut String)
        ensures
            final(sb)@ == old(sb)@ + self.rendered(),
    {
        match self {
            FieldValue::Str(s) => {
                build_escapedfieldstr(s.as_str(), sb);
            },
            FieldValue::UInt32(u) => {
                append_dec_u64(sb, *u as u64);
                push_char(sb, 'i');
                proof {
                    assert(sb@ =~= old(sb)@ + self.rendered());
                }
            },
            FieldValue::UInt64(u) => {
                append_dec_u64(sb, *u);
                push_char(sb, 'i');
                proof {
                    assert(sb@ =~= old(sb)@ + self.rendered());
                }
            },
            FieldValue::Int32(i) => {
                append_dec_i64(sb, *i as i64);
                push_char(sb, 'i');
                proof {
                    assert(sb@ =~= old(sb)@ + self.rendered());
                }
            },
            FieldValue::Int64(i) => {
                append_dec_i64(sb, *i);
                push_char(sb, 'i');
                proof {
                    assert(sb@ =~= old(sb)@ + self.rendered());
                }
            },
            FieldValue::Float32(l) => {
                sb.append(l.as_str());
            },
            FieldValue::Float64(l) => {
                sb.append(l.as_str());
            },
        }
    }

    /// The literal for this value as a fresh string.
    pub fn to_string(&self) -> (r: String)
        ensures
            r@ == self.rendered(),
    {
        let mut sret = String::new();
        self.build(&mut sret);
        sret
    }
}

impl Clone for FieldValue {
    /// A clone is the same value.
    fn clone(&self) -> (r: Self)
        ensures
            r == *self,
    {
        match self {
            FieldValue::Str(s) => FieldValue::Str(s.clone()),
            FieldValue::UInt32(u) => FieldValue::UInt32(*u),
            FieldValue::UInt64(u) => FieldValue::UInt64(*u),
            FieldValue::Int32(i) => FieldValue::Int32(*i),
            FieldValue::Int64(i) => FieldValue::Int64(*i),
            FieldValue::Float32(l) => FieldValue::Float32(l.clone()),
            FieldValue::Float64(l) => FieldValue::Float64(l.clone()),
        }
    }
}

impl From<String> for FieldValue {
    fn from(item: String) -> (r: Self)
        ensures
            r == FieldValue::Str(item),
    {
        FieldValue::Str(item)
    }
}

impl vstd::std_specs::convert::FromSpecImpl<String> for FieldValue {
    open spec fn obeys_from_spec() -> bool {
        true
    }

    open spec fn from_spec(item: String) -> Self {
        FieldValue::Str(item)
    }
}

impl From<u32> for FieldValue {
    fn from(item: u32) -> (r: Self)
        ensures
            r == FieldValue::UInt32(item),
    {
        FieldValue::UInt32(item)
    }
}

impl vstd::std_specs::convert::FromSpecImpl<u32> for FieldValue {
    open spec fn obeys_from_spec() -> bool {
        true
    }

    open spec fn from_spec(item: u32) -> Self {
        FieldValue::UInt32(item)
    }
}

impl From<u64> for FieldValue {
    fn from(item: u64) -> (r: Self)
        ensures
            r == FieldValue::UInt64(item),
    {
        FieldValue::UInt64(item)
    }
}

impl vstd::std_specs::convert::FromSpecImpl<u64> for FieldValue {
    open spec fn obeys_from_spec() -> bool {
        true
    }

    open spec fn from_spec(item: u64) -> Self {
        FieldValue::UInt64(item)
    }
}

/// Every integer-kind value renders as an optional minus sign, decimal
/// digits and the trailing type suffix `i`.
pub proof fn lemma_integer_suffix(v: FieldValue)
    requires
        v is UInt32 || v is UInt64 || v is Int32 || v is Int64,
    ensures
        matches_int_literal(v.rendered()),
{
    let s = v.rendered();
    match v {
        FieldValue::UInt32(u) => {
            lemma_dec_rep_digits(u as nat);
            assert(s.take(s.len() - 1) =~= dec_rep(u as nat));
        },
        FieldValue::UInt64(u) => {
            lemma_dec_rep_digits(u as nat);
            assert(s.take(s.len() - 1) =~= dec_rep(u as nat));
        },
        FieldValue::Int32(i) => {
            lemma_dec_int_shape(i as int);
        },
        FieldValue::Int64(i) => {
            lemma_dec_int_shape(i as int);
        },
        _ => {},
    }
}

proof fn lemma_dec_int_shape(i: int)
    ensures
        span_of_signed_digits(dec_int(i) + seq!['i'], 0, dec_int(i).len() as int),
{
    let s = dec_int(i) + seq!['i'];
    if i < 0 {
        lemma_dec_rep_digits((-i) as nat);
        assert(s[0] == '-');
        assert forall|k: int| 1 <= k < dec_int(i).len() implies is_dec_digit(#[trigger] s[k]) by {
            assert(s[k] == dec_rep((-i) as nat)[k - 1]);
        }
    } else {
        lemma_dec_rep_digits(i as nat);
        assert forall|k: int| 0 <= k < dec_int(i).len() implies is_dec_digit(#[trigger] s[k]) by {
            assert(s[k] == dec_rep(i as nat)[k]);
        }
    }
}

/// Every well-formed float-kind value renders as a float literal, which
/// is never empty and never ends in the integer suffix `i`.
pub proof fn lemma_float_no_suffix(v: FieldValue)
    requires
        v.wf(),
        v is Float32 || v is Float64,
    ensures
        matches_float_literal(v.rendered()),
        v.rendered().len() > 0,
        v.rendered().last() != 'i',
{
    let s = v.rendered();
    if matches_float_decimal(s) {
        lemma_float_decimal_last_digit(s);
    } else {
        reveal_strlit("NaN");
        reveal_strlit("inf");
        reveal_strlit("-inf");
    }
}

proof fn lemma_mantissa_last_digit(s: Seq<char>, i: int, j: int)
    requires
        span_of_mantissa(s, i, j),
    ensures
        0 <= i < j <= s.len(),
        is_dec_digit(s[j - 1]),
{
    if span_of_digits(s, i, j) {
    } else {
        let k = choose|k: int|
            i < k < j && #[trigger] s[k] == '.' && span_of_digits(s, i, k) && span_of_digits(
                s,
                k + 1,
                j,
            );
        assert(is_dec_digit(s[j - 1]));
    }
}

proof fn lemma_float_decimal_last_digit(s: Seq<char>)
    requires
        matches_float_decimal(s),
    ensures
        s.len() > 0,
        is_dec_digit(s.last()),
{
    let n = s.len() as int;
    if span_of_signed_mantissa(s, 0, n) {
        if span_of_mantissa(s, 0, n) {
            lemma_mantissa_last_digit(s, 0, n);
        } else {
            lemma_mantissa_last_digit(s, 1, n);
        }
    } else {
        let k = choose|k: int|
            0 < k < s.len() && #[trigger] s[k] == 'e' && span_of_signed_mantissa(s, 0, k)
                && span_of_signed_digits(s, k + 1, n);
        assert(is_dec_digit(s[n - 1]));
    }
}

} // verus!
