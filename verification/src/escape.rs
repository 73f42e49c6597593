//! Escaping rules for the two text contexts of the wire format.
//!
//! A tag value and a field string collide with different delimiter sets,
//! so each context has its own rule:
//! - tag context: comma, space and equals are preceded by a backslash and
//!   a newline becomes the two characters backslash-`n`; everything else
//!   passes through unchanged;
//! - field-string context: the value is wrapped in double quotes, an inner
//!   double quote is preceded by a backslash and a newline becomes
//!   backslash-`n`; everything else passes through unchanged.
use vstd::prelude::*;
use vstd::string::StrSliceExecFns;

use crate::buf::push_char;

verus! {

/// How one character of a tag value appears after escaping.
pub open spec fn tag_escape_char(c: char) -> Seq<char> {
    if c == ',' || c == ' ' || c == '=' {
        seq!['\\', c]
    } else if c == '\n' {
        seq!['\\', 'n']
    } else {
        seq![c]
    }
}

/// A whole tag value after escaping: each character replaced by its
/// escaped form, in order.
pub open spec fn tag_escaped(s: Seq<char>) -> Seq<char>
    decreases s.len(),
{
    if s.len() == 0 {
        Seq::empty()
    } else {
        tag_escape_char(s[0]) + tag_escaped(s.drop_first())
    }
}

/// How one character of a field string appears after escaping, not
/// counting the surrounding quotes.
pub open spec fn field_escape_char(c: char) -> Seq<char> {
    if c == '"' {
        seq!['\\', '"']
    } else if c == '\n' {
        seq!['\\', 'n']
    } else {
        seq![c]
    }
}

/// The inside of a field string after escaping, without the surrounding
/// quotes.
pub open spec fn field_escaped(s: Seq<char>) -> Seq<char>
    decreases s.len(),
{
    if s.len() == 0 {
        Seq::empty()
    } else {
        field_escape_char(s[0]) + field_escaped(s.drop_first())
    }
}

/// A complete field-string literal: the escaped value wrapped in double
/// quotes.
pub open spec fn field_quoted(s: Seq<char>) -> Seq<char> {
    seq!['"'] + field_escaped(s) + seq!['"']
}

proof fn lemma_tag_escaped_push(s: Seq<char>, c: char)
    ensures
        tag_escaped(s.push(c)) == tag_escaped(s) + tag_escape_char(c),
    decreases s.len(),
{
    reveal_with_fuel(tag_escaped, 3);
    if s.len() == 0 {
        assert(s.push(c)[0] == c);
        assert(s.push(c).drop_first() =~= Seq::<char>::empty());
        assert(tag_escaped(s.push(c)) =~= tag_escaped(s) + tag_escape_char(c));
    } else {
        assert(s.push(c)[0] == s[0]);
        assert(s.push(c).drop_first() =~= s.drop_first().push(c));
        lemma_tag_escaped_push(s.drop_first(), c);
        assert(tag_escaped(s.push(c)) == tag_escape_char(s[0]) + tag_escaped(s.drop_first().push(c)));
        assert(tag_escaped(s.push(c)) =~= tag_escaped(s) + tag_escape_char(c));
    }
}

proof fn lemma_field_escaped_push(s: Seq<char>, c: char)
    ensures
        field_escaped(s.push(c)) == field_escaped(s) + field_escape_char(c),
    decreases s.len(),
{
    reveal_with_fuel(field_escaped, 3);
    if s.len() == 0 {
        assert(s.push(c)[0] == c);
        assert(s.push(c).drop_first() =~= Seq::<char>::empty());
        assert(field_escaped(s.push(c)) =~= field_escaped(s) + field_escape_char(c));
    } else {
        assert(s.push(c)[0] == s[0]);
        assert(s.push(c).drop_first() =~= s.drop_first().push(c));
        lemma_field_escaped_push(s.drop_first(), c);
        assert(field_escaped(s.push(c)) == field_escape_char(s[0]) + field_escaped(s.drop_first().push(c)));
        assert(field_escaped(s.push(c)) =~= field_escaped(s) + field_escape_char(c));
    }
}

/// Tag escaping changes nothing on a value that holds none of the
/// characters the tag context reserves: no comma, space, equals or
/// newline.
pub proof fn lemma_tag_escape_identity(s: Seq<char>)
    requires
        forall|i: int| 0 <= i < s.len() ==> #[trigger] s[i] != ',' && s[i] != ' ' && s[i] != '='
            && s[i] != '\n',
    ensures
        tag_escaped(s) == s,
    decreases s.len(),
{
    if s.len() == 0 {
        assert(tag_escaped(s) =~= s);
    } else {
        lemma_tag_escape_identity(s.drop_first());
        assert(tag_escaped(s) =~= s);
    }
}

/// Appends the tag-escaped form of `s` to `buff`.
pub fn build_escapedtagstr(s: &str, buff: &mut String)
    ensures
        final(buff)@ == old(buff)@ + tag_escaped(s@),
{
    let n: usize = s.unicode_len();
    let mut i: usize = 0;
    while i < n
        invariant
            i <= n,
            n == s@.len(),
            buff@ == old(buff)@ + tag_escaped(s@.take(i as int)),
        decreases n - i,
    {
        let c = s.get_char(i);
        if c == ',' || c == ' ' || c == '=' {
            push_char(buff, '\\');
            push_char(buff, c);
        } else if c == '\n' {
            push_char(buff, '\\');
            push_char(buff, 'n');
        } else {
            push_char(buff, c);
        }
        proof {
            assert(s@.take(i as int + 1) =~= s@.take(i as int).push(s@[i as int]));
            lemma_tag_escaped_push(s@.take(i as int), s@[i as int]);
            assert(buff@ =~= old(buff)@ + tag_escaped(s@.take(i as int + 1)));
        }
        i = i + 1;
    }
    proof {
        assert(s@.take(n as int) =~= s@);
    }
}

/// Appends the complete field-string literal for `s` to `buff`: an
/// opening quote, the escaped value, a closing quote.
pub fn build_escapedfieldstr(s: &str, buff: &mut String)
    ensures
        final(buff)@ == old(buff)@ + field_quoted(s@),
{
    push_char(buff, '"');
    let ghost opened = buff@;
    let n: usize = s.unicode_len();
    let mut i: usize = 0;
    while i < n
        invariant
            i <= n,
            n == s@.len(),
            opened == old(buff)@.push('"'),
            buff@ == opened + field_escaped(s@.take(i as int)),
        decreases n - i,
    {
        let c = s.get_char(i);
        if c == '"' {
            push_char(buff, '\\');
            push_char(buff, '"');
        } else if c == '\n' {
            push_char(buff, '\\');
            push_char(buff, 'n');
        } else {
            push_char(buff, c);
        }
        proof {
            assert(s@.take(i as int + 1) =~= s@.take(i as int).push(s@[i as int]));
            lemma_field_escaped_push(s@.take(i as int), s@[i as int]);
            assert(buff@ =~= opened + field_escaped(s@.take(i as int + 1)));
        }
        i = i + 1;
    }
    push_char(buff, '"');
    proof {
        assert(s@.take(n as int) =~= s@);
        assert(buff@ =~= old(buff)@ + field_quoted(s@));
    }
}

/// Returns the tag-escaped form of `s` as a fresh string.
pub fn escape_tagstr(s: &str) -> (r: String)
    ensures
        r@ == tag_escaped(s@),
{
    let mut new_s = String::new();
    build_escapedtagstr(s, &mut new_s);
    new_s
}

/// Returns the complete field-string literal for `s` as a fresh string,
/// quotes included.
pub fn escape_fieldstr(s: &str) -> (r: String)
    ensures
        r@ == field_quoted(s@),
{
    let mut result = String::new();
    build_escapedfieldstr(s, &mut result);
    result
}

} // verus!
