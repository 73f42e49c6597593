//! The one `String` primitive the serializer needs beyond what vstd
//! already specifies: appending a single character to a buffer.
use vstd::prelude::*;

verus! {

/// Relies on `String::push`: appends exactly the given character to the
/// end of the string.
#[verifier::external_body]
pub(crate) fn push_char(buf: &mut String, c: char)
    ensures
        final(buf)@ == old(buf)@.push(c),
{
    buf.push(c);
}

} // verus!
