//! Building strings one character at a time.

use vstd::prelude::*;

verus! {

/// Appends one character to a string. This is `String::push` of the standard
/// library, of which it is taken on trust that the string afterwards is the
/// string before with `c` added at its end.
#[verifier::external_body]
pub(crate) fn push_char(s: &mut String, c: char)
    ensures
        final(s)@ == old(s)@.push(c),
{
    s.push(c);
}

} // verus!
