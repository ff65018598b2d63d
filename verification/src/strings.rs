//! Building strings one character at a time.

use vstd::prelude::*;

verus! {

/// `String::push`: the character is appended to the text. Taken on trust.
#[verifier::external_body]
pub(crate) fn push_char(text: &mut String, c: char)
    ensures
        final(text)@ == old(text)@.push(c),
{
    text.push(c);
}

} // verus!
