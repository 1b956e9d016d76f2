//! Small string helpers: std's `String::push`, which vstd leaves unspecified.
use vstd::prelude::*;

verus! {

/// Calls `String::push`, which appends one `char` to the end of the string.
/// Trusted: the contract says only what std's documentation states, that the
/// string afterwards holds its old characters followed by `c`.
#[verifier::external_body]
pub fn string_push(s: &mut String, c: char)
    ensures
        final(s)@ == old(s)@.push(c),
{
    s.push(c)
}

} // verus!
