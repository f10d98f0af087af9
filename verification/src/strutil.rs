//! Small trusted helpers over std's strings.

use vstd::prelude::*;

verus! {

/// Relies on std's String::push: it appends exactly the given character.
#[verifier::external_body]
pub(crate) fn string_push(s: &mut String, c: char)
    ensures
        final(s)@ == old(s)@.push(c),
{
    s.push(c);
}

} // verus!
