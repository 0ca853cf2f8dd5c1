//! What this library takes on trust about `String` of the standard library.

use vstd::prelude::*;

verus! {

/// Trusted, not proved: `String::push` of the standard library appends `ch` to
/// the end of the string and leaves the characters before it as they were.
pub assume_specification[ String::push ](s: &mut String, ch: char)
    ensures
        final(s)@ == old(s)@.push(ch),
;

} // verus!
