//! What the standard library's string-building methods do to a string's
//! characters.

use vstd::prelude::*;

verus! {

/// `String::push` appends the character to the end of the string and
/// changes nothing else of it, as the standard library documents.
pub assume_specification[ String::push ](s: &mut String, ch: char)
    ensures
        final(s)@ == old(s)@.push(ch),
;

/// `String::push_str` appends the slice to the end of the string and
/// changes nothing else of it, as the standard library documents.
pub assume_specification[ String::push_str ](s: &mut String, other: &str)
    ensures
        final(s)@ == old(s)@ + other@,
;

} // verus!
