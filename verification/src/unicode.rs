//! Unicode character classes the library consults.
//!
//! Whether a character counts as whitespace or as uppercase is defined by
//! Unicode character properties; both are functions of the character alone,
//! so each gets an uninterpreted name that the contracts speak of.

use vstd::prelude::*;

verus! {

/// Whether `c` has the Unicode `White_Space` property.
pub uninterp spec fn is_whitespace_char(c: char) -> bool;

/// Whether `c` has the Unicode `Uppercase` property.
pub uninterp spec fn is_uppercase_char(c: char) -> bool;

/// Relies on char::is_whitespace: whether `c` has the Unicode `White_Space`
/// property, a function of the character alone.
#[verifier::external_body]
pub fn char_is_whitespace(c: char) -> (r: bool)
    ensures
        r == is_whitespace_char(c),
{
    c.is_whitespace()
}

/// Relies on char::is_uppercase: whether `c` has the Unicode `Uppercase`
/// property, a function of the character alone.
#[verifier::external_body]
pub fn char_is_uppercase(c: char) -> (r: bool)
    ensures
        r == is_uppercase_char(c),
{
    c.is_uppercase()
}

} // verus!
