use vstd::prelude::*;

verus! {

/// The Unicode `White_Space` property, as decided by `char::is_whitespace`;
/// left uninterpreted, since its full table is not worth restating.
pub uninterp spec fn is_whitespace_char(c: char) -> bool;

/// The Unicode numeric property, as decided by `char::is_numeric`;
/// left uninterpreted.
pub uninterp spec fn is_numeric_char(c: char) -> bool;

/// The Unicode alphanumeric property, as decided by `char::is_alphanumeric`;
/// left uninterpreted.
pub uninterp spec fn is_alphanumeric_char(c: char) -> bool;

/// Relies on char::is_whitespace: the result depends on the character alone,
/// and the documented `White_Space` set contains no parenthesis.
pub assume_specification[ char::is_whitespace ](c: char) -> (r: bool)
    ensures
        r == is_whitespace_char(c),
        r ==> c != '(' && c != ')',
;

/// Relies on char::is_numeric: the result depends on the character alone.
pub assume_specification[ char::is_numeric ](c: char) -> (r: bool)
    ensures
        r == is_numeric_char(c),
;

/// Relies on char::is_alphanumeric: the result depends on the character alone.
pub assume_specification[ char::is_alphanumeric ](c: char) -> (r: bool)
    ensures
        r == is_alphanumeric_char(c),
;

/// Relies on String::push: it appends the given character to the end of
/// the string.
pub assume_specification[ String::push ](s: &mut String, ch: char)
    ensures
        final(s)@ == old(s)@.push(ch),
;

} // verus!
