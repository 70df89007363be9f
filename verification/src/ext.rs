//! Contracts for the two std functions the codec needs that vstd does
//! not specify.
use vstd::prelude::*;

verus! {

/// Relies on `String::push`: appends the given character to the end of
/// this `String`.
pub assume_specification[ String::push ](s: &mut String, c: char)
    ensures
        final(s)@ == old(s)@.push(c),
;

/// Relies on `char::from_u32`: returns the character with the given code
/// point, or `None` when the value is a surrogate or lies above the
/// Unicode scalar range.
pub assume_specification[ char::from_u32 ](v: u32) -> (r: Option<char>)
    ensures
        r matches Some(c) ==> c as u32 == v,
        r is Some <==> (v < 0xD800 || (0xDFFF < v && v <= 0x10FFFF)),
;

} // verus!
