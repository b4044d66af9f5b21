//! Specifications for the few `String` operations that vstd leaves open.
use vstd::prelude::*;

verus! {

/// `String::push` appends one character at the end of the string.
pub assume_specification[ String::push ](s: &mut String, ch: char)
    ensures
        final(s)@ == old(s)@.push(ch),
;

/// `String::push_str` appends the given string slice at the end of the string.
pub assume_specification[ String::push_str ](s: &mut String, string: &str)
    ensures
        final(s)@ == old(s)@ + string@,
;

/// `String::with_capacity` returns an empty string (the capacity is only a hint).
pub assume_specification[ String::with_capacity ](capacity: usize) -> (res: String)
    ensures
        res@ == Seq::<char>::empty(),
;

/// `std::fmt::Error`, the error type of formatting sinks; carried through
/// opaquely.
#[verifier::external_type_specification]
#[verifier::external_body]
pub struct ExFmtError(std::fmt::Error);

} // verus!
