//! Small pieces of `String` that the library builds text with.
use vstd::prelude::*;

verus! {

/// Appends `c` to `s` (`String::push`).
///
/// Trusted: std documents that `push` appends the character to the end of the string.
#[verifier::external_body]
pub(crate) fn string_push(s: &mut String, c: char)
    ensures
        final(s)@ == old(s)@.push(c),
{
    s.push(c);
}

/// An empty string with room for `capacity` bytes (`String::with_capacity`).
///
/// Trusted: std documents that the new string is empty; the capacity is not observable here.
#[verifier::external_body]
pub(crate) fn string_with_capacity(capacity: usize) -> (s: String)
    ensures
        s@ == Seq::<char>::empty(),
{
    String::with_capacity(capacity)
}

/// Appends `t` to `s` (`String::push_str`).
///
/// Trusted: std documents that `push_str` appends the given string slice to the end.
#[verifier::external_body]
pub(crate) fn string_push_str(s: &mut String, t: &str)
    ensures
        final(s)@ == old(s)@ + t@,
{
    s.push_str(t);
}

} // verus!
