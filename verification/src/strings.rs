//! Contracts for the operations on strings that this crate takes from
//! the standard library and that come without one. Nothing here is proved:
//! each item states what the documentation of the standard library says.
//!
//! A string is modelled by its characters. The operations that take a byte
//! position are stated for strings of ASCII characters only, where the
//! byte at a position is the character at that position.

use vstd::prelude::*;

verus! {

/// `needle` stands somewhere in `hay`, character by character.
pub open spec fn is_substring(needle: Seq<char>, hay: Seq<char>) -> bool {
    exists|i: int|
        0 <= i <= hay.len() - needle.len() && #[trigger] hay.subrange(i, i + needle.len())
            == needle
}

/// `String::push` appends one character to the end of the string and changes
/// nothing else.
pub assume_specification[ String::push ](s: &mut String, ch: char)
    ensures
        final(s)@ == old(s)@.push(ch),
;

/// `str::contains` with a string as the pattern: whether the pattern stands
/// somewhere in the string.
#[verifier::external_body]
pub(crate) fn contains(hay: &str, needle: &str) -> (r: bool)
    ensures
        r == is_substring(needle@, hay@),
{
    hay.contains(needle)
}

/// `String::remove` on a string of ASCII characters, where the byte at `idx`
/// is the character at `idx`: takes that character out and returns it.
pub assume_specification[ String::remove ](s: &mut String, idx: usize) -> (c: char)
    requires
        old(s).is_ascii(),
        idx < old(s)@.len(),
    ensures
        c == old(s)@[idx as int],
        final(s)@ == old(s)@.remove(idx as int),
;

/// `String::insert` on a string of ASCII characters, where the byte position
/// `idx` is the character position `idx`: puts `ch` in front of what stood there.
pub assume_specification[ String::insert ](s: &mut String, idx: usize, ch: char)
    requires
        old(s).is_ascii(),
        idx <= old(s)@.len(),
    ensures
        final(s)@ == old(s)@.insert(idx as int, ch),
;

/// `String::insert_str` on a string of ASCII characters, where the byte
/// position `idx` is the character position `idx`: puts `string` in front of
/// what stood there.
pub assume_specification[ String::insert_str ](s: &mut String, idx: usize, string: &str)
    requires
        old(s).is_ascii(),
        idx <= old(s)@.len(),
    ensures
        final(s)@ == old(s)@.subrange(0, idx as int) + string@ + old(s)@.subrange(
            idx as int,
            old(s)@.len() as int,
        ),
;

} // verus!
