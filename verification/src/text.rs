//! Substring search, the matching rule for channel and text patterns.

use vstd::prelude::*;

verus! {

/// Whether `pattern` stands in `text` at position `start`.
pub open spec fn occurs_at(pattern: Seq<char>, text: Seq<char>, start: int) -> bool {
    &&& 0 <= start
    &&& start + pattern.len() <= text.len()
    &&& text.subrange(start, start + pattern.len()) == pattern
}

/// Whether `pattern` stands somewhere in `text` as an unbroken run of characters.
/// Case matters, and the empty pattern occurs in every text.
pub open spec fn occurs_in(pattern: Seq<char>, text: Seq<char>) -> bool {
    exists|start: int| occurs_at(pattern, text, start)
}

/// The empty pattern occurs in every text, the empty text included.
pub proof fn lemma_empty_pattern_occurs(text: Seq<char>)
    ensures
        occurs_in(Seq::<char>::empty(), text),
{
    assert(text.subrange(0, 0) =~= Seq::<char>::empty());
    assert(occurs_at(Seq::<char>::empty(), text, 0));
}

/// Tells whether `pattern` occurs in `text`.
///
/// Calls `str::contains` of the standard library with a string pattern, which is
/// documented to return true exactly when the pattern matches a sub-slice of the
/// text. Both strings are valid UTF-8, so a match of bytes is a match of characters.
#[verifier::external_body]
pub(crate) fn str_contains(text: &str, pattern: &str) -> (found: bool)
    ensures
        found == occurs_in(pattern@, text@),
{
    text.contains(pattern)
}

} // verus!
