//! Operations on text that the examples borrow from the standard library.

use vstd::prelude::*;

verus! {

/// The text in upper case, as the standard library maps it.
pub uninterp spec fn uppercase(text: Seq<char>) -> Seq<char>;

/// The text in lower case, as the standard library maps it.
pub uninterp spec fn lowercase(text: Seq<char>) -> Seq<char>;

/// `needle` occurs in `haystack` as a run of consecutive characters.
pub open spec fn occurs_in(needle: Seq<char>, haystack: Seq<char>) -> bool {
    exists|i: int|
        0 <= i <= haystack.len() - needle.len() && #[trigger] haystack.subrange(
            i,
            i + needle.len(),
        ) == needle
}

/// The text in upper case (`str::to_uppercase`).
///
/// Trusted: the result is a function of the text alone; which one is left to
/// the standard library's tables.
#[verifier::external_body]
pub(crate) fn to_uppercase(text: &str) -> (result: String)
    ensures
        result@ == uppercase(text@),
{
    text.to_uppercase()
}

/// The text in lower case (`str::to_lowercase`).
///
/// Trusted: the result is a function of the text alone; which one is left to
/// the standard library's tables.
#[verifier::external_body]
pub(crate) fn to_lowercase(text: &str) -> (result: String)
    ensures
        result@ == lowercase(text@),
{
    text.to_lowercase()
}

/// Whether `needle` occurs in `haystack` (`str::contains` with a string pattern).
///
/// Trusted: the standard library answers `true` exactly when the pattern
/// matches a substring.
#[verifier::external_body]
pub(crate) fn contains(haystack: &str, needle: &str) -> (result: bool)
    ensures
        result == occurs_in(needle@, haystack@),
{
    haystack.contains(needle)
}

} // verus!
