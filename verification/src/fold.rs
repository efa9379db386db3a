//! Case folding: the lower-case form under which texts are compared when
//! letter case is to be ignored.
//!
//! Folding is the standard library's `str::to_lowercase`. It follows the
//! Unicode tables, and it reads a capital sigma by its place in the word, so
//! the folded form of a text is not always made of the folded forms of its
//! parts. On ASCII text it is the familiar character-by-character mapping,
//! and that much is stated here; beyond ASCII the result only has a name.

use crate::text::{is_substring, occurs_at};
use vstd::prelude::*;
use vstd::utf8::is_ascii_chars;

verus! {

/// The lower-case form of an ASCII capital letter; any other character is
/// left as it is.
pub open spec fn ascii_lower(c: char) -> char {
    if 'A' <= c <= 'Z' {
        ((c as u8) + 32) as char
    } else {
        c
    }
}

/// `text` with each ASCII capital letter replaced by its lower-case form.
pub open spec fn ascii_lowercase(text: Seq<char>) -> Seq<char> {
    Seq::new(text.len(), |i: int| ascii_lower(text[i]))
}

/// What `str::to_lowercase` returns for `text`.
pub uninterp spec fn unicode_lowercase(text: Seq<char>) -> Seq<char>;

/// The folded form of `text`.
pub open spec fn lowercase(text: Seq<char>) -> Seq<char> {
    if is_ascii_chars(text) {
        ascii_lowercase(text)
    } else {
        unicode_lowercase(text)
    }
}

/// The folded form of a text without characters is that text.
pub proof fn lemma_lowercase_of_empty()
    ensures
        lowercase(Seq::empty()) == Seq::<char>::empty(),
{
    assert(is_ascii_chars(Seq::<char>::empty()));
    assert(ascii_lowercase(Seq::empty()) =~= Seq::<char>::empty());
}

/// On ASCII text folding keeps what is contained: where `needle` stands in
/// `haystack`, the folded `needle` stands in the folded `haystack`, at the
/// same position.
pub proof fn lemma_ascii_folding_keeps_substring(needle: Seq<char>, haystack: Seq<char>)
    requires
        is_ascii_chars(haystack),
        is_substring(needle, haystack),
    ensures
        is_ascii_chars(needle),
        is_substring(lowercase(needle), lowercase(haystack)),
{
    let at = choose|at: int| occurs_at(needle, haystack, at);
    let part = haystack.subrange(at, at + needle.len());
    assert forall|i: int| 0 <= i < needle.len() implies '\0' <= #[trigger] needle[i]
        <= '\u{7f}' by {
        assert(needle[i] == part[i]);
        assert(part[i] == haystack[at + i]);
    }
    let folded = ascii_lowercase(haystack);
    assert forall|i: int| 0 <= i < needle.len() implies folded.subrange(
        at,
        at + needle.len(),
    )[i] == ascii_lowercase(needle)[i] by {
        assert(needle[i] == part[i]);
    }
    assert(folded.subrange(at, at + needle.len()) =~= ascii_lowercase(needle));
    assert(occurs_at(lowercase(needle), lowercase(haystack), at));
}

/// Calls `str::to_lowercase` of the standard library.
///
/// Trusted, not proved: the result is the lower-case form that the Unicode
/// tables give, which the contract only names. For a text of ASCII
/// characters alone it adds that this form is the text with `A` to `Z`
/// replaced by `a` to `z` and every other character kept.
#[verifier::external_body]
pub(crate) fn to_lowercase(text: &str) -> (folded: String)
    ensures
        folded@ == unicode_lowercase(text@),
        is_ascii_chars(text@) ==> folded@ == ascii_lowercase(text@),
{
    text.to_lowercase()
}

} // verus!
