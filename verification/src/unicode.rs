//! Unicode character data: word characters as regular expressions define
//! `\w` (`regex-syntax`), and simple case folding for comparison keys
//! (`unicode-casefold`).

use unicode_casefold::{Locale, UnicodeCaseFold, Variant};
use vstd::prelude::*;

verus! {

/// Unicode simple case folding (`C` + `S` entries of CaseFolding.txt,
/// non-Turkic) of one character, as `unicode-casefold` computes it.
pub uninterp spec fn simple_case_fold(c: char) -> char;

/// Membership in the Unicode `\w` class (Alphabetic, Mark, Decimal_Number,
/// Connector_Punctuation, Join_Control), as `regex-syntax` defines it.
pub uninterp spec fn word_character(c: char) -> bool;

/// Simple case folding of one character through
/// `unicode_casefold::UnicodeCaseFold::case_fold_with(Variant::Simple,
/// Locale::NonTurkic)`. The simple variant maps every input character to
/// exactly one output character, so the folded iterator of a single
/// character yields one item; the contract names that item.
#[verifier::external_body]
pub(crate) fn fold_char(c: char) -> (r: char)
    ensures
        r == simple_case_fold(c),
{
    match c.case_fold_with(Variant::Simple, Locale::NonTurkic).next() {
        Some(folded) => folded,
        None => c,
    }
}

/// `regex_syntax::is_word_character`: whether `c` belongs to the Unicode
/// `\w` class. The table behind it is named, not restated.
#[verifier::external_body]
pub(crate) fn is_word_character(c: char) -> (r: bool)
    ensures
        r == word_character(c),
{
    regex_syntax::is_word_character(c)
}

} // verus!
