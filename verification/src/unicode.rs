//! Properties of characters and texts that Unicode's tables decide.

use vstd::prelude::*;

verus! {

/// The lowercase equivalent of a text, as `str::to_lowercase` gives it.
pub uninterp spec fn lowercase(s: Seq<char>) -> Seq<char>;

/// Whether `char::is_uppercase` holds of a character.
pub uninterp spec fn is_upper(c: char) -> bool;

/// Whether `char::is_numeric` holds of a character.
pub uninterp spec fn is_number(c: char) -> bool;

/// Whether `char::is_alphanumeric` holds of a character.
pub uninterp spec fn is_letter_or_number(c: char) -> bool;

/// `str::to_lowercase`: the result depends on the text alone, and is empty where
/// the text is. What else it is for a given text, Unicode's tables say; no
/// contract here does.
#[verifier::external_body]
pub(crate) fn to_lowercase(s: &str) -> (r: String)
    ensures
        r@ == lowercase(s@),
        s@.len() == 0 ==> r@.len() == 0,
{
    s.to_lowercase()
}

/// `char::is_uppercase`: the result depends on the character alone.
pub assume_specification[ char::is_uppercase ](c: char) -> (r: bool)
    ensures
        r == is_upper(c),
;

/// `char::is_numeric`: the result depends on the character alone.
pub assume_specification[ char::is_numeric ](c: char) -> (r: bool)
    ensures
        r == is_number(c),
;

/// `char::is_alphanumeric`: the result depends on the character alone.
pub assume_specification[ char::is_alphanumeric ](c: char) -> (r: bool)
    ensures
        r == is_letter_or_number(c),
;

} // verus!
