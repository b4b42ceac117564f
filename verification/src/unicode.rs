//! What the standard library's Unicode tables say of a character or a text.
//!
//! The tables are far longer than any statement about them, so each answer is
//! a name here and the contracts that depend on one use the name.

use vstd::prelude::*;

verus! {

/// `char::is_alphanumeric`: the character is a letter or a number by the
/// Unicode tables that the standard library carries.
pub uninterp spec fn alphanumeric(c: char) -> bool;

/// The method answers what the tables say of its character, and nothing else.
pub assume_specification[ char::is_alphanumeric ](c: char) -> (r: bool)
    ensures
        r == alphanumeric(c),
;

/// The characters with the Unicode `White_Space` property.
pub open spec fn whitespace(c: char) -> bool {
    let n = c as u32;
    ||| 0x9 <= n <= 0xd
    ||| n == 0x20
    ||| n == 0x85
    ||| n == 0xa0
    ||| n == 0x1680
    ||| 0x2000 <= n <= 0x200a
    ||| n == 0x2028
    ||| n == 0x2029
    ||| n == 0x202f
    ||| n == 0x205f
    ||| n == 0x3000
}

/// `char::is_whitespace` answers whether the character has the Unicode
/// `White_Space` property, which these twenty-five have.
pub assume_specification[ char::is_whitespace ](c: char) -> (r: bool)
    ensures
        r == whitespace(c),
;

/// `char::is_uppercase`: the character has the Unicode `Uppercase` property.
pub uninterp spec fn uppercase(c: char) -> bool;

/// The method answers what the tables say of its character, and nothing else.
pub assume_specification[ char::is_uppercase ](c: char) -> (r: bool)
    ensures
        r == uppercase(c),
;

/// `char::is_lowercase`: the character has the Unicode `Lowercase` property.
pub uninterp spec fn lowercase(c: char) -> bool;

/// The method answers what the tables say of its character, and nothing else.
pub assume_specification[ char::is_lowercase ](c: char) -> (r: bool)
    ensures
        r == lowercase(c),
;

/// `str::to_lowercase`: the text with every character replaced by its
/// lowercase form, by the rules of the Unicode tables.
pub uninterp spec fn lowered(s: Seq<char>) -> Seq<char>;

/// The method returns the lowercase form of the text it is called on. Every
/// character becomes one or more, so no text but the empty one becomes empty. That
/// the lowercase form of a lowercase form is itself is left unsaid.
pub assume_specification[ str::to_lowercase ](s: &str) -> (r: String)
    ensures
        r@ == lowered(s@),
        r@.len() == 0 <==> s@.len() == 0,
;

/// What `{:?}` prints for a string: the text in double quotes, with the escapes
/// of the standard library's `Debug` for `str`.
pub uninterp spec fn quoted(s: Seq<char>) -> Seq<char>;

/// `format!` of `{:?}` on a string: the quoted and escaped form of the text.
#[verifier::external_body]
pub(crate) fn debug_text(s: &str) -> (r: String)
    ensures
        r@ == quoted(s@),
{
    format!("{s:?}")
}

} // verus!
