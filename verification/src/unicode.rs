//! Letters, digits and their lower-case forms, beyond ASCII too.

use vstd::prelude::*;

use crate::text;

verus! {

/// Whether a character outside ASCII is a letter or a digit, as
/// `char::is_alphanumeric` tells.
pub uninterp spec fn unicode_alphanumeric(c: char) -> bool;

/// The lower-case form of a character outside ASCII, as `char::to_lowercase`
/// gives it.
pub uninterp spec fn unicode_lowercase(c: char) -> Seq<char>;

/// The lower-case form of a text that is not all ASCII, as `str::to_lowercase`
/// gives it.
pub uninterp spec fn unicode_lowercase_text(s: Seq<char>) -> Seq<char>;

/// The text that stands for bytes which are not all UTF-8, as
/// `String::from_utf8_lossy` gives it.
pub uninterp spec fn lossy_text(bytes: Seq<u8>) -> Seq<char>;

/// The text that stands for the bytes: what they encode in UTF-8, and where
/// they are not UTF-8 a text with replacement characters in it.
pub open spec fn displayed(bytes: Seq<u8>) -> Seq<char> {
    if vstd::utf8::valid_utf8(bytes) {
        vstd::utf8::decode_utf8(bytes)
    } else {
        lossy_text(bytes)
    }
}

/// The text in UTF-8.
pub open spec fn encoded(s: Seq<char>) -> Seq<u8> {
    vstd::utf8::encode_utf8(s)
}

/// Whether the character is an ASCII character.
pub open spec fn is_ascii(c: char) -> bool {
    c <= '\u{7f}'
}

/// Whether the text consists of ASCII characters.
pub open spec fn is_ascii_text(s: Seq<char>) -> bool {
    forall|i: int| 0 <= i < s.len() ==> is_ascii(#[trigger] s[i])
}

/// Whether the character is an ASCII letter or digit.
pub open spec fn is_ascii_alphanumeric(c: char) -> bool {
    'a' <= c <= 'z' || 'A' <= c <= 'Z' || '0' <= c <= '9'
}

/// Whether the character is a letter or a digit.
pub open spec fn is_alphanumeric(c: char) -> bool {
    if is_ascii(c) {
        is_ascii_alphanumeric(c)
    } else {
        unicode_alphanumeric(c)
    }
}

/// The lower-case form of a character, which may take several characters.
pub open spec fn lowercase(c: char) -> Seq<char> {
    if is_ascii(c) {
        seq![text::ascii_lower(c)]
    } else {
        unicode_lowercase(c)
    }
}

/// The lower-case form of a text.
pub open spec fn lowercase_text(s: Seq<char>) -> Seq<char> {
    if is_ascii_text(s) {
        s.map_values(|c: char| text::ascii_lower(c))
    } else {
        unicode_lowercase_text(s)
    }
}

/// `char::is_alphanumeric` tells whether a character is a letter or a digit.
/// Of ASCII these are the letters and digits that ASCII has.
pub assume_specification[ char::is_alphanumeric ](c: char) -> (res: bool)
    ensures
        is_ascii(c) ==> res == is_ascii_alphanumeric(c),
        !is_ascii(c) ==> res == unicode_alphanumeric(c),
;

/// `char::to_lowercase` gives the lower-case form of a character as one or
/// more characters. An ASCII character has an ASCII character as its form.
#[verifier::external_body]
pub(crate) fn to_lowercase(c: char) -> (res: Vec<char>)
    ensures
        res@.len() >= 1,
        is_ascii(c) ==> res@ == seq![text::ascii_lower(c)],
        !is_ascii(c) ==> res@ == unicode_lowercase(c),
{
    c.to_lowercase().collect()
}

/// `str::to_lowercase` gives the lower-case form of a text. ASCII characters
/// have it one by one.
#[verifier::external_body]
pub(crate) fn text_to_lowercase(s: &str) -> (res: String)
    ensures
        is_ascii_text(s@) ==> res@ == s@.map_values(|c: char| text::ascii_lower(c)),
        !is_ascii_text(s@) ==> res@ == unicode_lowercase_text(s@),
{
    s.to_lowercase()
}

/// `String::from_utf8_lossy` decodes bytes from UTF-8. Where they are not all
/// UTF-8, it puts replacement characters in place of the rest.
#[verifier::external_body]
pub(crate) fn text_of_bytes(bytes: &[u8]) -> (res: String)
    ensures
        vstd::utf8::valid_utf8(bytes@) ==> res@ == vstd::utf8::decode_utf8(bytes@),
        !vstd::utf8::valid_utf8(bytes@) ==> res@ == lossy_text(bytes@),
{
    String::from_utf8_lossy(bytes).into_owned()
}

} // verus!
