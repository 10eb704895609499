//! What holds of texts in UTF-8.

use vstd::prelude::*;

use crate::paths;
use crate::text;
use crate::unicode;

verus! {

/// Texts one after the other are encoded one after the other.
pub proof fn encoding_appends(a: Seq<char>, b: Seq<char>)
    ensures
        unicode::encoded(a + b) == unicode::encoded(a) + unicode::encoded(b),
    decreases a.len(),
{
    if a.len() == 0 {
        assert(a + b == b);
    } else {
        encoding_appends(a.drop_first(), b);
        assert((a + b).drop_first() == a.drop_first() + b);
        assert((a + b)[0] == a[0]);
    }
}

/// A text in UTF-8 is valid UTF-8, and decoding it gives the text again.
pub proof fn encoding_is_undone_by_decoding(s: Seq<char>)
    ensures
        vstd::utf8::valid_utf8(unicode::encoded(s)),
        unicode::displayed(unicode::encoded(s)) == s,
{
    vstd::utf8::encode_utf8_valid_utf8(s);
    vstd::utf8::encode_utf8_decode_utf8(s);
}

/// Decoding valid UTF-8 is undone by encoding.
pub proof fn decoding_is_undone_by_encoding(bytes: Seq<u8>)
    requires
        vstd::utf8::valid_utf8(bytes),
    ensures
        unicode::encoded(unicode::displayed(bytes)) == bytes,
{
    vstd::utf8::decode_utf8_encode_utf8(bytes);
}

/// A character is encoded by its own number, if it is ASCII, or else by bytes
/// that are not ASCII.
proof fn scalars_beyond_ascii_take_bytes_beyond_ascii(scalar: u32)
    requires
        vstd::utf8::is_scalar(scalar),
    ensures
        scalar < 0x80 ==> vstd::utf8::encode_scalar(scalar) == seq![scalar as u8],
        scalar >= 0x80 ==> forall|i: int|
            0 <= i < vstd::utf8::encode_scalar(scalar).len()
                ==> #[trigger] vstd::utf8::encode_scalar(scalar)[i] >= 0x80,
{
    if scalar < 0x80 {
        assert((scalar & 0x7F) as u8 == scalar as u8) by (bit_vector)
            requires
                scalar < 0x80u32,
        ;
    } else {
        assert(0xC0u8 | ((scalar >> 6) & 0x1F) as u8 >= 0x80) by (bit_vector);
        assert(0xE0u8 | ((scalar >> 12) & 0x0F) as u8 >= 0x80) by (bit_vector);
        assert(0xF0u8 | ((scalar >> 18) & 0x7) as u8 >= 0x80) by (bit_vector);
        assert(0x80u8 | (scalar & 0x3F) as u8 >= 0x80) by (bit_vector);
        assert(0x80u8 | ((scalar >> 6) & 0x3F) as u8 >= 0x80) by (bit_vector);
        assert(0x80u8 | ((scalar >> 12) & 0x3F) as u8 >= 0x80) by (bit_vector);
    }
}

/// A text without slashes is encoded without slashes.
pub proof fn encoding_adds_no_slash(s: Seq<char>)
    requires
        !s.contains('/'),
    ensures
        !unicode::encoded(s).contains(paths::SLASH),
    decreases s.len(),
{
    if s.len() > 0 {
        let rest = s.drop_first();
        let first = vstd::utf8::encode_scalar(s[0] as u32);
        let all = unicode::encoded(s);
        assert(!rest.contains('/')) by {
            if rest.contains('/') {
                let i = rest.index_of('/');
                assert(s[i + 1] == '/');
            }
        }
        encoding_adds_no_slash(rest);
        vstd::utf8::char_is_scalar(s[0]);
        scalars_beyond_ascii_take_bytes_beyond_ascii(s[0] as u32);
        assert(s[0] != '/');
        assert(s[0] as u32 != 47) by {
            if s[0] as u32 == 47 {
                vstd::utf8::char_u32_cast(s[0], 47);
                assert(47u32 as char == '/');
            }
        }
        assert(all == first + unicode::encoded(rest));
        if all.contains(paths::SLASH) {
            let i = all.index_of(paths::SLASH);
            if i < first.len() {
                assert(first[i] == paths::SLASH);
                assert(s[0] as u32 >= 0x80 ==> first[i] >= 0x80);
                assert((s[0] as u32) < 0x80 ==> first[i] == (s[0] as u32) as u8);
            } else {
                assert(unicode::encoded(rest)[i - first.len()] == paths::SLASH);
            }
        }
    }
}

/// A slash and a dot take one byte each.
proof fn slash_and_dot_take_one_byte()
    ensures
        unicode::encoded(seq!['/']) == seq![paths::SLASH],
        unicode::encoded(seq!['.']) == seq![paths::DOT],
{
    reveal_with_fuel(vstd::utf8::encode_utf8, 2);
    scalars_beyond_ascii_take_bytes_beyond_ascii('/' as u32);
    scalars_beyond_ascii_take_bytes_beyond_ascii('.' as u32);
    assert(seq!['/'].drop_first() == Seq::<char>::empty());
    assert(seq!['.'].drop_first() == Seq::<char>::empty());
    assert(unicode::encoded(seq!['/']) == seq![paths::SLASH]);
    assert(unicode::encoded(seq!['.']) == seq![paths::DOT]);
}

/// A slash and a dot are valid UTF-8.
pub proof fn slash_and_dot_are_unicode()
    ensures
        vstd::utf8::valid_utf8(seq![paths::SLASH]),
        vstd::utf8::valid_utf8(seq![paths::DOT]),
{
    slash_and_dot_take_one_byte();
    encoding_is_undone_by_decoding(seq!['/']);
    encoding_is_undone_by_decoding(seq!['.']);
}

/// A text that starts with a digit starts with the byte of that digit.
pub proof fn encoding_starts_with_ascii(s: Seq<char>)
    requires
        s.len() > 0,
        '0' <= s[0] <= '9',
    ensures
        unicode::encoded(s).len() > 0,
        48 <= unicode::encoded(s)[0] <= 57,
{
    vstd::utf8::char_is_scalar(s[0]);
    scalars_beyond_ascii_take_bytes_beyond_ascii(s[0] as u32);
    assert(48 <= s[0] as u32 <= 57);
    assert(unicode::encoded(s)[0] == (s[0] as u32) as u8);
}

/// A slash is shown as a slash.
pub proof fn slash_is_shown_as_slash()
    ensures
        unicode::displayed(seq![47u8]) == seq!['/'],
{
    slash_and_dot_take_one_byte();
    encoding_is_undone_by_decoding(seq!['/']);
}

/// A text that is a name is a name in a path.
pub proof fn encoded_names_are_names(name: Seq<char>)
    requires
        name.len() > 0,
        name != text::dot(),
        !name.contains('/'),
    ensures
        paths::counts(unicode::encoded(name)),
        !unicode::encoded(name).contains(paths::SLASH),
{
    encoding_adds_no_slash(name);
    encoding_is_undone_by_decoding(name);
    slash_and_dot_take_one_byte();
    if unicode::encoded(name).len() == 0 {
        encoding_is_undone_by_decoding(Seq::<char>::empty());
        assert(unicode::encoded(name) == unicode::encoded(Seq::<char>::empty()));
    }
    if unicode::encoded(name) == paths::dot() {
        encoding_is_undone_by_decoding(text::dot());
    }
}

/// Texts with slashes between them are encoded as their encodings with slashes
/// between them.
pub proof fn encoding_joins(parts: Seq<Seq<char>>)
    ensures
        unicode::encoded(text::join(parts, seq!['/'])) == text::join(
            parts.map_values(|part: Seq<char>| unicode::encoded(part)),
            seq![paths::SLASH],
        ),
    decreases parts.len(),
{
    let encoded_parts = parts.map_values(|part: Seq<char>| unicode::encoded(part));
    if parts.len() > 1 {
        let front = parts.drop_last();
        encoding_joins(front);
        assert(front.map_values(|part: Seq<char>| unicode::encoded(part))
            == encoded_parts.drop_last());
        slash_and_dot_take_one_byte();
        encoding_appends(text::join(front, seq!['/']), seq!['/']);
        encoding_appends(text::join(front, seq!['/']) + seq!['/'], parts.last());
    }
}

/// The pieces of valid UTF-8 between slashes are valid UTF-8.
pub proof fn pieces_of_unicode_are_unicode(path: Seq<u8>)
    requires
        vstd::utf8::valid_utf8(path),
    ensures
        forall|i: int|
            0 <= i < text::split(path, paths::SLASH).len() ==> vstd::utf8::valid_utf8(
                #[trigger] text::split(path, paths::SLASH)[i],
            ),
    decreases path.len(),
{
    if path.contains(paths::SLASH) {
        let k = path.index_of_first(paths::SLASH).unwrap();
        path.index_of_first_ensures(paths::SLASH);
        let first = path.take(k);
        let rest = path.skip(k + 1);
        assert(!first.contains(paths::SLASH)) by {
            if first.contains(paths::SLASH) {
                let i = first.index_of(paths::SLASH);
                assert(path[i] == paths::SLASH);
            }
        }
        vstd::utf8::is_char_boundary_iff_not_is_continuation_byte(path, k);
        assert(!vstd::utf8::is_continuation_byte(path[k]));
        vstd::utf8::valid_utf8_split(path, k);
        assert(path.subrange(0, k) == first);
        let tail = path.subrange(k, path.len() as int);
        assert(tail[0] == paths::SLASH);
        assert(vstd::utf8::pop_first_scalar(tail) == rest);
        pieces_of_unicode_are_unicode(rest);
        text::split_at_separator(first, rest, paths::SLASH);
        text::split_without_separator(first, paths::SLASH);
        assert(first.push(paths::SLASH) + rest == path);
    } else {
        text::split_without_separator(path, paths::SLASH);
    }
}

} // verus!
