//! What a chapter's file is named after, read off the chapter's name character
//! by character.

use vstd::prelude::*;

use crate::naming;
use crate::naming_laws;
use crate::text;
use crate::unicode;

verus! {

/// Whether a letter or a digit stands in the name.
pub open spec fn has_letter(name: Seq<char>) -> bool {
    exists|i: int| 0 <= i < name.len() && unicode::is_alphanumeric(#[trigger] name[i])
}

/// Whether the name ends with a letter or a digit.
pub open spec fn ends_with_letter(name: Seq<char>) -> bool {
    name.len() > 0 && unicode::is_alphanumeric(name[name.len() - 1])
}

/// Whether the lower-case forms of the letters and digits of the name have
/// something in them, as lower-case forms do.
pub open spec fn has_forms(name: Seq<char>) -> bool {
    forall|i: int|
        0 <= i < name.len() && unicode::is_alphanumeric(#[trigger] name[i]) ==> unicode::lowercase(
            name[i],
        ).len() > 0
}

/// The lower-case forms of all letters and digits of the name, in order.
pub open spec fn lowered(name: Seq<char>) -> Seq<char>
    decreases name.len(),
{
    if name.len() == 0 {
        Seq::empty()
    } else if unicode::is_alphanumeric(name[name.len() - 1]) {
        lowered(name.drop_last()) + unicode::lowercase(name[name.len() - 1])
    } else {
        lowered(name.drop_last())
    }
}

/// The characters of a name without its last one are characters of the name.
proof fn front_is_part(name: Seq<char>, c: char)
    requires
        has_forms(name.push(c)),
    ensures
        has_forms(name),
        unicode::is_alphanumeric(c) ==> unicode::lowercase(c).len() > 0,
        has_letter(name.push(c)) <==> has_letter(name) || unicode::is_alphanumeric(c),
{
    let long = name.push(c);
    assert forall|i: int|
        0 <= i < name.len() && unicode::is_alphanumeric(
            #[trigger] name[i],
        ) implies unicode::lowercase(name[i]).len() > 0 by {
        assert(long[i] == name[i]);
    }
    assert(long[name.len() as int] == c);
    if has_letter(name) {
        let i = choose|i: int| 0 <= i < name.len() && unicode::is_alphanumeric(#[trigger] name[i]);
        assert(long[i] == name[i]);
    }
    if has_letter(long) && !unicode::is_alphanumeric(c) {
        let i = choose|i: int| 0 <= i < long.len() && unicode::is_alphanumeric(#[trigger] long[i]);
        assert(long[i] == name[i]);
    }
}

/// The last piece of a name is a word just when the name ends with a letter or
/// a digit, and there are words just when there is a letter or a digit.
proof fn words_show_letters(name: Seq<char>)
    requires
        has_forms(name),
    ensures
        naming::word_pieces(name).len() > 0,
        naming::word_pieces(name).last().len() > 0 <==> ends_with_letter(name),
        naming::words(name).len() > 0 <==> has_letter(name),
    decreases name.len(),
{
    let pieces = naming::word_pieces(name);
    naming_laws::pieces_are_not_none(name);
    naming::last_piece_is_last_word(pieces);
    if name.len() == 0 {
        let none = Seq::<Seq<char>>::empty();
        assert(pieces.drop_last() == none);
        assert(naming::nonempty(none) == none) by {
            reveal(Seq::filter);
        }
    } else {
        let front = name.drop_last();
        let c = name[name.len() - 1];
        assert(front.push(c) == name);
        front_is_part(front, c);
        words_show_letters(front);
        let before = naming::word_pieces(front);
        naming::last_piece_is_last_word(before);
        if unicode::is_alphanumeric(c) {
            assert(pieces.last() == before.last() + unicode::lowercase(c));
        } else {
            assert(pieces == before.push(Seq::empty()));
            naming::separator_adds_no_word(before);
        }
    }
}

/// Joining one more part, or a longer last part.
proof fn join_grows(parts: Seq<Seq<char>>, more: Seq<char>)
    ensures
        parts.len() == 0 ==> text::join(parts.push(more), seq!['-']) == more,
        parts.len() > 0 ==> text::join(parts.push(more), seq!['-']) == text::join(parts, seq!['-'])
            + seq!['-'] + more,
        parts.len() > 0 ==> text::join(parts.drop_last().push(parts.last() + more), seq!['-'])
            == text::join(parts, seq!['-']) + more,
{
    assert(parts.push(more).drop_last() == parts);
    if parts.len() > 0 {
        let longer = parts.drop_last().push(parts.last() + more);
        assert(longer.drop_last() == parts.drop_last());
        if parts.len() == 1 {
            assert(longer[0] == parts[0] + more);
        } else {
            assert(text::join(parts.drop_last(), seq!['-']) + seq!['-'] + (parts.last() + more)
                == text::join(parts, seq!['-']) + more);
        }
    }
}

/// One character more in a name: a letter or a digit adds its lower-case form,
/// behind a dash if something else came before it, and anything else adds
/// nothing. A name without letters and digits gives `chapter`.
pub proof fn names_are_read_character_by_character(name: Seq<char>, c: char)
    requires
        has_forms(name.push(c)),
    ensures
        !has_letter(name) ==> naming::slug(name) == "chapter"@,
        !unicode::is_alphanumeric(c) ==> naming::slug(name.push(c)) == naming::slug(name),
        unicode::is_alphanumeric(c) && !has_letter(name) ==> naming::slug(name.push(c))
            == unicode::lowercase(c),
        unicode::is_alphanumeric(c) && has_letter(name) && ends_with_letter(name) ==> naming::slug(
            name.push(c),
        ) == naming::slug(name) + unicode::lowercase(c),
        unicode::is_alphanumeric(c) && has_letter(name) && !ends_with_letter(name) ==> naming::slug(
            name.push(c),
        ) == naming::slug(name) + seq!['-'] + unicode::lowercase(c),
{
    let long = name.push(c);
    let before = naming::word_pieces(name);
    let after = naming::word_pieces(long);
    let form = unicode::lowercase(c);
    assert(long.drop_last() == name);
    assert(long.last() == c);
    front_is_part(name, c);
    words_show_letters(name);
    words_show_letters(long);
    naming::last_piece_is_last_word(before);
    naming::last_piece_is_last_word(after);
    join_grows(naming::words(name), form);
    if unicode::is_alphanumeric(c) {
        assert(after == before.drop_last().push(before.last() + form));
        assert(after.drop_last() == before.drop_last());
        if ends_with_letter(name) {
            assert(naming::words(name).drop_last() == naming::nonempty(before.drop_last()));
            assert(naming::words(long) == naming::words(name).drop_last().push(
                naming::words(name).last() + form,
            ));
            assert(has_letter(name)) by {
                assert(unicode::is_alphanumeric(name[name.len() - 1]));
            }
        } else {
            assert(before.last() + form == form);
            assert(naming::words(long) == naming::words(name).push(form));
        }
    } else {
        assert(after == before.push(Seq::empty()));
        naming::separator_adds_no_word(before);
    }
}

/// Texts without dashes keep all their characters when dashes are left out.
proof fn nothing_but_dashes_is_left_out(s: Seq<char>)
    requires
        !s.contains('-'),
    ensures
        s.filter(|c: char| c != '-') == s,
    decreases s.len(),
{
    reveal(Seq::filter);
    if s.len() > 0 {
        let front = s.drop_last();
        assert(!front.contains('-')) by {
            if front.contains('-') {
                let i = front.index_of('-');
                assert(s[i] == '-');
            }
        }
        nothing_but_dashes_is_left_out(front);
        assert(s.contains(s[s.len() - 1]));
        assert(front.push(s.last()) == s);
    }
}

/// No letter or digit of a name is lost: but for its dashes, the name of the
/// file consists of the lower-case forms of all of them, in order. The forms
/// themselves hold no dash.
pub proof fn no_letter_is_lost(name: Seq<char>)
    requires
        has_letter(name),
        has_forms(name),
        forall|i: int|
            0 <= i < name.len() && unicode::is_alphanumeric(#[trigger] name[i])
                ==> !unicode::lowercase(name[i]).contains('-'),
    ensures
        naming::slug(name).filter(|c: char| c != '-') == lowered(name),
    decreases name.len(),
{
    let letter = |c: char| c != '-';
    let front = name.drop_last();
    let c = name[name.len() - 1];
    let form = unicode::lowercase(c);
    assert(front.push(c) == name);
    front_is_part(front, c);
    names_are_read_character_by_character(front, c);
    assert forall|i: int|
        0 <= i < front.len() && unicode::is_alphanumeric(
            #[trigger] front[i],
        ) implies !unicode::lowercase(front[i]).contains('-') by {
        assert(front[i] == name[i]);
    }
    if has_letter(front) {
        no_letter_is_lost(front);
    } else {
        nothing_is_lowered(front);
    }
    if unicode::is_alphanumeric(c) {
        nothing_but_dashes_is_left_out(form);
        let dash = seq!['-'];
        assert(dash.filter(letter) == Seq::<char>::empty()) by {
            reveal(Seq::filter);
            assert(dash.drop_last() == Seq::<char>::empty());
            assert(dash.drop_last().filter(letter) == Seq::<char>::empty());
        }
        let slug = naming::slug(front);
        Seq::filter_distributes_over_add(slug, form, letter);
        Seq::filter_distributes_over_add(slug, dash, letter);
        Seq::filter_distributes_over_add(slug + dash, form, letter);
        assert(lowered(name) == lowered(front) + form);
        if has_letter(front) {
            assert(slug.filter(letter) == lowered(front));
            assert(lowered(front) + Seq::<char>::empty() == lowered(front));
        } else {
            assert(lowered(front) + form == form);
        }
    }
}

/// A name without letters and digits has no lower-case forms.
proof fn nothing_is_lowered(name: Seq<char>)
    requires
        !has_letter(name),
    ensures
        lowered(name) == Seq::<char>::empty(),
    decreases name.len(),
{
    if name.len() > 0 {
        let front = name.drop_last();
        assert(!has_letter(front)) by {
            if has_letter(front) {
                let i = choose|i: int|
                    0 <= i < front.len() && unicode::is_alphanumeric(#[trigger] front[i]);
                assert(name[i] == front[i]);
            }
        }
        nothing_is_lowered(front);
        assert(!unicode::is_alphanumeric(name[name.len() - 1]));
    }
}

/// Of ASCII, the letters `A` to `Z` and `a` to `z` and the digits count, by
/// their numbers; the letters `A` to `Z` have those 32 further as lower-case
/// forms, and any other character has itself.
pub proof fn ascii_letters_and_digits_count(c: char)
    requires
        (c as int) < 128,
    ensures
        unicode::is_alphanumeric(c) <==> 48 <= c as int <= 57 || 65 <= c as int <= 90 || 97
            <= c as int <= 122,
        unicode::lowercase(c).len() == 1,
        unicode::lowercase(c)[0] as int == if 65 <= c as int <= 90 {
            c as int + 32
        } else {
            c as int
        },
{
}

/// Beyond ASCII, what counts and which lower-case forms there are is for Unicode
/// to say, and nothing else.
pub proof fn unicode_decides_beyond_ascii(c: char, s: Seq<char>, i: int)
    requires
        c as int >= 128,
        0 <= i < s.len(),
        s[i] as int >= 128,
    ensures
        unicode::is_alphanumeric(c) == unicode::unicode_alphanumeric(c),
        unicode::lowercase(c) == unicode::unicode_lowercase(c),
        unicode::lowercase_text(s) == unicode::unicode_lowercase_text(s),
{
    assert(!unicode::is_ascii(s[i]));
}

/// The lower-case form of an ASCII text has the lower-case form of each of its
/// characters, in order.
pub proof fn ascii_texts_are_lowered_character_by_character(s: Seq<char>)
    requires
        forall|i: int| 0 <= i < s.len() ==> (#[trigger] s[i] as int) < 128,
    ensures
        unicode::lowercase_text(s).len() == s.len(),
        forall|i: int|
            0 <= i < s.len() ==> #[trigger] unicode::lowercase_text(s)[i] as int == if 65
                <= s[i] as int <= 90 {
                s[i] as int + 32
            } else {
                s[i] as int
            },
{
    assert(unicode::is_ascii_text(s));
}

/// The number that decimal digits stand for.
pub open spec fn value(digits: Seq<char>) -> int
    decreases digits.len(),
{
    if digits.len() == 0 {
        0
    } else {
        10 * value(digits.drop_last()) + (digits[digits.len() - 1] as int - 48)
    }
}

/// The digits of a number stand for it.
proof fn decimals_stand_for_numbers(n: int)
    requires
        0 <= n,
    ensures
        value(naming::decimal(n)) == n,
    decreases n,
{
    let digits = naming::decimal(n);
    if n < 10 {
        assert(digits.drop_last() == Seq::<char>::empty());
        assert(value(digits.drop_last()) == 0);
    } else {
        decimals_stand_for_numbers(n / 10);
        assert(digits.drop_last() == naming::decimal(n / 10));
    }
}

/// A number is written with digits that stand for it, at least two of them, and
/// with no zero at the front of more than two.
pub proof fn numbers_are_written_in_decimal(n: int)
    requires
        0 <= n,
    ensures
        value(naming::two_digits(n)) == n,
        naming::two_digits(n).len() >= 2,
        naming::two_digits(n).len() > 2 ==> naming::two_digits(n)[0] != '0',
        forall|i: int|
            0 <= i < naming::two_digits(n).len() ==> 48 <= #[trigger] naming::two_digits(
                n,
            )[i] as int <= 57,
{
    decimals_stand_for_numbers(n);
    naming_laws::two_digits_are_digits(n);
    naming_laws::decimals_are_digits(n);
    if n < 10 {
        let digits = naming::two_digits(n);
        let one = naming::decimal(n);
        assert(one.len() == 1);
        assert(digits == seq!['0', one[0]]);
        assert(digits.drop_last() == seq!['0']);
        assert(seq!['0'].drop_last() == Seq::<char>::empty());
        assert(value(seq!['0'].drop_last()) == 0);
        assert(value(seq!['0']) == 0);
        assert(one.drop_last() == Seq::<char>::empty());
        assert(value(one.drop_last()) == 0);
    }
}

/// A section number is written part by part, with dashes between the parts.
pub proof fn section_numbers_are_written_part_by_part(number: Seq<u32>, part: u32)
    ensures
        number.len() == 0 ==> naming::section_text(number.push(part)) == naming::two_digits(
            part as int,
        ),
        number.len() > 0 ==> naming::section_text(number.push(part)) == naming::section_text(number)
            + seq!['-'] + naming::two_digits(part as int),
{
    let parts = number.map_values(|part: u32| naming::two_digits(part as int));
    assert(number.push(part).map_values(|part: u32| naming::two_digits(part as int)) == parts.push(
        naming::two_digits(part as int),
    ));
    join_grows(parts, naming::two_digits(part as int));
}

} // verus!
