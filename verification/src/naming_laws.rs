//! What holds of the names and places of the files.

use vstd::prelude::*;

use crate::encoding_laws;
use crate::naming;
use crate::outline;
use crate::path_laws;
use crate::paths;
use crate::text;
use crate::unicode;

verus! {

/// Whether the character is a lower-case ASCII letter or a digit.
pub open spec fn is_plain(c: char) -> bool {
    'a' <= c <= 'z' || '0' <= c <= '9'
}

/// Whether the text is not empty and consists of lower-case ASCII letters and
/// digits.
pub open spec fn is_plain_word(s: Seq<char>) -> bool {
    s.len() > 0 && forall|i: int| 0 <= i < s.len() ==> is_plain(#[trigger] s[i])
}

/// Whether the character has a meaning in the name of a file: a dash between
/// words, a separator of paths, or the dot before an extension.
pub open spec fn is_mark(c: char) -> bool {
    c == '-' || c == '/' || c == '\\' || c == '.'
}

/// Whether the text holds no mark.
pub open spec fn lacks_marks(s: Seq<char>) -> bool {
    forall|i: int| 0 <= i < s.len() ==> !is_mark(#[trigger] s[i])
}

/// Whether no letter or digit of the name has a mark in its lower-case form.
pub open spec fn is_lowered_plainly(name: Seq<char>) -> bool {
    forall|i: int|
        0 <= i < name.len() && unicode::is_alphanumeric(#[trigger] name[i]) ==> lacks_marks(
            unicode::lowercase(name[i]),
        )
}

/// Whether the text is well shaped as a file name: it is not empty, has dashes
/// neither at its ends nor next to each other, and holds no other mark.
pub open spec fn is_well_shaped(s: Seq<char>) -> bool {
    &&& s.len() > 0
    &&& s[0] != '-'
    &&& s.last() != '-'
    &&& forall|i: int| 0 <= i < s.len() ==> !is_mark(#[trigger] s[i]) || s[i] == '-'
    &&& forall|i: int| 0 < i < s.len() && s[i] == '-' ==> #[trigger] s[i - 1] != '-'
}

/// Whether the text is well shaped and consists of lower-case ASCII letters,
/// digits and dashes.
pub open spec fn is_slug(s: Seq<char>) -> bool {
    &&& is_well_shaped(s)
    &&& forall|i: int| 0 <= i < s.len() ==> is_plain(#[trigger] s[i]) || s[i] == '-'
}

/// A name has at least one piece.
pub(crate) proof fn pieces_are_not_none(name: Seq<char>)
    ensures
        naming::word_pieces(name).len() > 0,
    decreases name.len(),
{
    if name.len() > 0 {
        pieces_are_not_none(name.drop_last());
    }
}

/// The words of a name are not empty.
proof fn words_are_not_empty(name: Seq<char>)
    ensures
        forall|i: int|
            0 <= i < naming::words(name).len() ==> (#[trigger] naming::words(name)[i]).len() > 0,
{
    let nonempty = |piece: Seq<char>| piece.len() > 0;
    assert forall|i: int| 0 <= i < naming::words(name).len() implies (#[trigger] naming::words(
        name,
    )[i]).len() > 0 by {
        naming::word_pieces(name).lemma_filter_pred(nonempty, i);
    }
}

/// Every chapter gets a file name with something in it.
pub proof fn slugs_are_not_empty(name: Seq<char>)
    ensures
        naming::slug(name).len() > 0,
{
    reveal_strlit("chapter");
    words_are_not_empty(name);
    if naming::words(name).len() > 0 {
        naming::joined_words_are_not_empty(naming::words(name), seq!['-']);
    }
}

/// The pieces of a name hold what the lower-case forms of its letters and
/// digits hold.
proof fn pieces_hold_lower_case_forms(name: Seq<char>, p: spec_fn(char) -> bool)
    requires
        forall|i: int, k: int|
            0 <= i < name.len() && unicode::is_alphanumeric(name[i]) && 0 <= k < unicode::lowercase(
                name[i],
            ).len() ==> p(#[trigger] unicode::lowercase(name[i])[k]),
    ensures
        forall|i: int, k: int|
            0 <= i < naming::word_pieces(name).len() && 0 <= k < naming::word_pieces(name)[i].len()
                ==> p(#[trigger] naming::word_pieces(name)[i][k]),
    decreases name.len(),
{
    if name.len() > 0 {
        let front_name = name.drop_last();
        assert forall|i: int, k: int|
            0 <= i < front_name.len() && unicode::is_alphanumeric(front_name[i]) && 0 <= k
                < unicode::lowercase(front_name[i]).len() implies p(
            #[trigger] unicode::lowercase(front_name[i])[k],
        ) by {
            assert(p(unicode::lowercase(name[i])[k]));
        }
        pieces_hold_lower_case_forms(front_name, p);
        pieces_are_not_none(front_name);
        let front = naming::word_pieces(front_name);
        let pieces = naming::word_pieces(name);
        let last = name.len() - 1;
        assert forall|i: int, k: int| 0 <= i < pieces.len() && 0 <= k < pieces[i].len() implies p(
            #[trigger] pieces[i][k],
        ) by {
            if i < front.len() && k < front[i].len() {
                assert(p(front[i][k]));
            } else if unicode::is_alphanumeric(name[last]) {
                assert(p(unicode::lowercase(name[last])[k - front[i].len()]));
            }
        }
    }
}

/// The words of a name hold what the lower-case forms of its letters and
/// digits hold.
proof fn words_hold_lower_case_forms(name: Seq<char>, p: spec_fn(char) -> bool)
    requires
        forall|i: int, k: int|
            0 <= i < name.len() && unicode::is_alphanumeric(name[i]) && 0 <= k < unicode::lowercase(
                name[i],
            ).len() ==> p(#[trigger] unicode::lowercase(name[i])[k]),
    ensures
        forall|i: int, k: int|
            0 <= i < naming::words(name).len() && 0 <= k < naming::words(name)[i].len() ==> p(
                #[trigger] naming::words(name)[i][k],
            ),
{
    let nonempty = |piece: Seq<char>| piece.len() > 0;
    let pieces = naming::word_pieces(name);
    let words = naming::words(name);
    pieces_hold_lower_case_forms(name, p);
    assert forall|i: int, k: int| 0 <= i < words.len() && 0 <= k < words[i].len() implies p(
        #[trigger] words[i][k],
    ) by {
        assert(words.contains(words[i]));
        pieces.lemma_filter_contains_rev(nonempty, words[i]);
        let n = pieces.index_of(words[i]);
        assert(pieces[n] == words[i]);
        assert(p(pieces[n][k]));
    }
}

/// The words of an ASCII name hold lower-case letters and digits alone.
proof fn ascii_words_are_plain(name: Seq<char>)
    requires
        unicode::is_ascii_text(name),
    ensures
        forall|i: int|
            0 <= i < naming::words(name).len() ==> is_plain_word(#[trigger] naming::words(name)[i]),
{
    let words = naming::words(name);
    let plain = |c: char| is_plain(c);
    assert forall|i: int, k: int|
        0 <= i < name.len() && unicode::is_alphanumeric(name[i]) && 0 <= k < unicode::lowercase(
            name[i],
        ).len() implies plain(#[trigger] unicode::lowercase(name[i])[k]) by {
        assert(unicode::is_ascii(name[i]));
        assert(is_plain(text::ascii_lower(name[i])));
    }
    words_hold_lower_case_forms(name, plain);
    words_are_not_empty(name);
    assert forall|i: int| 0 <= i < words.len() implies is_plain_word(#[trigger] words[i]) by {
        assert forall|k: int| 0 <= k < words[i].len() implies is_plain(#[trigger] words[i][k]) by {
            assert(plain(words[i][k]));
        }
    }
}

/// Words with dashes between them are well shaped.
proof fn joined_words_are_well_shaped(words: Seq<Seq<char>>)
    requires
        words.len() > 0,
        forall|i: int|
            0 <= i < words.len() ==> (#[trigger] words[i]).len() > 0 && lacks_marks(words[i]),
    ensures
        is_well_shaped(text::join(words, seq!['-'])),
    decreases words.len(),
{
    let sep = seq!['-'];
    let all = text::join(words, sep);
    let last = words[words.len() - 1];
    assert(last.len() > 0 && lacks_marks(last));
    assert(!is_mark(last[0]) && !is_mark(last[last.len() - 1]));
    if words.len() > 1 {
        let front = words.drop_last();
        assert forall|i: int| 0 <= i < front.len() implies (#[trigger] front[i]).len() > 0
            && lacks_marks(front[i]) by {
            assert(front[i] == words[i]);
        }
        joined_words_are_well_shaped(front);
        let before = text::join(front, sep);
        assert(all == before + sep + last);
        assert forall|i: int| 0 <= i < all.len() implies !is_mark(#[trigger] all[i]) || all[i]
            == '-' by {
            if i < before.len() {
                assert(!is_mark(before[i]) || before[i] == '-');
            } else if i > before.len() {
                assert(!is_mark(last[i - before.len() - 1]));
            }
        }
        assert forall|i: int| 0 < i < all.len() && all[i] == '-' implies #[trigger] all[i - 1]
            != '-' by {
            if i < before.len() {
                assert(before[i - 1] != '-');
            } else if i > before.len() {
                assert(!is_mark(last[i - before.len() - 1]));
            }
        }
        assert(all.last() == last[last.len() - 1]);
    } else {
        assert(all == last);
        assert forall|i: int| 0 < i < all.len() && all[i] == '-' implies #[trigger] all[i - 1]
            != '-' by {
            assert(!is_mark(last[i]));
        }
    }
}

/// The file name after a chapter is well shaped, whatever its name, where no
/// letter or digit of it has a mark in its lower-case form.
pub proof fn slugs_are_well_shaped(name: Seq<char>)
    requires
        is_lowered_plainly(name),
    ensures
        is_well_shaped(naming::slug(name)),
        !naming::slug(name).contains('/'),
{
    let words = naming::words(name);
    let slug = naming::slug(name);
    let unmarked = |c: char| !is_mark(c);
    if words.len() == 0 {
        reveal_strlit("chapter");
    } else {
        assert forall|i: int, k: int|
            0 <= i < name.len() && unicode::is_alphanumeric(name[i]) && 0 <= k < unicode::lowercase(
                name[i],
            ).len() implies unmarked(#[trigger] unicode::lowercase(name[i])[k]) by {
            assert(lacks_marks(unicode::lowercase(name[i])));
        }
        words_hold_lower_case_forms(name, unmarked);
        words_are_not_empty(name);
        assert forall|i: int| 0 <= i < words.len() implies (#[trigger] words[i]).len() > 0
            && lacks_marks(words[i]) by {
            assert forall|k: int| 0 <= k < words[i].len() implies !is_mark(
                #[trigger] words[i][k],
            ) by {
                assert(unmarked(words[i][k]));
            }
        }
        joined_words_are_well_shaped(words);
    }
    if slug.contains('/') {
        let i = slug.index_of('/');
        assert(!is_mark(slug[i]) || slug[i] == '-');
    }
}

/// No ASCII letter or digit has a mark in its lower-case form.
pub proof fn ascii_names_are_lowered_plainly(name: Seq<char>)
    requires
        unicode::is_ascii_text(name),
    ensures
        is_lowered_plainly(name),
{
    assert forall|i: int|
        0 <= i < name.len() && unicode::is_alphanumeric(#[trigger] name[i]) implies lacks_marks(
        unicode::lowercase(name[i]),
    ) by {
        assert(unicode::is_ascii(name[i]));
        assert(is_plain(text::ascii_lower(name[i])));
    }
}

/// Joined plain words hold lower-case letters, digits and dashes alone.
proof fn joined_words_are_plain(words: Seq<Seq<char>>)
    requires
        forall|i: int| 0 <= i < words.len() ==> is_plain_word(#[trigger] words[i]),
    ensures
        ({
            let all = text::join(words, seq!['-']);
            forall|i: int| 0 <= i < all.len() ==> is_plain(#[trigger] all[i]) || all[i] == '-'
        }),
    decreases words.len(),
{
    let sep = seq!['-'];
    let all = text::join(words, sep);
    if words.len() > 0 {
        let last = words[words.len() - 1];
        assert(is_plain_word(last));
        if words.len() > 1 {
            let front = words.drop_last();
            assert forall|i: int| 0 <= i < front.len() implies is_plain_word(
                #[trigger] front[i],
            ) by {
                assert(front[i] == words[i]);
            }
            joined_words_are_plain(front);
            let before = text::join(front, sep);
            assert(all == before + sep + last);
            assert forall|i: int| 0 <= i < all.len() implies is_plain(#[trigger] all[i]) || all[i]
                == '-' by {
                if i < before.len() {
                    assert(is_plain(before[i]) || before[i] == '-');
                } else if i > before.len() {
                    assert(is_plain(last[i - before.len() - 1]));
                }
            }
        }
    }
}

/// The file name after a chapter with an ASCII name is readable: lower-case
/// letters and digits, with single dashes between words.
pub proof fn slugs_of_ascii_names_are_readable(name: Seq<char>)
    requires
        unicode::is_ascii_text(name),
    ensures
        is_slug(naming::slug(name)),
{
    let words = naming::words(name);
    ascii_names_are_lowered_plainly(name);
    slugs_are_well_shaped(name);
    if words.len() == 0 {
        reveal_strlit("chapter");
        let chapter = "chapter"@;
        assert forall|i: int| 0 <= i < chapter.len() implies is_plain(#[trigger] chapter[i]) by {}
    } else {
        ascii_words_are_plain(name);
        joined_words_are_plain(words);
    }
}

/// A plain word is its only piece.
proof fn plain_word_is_one_piece(word: Seq<char>)
    requires
        forall|i: int| 0 <= i < word.len() ==> is_plain(#[trigger] word[i]),
    ensures
        naming::word_pieces(word) == seq![word],
    decreases word.len(),
{
    if word.len() == 0 {
        assert(word == Seq::<char>::empty());
    } else {
        let front = word.drop_last();
        assert forall|i: int| 0 <= i < front.len() implies is_plain(#[trigger] front[i]) by {
            assert(front[i] == word[i]);
        }
        plain_word_is_one_piece(front);
        let c = word[word.len() - 1];
        assert(is_plain(c));
        assert(unicode::is_alphanumeric(c));
        assert(unicode::lowercase(c) == seq![c]);
        assert(front + seq![c] == word);
    }
}

/// The pieces on both sides of a dash are those of the whole.
proof fn pieces_at_dash(a: Seq<char>, b: Seq<char>)
    ensures
        naming::word_pieces(a.push('-') + b) == naming::word_pieces(a) + naming::word_pieces(b),
    decreases b.len(),
{
    let whole = a.push('-') + b;
    pieces_are_not_none(a);
    if b.len() == 0 {
        assert(whole == a.push('-'));
        assert(whole.drop_last() == a);
        assert(!unicode::is_alphanumeric('-'));
    } else {
        pieces_at_dash(a, b.drop_last());
        pieces_are_not_none(b.drop_last());
        let front = naming::word_pieces(b.drop_last());
        assert(whole.drop_last() == a.push('-') + b.drop_last());
        assert((naming::word_pieces(a) + front).drop_last() == naming::word_pieces(a)
            + front.drop_last());
    }
}

/// The pieces of joined words are the words.
proof fn pieces_of_joined_words(words: Seq<Seq<char>>)
    requires
        words.len() > 0,
        forall|i: int| 0 <= i < words.len() ==> is_plain_word(#[trigger] words[i]),
    ensures
        naming::word_pieces(text::join(words, seq!['-'])) == words,
    decreases words.len(),
{
    let last = words[words.len() - 1];
    assert(is_plain_word(last));
    plain_word_is_one_piece(last);
    if words.len() == 1 {
        assert(seq![last] == words);
    } else {
        let front = words.drop_last();
        assert forall|i: int| 0 <= i < front.len() implies is_plain_word(#[trigger] front[i]) by {
            assert(front[i] == words[i]);
        }
        pieces_of_joined_words(front);
        let before = text::join(front, seq!['-']);
        pieces_at_dash(before, last);
        assert(before + seq!['-'] == before.push('-'));
        assert(front + seq![last] == words);
    }
}

/// Pieces none of which is empty stay as they are.
proof fn nonempty_pieces_stay(pieces: Seq<Seq<char>>)
    requires
        forall|i: int| 0 <= i < pieces.len() ==> (#[trigger] pieces[i]).len() > 0,
    ensures
        naming::nonempty(pieces) == pieces,
    decreases pieces.len(),
{
    reveal(Seq::filter);
    if pieces.len() > 0 {
        let front = pieces.drop_last();
        assert forall|i: int| 0 <= i < front.len() implies (#[trigger] front[i]).len() > 0 by {
            assert(front[i] == pieces[i]);
        }
        nonempty_pieces_stay(front);
        assert(pieces[pieces.len() - 1].len() > 0);
        assert(front.push(pieces.last()) == pieces);
    }
}

/// The file name after an ASCII name gives the same file name again.
pub proof fn slugs_of_ascii_names_are_stable(name: Seq<char>)
    requires
        unicode::is_ascii_text(name),
    ensures
        naming::slug(naming::slug(name)) == naming::slug(name),
{
    let words = if naming::words(name).len() == 0 {
        seq!["chapter"@]
    } else {
        naming::words(name)
    };
    assert forall|i: int| 0 <= i < words.len() implies is_plain_word(#[trigger] words[i]) by {
        if naming::words(name).len() == 0 {
            reveal_strlit("chapter");
            let chapter = "chapter"@;
            assert forall|k: int| 0 <= k < chapter.len() implies is_plain(
                #[trigger] chapter[k],
            ) by {}
        } else {
            ascii_words_are_plain(name);
        }
    }
    assert(naming::slug(name) == text::join(words, seq!['-']));
    pieces_of_joined_words(words);
    assert forall|i: int| 0 <= i < words.len() implies (#[trigger] words[i]).len() > 0 by {
        assert(is_plain_word(words[i]));
    }
    nonempty_pieces_stay(words);
}

/// The digits of a number are digits, and the first one of a positive number
/// is not zero.
pub(crate) proof fn decimals_are_digits(n: int)
    requires
        0 <= n,
    ensures
        naming::decimal(n).len() > 0,
        forall|i: int|
            0 <= i < naming::decimal(n).len() ==> '0' <= #[trigger] naming::decimal(n)[i] <= '9',
        n > 0 ==> naming::decimal(n)[0] != '0',
    decreases n,
{
    if n >= 10 {
        decimals_are_digits(n / 10);
    }
}

/// Different numbers have different digits.
proof fn decimals_differ(a: int, b: int)
    requires
        0 <= a,
        0 <= b,
        naming::decimal(a) == naming::decimal(b),
    ensures
        a == b,
    decreases a,
{
    decimals_are_digits(a / 10);
    decimals_are_digits(b / 10);
    let last_a = naming::decimal(a).last();
    let last_b = naming::decimal(b).last();
    assert(last_a == naming::digit(a % 10));
    assert(last_b == naming::digit(b % 10));
    assert(a % 10 == b % 10);
    if a >= 10 && b >= 10 {
        assert(naming::decimal(a).drop_last() == naming::decimal(a / 10));
        assert(naming::decimal(b).drop_last() == naming::decimal(b / 10));
        decimals_differ(a / 10, b / 10);
    } else if a >= 10 {
        assert(naming::decimal(a).len() == naming::decimal(a / 10).len() + 1);
    } else if b >= 10 {
        assert(naming::decimal(b).len() == naming::decimal(b / 10).len() + 1);
    }
}

/// Different numbers differ when written with at least two digits.
proof fn two_digits_differ(a: int, b: int)
    requires
        0 <= a,
        0 <= b,
        naming::two_digits(a) == naming::two_digits(b),
    ensures
        a == b,
{
    decimals_are_digits(a);
    decimals_are_digits(b);
    if a < 10 && b < 10 {
        assert(naming::two_digits(a)[1] == naming::decimal(a)[0]);
        assert(naming::two_digits(b)[1] == naming::decimal(b)[0]);
    } else if a < 10 {
        assert(naming::two_digits(a)[0] == '0');
    } else if b < 10 {
        assert(naming::two_digits(b)[0] == '0');
    } else {
        decimals_differ(a, b);
    }
}

/// What a number is written with are digits.
pub(crate) proof fn two_digits_are_digits(n: int)
    requires
        0 <= n,
    ensures
        naming::two_digits(n).len() >= 2,
        forall|i: int|
            0 <= i < naming::two_digits(n).len() ==> '0' <= #[trigger] naming::two_digits(n)[i]
                <= '9',
{
    decimals_are_digits(n);
    if n < 10 {
        assert forall|i: int| 0 <= i < naming::two_digits(n).len() implies '0'
            <= #[trigger] naming::two_digits(n)[i] <= '9' by {
            if i > 0 {
                assert(naming::two_digits(n)[i] == naming::decimal(n)[i - 1]);
            }
        }
    } else {
        decimals_are_digits(n / 10);
    }
}

/// Different section numbers are written differently.
pub proof fn section_numbers_stay_apart(a: Seq<u32>, b: Seq<u32>)
    requires
        a.len() > 0,
        b.len() > 0,
        naming::section_text(a) == naming::section_text(b),
    ensures
        a == b,
{
    let parts_a = a.map_values(|part: u32| naming::two_digits(part as int));
    let parts_b = b.map_values(|part: u32| naming::two_digits(part as int));
    section_parts_lack_dashes(a);
    section_parts_lack_dashes(b);
    text::split_undoes_join(parts_a, '-');
    text::split_undoes_join(parts_b, '-');
    assert(parts_a == parts_b);
    assert(a.len() == b.len());
    assert forall|i: int| 0 <= i < a.len() implies a[i] == b[i] by {
        assert(parts_a[i] == naming::two_digits(a[i] as int));
        assert(parts_b[i] == naming::two_digits(b[i] as int));
        two_digits_differ(a[i] as int, b[i] as int);
    }
}

/// The parts of a section number are written without dashes.
proof fn section_parts_lack_dashes(number: Seq<u32>)
    ensures
        ({
            let parts = number.map_values(|part: u32| naming::two_digits(part as int));
            forall|i: int| 0 <= i < parts.len() ==> !(#[trigger] parts[i]).contains('-')
        }),
{
    let parts = number.map_values(|part: u32| naming::two_digits(part as int));
    assert forall|i: int| 0 <= i < parts.len() implies !(#[trigger] parts[i]).contains('-') by {
        two_digits_are_digits(number[i] as int);
        assert(parts[i] == naming::two_digits(number[i] as int));
    }
}

/// Joined parts hold a character only if the parts or the separator do.
proof fn join_lacks(parts: Seq<Seq<char>>, sep: Seq<char>, c: char)
    requires
        forall|i: int| 0 <= i < parts.len() ==> !(#[trigger] parts[i]).contains(c),
        !sep.contains(c),
    ensures
        !text::join(parts, sep).contains(c),
    decreases parts.len(),
{
    if parts.len() > 1 {
        let front = parts.drop_last();
        assert forall|i: int| 0 <= i < front.len() implies !(#[trigger] front[i]).contains(c) by {
            assert(front[i] == parts[i]);
        }
        join_lacks(front, sep, c);
        let before = text::join(front, sep);
        let last = parts[parts.len() - 1];
        assert(!last.contains(c));
        sum_lacks(before, sep, c);
        sum_lacks(before + sep, last, c);
    }
}

/// Two texts without a character make one without it.
proof fn sum_lacks(a: Seq<char>, b: Seq<char>, c: char)
    requires
        !a.contains(c),
        !b.contains(c),
    ensures
        !(a + b).contains(c),
{
    if (a + b).contains(c) {
        let i = (a + b).index_of(c);
        if i < a.len() {
            assert(a[i] == c);
        } else {
            assert(b[i - a.len()] == c);
        }
    }
}

/// The number of a chapter is written without slashes.
proof fn pdf_number_lacks_slash(chapter: outline::ChapterView, chapter_index: int)
    requires
        0 <= chapter_index,
    ensures
        !naming::pdf_number(chapter, chapter_index).contains('/'),
{
    if naming::has_number(chapter) {
        let number = chapter.number.unwrap();
        let parts = number.map_values(|part: u32| naming::two_digits(part as int));
        assert forall|i: int| 0 <= i < parts.len() implies !(#[trigger] parts[i]).contains('/') by {
            two_digits_are_digits(number[i] as int);
            assert(parts[i] == naming::two_digits(number[i] as int));
        }
        assert(!seq!['-'].contains('/'));
        join_lacks(parts, seq!['-'], '/');
    } else {
        two_digits_are_digits(chapter_index + 1);
    }
}

/// The number of a chapter starts with a digit.
pub(crate) proof fn pdf_number_starts_with_digit(
    chapter: outline::ChapterView,
    chapter_index: int,
)
    requires
        0 <= chapter_index,
    ensures
        naming::pdf_number(chapter, chapter_index).len() > 0,
        '0' <= naming::pdf_number(chapter, chapter_index)[0] <= '9',
{
    if naming::has_number(chapter) {
        section_starts_with_digit(chapter.number.unwrap());
    } else {
        two_digits_are_digits(chapter_index + 1);
    }
}

/// So does a section number.
proof fn section_starts_with_digit(number: Seq<u32>)
    requires
        number.len() > 0,
    ensures
        naming::section_text(number).len() > 0,
        '0' <= naming::section_text(number)[0] <= '9',
    decreases number.len(),
{
    let parts = number.map_values(|part: u32| naming::two_digits(part as int));
    if number.len() == 1 {
        two_digits_are_digits(number[0] as int);
        assert(parts[0] == naming::two_digits(number[0] as int));
    } else {
        let front = number.drop_last();
        section_starts_with_digit(front);
        assert(front.map_values(|part: u32| naming::two_digits(part as int)) == parts.drop_last());
    }
}

/// The names of the directory that a path lies in.
pub open spec fn dir_names(path: Seq<u8>) -> Seq<Seq<u8>> {
    match paths::parent(path) {
        Some(dir) => paths::names(dir),
        None => seq![],
    }
}

/// The file name of a chapter's PDF, as it stands in a path.
pub open spec fn file_name_bytes(chapter: outline::ChapterView, chapter_index: int) -> Seq<u8> {
    unicode::encoded(naming::pdf_file_name(chapter, chapter_index))
}

/// The file name of a PDF is one, unless the name after the chapter holds a
/// slash.
proof fn pdf_file_name_is_a_name(chapter: outline::ChapterView, chapter_index: int)
    requires
        0 <= chapter_index,
        !naming::slug(chapter.name).contains('/'),
    ensures
        paths::counts(file_name_bytes(chapter, chapter_index)),
        !file_name_bytes(chapter, chapter_index).contains(paths::SLASH),
{
    let number = naming::pdf_number(chapter, chapter_index);
    let name = naming::slug(chapter.name);
    let end = ".pdf"@;
    reveal_strlit(".pdf");
    pdf_number_lacks_slash(chapter, chapter_index);
    assert(!seq!['-'].contains('/'));
    assert(!end.contains('/'));
    sum_lacks(number, seq!['-'], '/');
    assert(number + seq!['-'] == number.push('-'));
    sum_lacks(number.push('-'), name, '/');
    sum_lacks(number.push('-') + name, end, '/');
    assert(naming::pdf_file_name(chapter, chapter_index).len() > 1);
    encoding_laws::encoded_names_are_names(naming::pdf_file_name(chapter, chapter_index));
}

/// The PDFs of chapters lie as the chapters do in the book: below the
/// destination and `chapters` come the directories of the chapter, and then
/// its file.
pub proof fn pdfs_lie_as_chapters_do(
    pdf_destination: Seq<u8>,
    chapter: outline::ChapterView,
    path: Seq<u8>,
    chapter_index: int,
)
    requires
        0 <= chapter_index,
        chapter.path == Some(path),
        !paths::is_absolute(path),
        !naming::slug(chapter.name).contains('/'),
    ensures
        paths::components(naming::pdf_path(pdf_destination, chapter, chapter_index))
            == paths::components(pdf_destination) + seq![unicode::encoded("chapters"@)] + dir_names(
            path,
        ) + seq![file_name_bytes(chapter, chapter_index)],
{
    let chapters = unicode::encoded("chapters"@);
    let base = paths::joined(pdf_destination, chapters);
    let file = file_name_bytes(chapter, chapter_index);
    let dir = naming::pdf_dir(pdf_destination, chapter);
    reveal_strlit("chapters");
    assert(!"chapters"@.contains('/'));
    encoding_laws::encoded_names_are_names("chapters"@);
    path_laws::a_name_is_a_path(chapters);
    path_laws::joining_appends_components(pdf_destination, chapters);
    assert(paths::components(base) == paths::components(pdf_destination) + seq![chapters]) by {
        if pdf_destination.len() == 0 {
            path_laws::an_empty_path_has_no_components(pdf_destination);
            assert(paths::components(pdf_destination) + seq![chapters] == seq![chapters]);
        }
    }
    assert(base.len() > 0);
    path_laws::parents_of_relative_paths_are_relative(path);
    assert(paths::components(dir) == paths::components(base) + dir_names(path)) by {
        match paths::parent(path) {
            Some(chapter_dir) => {
                if chapter_dir.len() > 0 {
                    path_laws::joining_appends_components(base, chapter_dir);
                } else {
                    path_laws::an_empty_path_has_no_components(chapter_dir);
                    assert(paths::names(chapter_dir) == Seq::<Seq<u8>>::empty());
                }
            },
            None => {},
        }
    }
    assert(dir.len() > 0);
    pdf_file_name_is_a_name(chapter, chapter_index);
    path_laws::a_name_is_a_path(file);
    path_laws::joining_appends_components(dir, file);
}

/// The last component of the path of a PDF is its file name.
proof fn pdf_file_name_comes_last(
    pdf_destination: Seq<u8>,
    chapter: outline::ChapterView,
    chapter_index: int,
)
    requires
        0 <= chapter_index,
        !naming::slug(chapter.name).contains('/'),
    ensures
        paths::components(naming::pdf_path(pdf_destination, chapter, chapter_index)).len() > 0,
        paths::components(naming::pdf_path(pdf_destination, chapter, chapter_index)).last()
            == file_name_bytes(chapter, chapter_index),
{
    let file = file_name_bytes(chapter, chapter_index);
    pdf_file_name_is_a_name(chapter, chapter_index);
    path_laws::a_name_is_a_path(file);
    path_laws::joining_appends_components(naming::pdf_dir(pdf_destination, chapter), file);
}

/// The file names of PDFs that start with different numbers are different.
proof fn counted_file_names_differ(
    chapter: outline::ChapterView,
    other: outline::ChapterView,
    chapter_index: int,
    other_index: int,
)
    requires
        0 <= chapter_index < other_index,
        !naming::has_number(chapter),
        !naming::has_number(other),
    ensures
        naming::pdf_file_name(chapter, chapter_index) != naming::pdf_file_name(other, other_index),
{
    let a = naming::two_digits(chapter_index + 1);
    let b = naming::two_digits(other_index + 1);
    let file_a = naming::pdf_file_name(chapter, chapter_index);
    let file_b = naming::pdf_file_name(other, other_index);
    two_digits_are_digits(chapter_index + 1);
    two_digits_are_digits(other_index + 1);
    assert(a != b) by {
        if a == b {
            two_digits_differ(chapter_index + 1, other_index + 1);
        }
    }
    assert(file_a.take(a.len() as int) == a && file_a[a.len() as int] == '-');
    assert(file_b.take(b.len() as int) == b && file_b[b.len() as int] == '-');
    if file_a == file_b {
        if a.len() < b.len() {
            assert(b[a.len() as int] == file_b[a.len() as int]);
        } else if b.len() < a.len() {
            assert(a[b.len() as int] == file_a[b.len() as int]);
        }
    }
}

/// No PDF of a chapter without a section number takes the place of another
/// one's: at different places among the printed chapters, such chapters have
/// different files, even with the same name in the same directory. The names
/// after the chapters hold no slash.
pub proof fn pdfs_of_unnumbered_chapters_stay_apart(
    pdf_destination: Seq<u8>,
    chapter: outline::ChapterView,
    other: outline::ChapterView,
    chapter_index: int,
    other_index: int,
)
    requires
        0 <= chapter_index,
        0 <= other_index,
        chapter_index != other_index,
        !naming::has_number(chapter),
        !naming::has_number(other),
        !naming::slug(chapter.name).contains('/'),
        !naming::slug(other.name).contains('/'),
    ensures
        naming::pdf_path(pdf_destination, chapter, chapter_index) != naming::pdf_path(
            pdf_destination,
            other,
            other_index,
        ),
        paths::components(naming::pdf_path(pdf_destination, chapter, chapter_index))
            != paths::components(naming::pdf_path(pdf_destination, other, other_index)),
{
    pdf_file_name_comes_last(pdf_destination, chapter, chapter_index);
    pdf_file_name_comes_last(pdf_destination, other, other_index);
    encoding_laws::encoding_is_undone_by_decoding(naming::pdf_file_name(chapter, chapter_index));
    encoding_laws::encoding_is_undone_by_decoding(naming::pdf_file_name(other, other_index));
    if chapter_index < other_index {
        counted_file_names_differ(chapter, other, chapter_index, other_index);
    } else {
        counted_file_names_differ(other, chapter, other_index, chapter_index);
    }
}

/// Whatever the names of chapters without section numbers, none of their PDFs
/// takes the place of another one's, where no letter or digit of a name has a
/// mark in its lower-case form. Every ASCII name is such a name.
pub proof fn pdfs_of_plainly_lowered_chapters_stay_apart(
    pdf_destination: Seq<u8>,
    chapter: outline::ChapterView,
    other: outline::ChapterView,
    chapter_index: int,
    other_index: int,
)
    requires
        0 <= chapter_index,
        0 <= other_index,
        chapter_index != other_index,
        !naming::has_number(chapter),
        !naming::has_number(other),
        unicode::is_ascii_text(chapter.name) || is_lowered_plainly(chapter.name),
        unicode::is_ascii_text(other.name) || is_lowered_plainly(other.name),
    ensures
        naming::pdf_path(pdf_destination, chapter, chapter_index) != naming::pdf_path(
            pdf_destination,
            other,
            other_index,
        ),
        paths::components(naming::pdf_path(pdf_destination, chapter, chapter_index))
            != paths::components(naming::pdf_path(pdf_destination, other, other_index)),
{
    plainly_lowered_slugs_lack_slashes(chapter.name);
    plainly_lowered_slugs_lack_slashes(other.name);
    pdfs_of_unnumbered_chapters_stay_apart(
        pdf_destination,
        chapter,
        other,
        chapter_index,
        other_index,
    );
}

/// The file name after a chapter holds no slash, where no letter or digit of
/// the name has a mark in its lower-case form.
proof fn plainly_lowered_slugs_lack_slashes(name: Seq<char>)
    requires
        unicode::is_ascii_text(name) || is_lowered_plainly(name),
    ensures
        !naming::slug(name).contains('/'),
{
    if unicode::is_ascii_text(name) {
        ascii_names_are_lowered_plainly(name);
    }
    slugs_are_well_shaped(name);
}

/// Whatever the name of a chapter, its PDF lies as the chapter does in the
/// book, where no letter or digit of the name has a mark in its lower-case
/// form. Every ASCII name is such a name.
pub proof fn pdfs_of_plainly_lowered_chapters_lie_as_chapters_do(
    pdf_destination: Seq<u8>,
    chapter: outline::ChapterView,
    path: Seq<u8>,
    chapter_index: int,
)
    requires
        0 <= chapter_index,
        chapter.path == Some(path),
        !paths::is_absolute(path),
        unicode::is_ascii_text(chapter.name) || is_lowered_plainly(chapter.name),
    ensures
        paths::components(naming::pdf_path(pdf_destination, chapter, chapter_index))
            == paths::components(pdf_destination) + seq![unicode::encoded("chapters"@)] + dir_names(
            path,
        ) + seq![file_name_bytes(chapter, chapter_index)],
{
    plainly_lowered_slugs_lack_slashes(chapter.name);
    pdfs_lie_as_chapters_do(pdf_destination, chapter, path, chapter_index);
}

/// Pages lie as the chapters do in the book: next to the destination and in
/// `html` comes the chapter's path, with the name of the page at its end.
pub proof fn pages_lie_as_chapters_do(
    pdf_destination: Seq<u8>,
    chapter: outline::ChapterView,
    path: Seq<u8>,
    dir: Seq<u8>,
)
    requires
        chapter.path == Some(path),
        !paths::is_absolute(path),
        paths::parent(pdf_destination) == Some(dir),
    ensures
        naming::html_path(pdf_destination, chapter) matches Some(page) && paths::components(page)
            == paths::components(dir) + seq![unicode::encoded("html"@)] + paths::names(
            naming::page_path(path),
        ),
{
    let html = unicode::encoded("html"@);
    let base = paths::joined(dir, html);
    reveal_strlit("html");
    assert(!"html"@.contains('/'));
    encoding_laws::encoded_names_are_names("html"@);
    path_laws::a_name_is_a_path(html);
    path_laws::joining_appends_components(dir, html);
    assert(paths::components(base) == paths::components(dir) + seq![html]) by {
        if dir.len() == 0 {
            path_laws::an_empty_path_has_no_components(dir);
            assert(paths::components(dir) + seq![html] == seq![html]);
        }
    }
    let page = naming::page_path(path);
    path_laws::absolute_paths_start_with_the_root(path);
    path_laws::absolute_paths_start_with_the_root(page);
    if paths::file_name(path) is Some {
        pages_are_named_after_chapters(path);
        path_laws::file_name_is_last_component(path);
        if paths::components(path).len() > 1 {
            assert(paths::components(page)[0] == paths::components(path)[0]);
        } else {
            assert(paths::components(page)[0] == page_name(paths::components(path).last()));
            page_names_are_no_roots(paths::components(path).last());
        }
    }
    path_laws::joining_appends_components(base, page);
}

/// The name of the page of a chapter file.
pub open spec fn page_name(name: Seq<u8>) -> Seq<u8> {
    if name == unicode::encoded("README.md"@) {
        unicode::encoded("index.html"@)
    } else {
        name.take(paths::stem_len(name)).push(paths::DOT) + unicode::encoded("html"@)
    }
}

/// The endings of pages are names.
proof fn page_endings_are_names()
    ensures
        paths::counts(unicode::encoded("html"@)),
        !unicode::encoded("html"@).contains(paths::SLASH),
        paths::counts(unicode::encoded("index.html"@)),
        !unicode::encoded("index.html"@).contains(paths::SLASH),
{
    reveal_strlit("html");
    reveal_strlit("index.html");
    assert(!"html"@.contains('/'));
    assert(!"index.html"@.contains('/'));
    encoding_laws::encoded_names_are_names("html"@);
    encoding_laws::encoded_names_are_names("index.html"@);
}

/// The name of a page is not the root.
proof fn page_names_are_no_roots(name: Seq<u8>)
    ensures
        page_name(name) != paths::root(),
{
    page_endings_are_names();
    let end = if name == unicode::encoded("README.md"@) {
        unicode::encoded("index.html"@)
    } else {
        unicode::encoded("html"@)
    };
    assert(page_name(name).last() == end[end.len() - 1]);
    assert(end.contains(end[end.len() - 1]));
    assert(paths::root().last() == paths::SLASH);
}

/// The page of a chapter lies in the chapter's directory: `index.html` for a
/// `README.md`, and the name of the chapter's file with the extension `html`
/// for any other one.
pub proof fn pages_are_named_after_chapters(path: Seq<u8>)
    requires
        paths::file_name(path) is Some,
    ensures
        paths::components(naming::page_path(path)) == paths::components(path).drop_last().push(
            page_name(paths::components(path).last()),
        ),
{
    page_endings_are_names();
    path_laws::file_name_is_last_component(path);
    path_laws::extension_changes_last_component(path, unicode::encoded("html"@));
    path_laws::file_name_changes_last_component(path, unicode::encoded("index.html"@));
}

} // verus!
