//! Where the file of a chapter is found, and where its PDF goes.

use vstd::prelude::*;

use crate::encoding_laws;
use crate::outline;
use crate::outline::Chapter;
use crate::paths;
use crate::paths::{
    join_paths, parent_path, path_file_name, replace_extension, replace_file_name,
};
use crate::text;
use crate::text::{chars_of, join_texts, push_all, push_text, same, text_of};
use crate::unicode;
use crate::unicode::to_lowercase;

verus! {

/// The character of a digit.
pub open spec fn digit(d: int) -> char {
    ('0' as int + d) as char
}

/// The number in decimal.
pub open spec fn decimal(n: int) -> Seq<char>
    decreases n,
{
    if n < 10 {
        seq![digit(n)]
    } else {
        decimal(n / 10).push(digit(n % 10))
    }
}

/// The number in decimal, with a zero in front of a single digit.
pub open spec fn two_digits(n: int) -> Seq<char> {
    if 0 <= n < 10 {
        seq!['0'] + decimal(n)
    } else {
        decimal(n)
    }
}

/// A section number: its parts, each of at least two digits, with dashes
/// between them.
pub open spec fn section_text(number: Seq<u32>) -> Seq<char> {
    text::join(number.map_values(|part: u32| two_digits(part as int)), seq!['-'])
}

/// Whether the chapter has a section number with at least one part.
pub open spec fn has_number(chapter: outline::ChapterView) -> bool {
    match chapter.number {
        Some(number) => number.len() > 0,
        None => false,
    }
}

/// The number that the name of a chapter's PDF starts with: its section
/// number, or else its place among the printed chapters, counted from one.
pub open spec fn pdf_number(chapter: outline::ChapterView, chapter_index: int) -> Seq<char> {
    match chapter.number {
        Some(number) if number.len() > 0 => section_text(number),
        _ => two_digits(chapter_index + 1),
    }
}

/// The pieces of a name between characters that are neither letters nor
/// digits, in lower case. Like the pieces of any split text they are one more
/// than the separators, and can be empty.
pub open spec fn word_pieces(name: Seq<char>) -> Seq<Seq<char>>
    decreases name.len(),
{
    if name.len() == 0 {
        seq![Seq::<char>::empty()]
    } else {
        let front = word_pieces(name.drop_last());
        if unicode::is_alphanumeric(name.last()) {
            front.drop_last().push(front.last() + unicode::lowercase(name.last()))
        } else {
            front.push(Seq::empty())
        }
    }
}

/// The pieces that are not empty.
pub open spec fn nonempty(pieces: Seq<Seq<char>>) -> Seq<Seq<char>> {
    pieces.filter(|piece: Seq<char>| piece.len() > 0)
}

/// The words of a name, in lower case: its longest stretches of letters and
/// digits.
pub open spec fn words(name: Seq<char>) -> Seq<Seq<char>> {
    nonempty(word_pieces(name))
}

/// The name that a file gets after a chapter: the words of the chapter's name
/// in lower case, with dashes between them. A name without words gives
/// `chapter`.
pub open spec fn slug(name: Seq<char>) -> Seq<char> {
    if words(name).len() == 0 {
        "chapter"@
    } else {
        text::join(words(name), seq!['-'])
    }
}

/// The number in decimal, with a zero in front of a single digit.
pub fn number_text(n: u64) -> (res: Vec<char>)
    ensures
        res@ == two_digits(n as int),
    decreases n,
{
    let last = (48u8 + (n % 10) as u8) as char;
    assert(last == digit((n % 10) as int));
    if n < 10 {
        let res = vec!['0', last];
        assert(res@ == two_digits(n as int));
        res
    } else if n < 100 {
        let first = (48u8 + (n / 10) as u8) as char;
        assert(first == digit((n / 10) as int));
        let res = vec![first, last];
        assert(decimal((n / 10) as int) == seq![digit((n / 10) as int)]);
        assert(res@ == two_digits(n as int));
        res
    } else {
        let mut res = number_text(n / 10);
        res.push(last);
        res
    }
}

/// The number that the name of a chapter's PDF starts with.
pub fn chapter_pdf_number(chapter: &Chapter, chapter_index: usize) -> (res: String)
    requires
        has_number(chapter@) || chapter_index < usize::MAX,
    ensures
        res@ == pdf_number(chapter@, chapter_index as int),
{
    if let Some(number) = &chapter.number {
        if number.len() > 0 {
            let mut parts: Vec<Vec<char>> = Vec::new();
            let ghost wanted = number@.map_values(|part: u32| two_digits(part as int));
            for i in 0..number.len()
                invariant
                    wanted == number@.map_values(|part: u32| two_digits(part as int)),
                    text::texts(parts@) == wanted.take(i as int),
            {
                let ghost before = parts@;
                parts.push(number_text(number[i] as u64));
                assert(text::texts(parts@) == text::texts(before).push(wanted[i as int]));
            }
            assert(wanted.take(number@.len() as int) == wanted);
            let sep = ['-'];
            assert(sep@ == seq!['-']);
            return text_of(&join_texts(&parts, &sep));
        }
    }
    text_of(&number_text((chapter_index + 1) as u64))
}

/// What a separator adds to the pieces of a name: an empty piece, which is no
/// word.
pub(crate) proof fn separator_adds_no_word(pieces: Seq<Seq<char>>)
    ensures
        nonempty(pieces.push(Seq::empty())) == nonempty(pieces),
{
    reveal(Seq::filter);
    assert(pieces.push(Seq::empty()).drop_last() == pieces);
}

/// The words, by the last piece: it is a word unless it is empty.
pub(crate) proof fn last_piece_is_last_word(pieces: Seq<Seq<char>>)
    requires
        pieces.len() > 0,
    ensures
        nonempty(pieces) == if pieces.last().len() > 0 {
            nonempty(pieces.drop_last()).push(pieces.last())
        } else {
            nonempty(pieces.drop_last())
        },
{
    reveal(Seq::filter);
}

/// Joined words are empty only if there are none.
pub proof fn joined_words_are_not_empty(parts: Seq<Seq<char>>, sep: Seq<char>)
    requires
        parts.len() > 0,
        parts.last().len() > 0,
    ensures
        text::join(parts, sep).len() > 0,
{
}

/// The name that a file gets after a chapter.
pub fn slugify_chapter_name(name: &str) -> (res: String)
    ensures
        res@ == slug(name@),
{
    let chars = chars_of(name);
    let mut res: Vec<char> = Vec::new();
    let mut last_was_separator = false;
    let ghost sep = seq!['-'];
    let ghost mut pieces = word_pieces(name@.take(0));
    assert(nonempty(pieces) == Seq::<Seq<char>>::empty()) by {
        reveal(Seq::filter);
        let none = Seq::<Seq<char>>::empty();
        assert(pieces.drop_last() == none);
        assert(nonempty(none) == none);
        last_piece_is_last_word(pieces);
    }
    for i in 0..chars.len()
        invariant
            chars@ == name@,
            sep == seq!['-'],
            pieces == word_pieces(name@.take(i as int)),
            pieces.len() > 0,
            nonempty(pieces).len() > 0 ==> nonempty(pieces).last().len() > 0,
            last_was_separator == (pieces.last().len() == 0 && nonempty(pieces).len() > 0),
            res@ == text::join(nonempty(pieces), sep) + if last_was_separator {
                sep
            } else {
                Seq::empty()
            },
    {
        let ghost before = pieces;
        let ghost old_words = nonempty(pieces);
        let c = chars[i];
        assert(name@.take(i + 1).drop_last() == name@.take(i as int));
        proof {
            if old_words.len() > 0 {
                joined_words_are_not_empty(old_words, sep);
            }
            last_piece_is_last_word(before);
        }
        if c.is_alphanumeric() {
            let lower = to_lowercase(c);
            push_all(&mut res, &lower);
            last_was_separator = false;
            proof {
                pieces = before.drop_last().push(before.last() + lower@);
                assert(pieces == word_pieces(name@.take(i + 1)));
                assert(pieces.drop_last() == before.drop_last());
                last_piece_is_last_word(pieces);
                let words = nonempty(pieces);
                assert(words.drop_last() == nonempty(before.drop_last()));
                if before.last().len() > 0 {
                    assert(old_words.drop_last() == words.drop_last());
                    assert(words.last() == old_words.last() + lower@);
                } else {
                    assert(words == old_words.push(lower@)) by {
                        assert(before.last() + lower@ == lower@);
                    }
                }
                assert(res@ == text::join(words, sep) + Seq::<char>::empty());
            }
        } else {
            if !last_was_separator && res.len() > 0 {
                res.push('-');
                last_was_separator = true;
            }
            proof {
                separator_adds_no_word(before);
                pieces = before.push(Seq::empty());
                assert(pieces == word_pieces(name@.take(i + 1)));
            }
        }
    }
    assert(name@.take(name@.len() as int) == name@);
    if last_was_separator {
        res.pop();
        assert(res@ == text::join(words(name@), sep));
    }
    proof {
        if words(name@).len() > 0 {
            joined_words_are_not_empty(words(name@), sep);
        }
    }
    if res.len() == 0 {
        "chapter".to_owned()
    } else {
        text_of(&res)
    }
}

/// The directory that a chapter's PDF goes to: `chapters` at the destination,
/// and in it the directory of the chapter's page.
pub open spec fn pdf_dir(
    pdf_destination: Seq<u8>,
    chapter: outline::ChapterView,
) -> Seq<u8> {
    let base = paths::joined(pdf_destination, unicode::encoded("chapters"@));
    match chapter.path {
        Some(path) => match paths::parent(path) {
            Some(dir) if dir.len() > 0 => paths::joined(base, dir),
            _ => base,
        },
        None => base,
    }
}

/// The file name of a chapter's PDF: its number, its name, and `.pdf`.
pub open spec fn pdf_file_name(chapter: outline::ChapterView, chapter_index: int) -> Seq<char> {
    pdf_number(chapter, chapter_index).push('-') + slug(chapter.name) + ".pdf"@
}

/// Where a chapter's PDF goes.
pub open spec fn pdf_path(
    pdf_destination: Seq<u8>,
    chapter: outline::ChapterView,
    chapter_index: int,
) -> Seq<u8> {
    paths::joined(
        pdf_dir(pdf_destination, chapter),
        unicode::encoded(pdf_file_name(chapter, chapter_index)),
    )
}

/// The page of a chapter within the rendered book: a chapter `README.md` is
/// the index of its directory, any other one has a page of the same name.
pub open spec fn page_path(path: Seq<u8>) -> Seq<u8> {
    if paths::file_name(path) == Some(unicode::encoded("README.md"@)) {
        paths::with_file_name(path, unicode::encoded("index.html"@))
    } else {
        paths::with_extension(path, unicode::encoded("html"@))
    }
}

/// Where the page of a chapter is found: in the directory `html` next to the
/// destination of the PDF. A draft has no page, and a destination without a
/// parent has nothing next to it.
pub open spec fn html_path(
    pdf_destination: Seq<u8>,
    chapter: outline::ChapterView,
) -> Option<Seq<u8>> {
    match (chapter.path, paths::parent(pdf_destination)) {
        (Some(path), Some(dir)) => Some(
            paths::joined(paths::joined(dir, unicode::encoded("html"@)), page_path(path)),
        ),
        _ => None,
    }
}

/// Where a chapter's PDF goes.
pub fn chapter_pdf_output_path(
    pdf_destination: &[u8],
    chapter: &Chapter,
    chapter_index: usize,
) -> (res: Vec<u8>)
    requires
        has_number(chapter@) || chapter_index < usize::MAX,
    ensures
        res@ == pdf_path(pdf_destination@, chapter@, chapter_index as int),
{
    let mut output_dir = join_paths(pdf_destination, "chapters".as_bytes());
    if let Some(path) = &chapter.path {
        if let Some(chapter_dir) = parent_path(path) {
            if chapter_dir.len() > 0 {
                output_dir = join_paths(&output_dir, &chapter_dir);
            }
        }
    }
    let mut file_name = chars_of(&chapter_pdf_number(chapter, chapter_index));
    file_name.push('-');
    push_text(&mut file_name, &slugify_chapter_name(&chapter.name));
    push_text(&mut file_name, ".pdf");
    join_paths(&output_dir, text_of(&file_name).as_str().as_bytes())
}

/// Where the page of a chapter is found, if it has one.
pub fn chapter_html_path(pdf_destination: &[u8], chapter: &Chapter) -> (res: Option<Vec<u8>>)
    ensures
        paths::optional_path(res) == html_path(pdf_destination@, chapter@),
{
    let path = match &chapter.path {
        Some(path) => path,
        None => return None,
    };
    let is_readme = match path_file_name(path) {
        Some(name) => same(&name, "README.md".as_bytes()),
        None => false,
    };
    proof {
        reveal_strlit("html");
        assert(!"html"@.contains('/'));
        encoding_laws::encoding_adds_no_slash("html"@);
    }
    let page = if is_readme {
        replace_file_name(path, "index.html".as_bytes())
    } else {
        replace_extension(path, "html".as_bytes())
    };
    match parent_path(pdf_destination) {
        Some(dir) => Some(join_paths(&join_paths(&dir, "html".as_bytes()), &page)),
        None => None,
    }
}

} // verus!
