//! Where the files of a book lie, read off its destination and its chapters.
//! A slash is 47, a dot is 46.

use vstd::prelude::*;

use crate::encoding_laws;
use crate::naming;
use crate::naming_laws;
use crate::outline;
use crate::paths;
use crate::place_laws;
use crate::plan;
use crate::unicode;

verus! {

/// Fixed names are names in paths, and not from the root.
proof fn fixed_names()
    ensures
        place_laws::is_name(vstd::utf8::encode_utf8("html"@)),
        place_laws::is_name(vstd::utf8::encode_utf8("chapters"@)),
        place_laws::is_name(vstd::utf8::encode_utf8("index.html"@)),
        place_laws::is_name(vstd::utf8::encode_utf8("print.html"@)),
        place_laws::is_name(vstd::utf8::encode_utf8("output.pdf"@)),
{
    reveal_strlit("html");
    reveal_strlit("chapters");
    reveal_strlit("index.html");
    reveal_strlit("print.html");
    reveal_strlit("output.pdf");
    assert(!"html"@.contains('/'));
    assert(!"chapters"@.contains('/'));
    assert(!"index.html"@.contains('/'));
    assert(!"print.html"@.contains('/'));
    assert(!"output.pdf"@.contains('/'));
    encoding_laws::encoded_names_are_names("html"@);
    encoding_laws::encoded_names_are_names("chapters"@);
    encoding_laws::encoded_names_are_names("index.html"@);
    encoding_laws::encoded_names_are_names("print.html"@);
    encoding_laws::encoded_names_are_names("output.pdf"@);
    assert(paths::dot() == seq![46u8]);
}

/// A name does not start with a slash.
proof fn names_start_without_slash(name: Seq<u8>)
    requires
        place_laws::is_name(name),
    ensures
        name[0] != 47,
        name[name.len() - 1] != 47,
{
    assert(name.contains(name[0]));
    assert(name.contains(name[name.len() - 1]));
}

/// The page of a chapter file lies where the file does. It has the name of the
/// file with `html` in place of what stands behind its last dot, or behind the
/// name if there is no dot in it but at its start.
pub proof fn pages_have_the_names_of_files(prefix: Seq<u8>, stem: Seq<u8>, ending: Seq<u8>)
    requires
        place_laws::is_prefix(prefix),
        place_laws::is_piece(stem),
        place_laws::is_piece(ending),
        stem.len() > 0,
    ensures
        !ending.contains(46u8) && !(stem == seq![46u8] && ending.len() == 0) && stem + seq![46u8]
            + ending != vstd::utf8::encode_utf8("README.md"@) ==> naming::page_path(
            prefix + stem + seq![46u8] + ending,
        ) == prefix + stem + seq![46u8] + vstd::utf8::encode_utf8("html"@),
        place_laws::is_name(stem) && (forall|k: int|
            0 < k < stem.len() ==> #[trigger] stem[k] != 46) ==> naming::page_path(prefix + stem)
            == prefix + stem + seq![46u8] + vstd::utf8::encode_utf8("html"@),
{
    let html = vstd::utf8::encode_utf8("html"@);
    fixed_names();
    place_laws::extensions_stand_behind_the_last_dot(prefix, stem, ending, html);
    if !ending.contains(46u8) && !(stem == seq![46u8] && ending.len() == 0) && stem + seq![46u8]
        + ending != vstd::utf8::encode_utf8("README.md"@) {
        let name = stem + seq![46u8] + ending;
        names_with_endings_are_names(stem, ending);
        place_laws::file_names_stand_behind_the_last_slash(prefix, name);
        assert(prefix + stem + seq![46u8] + ending == prefix + name);
    }
    if place_laws::is_name(stem) && (forall|k: int|
        0 < k < stem.len() ==> #[trigger] stem[k] != 46) {
        assert(stem != seq![46u8, 46u8]) by {
            if stem == seq![46u8, 46u8] {
                assert(stem[1] == 46);
            }
        }
        place_laws::file_names_stand_behind_the_last_slash(prefix, stem);
        readme_has_a_dot();
        if stem == vstd::utf8::encode_utf8("README.md"@) {
            assert(stem[6] == 46);
        }
    }
}

/// A dot stands in `README.md`.
proof fn readme_has_a_dot()
    ensures
        vstd::utf8::encode_utf8("README.md"@).len() == 9,
        vstd::utf8::encode_utf8("README.md"@)[6] == 46,
        place_laws::is_name(vstd::utf8::encode_utf8("README.md"@)),
{
    reveal_strlit("README.md");
    let text = "README.md"@;
    assert(vstd::utf8::is_ascii_chars(text));
    vstd::utf8::is_ascii_chars_encode_utf8(text);
    assert(text[6] == '.');
    assert(text[6] as u8 == vstd::utf8::encode_utf8(text)[6]);
    assert(!text.contains('/'));
    encoding_laws::encoded_names_are_names(text);
    assert(paths::dot() == seq![46u8]);
}

/// A stem, a dot and an ending make a name.
proof fn names_with_endings_are_names(stem: Seq<u8>, ending: Seq<u8>)
    requires
        place_laws::is_piece(stem),
        place_laws::is_piece(ending),
        stem.len() > 0,
        !(stem == seq![46u8] && ending.len() == 0),
    ensures
        place_laws::is_name(stem + seq![46u8] + ending),
        !ending.contains(46u8) ==> stem + seq![46u8] + ending != seq![46u8, 46u8],
{
    let name = stem + seq![46u8] + ending;
    if name.contains(47u8) {
        let i = name.index_of(47u8);
        if i < stem.len() {
            assert(stem.contains(stem[i]));
        } else if i > stem.len() {
            assert(ending.contains(ending[i - stem.len() - 1]));
        }
    }
    if name == seq![46u8, 46u8] {
        assert(name.len() == stem.len() + 1 + ending.len());
        assert(seq![46u8, 46u8].len() == 2);
        assert(name[0] == 46);
        assert(stem[0] == name[0]);
        assert(stem == seq![46u8]);
    }
}

/// The page of a `README.md` is the index of its directory.
pub proof fn readmes_are_indices(dir: Seq<u8>)
    ensures
        ({
            let readme = vstd::utf8::encode_utf8("README.md"@);
            let index = vstd::utf8::encode_utf8("index.html"@);
            &&& naming::page_path(readme) == index
            &&& naming::page_path(seq![47u8] + readme) == seq![47u8] + index
            &&& place_laws::is_trim(dir) ==> naming::page_path(dir + seq![47u8] + readme) == dir
                + seq![47u8] + index
        }),
{
    let readme = vstd::utf8::encode_utf8("README.md"@);
    let index = vstd::utf8::encode_utf8("index.html"@);
    let empty = Seq::<u8>::empty();
    fixed_names();
    readme_has_a_dot();
    assert(readme != seq![46u8, 46u8]);
    place_laws::file_names_are_replaced(dir, readme, index);
    place_laws::file_names_stand_behind_the_last_slash(empty, readme);
    assert(empty + readme == readme);
    place_laws::file_names_stand_behind_the_last_slash(seq![47u8], readme);
    place_laws::file_names_stand_behind_the_last_slash(dir + seq![47u8], readme);
}

/// Wherever a `README.md` lies, its index lies in the same directory. A slash at
/// the end of a path does not matter to its page, and a path without a file name
/// is its own page.
pub proof fn indices_lie_where_readmes_do(prefix: Seq<u8>, dir: Seq<u8>, path: Seq<u8>)
    requires
        place_laws::is_prefix(prefix),
        path.len() > 0,
    ensures
        paths::parent(prefix + vstd::utf8::encode_utf8("README.md"@)) == Some(dir)
            ==> naming::page_path(prefix + vstd::utf8::encode_utf8("README.md"@)) == paths::joined(
            dir,
            vstd::utf8::encode_utf8("index.html"@),
        ),
        paths::file_name(path) is Some && paths::parent(path) is Some ==> naming::page_path(
            path + seq![47u8],
        ) == naming::page_path(path),
        paths::file_name(path) is None ==> naming::page_path(path) == path,
{
    let readme = vstd::utf8::encode_utf8("README.md"@);
    let index = vstd::utf8::encode_utf8("index.html"@);
    let html = vstd::utf8::encode_utf8("html"@);
    readme_has_a_dot();
    assert(readme != seq![46u8, 46u8]);
    place_laws::file_names_stand_behind_the_last_slash(prefix, readme);
    if paths::parent(prefix + readme) == Some(dir) {
        place_laws::new_file_names_are_joined_to_the_directory(prefix + readme, dir, index);
    }
    place_laws::ends_of_paths_do_not_matter(path);
    place_laws::extensions_need_file_names(path, html);
    if paths::file_name(path) is Some && paths::parent(path) is Some {
        place_laws::new_file_names_are_joined_to_the_directory(
            path,
            paths::parent(path).unwrap(),
            index,
        );
    }
}

/// Different chapter files of a directory that end with `.md`, and are not
/// `README.md`, have different pages.
pub proof fn different_files_have_different_pages(prefix: Seq<u8>, a: Seq<u8>, b: Seq<u8>)
    requires
        place_laws::is_prefix(prefix),
        place_laws::is_piece(a),
        place_laws::is_piece(b),
        a.len() > 0,
        b.len() > 0,
        a != b,
        a + seq![46u8, 109u8, 100u8] != vstd::utf8::encode_utf8("README.md"@),
        b + seq![46u8, 109u8, 100u8] != vstd::utf8::encode_utf8("README.md"@),
    ensures
        naming::page_path(prefix + a + seq![46u8, 109u8, 100u8]) != naming::page_path(
            prefix + b + seq![46u8, 109u8, 100u8],
        ),
{
    let md = seq![109u8, 100u8];
    let html = seq![46u8] + vstd::utf8::encode_utf8("html"@);
    assert(!md.contains(46u8) && !md.contains(47u8));
    assert(a + seq![46u8] + md == a + seq![46u8, 109u8, 100u8]);
    assert(b + seq![46u8] + md == b + seq![46u8, 109u8, 100u8]);
    assert(prefix + a + seq![46u8] + md == prefix + a + seq![46u8, 109u8, 100u8]);
    assert(prefix + b + seq![46u8] + md == prefix + b + seq![46u8, 109u8, 100u8]);
    pages_have_the_names_of_files(prefix, a, md);
    pages_have_the_names_of_files(prefix, b, md);
    let page_a = prefix + a + html;
    let page_b = prefix + b + html;
    assert(prefix + a + seq![46u8] + vstd::utf8::encode_utf8("html"@) == page_a);
    assert(prefix + b + seq![46u8] + vstd::utf8::encode_utf8("html"@) == page_b);
    if page_a == page_b {
        assert(page_a.len() == page_b.len());
        assert(page_a.subrange(prefix.len() as int, (prefix.len() + a.len()) as int) == a);
        assert(page_b.subrange(prefix.len() as int, (prefix.len() + b.len()) as int) == b);
    }
}

/// The page of a chapter is found in `html` next to the destination, and of a
/// chapter from the root at the root. A draft has none, and where nothing lies
/// next to the destination there is none.
pub proof fn pages_lie_in_html(
    dir: Seq<u8>,
    name: Seq<u8>,
    chapter: outline::ChapterView,
    path: Seq<u8>,
)
    requires
        place_laws::is_name(name),
    ensures
        chapter.path is None ==> naming::html_path(dir, chapter) is None,
        paths::parent(dir) is None ==> naming::html_path(dir, chapter) is None,
        chapter.path == Some(path) ==> {
            let page = naming::page_path(path);
            let html = vstd::utf8::encode_utf8("html"@);
            let from_root = page.len() > 0 && page[0] == 47;
            &&& !from_root && place_laws::is_trim(dir) ==> naming::html_path(
                dir + seq![47u8] + name,
                chapter,
            ) == Some(dir + seq![47u8] + html + seq![47u8] + page)
            &&& !from_root ==> naming::html_path(name, chapter) == Some(html + seq![47u8] + page)
            &&& !from_root ==> naming::html_path(seq![47u8] + name, chapter) == Some(
                seq![47u8] + html + seq![47u8] + page,
            )
            &&& from_root ==> naming::html_path(name, chapter) == Some(page)
        },
{
    let html = vstd::utf8::encode_utf8("html"@);
    let empty = Seq::<u8>::empty();
    fixed_names();
    names_start_without_slash(html);
    place_laws::parents_stand_before_the_last_name(dir, name);
    if chapter.path == Some(path) {
        let page = naming::page_path(path);
        place_laws::paths_are_joined_by_a_slash(empty, html);
        assert(empty + html == html);
        place_laws::paths_are_joined_by_a_slash(html, page);
        place_laws::paths_are_joined_by_a_slash(seq![47u8], html);
        let at_root = seq![47u8] + html;
        assert(at_root[at_root.len() - 1] == html[html.len() - 1]);
        place_laws::paths_are_joined_by_a_slash(at_root, page);
        if place_laws::is_trim(dir) {
            place_laws::paths_are_joined_by_a_slash(dir, html);
            let base = dir + seq![47u8] + html;
            assert(base[base.len() - 1] == html[html.len() - 1]);
            place_laws::paths_are_joined_by_a_slash(base, page);
        }
    }
}

/// Wherever the destination lies, pages are found in `html` in the same
/// directory.
pub proof fn pages_lie_next_to_the_destination(
    destination: Seq<u8>,
    dir: Seq<u8>,
    chapter: outline::ChapterView,
    path: Seq<u8>,
)
    requires
        paths::parent(destination) == Some(dir),
        chapter.path == Some(path),
    ensures
        ({
            let page = naming::page_path(path);
            let html = vstd::utf8::encode_utf8("html"@);
            let book = vstd::utf8::encode_utf8("print.html"@);
            let start = if place_laws::is_prefix(dir) {
                dir + html + seq![47u8]
            } else {
                dir + seq![47u8] + html + seq![47u8]
            };
            &&& page.len() > 0 && page[0] == 47 ==> naming::html_path(destination, chapter) == Some(
                page,
            )
            &&& !(page.len() > 0 && page[0] == 47) ==> naming::html_path(destination, chapter)
                == Some(start + page)
            &&& plan::book_html_path(destination) == Some(start + book)
        }),
{
    let page = naming::page_path(path);
    let html = vstd::utf8::encode_utf8("html"@);
    let book = vstd::utf8::encode_utf8("print.html"@);
    fixed_names();
    names_start_without_slash(html);
    names_start_without_slash(book);
    place_laws::paths_are_joined_by_a_slash(dir, html);
    let base = paths::joined(dir, html);
    assert(base[base.len() - 1] == html[html.len() - 1]);
    place_laws::paths_are_joined_by_a_slash(base, page);
    place_laws::paths_are_joined_by_a_slash(base, book);
}

/// The page with the whole book is `print.html` in `html` next to the
/// destination; where nothing lies next to it, there is none.
pub proof fn the_book_is_printed_from_html(dir: Seq<u8>, name: Seq<u8>)
    requires
        place_laws::is_name(name),
    ensures
        ({
            let html = vstd::utf8::encode_utf8("html"@);
            let page = vstd::utf8::encode_utf8("print.html"@);
            &&& place_laws::is_trim(dir) ==> plan::book_html_path(dir + seq![47u8] + name) == Some(
                dir + seq![47u8] + html + seq![47u8] + page,
            )
            &&& plan::book_html_path(name) == Some(html + seq![47u8] + page)
            &&& plan::book_html_path(seq![47u8] + name) == Some(
                seq![47u8] + html + seq![47u8] + page,
            )
            &&& paths::parent(dir) is None <==> plan::book_html_path(dir) is None
        }),
{
    let html = vstd::utf8::encode_utf8("html"@);
    let page = vstd::utf8::encode_utf8("print.html"@);
    let empty = Seq::<u8>::empty();
    fixed_names();
    names_start_without_slash(html);
    names_start_without_slash(page);
    place_laws::parents_stand_before_the_last_name(dir, name);
    place_laws::paths_are_joined_by_a_slash(empty, html);
    assert(empty + html == html);
    place_laws::paths_are_joined_by_a_slash(html, page);
    place_laws::paths_are_joined_by_a_slash(seq![47u8], html);
    let at_root = seq![47u8] + html;
    assert(at_root[at_root.len() - 1] == html[html.len() - 1]);
    place_laws::paths_are_joined_by_a_slash(at_root, page);
    if place_laws::is_trim(dir) {
        place_laws::paths_are_joined_by_a_slash(dir, html);
        let base = dir + seq![47u8] + html;
        assert(base[base.len() - 1] == html[html.len() - 1]);
        place_laws::paths_are_joined_by_a_slash(base, page);
    }
}

/// The PDF of the whole book is `output.pdf` at the destination.
pub proof fn the_book_is_printed_to_the_destination(destination: Seq<u8>)
    ensures
        place_laws::is_prefix(destination) ==> plan::book_pdf(destination) == destination
            + vstd::utf8::encode_utf8("output.pdf"@),
        !place_laws::is_prefix(destination) ==> plan::book_pdf(destination) == destination
            + seq![47u8] + vstd::utf8::encode_utf8("output.pdf"@),
{
    fixed_names();
    names_start_without_slash(vstd::utf8::encode_utf8("output.pdf"@));
    place_laws::paths_are_joined_by_a_slash(
        destination,
        vstd::utf8::encode_utf8("output.pdf"@),
    );
}

/// A chapter is printed from its page to its PDF; without a page, its name is
/// told.
pub proof fn chapters_are_printed_from_pages_to_pdfs(
    destination: Seq<u8>,
    chapter: outline::ChapterView,
    chapter_index: int,
)
    ensures
        naming::html_path(destination, chapter) matches Some(page) ==> plan::planned(
            destination,
            chapter,
            chapter_index,
        ) == Ok::<(Seq<u8>, Seq<u8>), Seq<char>>(
            (page, naming::pdf_path(destination, chapter, chapter_index)),
        ),
        naming::html_path(destination, chapter) is None ==> plan::planned(
            destination,
            chapter,
            chapter_index,
        ) == Err::<(Seq<u8>, Seq<u8>), Seq<char>>(chapter.name),
{
}

/// The name of a chapter's PDF: its section number if it has one, else its
/// place counted from one, a dash, the name after the chapter, and `.pdf`.
pub open spec fn pdf_name(
    number: Option<Seq<u32>>,
    chapter_index: int,
    slug: Seq<char>,
) -> Seq<u8> {
    let start = match number {
        Some(parts) => if parts.len() == 0 {
            naming::two_digits(chapter_index + 1)
        } else {
            naming::section_text(parts)
        },
        None => naming::two_digits(chapter_index + 1),
    };
    vstd::utf8::encode_utf8(start + seq!['-'] + slug + seq!['.', 'p', 'd', 'f'])
}

/// The file name of a PDF is that name, and starts with no slash.
proof fn pdf_names(chapter: outline::ChapterView, chapter_index: int)
    requires
        0 <= chapter_index,
    ensures
        ({
            let name = pdf_name(chapter.number, chapter_index, naming::slug(chapter.name));
            &&& unicode::encoded(naming::pdf_file_name(chapter, chapter_index)) == name
            &&& name.len() > 0
            &&& name[0] != 47
        }),
{
    reveal_strlit(".pdf");
    assert(".pdf"@ == seq!['.', 'p', 'd', 'f']);
    let number = naming::pdf_number(chapter, chapter_index);
    let name = naming::pdf_file_name(chapter, chapter_index);
    assert(number.push('-') == number + seq!['-']);
    naming_laws::pdf_number_starts_with_digit(chapter, chapter_index);
    assert(name[0] == number[0]);
    encoding_laws::encoding_starts_with_ascii(name);
}

/// The PDF of a chapter goes to `chapters` at the destination, and there to the
/// directory in which the chapter lies; the PDF of a chapter from the root goes
/// to the directory of the chapter.
pub proof fn pdfs_lie_in_chapters(
    destination: Seq<u8>,
    chapter: outline::ChapterView,
    chapter_index: int,
    dir: Seq<u8>,
    name: Seq<u8>,
)
    requires
        0 <= chapter_index,
        !place_laws::is_prefix(destination),
        place_laws::is_name(name),
    ensures
        ({
            let file = pdf_name(chapter.number, chapter_index, naming::slug(chapter.name));
            let base = destination + seq![47u8] + vstd::utf8::encode_utf8("chapters"@);
            let pdf = naming::pdf_path(destination, chapter, chapter_index);
            &&& chapter.path is None ==> pdf == base + seq![47u8] + file
            &&& chapter.path == Some(name) ==> pdf == base + seq![47u8] + file
            &&& chapter.path == Some(dir + seq![47u8] + name) && place_laws::is_trim(dir) && dir[0]
                != 47 ==> pdf == base + seq![47u8] + dir + seq![47u8] + file
            &&& chapter.path == Some(dir + seq![47u8] + name) && place_laws::is_trim(dir) && dir[0]
                == 47 ==> pdf == dir + seq![47u8] + file
            &&& chapter.path == Some(seq![47u8] + name) ==> pdf == seq![47u8] + file
        }),
{
    let file = pdf_name(chapter.number, chapter_index, naming::slug(chapter.name));
    let chapters = vstd::utf8::encode_utf8("chapters"@);
    let base = destination + seq![47u8] + chapters;
    pdf_names(chapter, chapter_index);
    fixed_names();
    names_start_without_slash(chapters);
    place_laws::parents_stand_before_the_last_name(dir, name);
    place_laws::paths_are_joined_by_a_slash(destination, chapters);
    assert(base[base.len() - 1] == chapters[chapters.len() - 1]);
    place_laws::paths_are_joined_by_a_slash(base, file);
    place_laws::paths_are_joined_by_a_slash(base, seq![47u8]);
    place_laws::paths_are_joined_by_a_slash(seq![47u8], file);
    if place_laws::is_trim(dir) {
        place_laws::paths_are_joined_by_a_slash(base, dir);
        place_laws::paths_are_joined_by_a_slash(dir, file);
        let deep = base + seq![47u8] + dir;
        assert(deep[deep.len() - 1] == dir[dir.len() - 1]);
        place_laws::paths_are_joined_by_a_slash(deep, file);
    }
}

/// Wherever a chapter lies, its PDF goes to the directory of the chapter below
/// `chapters`, or to that directory itself if it is given from the root.
pub proof fn pdfs_lie_in_the_directories_of_chapters(
    destination: Seq<u8>,
    chapter: outline::ChapterView,
    chapter_index: int,
    path: Seq<u8>,
)
    requires
        0 <= chapter_index,
        chapter.path == Some(path),
    ensures
        ({
            let file = pdf_name(chapter.number, chapter_index, naming::slug(chapter.name));
            let chapters = vstd::utf8::encode_utf8("chapters"@);
            let base = if place_laws::is_prefix(destination) {
                destination + chapters + seq![47u8]
            } else {
                destination + seq![47u8] + chapters + seq![47u8]
            };
            let pdf = naming::pdf_path(destination, chapter, chapter_index);
            match paths::parent(path) {
                None => pdf == base + file,
                Some(dir) => {
                    let between = if place_laws::is_prefix(dir) {
                        Seq::<u8>::empty()
                    } else {
                        seq![47u8]
                    };
                    &&& dir.len() == 0 ==> pdf == base + file
                    &&& dir.len() > 0 && dir[0] == 47 ==> pdf == dir + between + file
                    &&& dir.len() > 0 && dir[0] != 47 ==> pdf == base + dir + between + file
                },
            }
        }),
{
    let file = pdf_name(chapter.number, chapter_index, naming::slug(chapter.name));
    let chapters = vstd::utf8::encode_utf8("chapters"@);
    let base = if place_laws::is_prefix(destination) {
        destination + chapters
    } else {
        destination + seq![47u8] + chapters
    };
    pdf_names(chapter, chapter_index);
    fixed_names();
    names_start_without_slash(chapters);
    place_laws::paths_are_joined_by_a_slash(destination, chapters);
    assert(base[base.len() - 1] == chapters[chapters.len() - 1]);
    place_laws::paths_are_joined_by_a_slash(base, file);
    if let Some(dir) = paths::parent(path) {
        if dir.len() > 0 {
            let deep = paths::joined(base, dir);
            place_laws::paths_are_joined_by_a_slash(base, dir);
            assert(deep[deep.len() - 1] == dir[dir.len() - 1]);
            place_laws::paths_are_joined_by_a_slash(deep, file);
            if place_laws::is_prefix(dir) {
                assert(dir + Seq::<u8>::empty() + file == dir + file);
                assert(base + seq![47u8] + dir + Seq::<u8>::empty() + file == base + seq![47u8]
                    + dir + file);
            }
        }
    }
}

/// A slash at the end of the destination does not matter, and the PDF of a
/// chapter that lies nowhere goes to `chapters` itself.
pub proof fn ends_of_destinations_do_not_matter(
    destination: Seq<u8>,
    chapter: outline::ChapterView,
    chapter_index: int,
)
    requires
        0 <= chapter_index,
    ensures
        ({
            let chapters = vstd::utf8::encode_utf8("chapters"@);
            let file = pdf_name(chapter.number, chapter_index, naming::slug(chapter.name));
            &&& !place_laws::is_prefix(destination) ==> naming::pdf_path(
                destination + seq![47u8],
                chapter,
                chapter_index,
            ) == naming::pdf_path(destination, chapter, chapter_index)
            &&& chapter.path is None && place_laws::is_prefix(destination) ==> naming::pdf_path(
                destination,
                chapter,
                chapter_index,
            ) == destination + chapters + seq![47u8] + file
        }),
{
    let chapters = vstd::utf8::encode_utf8("chapters"@);
    let file = pdf_name(chapter.number, chapter_index, naming::slug(chapter.name));
    fixed_names();
    names_start_without_slash(chapters);
    pdf_names(chapter, chapter_index);
    place_laws::paths_are_joined_by_a_slash(destination, chapters);
    place_laws::paths_are_joined_by_a_slash(destination + seq![47u8], chapters);
    let base = destination + chapters;
    assert(base[base.len() - 1] == chapters[chapters.len() - 1]);
    place_laws::paths_are_joined_by_a_slash(base, file);
}

} // verus!
