//! Which chapters get a file of their own.

use vstd::hash_set::StringHashSet;
use vstd::prelude::*;

use crate::outline;
use crate::outline::{chapters_of, Chapter};
use crate::paths;
use crate::paths::normalize_chapter_path;
use crate::text;
use crate::unicode;

verus! {

/// The normal forms of the given paths, which are texts.
pub open spec fn configured(paths: Seq<Seq<char>>) -> Set<Seq<char>> {
    paths.map_values(|path: Seq<char>| paths::normalized(unicode::encoded(path))).to_set()
}

/// Whether the optional path is one of the configured paths.
pub open spec fn is_configured(path: Option<Seq<u8>>, configured_paths: Set<Seq<char>>) -> bool {
    match path {
        Some(path) => configured_paths.contains(paths::normalized(path)),
        None => false,
    }
}

/// Whether the chapter's source or its rendered location is one of the
/// configured paths.
pub open spec fn matches_config(
    chapter: outline::ChapterView,
    configured_paths: Set<Seq<char>>,
) -> bool {
    is_configured(chapter.source_path, configured_paths) || is_configured(
        chapter.path,
        configured_paths,
    )
}

/// Whether the chapter gets a file of its own: it is to be printed, or nothing
/// is singled out to be printed and the chapter is not omitted.
pub open spec fn is_selected(
    chapter: outline::ChapterView,
    omit_chapters: Seq<Seq<char>>,
    print_chapters: Seq<Seq<char>>,
) -> bool {
    ||| matches_config(chapter, configured(print_chapters))
    ||| print_chapters.len() == 0 && !matches_config(chapter, configured(omit_chapters))
}

/// The chapters that get files of their own, in the order of the book.
pub open spec fn selected(
    chapters: Seq<outline::ChapterView>,
    omit_chapters: Seq<Seq<char>>,
    print_chapters: Seq<Seq<char>>,
) -> Seq<outline::ChapterView> {
    chapters.filter(
        |chapter: outline::ChapterView| is_selected(chapter, omit_chapters, print_chapters),
    )
}

/// The set of the normal forms of the given paths.
pub fn configured_chapter_paths(paths: &[String]) -> (res: StringHashSet)
    ensures
        res@ == configured(text::string_texts(paths@)),
{
    let mut res = StringHashSet::new();
    let ghost normal_forms = text::string_texts(paths@).map_values(
        |path: Seq<char>| paths::normalized(unicode::encoded(path)),
    );
    assert(res@ == normal_forms.take(0).to_set());
    for i in 0..paths.len()
        invariant
            normal_forms == text::string_texts(paths@).map_values(
                |path: Seq<char>| paths::normalized(unicode::encoded(path)),
            ),
            res@ == normal_forms.take(i as int).to_set(),
    {
        let ghost before = res@;
        res.insert(normalize_chapter_path(paths[i].as_str().as_bytes()));
        assert(normal_forms[i as int] == paths::normalized(unicode::encoded(paths@[i as int]@)));
        assert(normal_forms.take(i + 1) == normal_forms.take(i as int).push(
            normal_forms[i as int],
        ));
        assert(normal_forms.take(i + 1).to_set() == before.insert(normal_forms[i as int])) by {
            let front = normal_forms.take(i as int);
            let last = normal_forms[i as int];
            assert(front.push(last)[i as int] == last);
            assert forall|x: Seq<char>| before.insert(last).contains(x) implies front.push(
                last,
            ).contains(x) by {
                if x != last {
                    let k = front.index_of(x);
                    assert(front.push(last)[k] == x);
                }
            }
            assert forall|x: Seq<char>| front.push(last).contains(x) implies before.insert(
                last,
            ).contains(x) by {
                let k = front.push(last).index_of(x);
                if k < i {
                    assert(front[k] == x);
                }
            }
        }
    }
    assert(normal_forms.take(paths@.len() as int) == normal_forms);
    res
}

/// Whether the optional path is one of the configured paths.
fn path_matches_config(path: &Option<Vec<u8>>, configured_paths: &StringHashSet) -> (res: bool)
    ensures
        res == is_configured(paths::optional_path(*path), configured_paths@),
{
    match path {
        Some(path) => configured_paths.contains(&normalize_chapter_path(path)),
        None => false,
    }
}

/// Whether the chapter's source or its rendered location is one of the
/// configured paths.
pub fn chapter_matches_config(chapter: &Chapter, configured_paths: &StringHashSet) -> (res: bool)
    ensures
        res == matches_config(chapter@, configured_paths@),
{
    path_matches_config(&chapter.source_path, configured_paths) || path_matches_config(
        &chapter.path,
        configured_paths,
    )
}

/// The given chapters that get files of their own, in the same order.
pub fn select_chapters(
    chapters: Vec<Chapter>,
    omit_chapters: &[String],
    print_chapters: &[String],
) -> (res: Vec<Chapter>)
    ensures
        outline::chapter_views(res@) == selected(
            outline::chapter_views(chapters@),
            text::string_texts(omit_chapters@),
            text::string_texts(print_chapters@),
        ),
{
    let omitted = configured_chapter_paths(omit_chapters);
    let printed = configured_chapter_paths(print_chapters);
    let nothing_singled_out = print_chapters.len() == 0;
    let ghost views = outline::chapter_views(chapters@);
    let ghost omit = text::string_texts(omit_chapters@);
    let ghost print = text::string_texts(print_chapters@);
    let mut res: Vec<Chapter> = Vec::new();
    assert(selected(views.take(0), omit, print) == Seq::<outline::ChapterView>::empty()) by {
        reveal(Seq::filter);
    }
    for chapter in it: chapters
        invariant
            it.seq() == chapters@,
            views == outline::chapter_views(chapters@),
            omitted@ == configured(omit),
            printed@ == configured(print),
            nothing_singled_out == (print.len() == 0),
            outline::chapter_views(res@) == selected(views.take(it.index() as int), omit, print),
    {
        let ghost i = it.index() as int;
        let ghost before = res@;
        proof {
            reveal(Seq::filter);
            assert(views.take(i + 1).drop_last() == views.take(i));
            assert(views[i] == chapter@);
        }
        if chapter_matches_config(&chapter, &printed) || (nothing_singled_out
            && !chapter_matches_config(&chapter, &omitted)) {
            res.push(chapter);
            assert(outline::chapter_views(res@) == outline::chapter_views(before).push(views[i]));
        }
    }
    assert(views.take(views.len() as int) == views);
    res
}

/// The chapters of the book that get files of their own, in the order of the
/// book. Drafts get none.
pub fn select_chapters_for_pdf(
    book: &mdbook_core::book::Book,
    omit_chapters: &[String],
    print_chapters: &[String],
) -> (res: Vec<Chapter>)
    ensures
        outline::chapter_views(res@) == selected(
            outline::written_chapters(outline::book_items(*book)),
            text::string_texts(omit_chapters@),
            text::string_texts(print_chapters@),
        ),
{
    select_chapters(chapters_of(book), omit_chapters, print_chapters)
}

} // verus!
