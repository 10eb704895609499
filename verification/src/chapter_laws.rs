//! What holds of the choice of chapters and of the files that they get.

use vstd::prelude::*;

use crate::chapters;
use crate::encoding_laws;
use crate::naming;
use crate::outline;
use crate::path_laws;
use crate::paths;
use crate::plan;
use crate::toc;
use crate::unicode;

verus! {

/// Filtering by conditions that agree on the chapters gives the same.
proof fn filters_agree(
    items: Seq<outline::ChapterView>,
    p: spec_fn(outline::ChapterView) -> bool,
    q: spec_fn(outline::ChapterView) -> bool,
)
    requires
        forall|i: int| 0 <= i < items.len() ==> p(#[trigger] items[i]) == q(items[i]),
    ensures
        items.filter(p) == items.filter(q),
    decreases items.len(),
{
    reveal(Seq::filter);
    if items.len() > 0 {
        let front = items.drop_last();
        assert forall|i: int| 0 <= i < front.len() implies p(#[trigger] front[i])
            == q(front[i]) by {
            assert(front[i] == items[i]);
        }
        filters_agree(front, p, q);
        assert(items.last() == items[items.len() - 1]);
    }
}

/// Where chapters are singled out to be printed, it does not matter which ones
/// are omitted.
pub proof fn printing_overrides_omitting(
    book: Seq<outline::ChapterView>,
    omit_chapters: Seq<Seq<char>>,
    other_omit_chapters: Seq<Seq<char>>,
    print_chapters: Seq<Seq<char>>,
)
    requires
        print_chapters.len() > 0,
    ensures
        chapters::selected(book, omit_chapters, print_chapters) == chapters::selected(
            book,
            other_omit_chapters,
            print_chapters,
        ),
{
    filters_agree(
        book,
        |chapter: outline::ChapterView|
            chapters::is_selected(chapter, omit_chapters, print_chapters),
        |chapter: outline::ChapterView|
            chapters::is_selected(chapter, other_omit_chapters, print_chapters),
    );
}

/// Where nothing is configured, every chapter is printed.
pub proof fn all_chapters_are_printed_by_default(book: Seq<outline::ChapterView>)
    ensures
        chapters::selected(book, seq![], seq![]) == book,
    decreases book.len(),
{
    reveal(Seq::filter);
    if book.len() > 0 {
        all_chapters_are_printed_by_default(book.drop_last());
        let none = Seq::<Seq<char>>::empty();
        assert(chapters::configured(none) == Set::<Seq<char>>::empty());
        assert(chapters::is_selected(book.last(), none, none));
        assert(book.drop_last().push(book.last()) == book);
    }
}

/// The components of a configured path, which is a text.
pub open spec fn configured_components(path: Seq<char>) -> Seq<Seq<u8>> {
    paths::components(unicode::encoded(path))
}

/// A path is configured just when some configured path has its components.
proof fn configured_by_components(path: Seq<u8>, configured_paths: Seq<Seq<char>>)
    requires
        path_laws::has_unicode_components(path),
    ensures
        chapters::configured(configured_paths).contains(paths::normalized(path)) <==> exists|i: int|
            0 <= i < configured_paths.len() && #[trigger] configured_components(configured_paths[i])
                == paths::components(path),
{
    let normal_forms = configured_paths.map_values(
        |path: Seq<char>| paths::normalized(unicode::encoded(path)),
    );
    if chapters::configured(configured_paths).contains(paths::normalized(path)) {
        let i = normal_forms.index_of(paths::normalized(path));
        assert(normal_forms[i] == paths::normalized(unicode::encoded(configured_paths[i])));
        components_agree_with_configured(path, configured_paths[i]);
        assert(configured_components(configured_paths[i]) == paths::components(path));
    }
    if exists|i: int|
        0 <= i < configured_paths.len() && #[trigger] configured_components(configured_paths[i])
            == paths::components(path) {
        let i = choose|i: int|
            0 <= i < configured_paths.len() && #[trigger] configured_components(configured_paths[i])
                == paths::components(path);
        components_agree_with_configured(path, configured_paths[i]);
        assert(normal_forms[i] == paths::normalized(path));
    }
}

/// A path and a configured one have the same normal form just when they have
/// the same components.
proof fn components_agree_with_configured(path: Seq<u8>, configured_path: Seq<char>)
    requires
        path_laws::has_unicode_components(path),
    ensures
        paths::normalized(path) == paths::normalized(unicode::encoded(configured_path))
            <==> paths::components(path) == configured_components(configured_path),
{
    encoding_laws::encoding_is_undone_by_decoding(configured_path);
    path_laws::unicode_paths_have_unicode_components(unicode::encoded(configured_path));
    path_laws::normal_forms_agree_with_components(path, unicode::encoded(configured_path));
}

/// A chapter whose paths are Unicode matches a configuration just when one of
/// the configured paths has the components of its source or of its rendered
/// location.
pub proof fn chapters_match_by_components(
    chapter: outline::ChapterView,
    configured_paths: Seq<Seq<char>>,
)
    requires
        chapter.source_path matches Some(path) ==> path_laws::has_unicode_components(path),
        chapter.path matches Some(path) ==> path_laws::has_unicode_components(path),
    ensures
        chapters::matches_config(chapter, chapters::configured(configured_paths)) <==> exists|
            i: int,
        |
            0 <= i < configured_paths.len() && {
                let wanted = #[trigger] configured_components(configured_paths[i]);
                ||| chapter.source_path matches Some(path) && paths::components(path) == wanted
                ||| chapter.path matches Some(path) && paths::components(path) == wanted
            },
{
    if chapter.source_path is Some {
        configured_by_components(chapter.source_path.unwrap(), configured_paths);
    }
    if chapter.path is Some {
        configured_by_components(chapter.path.unwrap(), configured_paths);
    }
}

/// Every chapter that is printed is one of the book's that passed the choice,
/// and every such chapter is printed.
pub proof fn printed_chapters_are_the_selected_ones(
    book: Seq<outline::ChapterView>,
    omit_chapters: Seq<Seq<char>>,
    print_chapters: Seq<Seq<char>>,
    chapter: outline::ChapterView,
)
    ensures
        chapters::selected(book, omit_chapters, print_chapters).contains(chapter)
            <==> book.contains(chapter) && chapters::is_selected(
            chapter,
            omit_chapters,
            print_chapters,
        ),
{
    let wanted = |chapter: outline::ChapterView|
        chapters::is_selected(chapter, omit_chapters, print_chapters);
    let chosen = book.filter(wanted);
    if chosen.contains(chapter) {
        let i = chosen.index_of(chapter);
        book.lemma_filter_pred(wanted, i);
        book.lemma_filter_contains_rev(wanted, chapter);
    }
    if book.contains(chapter) && wanted(chapter) {
        let i = book.index_of(chapter);
        book.lemma_filter_contains(wanted, i);
    }
}

/// A chapter with a section number keeps its file, whichever other chapters
/// are printed.
pub proof fn numbered_chapters_keep_their_files(
    pdf_destination: Seq<u8>,
    chapter: outline::ChapterView,
    chapter_index: int,
    other_index: int,
)
    requires
        naming::has_number(chapter),
    ensures
        naming::pdf_path(pdf_destination, chapter, chapter_index) == naming::pdf_path(
            pdf_destination,
            chapter,
            other_index,
        ),
{
}

/// A chapter that is no draft can be printed to any destination that has a
/// parent.
pub proof fn written_chapters_have_pages(
    destination: Seq<u8>,
    items: Seq<outline::ItemView>,
    i: int,
)
    requires
        plan::book_html_path(destination) is Some,
        0 <= i < outline::written_chapters(items).len(),
    ensures
        naming::html_path(destination, outline::written_chapters(items)[i]) is Some,
{
    written_chapters_have_paths(items);
}

/// Chapters that are no drafts have paths.
proof fn written_chapters_have_paths(items: Seq<outline::ItemView>)
    ensures
        forall|i: int|
            0 <= i < outline::written_chapters(items).len() ==> (
            #[trigger] outline::written_chapters(items)[i]).path is Some,
    decreases items.len(),
{
    if items.len() > 0 {
        written_chapters_have_paths(items.drop_last());
    }
}

/// The links to the pages of the given chapters, in order.
pub open spec fn chapter_links(book: Seq<outline::ChapterView>) -> Seq<char>
    decreases book.len(),
{
    if book.len() == 0 {
        Seq::empty()
    } else {
        chapter_links(book.drop_last()) + toc::item_link(outline::ItemView::Chapter(book.last()))
    }
}

/// The table of contents has a link to each chapter that is no draft, in the
/// order of the book, and nothing else.
pub proof fn toc_lists_the_written_chapters(items: Seq<outline::ItemView>)
    ensures
        toc::item_links(items) == chapter_links(outline::written_chapters(items)),
    decreases items.len(),
{
    if items.len() > 0 {
        let front = items.drop_last();
        let before = outline::written_chapters(front);
        let all = outline::written_chapters(items);
        toc_lists_the_written_chapters(front);
        match items.last() {
            outline::ItemView::Chapter(chapter) if chapter.path is Some => {
                assert(all == before + seq![chapter]);
                assert(all.drop_last() == before);
                assert(all.last() == chapter);
            },
            _ => {
                assert(all == before);
            },
        }
    }
}

/// The identifier of a page holds no separator and no upper-case ASCII letter.
pub proof fn page_ids_are_plain(path: Seq<char>, i: int)
    requires
        0 <= i < toc::page_id(path).len(),
    ensures
        toc::page_id(path)[i] != '/',
        toc::page_id(path)[i] != '\\',
        !('A' <= toc::page_id(path)[i] <= 'Z'),
{
}

/// Whether one of the entries, which are texts, has the components of the
/// chapter's source or of its rendered location.
pub open spec fn is_named_in(chapter: outline::ChapterView, entries: Seq<Seq<char>>) -> bool {
    exists|i: int|
        0 <= i < entries.len() && {
            let wanted = paths::components(vstd::utf8::encode_utf8(#[trigger] entries[i]));
            ||| chapter.source_path matches Some(path) && paths::components(path) == wanted
            ||| chapter.path matches Some(path) && paths::components(path) == wanted
        }
}

/// Whether one of the entries, which are texts, has the normal form of the
/// chapter's source or of its rendered location.
pub open spec fn is_named_as_text_in(
    chapter: outline::ChapterView,
    entries: Seq<Seq<char>>,
) -> bool {
    exists|i: int|
        0 <= i < entries.len() && {
            let wanted = paths::normalized(vstd::utf8::encode_utf8(#[trigger] entries[i]));
            ||| chapter.source_path matches Some(path) && paths::normalized(path) == wanted
            ||| chapter.path matches Some(path) && paths::normalized(path) == wanted
        }
}

/// The set of configured paths holds a text just when it is the normal form of
/// one of them.
pub proof fn configured_holds(entries: Seq<Seq<char>>, form: Seq<char>)
    ensures
        chapters::configured(entries).contains(form) <==> exists|i: int|
            0 <= i < entries.len() && paths::normalized(
                vstd::utf8::encode_utf8(#[trigger] entries[i]),
            ) == form,
{
    let normal_forms = entries.map_values(
        |path: Seq<char>| paths::normalized(unicode::encoded(path)),
    );
    if chapters::configured(entries).contains(form) {
        let i = normal_forms.index_of(form);
        assert(normal_forms[i] == paths::normalized(unicode::encoded(entries[i])));
        assert(paths::normalized(vstd::utf8::encode_utf8(entries[i])) == form);
    }
    if exists|i: int|
        0 <= i < entries.len() && paths::normalized(vstd::utf8::encode_utf8(#[trigger] entries[i]))
            == form {
        let i = choose|i: int|
            0 <= i < entries.len() && paths::normalized(
                vstd::utf8::encode_utf8(#[trigger] entries[i]),
            ) == form;
        assert(normal_forms[i] == form);
    }
}

/// A chapter matches a set of normal forms just when it holds that of its source
/// or that of its rendered location; what the chapter is called does not matter.
pub proof fn chapters_match_by_normal_forms(
    chapter: outline::ChapterView,
    configured_paths: Set<Seq<char>>,
)
    ensures
        chapters::matches_config(chapter, configured_paths) <==> (
        chapter.source_path matches Some(path) && configured_paths.contains(
            paths::normalized(path),
        )) || (chapter.path matches Some(path) && configured_paths.contains(
            paths::normalized(path),
        )),
{
}

/// A chapter matches a configuration just when it is named in it.
proof fn matching_is_being_named(chapter: outline::ChapterView, entries: Seq<Seq<char>>)
    ensures
        chapters::matches_config(chapter, chapters::configured(entries)) <==> is_named_as_text_in(
            chapter,
            entries,
        ),
{
    if let Some(path) = chapter.source_path {
        configured_holds(entries, paths::normalized(path));
    }
    if let Some(path) = chapter.path {
        configured_holds(entries, paths::normalized(path));
    }
    if chapters::matches_config(chapter, chapters::configured(entries)) {
        if chapters::is_configured(chapter.source_path, chapters::configured(entries)) {
            let form = paths::normalized(chapter.source_path.unwrap());
            let i = choose|i: int|
                0 <= i < entries.len() && paths::normalized(
                    vstd::utf8::encode_utf8(#[trigger] entries[i]),
                ) == form;
            assert(is_named_as_text_in(chapter, entries));
        } else {
            let form = paths::normalized(chapter.path.unwrap());
            let i = choose|i: int|
                0 <= i < entries.len() && paths::normalized(
                    vstd::utf8::encode_utf8(#[trigger] entries[i]),
                ) == form;
            assert(is_named_as_text_in(chapter, entries));
        }
    }
}

/// For chapters whose paths are Unicode, it is the components that name them.
proof fn names_are_components(chapter: outline::ChapterView, entries: Seq<Seq<char>>)
    requires
        chapter.source_path matches Some(path) ==> path_laws::has_unicode_components(path),
        chapter.path matches Some(path) ==> path_laws::has_unicode_components(path),
    ensures
        is_named_in(chapter, entries) == is_named_as_text_in(chapter, entries),
{
    assert forall|i: int| 0 <= i < entries.len() implies {
        &&& chapter.source_path matches Some(path) ==> (paths::components(path)
            == paths::components(vstd::utf8::encode_utf8(#[trigger] entries[i]))
            <==> paths::normalized(path) == paths::normalized(
            vstd::utf8::encode_utf8(entries[i]),
        ))
        &&& chapter.path matches Some(path) ==> (paths::components(path) == paths::components(
            vstd::utf8::encode_utf8(entries[i]),
        ) <==> paths::normalized(path) == paths::normalized(vstd::utf8::encode_utf8(entries[i])))
    } by {
        if let Some(path) = chapter.source_path {
            components_agree_with_configured(path, entries[i]);
        }
        if let Some(path) = chapter.path {
            components_agree_with_configured(path, entries[i]);
        }
    }
    if is_named_in(chapter, entries) {
        let i = choose|i: int|
            0 <= i < entries.len() && {
                let wanted = paths::components(vstd::utf8::encode_utf8(#[trigger] entries[i]));
                ||| chapter.source_path matches Some(path) && paths::components(path) == wanted
                ||| chapter.path matches Some(path) && paths::components(path) == wanted
            };
        assert(0 <= i < entries.len());
        assert(is_named_as_text_in(chapter, entries));
    }
    if is_named_as_text_in(chapter, entries) {
        let i = choose|i: int|
            0 <= i < entries.len() && {
                let wanted = paths::normalized(vstd::utf8::encode_utf8(#[trigger] entries[i]));
                ||| chapter.source_path matches Some(path) && paths::normalized(path) == wanted
                ||| chapter.path matches Some(path) && paths::normalized(path) == wanted
            };
        assert(0 <= i < entries.len());
        assert(is_named_in(chapter, entries));
    }
}

/// Chapters are chosen one by one, in the order of the book and whatever their
/// names and numbers: where something is singled out, those that are named
/// there, and where nothing is, those that are not named among the omitted
/// ones.
pub proof fn chapters_are_chosen_one_by_one(
    book: Seq<outline::ChapterView>,
    chapter: outline::ChapterView,
    omit_chapters: Seq<Seq<char>>,
    print_chapters: Seq<Seq<char>>,
)
    ensures
        chapters::selected(Seq::empty(), omit_chapters, print_chapters) == Seq::<
            outline::ChapterView,
        >::empty(),
        ({
            let chosen = if print_chapters.len() > 0 {
                is_named_as_text_in(chapter, print_chapters)
            } else {
                !is_named_as_text_in(chapter, omit_chapters)
            };
            let before = chapters::selected(book, omit_chapters, print_chapters);
            let after = chapters::selected(book.push(chapter), omit_chapters, print_chapters);
            &&& chosen ==> after == before.push(chapter)
            &&& !chosen ==> after == before
        }),
{
    reveal(Seq::filter);
    matching_is_being_named(chapter, print_chapters);
    matching_is_being_named(chapter, omit_chapters);
    assert(book.push(chapter).drop_last() == book);
    if print_chapters.len() == 0 {
        assert(!is_named_as_text_in(chapter, print_chapters));
    }
}

/// Among the printed chapters of a book are, where nothing is singled out, all
/// but those that have the components of an omitted path, and where something
/// is singled out, just those that have the components of such a path.
pub proof fn omitted_chapters_are_not_printed(
    book: Seq<outline::ChapterView>,
    chapter: outline::ChapterView,
    omit_chapters: Seq<Seq<char>>,
    print_chapters: Seq<Seq<char>>,
)
    requires
        book.contains(chapter),
        chapter.source_path matches Some(path) ==> path_laws::has_unicode_components(path),
        chapter.path matches Some(path) ==> path_laws::has_unicode_components(path),
    ensures
        print_chapters.len() == 0 ==> (chapters::selected(
            book,
            omit_chapters,
            print_chapters,
        ).contains(chapter) <==> !is_named_in(chapter, omit_chapters)),
        print_chapters.len() > 0 ==> (chapters::selected(
            book,
            omit_chapters,
            print_chapters,
        ).contains(chapter) <==> is_named_in(chapter, print_chapters)),
{
    printed_chapters_are_the_selected_ones(book, omit_chapters, print_chapters, chapter);
    matching_is_being_named(chapter, print_chapters);
    matching_is_being_named(chapter, omit_chapters);
    names_are_components(chapter, print_chapters);
    names_are_components(chapter, omit_chapters);
    if print_chapters.len() == 0 {
        assert(!is_named_in(chapter, print_chapters));
    }
}

/// The chapters of a book are taken item by item: a chapter with a path is one
/// of them, and a draft, a separator and the title of a part are none.
pub proof fn written_chapters_are_taken_item_by_item(
    items: Seq<outline::ItemView>,
    item: outline::ItemView,
)
    ensures
        outline::written_chapters(Seq::empty()) == Seq::<outline::ChapterView>::empty(),
        match item {
            outline::ItemView::Chapter(chapter) => if chapter.path is Some {
                outline::written_chapters(items.push(item)) == outline::written_chapters(
                    items,
                ).push(chapter)
            } else {
                outline::written_chapters(items.push(item)) == outline::written_chapters(items)
            },
            _ => outline::written_chapters(items.push(item)) == outline::written_chapters(items),
        },
{
    let long = items.push(item);
    let before = outline::written_chapters(items);
    let after = outline::written_chapters(long);
    assert(long.drop_last() == items);
    assert(long.last() == item);
    match item {
        outline::ItemView::Chapter(chapter) if chapter.path is Some => {
            assert(after == before + seq![chapter]);
            assert(before + seq![chapter] == before.push(chapter));
        },
        _ => {
            assert(after == before);
        },
    }
}

} // verus!
