//! The hidden table of contents of the printed book.

use vstd::prelude::*;

use crate::outline;
use crate::outline::{items_of, BookItem};
use crate::text;
use crate::text::{chars_of, push_all, push_text, stands_at, text_of};
use crate::unicode;
use crate::unicode::text_of_bytes;

verus! {

/// The character that stands for `c` in the identifier of a page.
pub open spec fn id_char(c: char) -> char {
    if c == '/' || c == '\\' {
        '-'
    } else {
        text::ascii_lower(c)
    }
}

/// A path without `.md` at its end.
pub open spec fn without_md(path: Seq<char>) -> Seq<char> {
    if text::has_at(path, path.len() - ".md"@.len(), ".md"@) {
        path.take(path.len() - ".md"@.len())
    } else {
        path
    }
}

/// The identifier that a chapter's page has in the printed book: its path
/// without the extension, in lower case, with dashes for the separators.
pub open spec fn page_id(path: Seq<char>) -> Seq<char> {
    without_md(path).map_values(|c: char| id_char(c))
}

/// A link to a page of the printed book.
pub open spec fn page_link(id: Seq<char>) -> Seq<char> {
    "<a href=\"#"@ + id + "\">"@ + id + "</a>"@
}

/// What an item adds to the table of contents: a chapter a link to its page,
/// a draft and any other item nothing.
pub open spec fn item_link(item: outline::ItemView) -> Seq<char> {
    match item {
        outline::ItemView::Chapter(chapter) => match chapter.path {
            Some(path) => page_link(page_id(unicode::displayed(path))),
            None => Seq::empty(),
        },
        _ => Seq::empty(),
    }
}

/// The links to the pages of the given items, in order.
pub open spec fn item_links(items: Seq<outline::ItemView>) -> Seq<char>
    decreases items.len(),
{
    if items.len() == 0 {
        Seq::empty()
    } else {
        item_links(items.drop_last()) + item_link(items.last())
    }
}

/// The hidden table of contents for the given items.
pub open spec fn toc_fix(items: Seq<outline::ItemView>) -> Seq<char> {
    "<div style=\"display: none\">"@ + item_links(items) + "</div>"@
}

/// The identifier that a chapter's page has in the printed book.
pub fn print_page_id(path: &[u8]) -> (res: String)
    ensures
        res@ == page_id(unicode::displayed(path@)),
{
    let ghost shown = unicode::displayed(path@);
    let chars = chars_of(&text_of_bytes(path));
    let md = chars_of(".md");
    let len: usize = if md.len() <= chars.len() && stands_at(&chars, chars.len() - md.len(), &md) {
        chars.len() - md.len()
    } else {
        chars.len()
    };
    assert(without_md(shown) == shown.take(len as int));
    let mut res: Vec<char> = Vec::new();
    for i in 0..len
        invariant
            chars@ == shown,
            len <= chars@.len(),
            without_md(shown) == shown.take(len as int),
            res@ == page_id(shown).take(i as int),
    {
        let c = chars[i];
        res.push(
            if c == '/' || c == '\\' {
                '-'
            } else {
                text::to_ascii_lower(c)
            },
        );
    }
    assert(res@ == page_id(shown));
    text_of(&res)
}

/// The hidden table of contents for the given items.
pub fn toc_fix_of(items: &[BookItem]) -> (res: String)
    ensures
        res@ == toc_fix(outline::item_views(items@)),
{
    let mut res: Vec<char> = chars_of("<div style=\"display: none\">");
    let ghost views = outline::item_views(items@);
    for i in 0..items.len()
        invariant
            views == outline::item_views(items@),
            res@ == "<div style=\"display: none\">"@ + item_links(views.take(i as int)),
    {
        let ghost before = res@;
        assert(views.take(i + 1).drop_last() == views.take(i as int));
        assert(views.take(i + 1).last() == items@[i as int]@);
        if let BookItem::Chapter(chapter) = &items[i] {
            if let Some(path) = &chapter.path {
                let id = chars_of(&print_page_id(path));
                push_text(&mut res, "<a href=\"#");
                push_all(&mut res, &id);
                push_text(&mut res, "\">");
                push_all(&mut res, &id);
                push_text(&mut res, "</a>");
                assert(res@ == before + page_link(id@));
            }
        }
        assert(res@ == before + item_link(items@[i as int]@));
    }
    assert(views.take(views.len() as int) == views);
    push_text(&mut res, "</div>");
    text_of(&res)
}

/// Links to all pages of the book, in a block that is not displayed: with them
/// in place, the printed document has a destination for each entry of its
/// outline.
pub fn build_toc_fix(book: &mdbook_core::book::Book) -> (res: String)
    ensures
        res@ == toc_fix(outline::book_items(*book)),
{
    toc_fix_of(&items_of(book))
}

} // verus!
