//! A book, as far as the printer reads it.

use vstd::prelude::*;

use crate::paths;

verus! {

/// A chapter of a book. Paths are bytes with slashes between the names, which
/// need not be Unicode.
#[derive(Debug)]
pub struct Chapter {
    /// The chapter's name in the summary.
    pub name: String,
    /// The rendered location, relative to the summary; a draft has none.
    pub path: Option<Vec<u8>>,
    /// The source file, relative to the summary.
    pub source_path: Option<Vec<u8>>,
    /// The section number, outermost part first.
    pub number: Option<Vec<u32>>,
}

/// An item of a book.
#[derive(Debug)]
pub enum BookItem {
    Chapter(Chapter),
    Separator,
    PartTitle(String),
}

/// The mathematical value of a [`Chapter`].
#[verifier::ext_equal]
pub struct ChapterView {
    pub name: Seq<char>,
    pub path: Option<Seq<u8>>,
    pub source_path: Option<Seq<u8>>,
    pub number: Option<Seq<u32>>,
}

/// The mathematical value of a [`BookItem`].
#[verifier::ext_equal]
pub enum ItemView {
    Chapter(ChapterView),
    Separator,
    PartTitle(Seq<char>),
}

impl View for Chapter {
    type V = ChapterView;

    open spec fn view(&self) -> ChapterView {
        ChapterView {
            name: self.name@,
            path: paths::optional_path(self.path),
            source_path: paths::optional_path(self.source_path),
            number: match self.number {
                Some(number) => Some(number@),
                None => None,
            },
        }
    }
}

impl View for BookItem {
    type V = ItemView;

    open spec fn view(&self) -> ItemView {
        match *self {
            BookItem::Chapter(chapter) => ItemView::Chapter(chapter@),
            BookItem::Separator => ItemView::Separator,
            BookItem::PartTitle(title) => ItemView::PartTitle(title@),
        }
    }
}

/// The values of the given chapters.
pub open spec fn chapter_views(chapters: Seq<Chapter>) -> Seq<ChapterView> {
    chapters.map_values(|chapter: Chapter| chapter@)
}

/// The values of the given items.
pub open spec fn item_views(items: Seq<BookItem>) -> Seq<ItemView> {
    items.map_values(|item: BookItem| item@)
}

/// The chapters among the items that are no drafts, in order.
pub open spec fn written_chapters(items: Seq<ItemView>) -> Seq<ChapterView> {
    items.filter_map(
        |item: ItemView|
            match item {
                ItemView::Chapter(chapter) if chapter.path is Some => Some(chapter),
                _ => None,
            },
    )
}

/// A book, as mdBook hands it over.
#[verifier::external_type_specification]
#[verifier::external_body]
pub struct ExBook(mdbook_core::book::Book);

/// The items of a book, each followed by the items nested in it, as
/// `mdbook_core::book::Book::iter` walks over them.
pub uninterp spec fn book_items(book: mdbook_core::book::Book) -> Seq<ItemView>;

/// `mdbook_core::book::Book::iter` walks over all items of the book, depth
/// first. Each is taken over as it is, but for a chapter's text and what only
/// repeats the nesting; of a path, the bytes that `OsStr::as_encoded_bytes`
/// gives.
#[verifier::external_body]
pub(crate) fn items_of(book: &mdbook_core::book::Book) -> (res: Vec<BookItem>)
    ensures
        item_views(res@) == book_items(*book),
{
    let items = book.iter().map(|item| match item {
        mdbook_core::book::BookItem::Chapter(ch) => BookItem::Chapter(Chapter {
            name: ch.name.clone(),
            path: ch.path.as_ref().map(|p| p.as_os_str().as_encoded_bytes().to_vec()),
            source_path: ch.source_path.as_ref().map(|p| p.as_os_str().as_encoded_bytes().to_vec()),
            number: ch.number.as_ref().map(|n| n.to_vec()),
        }),
        mdbook_core::book::BookItem::Separator => BookItem::Separator,
        mdbook_core::book::BookItem::PartTitle(title) => BookItem::PartTitle(title.clone()),
    });
    items.collect()
}

/// `mdbook_core::book::Book::chapters` walks over the same items as
/// `mdbook_core::book::Book::iter`, and hands out the chapters that have a
/// path, taken over in the same way.
#[verifier::external_body]
pub(crate) fn chapters_of(book: &mdbook_core::book::Book) -> (res: Vec<Chapter>)
    ensures
        chapter_views(res@) == written_chapters(book_items(*book)),
{
    let chapters = book.chapters().map(|ch| Chapter {
        name: ch.name.clone(),
        path: ch.path.as_ref().map(|p| p.as_os_str().as_encoded_bytes().to_vec()),
        source_path: ch.source_path.as_ref().map(|p| p.as_os_str().as_encoded_bytes().to_vec()),
        number: ch.number.as_ref().map(|n| n.to_vec()),
    });
    chapters.collect()
}

} // verus!
