use mdbook_core::book::{Book, BookItem as MdItem, Chapter as MdChapter};
use mdbook_pdf::outline::{BookItem, Chapter};
use mdbook_pdf::toc::{build_toc_fix, print_page_id, toc_fix_of};

#[test]
fn page_ids_are_paths_in_lower_case_with_dashes() {
    assert_eq!(print_page_id(b"guide/Install.md"), "guide-install");
    assert_eq!(print_page_id(b"Guide\\Sub Dir/A.MD"), "guide-sub dir-a.md");
    assert_eq!(print_page_id(b"a.md.md"), "a.md");
    assert_eq!(print_page_id(b".md"), "");
    assert_eq!(print_page_id(b"md"), "md");
    assert_eq!(print_page_id("ÄÖ/Z.md".as_bytes()), "ÄÖ-z");
    assert_eq!(print_page_id(b""), "");
    assert_eq!(print_page_id(b"B\xff/C.md"), "b\u{fffd}-c");
}

#[test]
fn the_table_lists_all_written_chapters_depth_first() {
    let mut outer = MdChapter::new("Guide", String::new(), "guide/README.md", vec![]);
    outer.sub_items = vec![
        MdItem::Chapter(MdChapter::new("Install", String::new(), "guide/install.md", vec![])),
        MdItem::Chapter(MdChapter::new_draft("Later", vec![])),
    ];
    let book = Book::new_with_items(vec![
        MdItem::PartTitle("Part".to_string()),
        MdItem::Chapter(outer),
        MdItem::Separator,
        MdItem::Chapter(MdChapter::new("End", String::new(), "End.md", vec![])),
    ]);

    assert_eq!(
        build_toc_fix(&book),
        "<div style=\"display: none\">\
         <a href=\"#guide-readme\">guide-readme</a>\
         <a href=\"#guide-install\">guide-install</a>\
         <a href=\"#end\">end</a>\
         </div>"
    );
}

#[test]
fn an_empty_book_has_an_empty_table() {
    assert_eq!(build_toc_fix(&Book::new()), "<div style=\"display: none\"></div>");
}

#[test]
fn drafts_and_other_items_add_nothing() {
    let draft = Chapter { name: "D".to_string(), path: None, source_path: None, number: None };
    let items = vec![
        BookItem::Separator,
        BookItem::Chapter(draft),
        BookItem::PartTitle("x.md".to_string()),
    ];
    assert_eq!(toc_fix_of(&items), "<div style=\"display: none\"></div>");
}
