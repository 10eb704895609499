use mdbook_core::book::{Book, BookItem, Chapter as MdChapter, SectionNumber};
use mdbook_pdf::chapters::{
    chapter_matches_config, configured_chapter_paths, select_chapters, select_chapters_for_pdf,
};
use mdbook_pdf::outline::Chapter;
use mdbook_pdf::paths::normalize_chapter_path;

fn strings(paths: &[&str]) -> Vec<String> {
    paths.iter().map(|path| path.to_string()).collect()
}

fn chapter(name: &str, path: &str) -> Chapter {
    Chapter {
        name: name.to_string(),
        path: Some(path.as_bytes().to_vec()),
        source_path: Some(path.as_bytes().to_vec()),
        number: None,
    }
}

fn names(chapters: &[Chapter]) -> Vec<&str> {
    chapters.iter().map(|chapter| chapter.name.as_str()).collect()
}

fn three_chapters() -> Book {
    Book::new_with_items(vec![
        BookItem::Chapter(MdChapter::new("An Example", String::new(), "chapter_1.md", vec![])),
        BookItem::Chapter(MdChapter::new("Another Example", String::new(), "chapter_2.md", vec![])),
        BookItem::Chapter(MdChapter::new("One more", String::new(), "chapter_3.md", vec![])),
    ])
}

#[test]
fn selected_chapters_omit_excludes_and_print_overrides_omit() {
    let book = three_chapters();

    let selected = select_chapters_for_pdf(
        &book,
        &["chapter_2.md".to_string(), "chapter_3.md".to_string()],
        &["chapter_3.md".to_string()],
    );

    assert_eq!(names(&selected), vec!["One more"]);
}

#[test]
fn omitted_chapters_are_left_out_when_nothing_is_singled_out() {
    let book = three_chapters();
    let selected = select_chapters_for_pdf(&book, &strings(&["./chapter_2.md", "chapter_2.md"]), &[]);
    assert_eq!(names(&selected), vec!["An Example", "One more"]);
}

#[test]
fn every_written_chapter_is_selected_by_default_in_reading_order() {
    let mut outer = MdChapter::new("Guide", String::new(), "guide/README.md", vec![]);
    outer.number = Some(SectionNumber::new(vec![2]));
    let mut inner = MdChapter::new("Install", String::new(), "guide/install.md", vec![]);
    inner.number = Some(SectionNumber::new(vec![2, 1]));
    inner.source_path = None;
    outer.sub_items = vec![
        BookItem::Chapter(inner),
        BookItem::Chapter(MdChapter::new_draft("Later", vec![])),
        BookItem::Separator,
    ];
    let book = Book::new_with_items(vec![
        BookItem::PartTitle("Part".to_string()),
        BookItem::Chapter(outer),
        BookItem::Separator,
        BookItem::Chapter(MdChapter::new("End", String::new(), "end.md", vec![])),
    ]);

    let selected = select_chapters_for_pdf(&book, &[], &[]);

    assert_eq!(names(&selected), vec!["Guide", "Install", "End"]);
    assert_eq!(selected[0].path, Some(b"guide/README.md".to_vec()));
    assert_eq!(selected[0].source_path, Some(b"guide/README.md".to_vec()));
    assert_eq!(selected[0].number, Some(vec![2]));
    assert_eq!(selected[1].path, Some(b"guide/install.md".to_vec()));
    assert_eq!(selected[1].source_path, None);
    assert_eq!(selected[1].number, Some(vec![2, 1]));
    assert_eq!(selected[2].number, None);
}

#[test]
fn a_chapter_is_found_by_its_source_or_its_rendered_path() {
    let make = || Chapter {
        name: "Home".to_string(),
        path: Some(b"index.md".to_vec()),
        source_path: Some(b"README.md".to_vec()),
        number: None,
    };
    for path in ["index.md", "README.md", "README.md/", "README.md/."] {
        let selected = select_chapters(vec![make(), chapter("Other", "other.md")], &[], &strings(&[path]));
        assert_eq!(names(&selected), vec!["Home"], "{path}");
    }
    let none = select_chapters(vec![make()], &[], &strings(&["readme.md"]));
    assert!(none.is_empty());
}

#[test]
fn singling_out_makes_the_omitted_chapters_irrelevant() {
    for omit in [vec![], vec!["a.md"], vec!["a.md", "b.md", "c.md"]] {
        let all = vec![chapter("A", "a.md"), chapter("B", "b.md"), chapter("C", "c.md")];
        let selected = select_chapters(all, &strings(&omit), &strings(&["c.md", "a.md"]));
        assert_eq!(names(&selected), vec!["A", "C"]);
    }
}

#[test]
fn configured_paths_are_a_set_of_normal_forms() {
    let set = configured_chapter_paths(&strings(&["a//b.md", "a/./b.md", "./a/b.md", "/c.md"]));
    assert_eq!(set.len(), 3);
    assert!(set.contains("a/b.md"));
    assert!(set.contains("./a/b.md"));
    assert!(set.contains("//c.md"));
    assert!(!set.contains("a//b.md"));
    assert!(configured_chapter_paths(&[]).is_empty());
}

#[test]
fn drafts_match_no_configuration() {
    let draft = Chapter { name: "D".to_string(), path: None, source_path: None, number: None };
    assert!(!chapter_matches_config(&draft, &configured_chapter_paths(&strings(&["", "D"]))));
    let written = chapter("W", "w.md");
    assert!(chapter_matches_config(&written, &configured_chapter_paths(&strings(&["w.md"]))));
}

#[test]
fn normal_forms_do_not_depend_on_how_a_path_is_written() {
    assert_eq!(normalize_chapter_path(b"guide//./install.md/"), "guide/install.md");
    assert_eq!(normalize_chapter_path(b"./guide/install.md"), "./guide/install.md");
    assert_eq!(normalize_chapter_path(b"/guide/install.md"), "//guide/install.md");
    assert_eq!(normalize_chapter_path(b"a/../b"), "a/../b");
    assert_eq!(normalize_chapter_path(b""), "");
}

#[test]
fn paths_beyond_ascii_are_matched_as_text() {
    let all = || vec![chapter("Gr\u{f6}\u{df}e", "b\u{fc}ch//gr\u{f6}\u{df}e.md"), chapter("A", "a.md")];
    let selected = select_chapters(all(), &[], &strings(&["b\u{fc}ch/./gr\u{f6}\u{df}e.md"]));
    assert_eq!(names(&selected), vec!["Gr\u{f6}\u{df}e"]);

    let mut broken = chapter("Broken", "x");
    broken.path = Some(b"d\xff/caf\xe9.md".to_vec());
    broken.source_path = None;
    let configured = configured_chapter_paths(&strings(&["d\u{fffd}/caf\u{fffd}.md"]));
    assert!(chapter_matches_config(&broken, &configured));
}
