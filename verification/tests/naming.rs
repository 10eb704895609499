use mdbook_pdf::naming::{
    chapter_html_path, chapter_pdf_number, chapter_pdf_output_path, number_text,
    slugify_chapter_name,
};
use mdbook_pdf::outline::Chapter;

fn chapter(name: &str, path: &str) -> Chapter {
    Chapter {
        name: name.to_string(),
        path: Some(path.as_bytes().to_vec()),
        source_path: Some(path.as_bytes().to_vec()),
        number: None,
    }
}

fn draft(name: &str) -> Chapter {
    Chapter { name: name.to_string(), path: None, source_path: None, number: None }
}

#[test]
fn chapter_pdf_path_uses_summary_name_for_human_readable_filename() {
    let mut chapter = chapter("An Example", "chapter_1.md");
    chapter.number = Some(vec![1]);

    let output_path = chapter_pdf_output_path(b"book/pdf", &chapter, 0);

    assert_eq!(output_path, b"book/pdf/chapters/01-an-example.pdf");
}

#[test]
fn chapter_pdf_path_preserves_summary_number_for_selected_subsets() {
    let mut chapter = chapter("One more", "chapter_3.md");
    chapter.number = Some(vec![3]);

    let output_path = chapter_pdf_output_path(b"book/pdf", &chapter, 0);

    assert_eq!(output_path, b"book/pdf/chapters/03-one-more.pdf");
}

#[test]
fn chapter_pdf_path_preserves_chapter_directory_structure() {
    let mut chapter = chapter("Install", "guide/install.md");
    chapter.number = Some(vec![2, 1]);

    let output_path = chapter_pdf_output_path(b"book/pdf", &chapter, 0);

    assert_eq!(output_path, b"book/pdf/chapters/guide/02-01-install.pdf");
}

#[test]
fn chapter_html_path_uses_the_html_book_next_to_pdf_destination() {
    let chapter = chapter("Install", "guide/install.md");

    let html_path = chapter_html_path(b"book/pdf", &chapter).unwrap();

    assert_eq!(html_path, b"book/html/guide/install.html");
}

#[test]
fn chapter_html_path_maps_readme_chapters_to_index_html() {
    let root_chapter = chapter("Home", "README.md");
    let nested_chapter = chapter("Guide", "guide/README.md");

    let root_html_path = chapter_html_path(b"book/pdf", &root_chapter).unwrap();
    let nested_html_path = chapter_html_path(b"book/pdf", &nested_chapter).unwrap();

    assert_eq!(root_html_path, b"book/html/index.html");
    assert_eq!(nested_html_path, b"book/html/guide/index.html");
}

#[test]
fn only_the_exact_readme_is_an_index() {
    let page = |path: &str| chapter_html_path(b"book/pdf", &chapter("C", path)).unwrap();
    assert_eq!(page("readme.md"), b"book/html/readme.html");
    assert_eq!(page("README.md/."), b"book/html/index.html");
    assert_eq!(page("notes"), b"book/html/notes.html");
    assert_eq!(page("a.b.md"), b"book/html/a.b.html");
    assert_eq!(page(".."), b"book/html/..");
    assert_eq!(page("/abs/x.md"), b"/abs/x.html");
}

#[test]
fn pages_need_a_path_and_a_parent_of_the_destination() {
    assert_eq!(chapter_html_path(b"book/pdf", &draft("Draft")), None);
    assert_eq!(chapter_html_path(b"", &chapter("C", "c.md")), None);
    assert_eq!(chapter_html_path(b"/", &chapter("C", "c.md")), None);
    assert_eq!(chapter_html_path(b"pdf", &chapter("C", "c.md")), Some(b"html/c.html".to_vec()));
}

#[test]
fn numbers_have_at_least_two_digits() {
    for n in (0u64..1200).chain([9_999, 10_000, u64::from(u32::MAX), u64::MAX]) {
        let text: String = number_text(n).into_iter().collect();
        assert_eq!(text, format!("{n:02}"));
    }
}

#[test]
fn chapters_without_a_number_are_counted() {
    let mut chapter = chapter("Foreword", "foreword.md");
    assert_eq!(chapter_pdf_number(&chapter, 0), "01");
    assert_eq!(chapter_pdf_number(&chapter, 99), "100");
    chapter.number = Some(vec![]);
    assert_eq!(chapter_pdf_number(&chapter, 8), "09");
    chapter.number = Some(vec![0, 12, 345]);
    assert_eq!(chapter_pdf_number(&chapter, 8), "00-12-345");
    assert_eq!(chapter_pdf_number(&chapter, usize::MAX), "00-12-345");
}

#[test]
fn the_place_of_a_numbered_chapter_does_not_matter() {
    let mut chapter = chapter("Install", "guide/deep/install.md");
    chapter.number = Some(vec![4, 2]);
    for index in [0, 1, 77, usize::MAX] {
        assert_eq!(
            chapter_pdf_output_path(b"out", &chapter, index),
            b"out/chapters/guide/deep/04-02-install.pdf"
        );
    }
}

#[test]
fn drafts_and_absolute_paths_have_places_too() {
    assert_eq!(chapter_pdf_output_path(b"out", &draft("To do"), 2), b"out/chapters/03-to-do.pdf");
    assert_eq!(chapter_pdf_output_path(b"", &draft("To do"), 2), b"chapters/03-to-do.pdf");
    assert_eq!(
        chapter_pdf_output_path(b"out", &chapter("Abs", "/src/abs.md"), 0),
        b"/src/01-abs.pdf"
    );
}

#[test]
fn slugs_are_the_words_with_dashes_between() {
    assert_eq!(slugify_chapter_name("An Example"), "an-example");
    assert_eq!(slugify_chapter_name("  C++ & Rust: 2 ways!  "), "c-rust-2-ways");
    assert_eq!(slugify_chapter_name("a/b\\c.d_e"), "a-b-c-d-e");
    assert_eq!(slugify_chapter_name("already-a-slug"), "already-a-slug");
    assert_eq!(slugify_chapter_name(""), "chapter");
    assert_eq!(slugify_chapter_name("?!"), "chapter");
}

#[test]
fn slugs_keep_letters_beyond_ascii_in_lower_case() {
    assert_eq!(slugify_chapter_name("Über GRÖSSE"), "über-grösse");
    assert_eq!(slugify_chapter_name("第一章 Ⅷ"), "第一章-ⅷ");
    assert_eq!(slugify_chapter_name("İstanbul"), "i\u{307}stanbul");
    assert_eq!(slugify_chapter_name("x – y"), "x-y");
}

#[test]
fn slugs_of_ascii_names_are_stable() {
    for name in ["An Example", "--", "A--B", "x1 Y2", "Chapter", "(c) 2025 you & me"] {
        let slug = slugify_chapter_name(name);
        assert_eq!(slugify_chapter_name(&slug), slug);
        assert!(slug.chars().all(|c| c.is_ascii_lowercase() || c.is_ascii_digit() || c == '-'));
        assert!(!slug.starts_with('-') && !slug.ends_with('-') && !slug.contains("--"));
    }
}

#[test]
fn different_section_numbers_are_written_differently() {
    let parts = [0u32, 1, 9, 10, 11, 100, 101, u32::MAX];
    let mut numbers: Vec<Vec<u32>> = parts.iter().map(|a| vec![*a]).collect();
    for a in parts {
        numbers.extend(parts.iter().map(|b| vec![a, *b]));
    }
    let mut texts: Vec<String> = numbers
        .into_iter()
        .map(|number| {
            let mut chapter = chapter("C", "c.md");
            chapter.number = Some(number);
            chapter_pdf_number(&chapter, 0)
        })
        .collect();
    let count = texts.len();
    texts.sort();
    texts.dedup();
    assert_eq!(texts.len(), count);
}

#[test]
fn paths_that_are_not_unicode_keep_their_bytes() {
    let mut chapter = chapter("Caf\u{e9}", "x.md");
    chapter.path = Some(b"d\xe9j\xe0/caf\xe9.md".to_vec());
    assert_eq!(
        chapter_html_path(b"b\xff/pdf", &chapter).unwrap(),
        b"b\xff/html/d\xe9j\xe0/caf\xe9.html"
    );
    let mut expected = b"b\xff/pdf/chapters/d\xe9j\xe0/".to_vec();
    expected.extend_from_slice("01-caf\u{e9}.pdf".as_bytes());
    assert_eq!(chapter_pdf_output_path(b"b\xff/pdf", &chapter, 0), expected);
}

#[test]
fn unnumbered_chapters_have_files_of_their_own() {
    let mut empty_number = chapter("Notes", "guide/notes.md");
    empty_number.number = Some(vec![]);
    for other in [chapter("Notes", "guide/notes.md"), empty_number, draft("1 Notes")] {
        for i in 0..120 {
            for j in 0..120 {
                let first = chapter_pdf_output_path(b"out", &chapter("Notes", "guide/notes.md"), i);
                let second = chapter_pdf_output_path(b"out", &other, j);
                assert!(i == j || first != second, "{i} {j}");
            }
        }
    }
}

#[test]
fn slugs_are_well_shaped_whatever_the_name() {
    let marks = |slug: &str| slug.contains(['/', '\\', '.']);
    let well_shaped = |slug: &str| {
        !slug.is_empty()
            && !slug.starts_with('-')
            && !slug.ends_with('-')
            && !slug.contains("--")
            && !marks(slug)
    };
    // Any character at all, alone and between others.
    for c in '\0'..=char::MAX {
        assert!(well_shaped(&slugify_chapter_name(&format!("{c}"))), "{c:?}");
        if c.is_alphanumeric() {
            assert!(!slugify_chapter_name(&format!("{c}")).contains('-'), "{c:?}");
        }
    }
    for name in ["-- \u{130}stanbul / \u{212a}elvin --", "../../\u{df}\u{1e9e}", "\u{3a3}\u{3a3} \u{3a3}"] {
        assert!(well_shaped(&slugify_chapter_name(name)), "{name}");
    }
}
