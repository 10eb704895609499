use mdbook_pdf::outline::Chapter;
use mdbook_pdf::plan::{book_pdf_path, chapter_job, print_html_path, JobError};

fn chapter(name: &str, path: Option<&str>) -> Chapter {
    Chapter {
        name: name.to_string(),
        path: path.map(|path| path.as_bytes().to_vec()),
        source_path: None,
        number: None,
    }
}

#[test]
fn the_whole_book_is_printed_from_the_html_directory() {
    assert_eq!(print_html_path(b"book/pdf"), Some(b"book/html/print.html".to_vec()));
    assert_eq!(print_html_path(b"/book"), Some(b"/html/print.html".to_vec()));
    assert_eq!(print_html_path(b"/"), None);
    assert_eq!(book_pdf_path(b"book/pdf"), b"book/pdf/output.pdf");
}

#[test]
fn a_written_chapter_has_a_job() {
    let job = chapter_job(b"book/pdf", &chapter("First Steps", Some("a/b.md")), 4).unwrap();
    assert_eq!(job.html_path, b"book/html/a/b.html");
    assert_eq!(job.pdf_path, b"book/pdf/chapters/a/05-first-steps.pdf");
}

#[test]
fn a_chapter_without_a_page_has_none() {
    let JobError::NoHtmlPath(name) = chapter_job(b"book/pdf", &chapter("Draft", None), 0).unwrap_err();
    assert_eq!(name, "Draft");
    let JobError::NoHtmlPath(name) = chapter_job(b"/", &chapter("Lost", Some("a.md")), 0).unwrap_err();
    assert_eq!(name, "Lost");
}
