//! What is printed, and where to.

use vstd::prelude::*;

use crate::naming;
use crate::naming::{chapter_html_path, chapter_pdf_output_path};
use crate::outline;
use crate::outline::Chapter;
use crate::paths;
use crate::paths::{join_paths, parent_path};
use crate::unicode;

verus! {

/// A chapter's page, and the PDF that it is printed to.
#[derive(Debug)]
pub struct ChapterJob {
    pub html_path: Vec<u8>,
    pub pdf_path: Vec<u8>,
}

/// Why a chapter cannot be printed.
#[derive(Debug)]
pub enum JobError {
    /// The chapter, given by its name, has no page.
    NoHtmlPath(String),
}

/// Where the page with the whole book is found: in the directory `html` next
/// to the destination of the PDF.
pub open spec fn book_html_path(destination: Seq<u8>) -> Option<Seq<u8>> {
    match paths::parent(destination) {
        Some(dir) => Some(
            paths::joined(
                paths::joined(dir, unicode::encoded("html"@)),
                unicode::encoded("print.html"@),
            ),
        ),
        None => None,
    }
}

/// The PDF of the whole book.
pub open spec fn book_pdf(destination: Seq<u8>) -> Seq<u8> {
    paths::joined(destination, unicode::encoded("output.pdf"@))
}

/// What to print for a chapter: its page and the PDF that it is printed to, or,
/// where it has no page, its name.
pub open spec fn planned(
    destination: Seq<u8>,
    chapter: outline::ChapterView,
    chapter_index: int,
) -> Result<(Seq<u8>, Seq<u8>), Seq<char>> {
    match naming::html_path(destination, chapter) {
        Some(html_path) => Ok(
            (html_path, naming::pdf_path(destination, chapter, chapter_index)),
        ),
        None => Err(chapter.name),
    }
}

/// The page with the whole book, if anything lies next to the destination.
pub fn print_html_path(destination: &[u8]) -> (res: Option<Vec<u8>>)
    ensures
        paths::optional_path(res) == book_html_path(destination@),
{
    match parent_path(destination) {
        Some(dir) => Some(
            join_paths(&join_paths(&dir, "html".as_bytes()), "print.html".as_bytes()),
        ),
        None => None,
    }
}

/// The PDF of the whole book.
pub fn book_pdf_path(destination: &[u8]) -> (res: Vec<u8>)
    ensures
        res@ == book_pdf(destination@),
{
    join_paths(destination, "output.pdf".as_bytes())
}

/// What to print for a chapter, given its place among the printed chapters.
pub fn chapter_job(destination: &[u8], chapter: &Chapter, chapter_index: usize) -> (res: Result<
    ChapterJob,
    JobError,
>)
    requires
        naming::has_number(chapter@) || chapter_index < usize::MAX,
    ensures
        match planned(destination@, chapter@, chapter_index as int) {
            Ok((html_path, pdf_path)) => res matches Ok(job) && job.html_path@ == html_path
                && job.pdf_path@ == pdf_path,
            Err(chapter_name) => res matches Err(JobError::NoHtmlPath(name)) && name@
                == chapter_name,
        },
{
    match chapter_html_path(destination, chapter) {
        Some(html_path) => Ok(
            ChapterJob {
                html_path,
                pdf_path: chapter_pdf_output_path(destination, chapter, chapter_index),
            },
        ),
        None => Err(JobError::NoHtmlPath(chapter.name.clone())),
    }
}

} // verus!
