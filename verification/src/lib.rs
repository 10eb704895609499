//! The logic of a PDF back end for mdBook, verified.
//!
//! mdBook renders a book to HTML pages; this back end has a headless browser
//! print them to PDF. What is to be printed, under which names, from which
//! pages, and how the conversation with the browser goes is decided here.
//!
//! * [`options`]: the options of the back end;
//! * [`outline`]: the book as mdBook hands it over;
//! * [`toc`]: the hidden table of contents;
//! * [`links`] and [`html`]: pages made ready for printing;
//! * [`chapters`]: which chapters get files of their own;
//! * [`paths`], [`naming`] and [`plan`]: where everything lies;
//! * [`printer`]: the conversation with the browser;
//! * [`text`] and [`unicode`]: characters, texts and their bytes.
//!
//! The modules whose names end in `laws` state and prove what holds of all of
//! these beyond the contracts of single functions.

pub mod chapter_laws;
pub mod chapters;
pub mod encoding_laws;
pub mod escape_laws;
pub mod file_laws;
pub mod html;
pub mod html_laws;
pub mod link_laws;
pub mod links;
pub mod naming;
pub mod naming_laws;
pub mod options;
pub mod page_laws;
pub mod outline;
pub mod path_laws;
pub mod paths;
pub mod place_laws;
pub mod plan;
pub mod printer;
pub mod printer_laws;
pub mod rewriting_laws;
pub mod slug_laws;
pub mod text;
pub mod toc;
pub mod toc_laws;
pub mod unicode;
