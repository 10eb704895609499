//! The options of the back end, as the book's configuration gives them.

use vstd::prelude::*;

verus! {

/// A 64-bit floating-point number, held as its IEEE 754 bit pattern: options
/// of this kind are handed on to the browser and never computed with.
#[derive(Debug, Clone, Copy, PartialEq, Eq, Structural)]
pub struct Measure {
    pub bits: u64,
}

/// The bit pattern of 1.
pub const ONE: u64 = 0x3FF0_0000_0000_0000;

/// The bit pattern of 8.5.
pub const EIGHT_AND_A_HALF: u64 = 0x4021_0000_0000_0000;

/// The bit pattern of 11.
pub const ELEVEN: u64 = 0x4026_0000_0000_0000;

/// The options of the back end. Those from `landscape` on, except `theme`, are
/// parameters of the browser's `Page.printToPDF`, and have its defaults, but
/// for the outline and the tags of the document, which are generated.
#[derive(Debug, Clone)]
pub struct PrintOptions {
    /// How many times to try to print a page.
    pub trying_times: u64,
    /// How many seconds to wait for the browser.
    pub timeout: u64,
    /// The browser to start; empty to look for one.
    pub browser_binary_path: String,
    /// Where links out of the book lead; empty to leave them as they are.
    pub static_site_url: String,
    /// Whether to print each chapter into a file of its own, too.
    pub per_chapter: bool,
    /// Chapters that get no file of their own.
    pub omit_chapters: Vec<String>,
    /// The only chapters that get a file of their own, unless this is empty.
    pub print_chapters: Vec<String>,
    pub landscape: bool,
    pub display_header_footer: bool,
    pub print_background: bool,
    /// The theme to switch the page to; empty to keep the book's own.
    pub theme: String,
    pub scale: Measure,
    pub paper_width: Measure,
    pub paper_height: Measure,
    pub margin_top: Measure,
    pub margin_bottom: Measure,
    pub margin_left: Measure,
    pub margin_right: Measure,
    pub page_ranges: String,
    pub ignore_invalid_page_ranges: bool,
    pub header_template: String,
    pub footer_template: String,
    pub prefer_css_page_size: bool,
    pub generate_document_outline: bool,
    pub generate_tagged_pdf: bool,
}

impl Default for PrintOptions {
    fn default() -> (res: Self)
        ensures
            res.trying_times == 1,
            res.timeout == 600,
            res.browser_binary_path@ == Seq::<char>::empty(),
            res.static_site_url@ == Seq::<char>::empty(),
            !res.per_chapter,
            res.omit_chapters@ == Seq::<String>::empty(),
            res.print_chapters@ == Seq::<String>::empty(),
            !res.landscape,
            !res.display_header_footer,
            !res.print_background,
            res.theme@ == Seq::<char>::empty(),
            res.scale.bits == ONE,
            res.paper_width.bits == EIGHT_AND_A_HALF,
            res.paper_height.bits == ELEVEN,
            res.margin_top.bits == ONE,
            res.margin_bottom.bits == ONE,
            res.margin_left.bits == ONE,
            res.margin_right.bits == ONE,
            res.page_ranges@ == Seq::<char>::empty(),
            !res.ignore_invalid_page_ranges,
            res.header_template@ == Seq::<char>::empty(),
            res.footer_template@ == Seq::<char>::empty(),
            !res.prefer_css_page_size,
            res.generate_document_outline,
            res.generate_tagged_pdf,
    {
        PrintOptions {
            trying_times: 1,
            timeout: 600,
            browser_binary_path: String::new(),
            static_site_url: String::new(),
            per_chapter: false,
            omit_chapters: Vec::new(),
            print_chapters: Vec::new(),
            landscape: false,
            display_header_footer: false,
            print_background: false,
            theme: String::new(),
            scale: Measure { bits: ONE },
            paper_width: Measure { bits: EIGHT_AND_A_HALF },
            paper_height: Measure { bits: ELEVEN },
            margin_top: Measure { bits: ONE },
            margin_bottom: Measure { bits: ONE },
            margin_left: Measure { bits: ONE },
            margin_right: Measure { bits: ONE },
            page_ranges: String::new(),
            ignore_invalid_page_ranges: false,
            header_template: String::new(),
            footer_template: String::new(),
            prefer_css_page_size: false,
            generate_document_outline: true,
            generate_tagged_pdf: true,
        }
    }
}

} // verus!
