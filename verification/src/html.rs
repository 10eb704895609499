//! Pages made ready for printing.

use vstd::prelude::*;

use crate::links;
use crate::links::{html_path_to_root, rewrite_links};
use crate::options::PrintOptions;
use crate::text;
use crate::text::{chars_of, push_text, replace_first_text, text_of};

verus! {

/// The end of a script, behind which the printing script goes.
pub const SCRIPT_END: &'static str = "</script>";

/// The script that opens all details of a page and, once everything has been
/// loaded and typeset, adds an element that says so.
pub const PRINTING_SCRIPT: &'static str = "

        <!-- Custom JS scripts for mdbook-pdf PDF generation -->
        <script type='text/javascript'>
            let markAllContentHasLoadedForPrinting = () =>
                window.setTimeout(
                    () => {
                        let p = document.createElement('div');
                        p.setAttribute('id', 'content-has-all-loaded-for-mdbook-pdf-generation');
                        document.body.appendChild(p);
                    }, 100
                );

            window.addEventListener('load', () => {
                // Expand all the <details> elements for printing.
                r = document.getElementsByTagName('details');
                for (let i of r)
                    i.open = true;

                try {
                    MathJax.Hub.Register.StartupHook('End', markAllContentHasLoadedForPrinting);
                } catch (e) {
                    markAllContentHasLoadedForPrinting();
                }
            });
        </script>
    ";

/// The end of a script, and the printing script behind it.
pub open spec fn script_text() -> Seq<char> {
    SCRIPT_END@ + PRINTING_SCRIPT@
}

/// The page with the printing script, followed by `extra_html`, behind the
/// first end of a script.
pub open spec fn with_script(contents: Seq<char>, extra_html: Seq<char>) -> Seq<char> {
    text::replace_first(contents, SCRIPT_END@, script_text() + extra_html)
}

/// The path to the root that a page declares; a page without one lies at the
/// root.
pub open spec fn root_of(contents: Seq<char>) -> Seq<char> {
    match links::declared_root(contents) {
        Some(path_to_root) => path_to_root,
        None => Seq::empty(),
    }
}

/// The page to print: it has the printing script and, if an address of a site
/// is given, its links out of the book lead to that site.
pub open spec fn prepared(
    contents: Seq<char>,
    static_site_url: Seq<char>,
    extra_html: Seq<char>,
) -> Seq<char> {
    if static_site_url.len() == 0 {
        with_script(contents, extra_html)
    } else {
        links::replace_anchors(
            with_script(contents, extra_html),
            0,
            links::anchor_rewriter(static_site_url, root_of(contents)),
        )
    }
}

/// What takes the place of the first end of a script in each page: the same,
/// and the printing script behind it.
pub fn printing_script() -> (res: String)
    ensures
        res@ == script_text(),
{
    let mut res = chars_of(SCRIPT_END);
    push_text(&mut res, PRINTING_SCRIPT);
    text_of(&res)
}

/// Makes a page ready for printing: adds the printing script, followed by
/// `extra_html`, and rewrites the links out of the book.
pub fn prepare_html_for_pdf(contents: &str, cfg: &PrintOptions, extra_html: &str) -> (res: String)
    ensures
        res@ == prepared(contents@, cfg.static_site_url@, extra_html@),
{
    let path_to_root = match html_path_to_root(contents) {
        Some(path_to_root) => path_to_root,
        None => String::new(),
    };
    let mut script = chars_of(&printing_script());
    push_text(&mut script, extra_html);
    let scripted = text_of(
        &replace_first_text(&chars_of(contents), &chars_of(SCRIPT_END), &script),
    );
    if cfg.static_site_url.as_str().is_empty() {
        scripted
    } else {
        rewrite_links(&scripted, &cfg.static_site_url, &path_to_root)
    }
}

} // verus!
