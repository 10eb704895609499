//! What holds of any page that is made ready for printing.

use vstd::prelude::*;

use crate::html;
use crate::link_laws;
use crate::links;
use crate::printer;
use crate::rewriting_laws;
use crate::text;

verus! {

/// The printing script and the extra text are inserted behind the first end of
/// a script; everything else of the page stays.
pub proof fn script_is_inserted_once(contents: Seq<char>, extra_html: Seq<char>, i: int)
    requires
        text::is_first_at(contents, i, html::SCRIPT_END@),
    ensures
        ({
            let behind = i + html::SCRIPT_END@.len();
            html::with_script(contents, extra_html) == contents.take(behind)
                + html::PRINTING_SCRIPT@ + extra_html + contents.skip(behind)
        }),
{
    let end = html::SCRIPT_END@;
    let k = choose|k: int| text::is_first_at(contents, k, end);
    assert(text::has_at(contents, i, end) && text::has_at(contents, k, end));
    assert(k == i);
    let behind = i + end.len();
    assert(contents.take(i) + end == contents.take(behind)) by {
        assert(contents.subrange(i, behind) == end);
        assert(contents.take(i) + contents.subrange(i, behind) == contents.take(behind));
    }
    assert(contents.take(i) + (end + html::PRINTING_SCRIPT@ + extra_html) + contents.skip(behind)
        == contents.take(i) + end + html::PRINTING_SCRIPT@ + extra_html + contents.skip(behind));
}

/// A page that ends no script gets none.
pub proof fn page_without_scripts_gets_none(contents: Seq<char>, extra_html: Seq<char>)
    requires
        forall|i: int| !#[trigger] text::has_at(contents, i, html::SCRIPT_END@),
    ensures
        html::with_script(contents, extra_html) == contents,
{
    assert forall|i: int| !#[trigger] text::is_first_at(contents, i, html::SCRIPT_END@) by {
        assert(!text::has_at(contents, i, html::SCRIPT_END@));
    }
}

/// Where an end of a script stands in a page, there is a first one.
pub proof fn first_script_end_exists(contents: Seq<char>, i: int)
    requires
        text::has_at(contents, i, html::SCRIPT_END@),
    ensures
        exists|first: int|
            first <= i && #[trigger] text::is_first_at(contents, first, html::SCRIPT_END@),
    decreases i,
{
    if exists|j: int| 0 <= j < i && #[trigger] text::has_at(contents, j, html::SCRIPT_END@) {
        let j = choose|j: int|
            0 <= j < i && #[trigger] text::has_at(contents, j, html::SCRIPT_END@);
        first_script_end_exists(contents, j);
    } else {
        assert(text::is_first_at(contents, i, html::SCRIPT_END@));
    }
}

/// A page whose links all stay within the book is the same whether or not
/// there is a site for the others.
pub proof fn site_matters_to_outside_links_alone(
    contents: Seq<char>,
    static_site_url: Seq<char>,
    extra_html: Seq<char>,
)
    requires
        ({
            let page = html::with_script(contents, extra_html);
            forall|a: links::Anchor| #[trigger]
                links::is_anchor_at(page, a) ==> !links::leaves_book(
                    links::with_slashes(page.subrange(a.link, a.close)),
                    html::root_of(contents),
                )
        }),
    ensures
        html::prepared(contents, static_site_url, extra_html) == html::with_script(
            contents,
            extra_html,
        ),
{
    link_laws::page_without_outside_links_stays(
        html::with_script(contents, extra_html),
        static_site_url,
        html::root_of(contents),
    );
}

/// A page that ends no script, neither before nor after its links have been
/// rewritten, is made ready for printing once: doing so a second time changes
/// nothing. The address of the site, if there is one, names a scheme and holds
/// no quote.
pub proof fn pages_are_prepared_once(
    contents: Seq<char>,
    static_site_url: Seq<char>,
    extra_html: Seq<char>,
)
    requires
        static_site_url.len() == 0 || links::has_scheme(static_site_url),
        rewriting_laws::lacks_quote(static_site_url),
        rewriting_laws::ends_no_script(contents),
        rewriting_laws::ends_no_script(html::prepared(contents, static_site_url, extra_html)),
    ensures
        ({
            let once = html::prepared(contents, static_site_url, extra_html);
            html::prepared(once, static_site_url, extra_html) == once
        }),
{
    let once = html::prepared(contents, static_site_url, extra_html);
    page_without_scripts_gets_none(contents, extra_html);
    page_without_scripts_gets_none(once, extra_html);
    if static_site_url.len() > 0 {
        let root = html::root_of(contents);
        rewriting_laws::rewriting_a_page_is_idempotent(contents, static_site_url, root);
        rewriting_laws::rewriting_keeps_the_declared_root(contents, static_site_url, root);
    }
}

/// The same for any page that ends no script, not even with slashes for
/// backslashes, and any site whose address holds no `<`.
pub proof fn pages_without_scripts_are_prepared_once(
    contents: Seq<char>,
    static_site_url: Seq<char>,
    extra_html: Seq<char>,
)
    requires
        static_site_url.len() == 0 || links::has_scheme(static_site_url),
        rewriting_laws::lacks_quote(static_site_url),
        !static_site_url.contains('<'),
        rewriting_laws::ends_no_script(links::with_slashes(contents)),
    ensures
        ({
            let once = html::prepared(contents, static_site_url, extra_html);
            html::prepared(once, static_site_url, extra_html) == once
        }),
{
    rewriting_laws::rewriting_ends_no_script(contents, static_site_url, html::root_of(contents));
    page_without_scripts_gets_none(contents, extra_html);
    pages_are_prepared_once(contents, static_site_url, extra_html);
}

/// The element that is waited for is the one that the printing script adds: it
/// is selected by the identifier that the script sets. The script waits for the
/// page to be loaded, opens all details in it, and waits for the formulas in
/// it, if there are any.
#[verifier::rlimit(100)]
pub proof fn the_script_adds_what_is_waited_for()
    ensures
        printer::LOADED_ELEMENT@ == "#"@ + "content-has-all-loaded-for-mdbook-pdf-generation"@,
        exists|i: int| #[trigger]
            text::has_at(
                html::PRINTING_SCRIPT@,
                i,
                "window.addEventListener('load', () => {"@,
            ),
        exists|i: int| #[trigger]
            text::has_at(
                html::PRINTING_SCRIPT@,
                i,
                "r = document.getElementsByTagName('details');"@,
            ),
        exists|i: int| #[trigger]
            text::has_at(
                html::PRINTING_SCRIPT@,
                i,
                "i.open = true;"@,
            ),
        exists|i: int| #[trigger]
            text::has_at(
                html::PRINTING_SCRIPT@,
                i,
                "MathJax.Hub.Register.StartupHook('End', markAllContentHasLoadedForPrinting);"@,
            ),
        exists|i: int| #[trigger]
            text::has_at(
                html::PRINTING_SCRIPT@,
                i,
                "} catch (e) {"@,
            ),
        exists|i: int| #[trigger]
            text::has_at(
                html::PRINTING_SCRIPT@,
                i,
                "p.setAttribute('id', 'content-has-all-loaded-for-mdbook-pdf-generation');"@,
            ),
{
    reveal_strlit("#");
    reveal_strlit("content-has-all-loaded-for-mdbook-pdf-generation");
    reveal_strlit("#content-has-all-loaded-for-mdbook-pdf-generation");
    assert(printer::LOADED_ELEMENT@ == "#"@ + "content-has-all-loaded-for-mdbook-pdf-generation"@);
    reveal_strlit("window.addEventListener('load', () => {");
    reveal_strlit("r = document.getElementsByTagName('details');");
    reveal_strlit("i.open = true;");
    reveal_strlit("MathJax.Hub.Register.StartupHook('End', markAllContentHasLoadedForPrinting);");
    reveal_strlit("} catch (e) {");
    reveal_strlit("p.setAttribute('id', 'content-has-all-loaded-for-mdbook-pdf-generation');");
    reveal_strlit("

        <!-- Custom JS scripts for mdbook-pdf PDF generation -->
        <script type='text/javascript'>
            let markAllContentHasLoadedForPrinting = () =>
                window.setTimeout(
                    () => {
                        let p = document.createElement('div');
                        p.setAttribute('id', 'content-has-all-loaded-for-mdbook-pdf-generation');
                        document.body.appendChild(p);
                    }, 100
                );

            window.addEventListener('load', () => {
                // Expand all the <details> elements for printing.
                r = document.getElementsByTagName('details');
                for (let i of r)
                    i.open = true;

                try {
                    MathJax.Hub.Register.StartupHook('End', markAllContentHasLoadedForPrinting);
                } catch (e) {
                    markAllContentHasLoadedForPrinting();
                }
            });
        </script>
    ");
    assert(html::PRINTING_SCRIPT@.subrange(503, 542)
        == "window.addEventListener('load', () => {"@);
    assert(text::has_at(
        html::PRINTING_SCRIPT@,
        503,
        "window.addEventListener('load', () => {"@,
    ));
    assert(html::PRINTING_SCRIPT@.subrange(626, 671)
        == "r = document.getElementsByTagName('details');"@);
    assert(text::has_at(
        html::PRINTING_SCRIPT@,
        626,
        "r = document.getElementsByTagName('details');"@,
    ));
    assert(html::PRINTING_SCRIPT@.subrange(725, 739)
        == "i.open = true;"@);
    assert(text::has_at(
        html::PRINTING_SCRIPT@,
        725,
        "i.open = true;"@,
    ));
    assert(html::PRINTING_SCRIPT@.subrange(783, 859)
        == "MathJax.Hub.Register.StartupHook('End', markAllContentHasLoadedForPrinting);"@);
    assert(text::has_at(
        html::PRINTING_SCRIPT@,
        783,
        "MathJax.Hub.Register.StartupHook('End', markAllContentHasLoadedForPrinting);"@,
    ));
    assert(html::PRINTING_SCRIPT@.subrange(876, 889)
        == "} catch (e) {"@);
    assert(text::has_at(
        html::PRINTING_SCRIPT@,
        876,
        "} catch (e) {"@,
    ));
    assert(html::PRINTING_SCRIPT@.subrange(316, 389)
        == "p.setAttribute('id', 'content-has-all-loaded-for-mdbook-pdf-generation');"@);
    assert(text::has_at(
        html::PRINTING_SCRIPT@,
        316,
        "p.setAttribute('id', 'content-has-all-loaded-for-mdbook-pdf-generation');"@,
    ));
}

} // verus!
