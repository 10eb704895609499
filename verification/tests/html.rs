use mdbook_pdf::html::{prepare_html_for_pdf, printing_script};
use mdbook_pdf::options::PrintOptions;

fn options(static_site_url: &str) -> PrintOptions {
    let mut cfg = PrintOptions::default();
    cfg.static_site_url = static_site_url.to_string();
    cfg
}

#[test]
fn static_site_url_rewrite_preserves_nested_links_inside_the_book() {
    let chapter = r#"<html><head><script>const path_to_root = "../";</script></head><body><a href="../intro.html">Intro</a><a href="../../outside.html">Outside</a></body></html>"#;

    let mut cfg = PrintOptions::default();
    cfg.static_site_url = "https://example.test/book".to_string();

    let contents = prepare_html_for_pdf(chapter, &cfg, "");

    assert!(contents.contains(r#"href="../intro.html""#));
    assert!(contents.contains(r#"href="https://example.test/book/../../outside.html""#));
}

#[test]
fn the_script_goes_behind_the_first_end_of_a_script() {
    let page = "<script>1</script><p>ü</p><script>2</script>";
    let expected = format!(
        "<script>1{}EXTRA<p>ü</p><script>2</script>",
        printing_script()
    );
    assert_eq!(prepare_html_for_pdf(page, &options(""), "EXTRA"), expected);
}

#[test]
fn the_script_reports_when_everything_is_loaded() {
    let script = printing_script();
    assert!(script.starts_with("</script>\n\n        <!-- Custom JS scripts"));
    assert!(script.contains("'content-has-all-loaded-for-mdbook-pdf-generation'"));
    assert!(script.contains("i.open = true;"));
    assert!(script.ends_with("            });\n        </script>\n    "));
    assert_eq!(script.matches("script>").count(), 2);
    assert_eq!(script.lines().count(), 27);
}

#[test]
fn a_page_without_scripts_gets_none() {
    let page = "<p><a href=\"../../x\">x</a></p>";
    assert_eq!(prepare_html_for_pdf(page, &options(""), "EXTRA"), page);
    assert_eq!(prepare_html_for_pdf("", &options("s:"), "EXTRA"), "");
}

#[test]
fn links_stay_without_a_site() {
    let page = "</script><a href=\"../../x\">x</a>";
    let prepared = prepare_html_for_pdf(page, &options(""), "");
    assert!(prepared.ends_with("<a href=\"../../x\">x</a>"));
}

#[test]
fn links_of_the_extra_text_are_rewritten_too() {
    let prepared = prepare_html_for_pdf(
        "</script>",
        &options("s:"),
        "<a href=\"#guide\">g</a><a href=\"../x\">x</a>",
    );
    assert!(prepared.ends_with("<a href=\"#guide\">g</a><a href=\"s:/../x\">x</a>"));
}

#[test]
fn a_page_without_a_declared_root_lies_at_the_root() {
    let prepared = prepare_html_for_pdf("<a href=\"../x\">x</a>", &options("s:"), "");
    assert_eq!(prepared, "<a href=\"s:/../x\">x</a>");
    let declared = "const path_to_root = \"../\"; <a href=\"../x\">x</a>";
    assert_eq!(prepare_html_for_pdf(declared, &options("s:"), ""), declared);
}

#[test]
fn a_page_without_scripts_is_prepared_once() {
    for site in ["", "https://example.test/book", "s:"] {
        for page in [
            "<a href=\"..\\x\"><a href=\"y\"><a href=\"../../z?q#f\">",
            "const path_to_root = \"../\"; <a href=\"../x\"><a href=\"../../x\">",
            "<a href=\"../const path_to_root =\" title=\"..\"><a href=\"../x\">",
            "<a href=\"../x\" <a href=\"../y\"> <a href=\"\" href=\"../z\">",
            "no links",
        ] {
            let once = prepare_html_for_pdf(page, &options(site), "EXTRA");
            assert_eq!(prepare_html_for_pdf(&once, &options(site), "EXTRA"), once, "{page}");
        }
    }
}

#[test]
fn a_link_that_becomes_the_end_of_a_script_gets_the_script_next_time() {
    let page = "<a href=\"<\\script>/../../..\">";
    let once = prepare_html_for_pdf(page, &options("s:"), "");
    assert_eq!(once, "<a href=\"s:/</script>/../../..\">");
    assert_ne!(prepare_html_for_pdf(&once, &options("s:"), ""), once);
}
