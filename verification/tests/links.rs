use mdbook_pdf::links::{html_path_to_root, link_escapes_book_root, rewrite_links};

const SITE: &str = "https://example.test/book";

#[test]
fn links_escape_where_they_climb_too_far() {
    assert!(link_escapes_book_root("../outside.html", ""));
    assert!(!link_escapes_book_root("../inside.html", "../"));
    assert!(link_escapes_book_root("../../outside.html", "../"));
    assert!(!link_escapes_book_root("../../inside.html", "../../"));
    assert!(!link_escapes_book_root("guide/../intro.html", ""));
    assert!(link_escapes_book_root("guide/../../out.html", ""));
    assert!(link_escapes_book_root("../back/again.html", ""));
    assert!(!link_escapes_book_root("./././a//b/../../..", "../"));
    assert!(link_escapes_book_root("./././a//b/../../../..", "../"));
    assert!(!link_escapes_book_root("", ""));
    assert!(!link_escapes_book_root("/etc/passwd", ""));
    assert!(!link_escapes_book_root(".../x", ""));
}

#[test]
fn queries_and_fragments_do_not_climb() {
    assert!(!link_escapes_book_root("page.html?x=../../..", ""));
    assert!(!link_escapes_book_root("page.html#/../../..", ""));
    assert!(link_escapes_book_root("..?x#y", ""));
    assert!(!link_escapes_book_root("#../..", ""));
}

#[test]
fn only_the_steps_up_of_a_path_to_the_root_count() {
    assert!(!link_escapes_book_root("../x", "a/.."));
    assert!(!link_escapes_book_root("../../x", "../a/../"));
    assert!(link_escapes_book_root("../x", "a/b/c"));
}

#[test]
fn the_path_to_the_root_is_read_from_its_declaration() {
    let root = |contents: &str| html_path_to_root(contents);
    assert_eq!(root("<script>const path_to_root = \"../\";</script>"), Some("../".to_string()));
    assert_eq!(root("const\n\tpath_to_root=\"\""), Some(String::new()));
    assert_eq!(root("const\u{3000}path_to_root\u{a0}= \u{2028}\"x\ny\""), Some("x\ny".to_string()));
    assert_eq!(
        root("constconst path_to_root = \"a\"; const path_to_root = \"b\""),
        Some("a".to_string())
    );
    assert_eq!(root("let path_to_root = \"../\";"), None);
    assert_eq!(root("constpath_to_root = \"../\";"), None);
    assert_eq!(root("const path_to_root = '../';"), None);
    assert_eq!(root("const path_to_root = \"../"), None);
    assert_eq!(root("const path_to_rooted = \"../\""), None);
    assert_eq!(root(""), None);
}

#[test]
fn links_out_of_the_book_lead_to_the_site() {
    assert_eq!(
        rewrite_links("<a href=\"../x.html\">x</a>", SITE, ""),
        "<a href=\"https://example.test/book/../x.html\">x</a>"
    );
    assert_eq!(
        rewrite_links("<a href=\"../x.html\">x</a>", "https://example.test/book/", ""),
        "<a href=\"https://example.test/book/../x.html\">x</a>"
    );
    assert_eq!(
        rewrite_links("<a class=\"y\" href=\"..\\x.html\" id=\"z\">x</a>", SITE, ""),
        "<a class=\"y\" href=\"https://example.test/book/../x.html\" id=\"z\">x</a>"
    );
}

#[test]
fn other_links_stay() {
    for page in [
        "<a href=\"../x.html\">x</a>",
        "<a href=\"a\\b.html\">x</a>",
        "<a href=\"#../../x\">x</a>",
        "<a href=\"https://e.test/../../..\">x</a>",
        "<a href=\"mailto:../../..\">x</a>",
        "<a href=\"a+b.c-9:../../..\">x</a>",
        "<a href=\"\">x</a> <p>../../..</p>",
        "<A href=\"../../x.html\">x</A>",
        "<a  data-x='>' href=\"../../x.html\">x</a>",
        "<a id='x' href='../../x.html'>x</a>",
        "<link href=\"../../x.html\">",
        "<a href=\"../../x.html",
        "",
    ] {
        assert_eq!(rewrite_links(page, SITE, "../"), page);
    }
}

#[test]
fn schemes_are_in_lower_case_and_start_with_a_letter() {
    let rewritten = |link: &str| {
        let page = format!("<a href=\"{link}\">");
        rewrite_links(&page, SITE, "") != page
    };
    assert!(!rewritten("a:/../../.."));
    assert!(rewritten("HTTP:/../.."));
    assert!(rewritten("1a:/../.."));
    assert!(rewritten("a_b:/../.."));
    assert!(rewritten(":/../.."));
    assert!(rewritten("a/:/../../.."));
}

#[test]
fn an_anchor_has_its_link_at_the_first_href_that_has_one() {
    assert_eq!(
        rewrite_links("<a href=\"\" href=\"../x\" href=\"../y\">", "s:", ""),
        "<a href=\"\" href=\"s:/../x\" href=\"../y\">"
    );
    assert_eq!(
        rewrite_links("<a <a href=\"../x\"><a href=\"../y\">", "s:", ""),
        "<a <a href=\"s:/../x\"><a href=\"s:/../y\">"
    );
    assert_eq!(
        rewrite_links("<a ><a\thref=\"../w\"><a href=\"../x\n>\" >", "s:", ""),
        "<a ><a\thref=\"../w\"><a href=\"s:/../x\n>\" >"
    );
    assert_eq!(
        rewrite_links("ä<a data-href=\"../x\">ö<a href=\"../y\">ü", "s:", ""),
        "ä<a data-href=\"s:/../x\">ö<a href=\"s:/../y\">ü"
    );
}

#[test]
fn rewriting_twice_is_rewriting_once() {
    let page = "<a href=\"..\\x\"><a href=\"y\"><a href=\"../../z?q#f\">";
    let once = rewrite_links(page, SITE, "");
    assert_eq!(rewrite_links(&once, SITE, ""), once);
}
