//! What becomes of a page, read off its text.

use vstd::prelude::*;

use crate::escape_laws;
use crate::html;
use crate::link_laws;
use crate::links;
use crate::rewriting_laws;
use crate::text;

verus! {

/// A link, written with slashes for backslashes, is looked up on the site just
/// when it does not start with `#`, names no scheme and climbs above the root
/// of the book: then the address of the site, a slash if it does not end with
/// one, and the link take its place. Any other link stays as it was written.
pub proof fn outside_links_lead_to_the_site(
    link: Seq<char>,
    slashed: Seq<char>,
    static_site_url: Seq<char>,
    path_to_root: Seq<char>,
)
    requires
        slashed.len() == link.len(),
        forall|i: int|
            0 <= i < link.len() ==> #[trigger] slashed[i] == if link[i] == '\\' {
                '/'
            } else {
                link[i]
            },
    ensures
        ({
            let is_fragment = slashed.len() > 0 && slashed[0] == '#';
            let leads_out = !is_fragment && !links::has_scheme(slashed) && links::escapes_root(
                slashed,
                path_to_root,
            );
            let ends_with_slash = static_site_url.len() > 0 && static_site_url[static_site_url.len()
                - 1] == '/';
            let new = links::rewritten_link(link, static_site_url, path_to_root);
            &&& leads_out && ends_with_slash ==> new == static_site_url + slashed
            &&& leads_out && !ends_with_slash ==> new == static_site_url + seq!['/'] + slashed
            &&& !leads_out ==> new == link
        }),
{
    assert(slashed == links::with_slashes(link));
    assert(static_site_url.push('/') == static_site_url + seq!['/']);
}

/// A link that leads to the site does so with a query or a fragment behind it
/// too.
pub proof fn queries_and_fragments_go_along(
    link: Seq<char>,
    mark: char,
    rest: Seq<char>,
    static_site_url: Seq<char>,
    path_to_root: Seq<char>,
)
    requires
        mark == '?' || mark == '#',
        !link.contains('\\'),
        !rest.contains('\\'),
        link.len() > 0,
        link[0] != '#',
        !links::has_scheme(link),
        links::escapes_root(link, path_to_root),
    ensures
        links::rewritten_link(link + seq![mark] + rest, static_site_url, path_to_root)
            == links::rewritten_link(link, static_site_url, path_to_root) + seq![mark] + rest,
        links::rewritten_link(link, static_site_url, path_to_root) != link,
{
    let long = link + seq![mark] + rest;
    assert forall|i: int| 0 <= i < long.len() implies #[trigger] long[i] != '\\' by {
        if i < link.len() {
            assert(link.contains(link[i]));
        } else if i > link.len() {
            assert(rest.contains(rest[i - link.len() - 1]));
        }
    }
    assert forall|i: int| 0 <= i < link.len() implies #[trigger] link[i] != '\\' by {
        assert(link.contains(link[i]));
    }
    outside_links_lead_to_the_site(link, link, static_site_url, path_to_root);
    outside_links_lead_to_the_site(long, long, static_site_url, path_to_root);
    escape_laws::queries_and_fragments_do_not_matter(link, mark, rest, path_to_root);
    if links::has_scheme(long) {
        let n = choose|n: int| links::is_scheme_end(long, n);
        if n < link.len() {
            assert forall|k: int| 1 <= k < n implies links::is_scheme_char(#[trigger] link[k]) by {
                assert(links::is_scheme_char(long[k]));
            }
            assert(long[0] == link[0] && long[n] == link[n]);
            assert(links::is_scheme_end(link, n));
        } else if n > link.len() {
            assert(links::is_scheme_char(long[link.len() as int]));
        }
    }
    let new = links::rewritten_link(link, static_site_url, path_to_root);
    assert(long[0] == link[0]);
    if static_site_url.len() > 0 && static_site_url[static_site_url.len() - 1] == '/' {
        assert(static_site_url + long == static_site_url + link + seq![mark] + rest);
    } else {
        assert(static_site_url + seq!['/'] + long == static_site_url + seq!['/'] + link
            + seq![mark] + rest);
    }
    assert(new.len() > link.len());
}

/// An anchor stands in a text again where the text has come `shift` positions
/// further.
proof fn anchors_move_along(s: Seq<char>, from: int, a: links::Anchor, t: Seq<char>, shift: int)
    requires
        0 <= from <= s.len(),
        0 <= from + shift,
        t.len() == s.len() + shift,
        s.skip(from) == t.skip(from + shift),
        links::is_anchor_at(s, a),
        from <= a.start,
    ensures
        links::is_anchor_at(
            t,
            links::Anchor {
                start: a.start + shift,
                link: a.link + shift,
                close: a.close + shift,
            },
        ),
{
    assert forall|k: int| a.start <= k <= a.close implies t[k + shift] == #[trigger] s[k] by {
        assert(s.skip(from)[k - from] == s[k]);
        assert(t.skip(from + shift)[k - from] == t[k + shift]);
    }
    rewriting_laws::anchor_stands_again(s, a, t, shift);
}

/// So does the first one.
proof fn first_anchors_move_along(
    s: Seq<char>,
    from: int,
    a: links::Anchor,
    t: Seq<char>,
    shift: int,
)
    requires
        0 <= from <= s.len(),
        0 <= from + shift,
        t.len() == s.len() + shift,
        s.skip(from) == t.skip(from + shift),
        links::is_first_anchor(s, from, a),
    ensures
        links::is_first_anchor(
            t,
            from + shift,
            links::Anchor {
                start: a.start + shift,
                link: a.link + shift,
                close: a.close + shift,
            },
        ),
{
    let b = links::Anchor { start: a.start + shift, link: a.link + shift, close: a.close + shift };
    anchors_move_along(s, from, a, t, shift);
    assert forall|other: links::Anchor| #[trigger]
        links::is_anchor_at(t, other) && from + shift <= other.start implies b.start < other.start
        || (b.start == other.start && b.link <= other.link) by {
        anchors_move_along(t, from + shift, other, s, -shift);
    }
}

/// Rewriting the rest of a page is rewriting a page that consists of the rest.
proof fn rest_is_a_page(
    s: Seq<char>,
    from: int,
    t: Seq<char>,
    shift: int,
    f: spec_fn(Seq<char>, Seq<char>) -> Seq<char>,
)
    requires
        0 <= from <= s.len(),
        0 <= from + shift,
        t.len() == s.len() + shift,
        s.skip(from) == t.skip(from + shift),
    ensures
        links::replace_anchors(s, from, f) == links::replace_anchors(t, from + shift, f),
    decreases s.len() - from,
{
    let start = from + shift;
    if exists|a: links::Anchor| links::is_first_anchor(s, from, a) {
        let a = choose|a: links::Anchor| links::is_first_anchor(s, from, a);
        let b = links::Anchor {
            start: a.start + shift,
            link: a.link + shift,
            close: a.close + shift,
        };
        let rest = s.skip(from);
        first_anchors_move_along(s, from, a, t, shift);
        rewriting_laws::quote_before_link(s, a.link);
        link_laws::rewriting_goes_from_anchor_to_anchor(s, from, a, f);
        link_laws::rewriting_goes_from_anchor_to_anchor(t, start, b, f);
        assert(s.subrange(from, a.start) == rest.take(a.start - from));
        assert(t.subrange(start, b.start) == t.skip(start).take(a.start - from));
        assert(s.subrange(a.start, a.link) == rest.subrange(a.start - from, a.link - from));
        assert(t.subrange(b.start, b.link) == t.skip(start).subrange(a.start - from, a.link - from));
        assert(s.subrange(a.link, a.close) == rest.subrange(a.link - from, a.close - from));
        assert(t.subrange(b.link, b.close) == t.skip(start).subrange(a.link - from, a.close - from));
        assert(s.skip(a.close + 1) == rest.skip(a.close + 1 - from));
        assert(t.skip(b.close + 1) == t.skip(start).skip(a.close + 1 - from));
        rest_is_a_page(s, a.close + 1, t, shift, f);
    } else {
        assert forall|b: links::Anchor| !#[trigger] links::is_first_anchor(t, start, b) by {
            if links::is_first_anchor(t, start, b) {
                first_anchors_move_along(t, start, b, s, -shift);
            }
        }
    }
}

/// An anchor stands where its text does.
proof fn anchors_stand_by_their_text(
    before: Seq<char>,
    attributes: Seq<char>,
    link: Seq<char>,
    after: Seq<char>,
)
    requires
        !attributes.contains('>'),
        link.len() > 0,
        !link.contains('"'),
    ensures
        ({
            let page = before + "<a "@ + attributes + "href=\""@ + link + seq!['"'] + after;
            let at = before.len() + 9 + attributes.len();
            links::is_anchor_at(
                page,
                links::Anchor {
                    start: before.len() as int,
                    link: at as int,
                    close: (at + link.len()) as int,
                },
            )
        }),
        "<a "@.len() == 3,
        "href=\""@.len() == 6,
{
    assert("<a "@.len() == 3) by {
        reveal_strlit("<a ");
    }
    assert("href=\""@.len() == 6) by {
        reveal_strlit("href=\"");
    }
    let page = before + "<a "@ + attributes + "href=\""@ + link + seq!['"'] + after;
    let at = before.len() + 9 + attributes.len();
    assert(page.subrange(before.len() as int, before.len() as int + 3) == "<a "@);
    assert(page.subrange(at - 6, at as int) == "href=\""@);
    assert forall|k: int| before.len() + 3 <= k < at - 6 implies #[trigger] page[k] != '>' by {
        assert(page[k] == attributes[k - before.len() - 3]);
        assert(attributes.contains(attributes[k - before.len() - 3]));
    }
    assert forall|k: int| at <= k < at + link.len() implies #[trigger] page[k] != '"' by {
        assert(page[k] == link[k - at]);
        assert(link.contains(link[k - at]));
    }
    assert(page[(at + link.len()) as int] == '"');
}

/// An anchor is the first one of a page where no `<` comes before it and no
/// quote in it before that of its link.
proof fn anchors_with_nothing_before_are_first(s: Seq<char>, a: links::Anchor)
    requires
        links::is_anchor_at(s, a),
        forall|k: int| 0 <= k < a.start ==> #[trigger] s[k] != '<',
        forall|k: int| a.start <= k < a.link - 1 ==> #[trigger] s[k] != '"',
    ensures
        links::is_first_anchor(s, 0, a),
{
    assert forall|other: links::Anchor| #[trigger]
        links::is_anchor_at(s, other) && 0 <= other.start implies a.start < other.start || (a.start
        == other.start && a.link <= other.link) by {
        reveal_strlit("<a ");
        assert(s.subrange(other.start, other.start + 3)[0] == s[other.start]);
        assert(s[other.start] == '<');
        rewriting_laws::quote_before_link(s, other.link);
        if other.start == a.start && other.link < a.link {
            assert(s[other.link - 1] != '"');
        }
    }
}

/// An anchor is found by its text.
proof fn anchors_are_found(
    before: Seq<char>,
    attributes: Seq<char>,
    link: Seq<char>,
    after: Seq<char>,
)
    requires
        !before.contains('<'),
        !attributes.contains('>'),
        !attributes.contains('"'),
        link.len() > 0,
        !link.contains('"'),
    ensures
        ({
            let page = before + "<a "@ + attributes + "href=\""@ + link + seq!['"'] + after;
            let at = before.len() + 9 + attributes.len();
            links::is_first_anchor(
                page,
                0,
                links::Anchor {
                    start: before.len() as int,
                    link: at as int,
                    close: (at + link.len()) as int,
                },
            )
        }),
{
    let page = before + "<a "@ + attributes + "href=\""@ + link + seq!['"'] + after;
    let at = (before.len() + 9 + attributes.len()) as int;
    anchors_stand_by_their_text(before, attributes, link, after);
    assert forall|k: int| 0 <= k < before.len() implies #[trigger] page[k] != '<' by {
        assert(before.contains(before[k]));
    }
    assert forall|k: int| before.len() <= k < at - 1 implies #[trigger] page[k] != '"' by {
        reveal_strlit("<a ");
        reveal_strlit("href=\"");
        if k < before.len() + 3 {
            assert(page[k] == "<a "@[k - before.len()]);
        } else if k < at - 6 {
            assert(page[k] == attributes[k - before.len() - 3]);
            assert(attributes.contains(attributes[k - before.len() - 3]));
        } else {
            assert(page[k] == "href=\""@[k - (at - 6)]);
        }
    }
    anchors_with_nothing_before_are_first(
        page,
        links::Anchor { start: before.len() as int, link: at, close: at + link.len() },
    );
}

/// The link of an anchor is rewritten, whatever else stands in the anchor, and
/// then it is the turn of what comes behind it; the rest of the anchor and the
/// text before it stay.
pub proof fn links_of_anchors_are_rewritten(
    before: Seq<char>,
    attributes: Seq<char>,
    link: Seq<char>,
    after: Seq<char>,
    static_site_url: Seq<char>,
    path_to_root: Seq<char>,
)
    requires
        !before.contains('<'),
        !attributes.contains('>'),
        !attributes.contains('"'),
        link.len() > 0,
        !link.contains('"'),
    ensures
        ({
            let f = links::anchor_rewriter(static_site_url, path_to_root);
            let new = links::rewritten_link(link, static_site_url, path_to_root);
            links::replace_anchors(
                before + "<a "@ + attributes + "href=\""@ + link + seq!['"'] + after,
                0,
                f,
            ) == before + "<a "@ + attributes + "href=\""@ + new + seq!['"']
                + links::replace_anchors(after, 0, f)
        }),
{
    let f = links::anchor_rewriter(static_site_url, path_to_root);
    let new = links::rewritten_link(link, static_site_url, path_to_root);
    let page = before + "<a "@ + attributes + "href=\""@ + link + seq!['"'] + after;
    let at = before.len() + 9 + attributes.len();
    let a = links::Anchor {
        start: before.len() as int,
        link: at as int,
        close: (at + link.len()) as int,
    };
    anchors_stand_by_their_text(before, attributes, link, after);
    anchors_are_found(before, attributes, link, after);
    link_laws::rewriting_goes_from_anchor_to_anchor(page, 0, a, f);
    let start = "<a "@ + attributes + "href=\""@;
    assert(page.subrange(0, a.start) == before);
    assert(page.subrange(a.start, a.link) == start);
    assert(page.subrange(a.link, a.close) == link);
    assert(f(start, link) == (start + new).push('"'));
    assert(page.skip(a.close + 1) == after.skip(0));
    rest_is_a_page(page, a.close + 1, after, -(a.close + 1), f);
    assert(before + (start + new).push('"') + links::replace_anchors(after, 0, f) == before
        + "<a "@ + attributes + "href=\""@ + new + seq!['"'] + links::replace_anchors(after, 0, f));
}

/// Whatever stands before the link of the first anchor stays, the link is
/// rewritten, its quote stays, and then it is the turn of the rest.
pub proof fn only_links_change(
    page: Seq<char>,
    from: int,
    a: links::Anchor,
    static_site_url: Seq<char>,
    path_to_root: Seq<char>,
)
    requires
        0 <= from,
        links::is_first_anchor(page, from, a),
    ensures
        ({
            let f = links::anchor_rewriter(static_site_url, path_to_root);
            links::replace_anchors(page, from, f) == page.subrange(from, a.link)
                + links::rewritten_link(
                page.subrange(a.link, a.close),
                static_site_url,
                path_to_root,
            ) + seq!['"'] + links::replace_anchors(page, a.close + 1, f)
        }),
{
    let f = links::anchor_rewriter(static_site_url, path_to_root);
    let start = page.subrange(a.start, a.link);
    let link = page.subrange(a.link, a.close);
    let new = links::rewritten_link(link, static_site_url, path_to_root);
    let rest = links::replace_anchors(page, a.close + 1, f);
    rewriting_laws::quote_before_link(page, a.link);
    link_laws::rewriting_goes_from_anchor_to_anchor(page, from, a, f);
    assert(f(start, link) == (start + new).push('"'));
    assert(page.subrange(from, a.start) + start == page.subrange(from, a.link)) by {
        reveal_strlit("<a ");
    }
    assert(page.subrange(from, a.start) + (start + new).push('"') + rest == page.subrange(
        from,
        a.start,
    ) + start + new + seq!['"'] + rest);
}

/// A word stands in a text where the text has the characters of the word.
pub proof fn words_stand_where_their_characters_do(s: Seq<char>, i: int, word: Seq<char>)
    ensures
        text::has_at(s, i, word) <==> 0 <= i && i + word.len() <= s.len() && forall|k: int|
            0 <= k < word.len() ==> s[i + k] == #[trigger] word[k],
{
    if text::has_at(s, i, word) {
        assert forall|k: int| 0 <= k < word.len() implies s[i + k] == #[trigger] word[k] by {
            assert(s.subrange(i, i + word.len())[k] == s[i + k]);
        }
    }
    if 0 <= i && i + word.len() <= s.len() && forall|k: int|
        0 <= k < word.len() ==> s[i + k] == #[trigger] word[k] {
        assert(s.subrange(i, i + word.len()) == word);
    }
}

/// A page without anchors has no link to rewrite.
pub proof fn pages_without_anchors_stay(
    page: Seq<char>,
    static_site_url: Seq<char>,
    path_to_root: Seq<char>,
)
    requires
        forall|i: int| !#[trigger] text::has_at(page, i, "<a "@),
    ensures
        links::replace_anchors(page, 0, links::anchor_rewriter(static_site_url, path_to_root))
            == page,
{
    assert forall|a: links::Anchor| !#[trigger] links::is_first_anchor(page, 0, a) by {
        assert(!text::has_at(page, a.start, "<a "@));
    }
    assert(page.skip(0) == page);
}

/// Without a site, the printing script and the extra text are put behind the
/// first `</script>` of a page, and nothing else changes.
pub proof fn the_script_is_put_behind_the_first_script(
    before: Seq<char>,
    after: Seq<char>,
    extra_html: Seq<char>,
)
    requires
        forall|i: int|
            0 <= i < before.len() ==> !#[trigger] text::has_at(
                before + "</script>"@ + after,
                i,
                "</script>"@,
            ),
    ensures
        html::prepared(before + "</script>"@ + after, Seq::empty(), extra_html) == before
            + "</script>"@ + html::PRINTING_SCRIPT@ + extra_html + after,
{
    let page = before + "</script>"@ + after;
    let end = "</script>"@;
    let i = before.len() as int;
    assert(page.subrange(i, i + end.len()) == end);
    assert(text::is_first_at(page, i, end));
    let k = choose|k: int| text::is_first_at(page, k, end);
    assert(text::has_at(page, k, end) && text::has_at(page, i, end));
    assert(k == i);
    assert(page.take(i) == before);
    assert(page.skip(i + end.len()) == after);
    assert(before + (end + html::PRINTING_SCRIPT@ + extra_html) + after == before + end
        + html::PRINTING_SCRIPT@ + extra_html + after);
}

/// Without a site, a page without `</script>` stays as it is.
pub proof fn pages_without_scripts_stay(page: Seq<char>, extra_html: Seq<char>)
    requires
        forall|i: int| !#[trigger] text::has_at(page, i, "</script>"@),
    ensures
        html::prepared(page, Seq::empty(), extra_html) == page,
{
    assert forall|i: int| !#[trigger] text::is_first_at(page, i, html::SCRIPT_END@) by {
        assert(!text::has_at(page, i, "</script>"@));
    }
}

/// With a site, the page is made ready as without one, and its links are
/// rewritten on top of that: from the path to the root that it declares, or
/// from the root if it declares none.
pub proof fn a_site_adds_the_rewriting_of_links(
    page: Seq<char>,
    static_site_url: Seq<char>,
    extra_html: Seq<char>,
)
    requires
        static_site_url.len() > 0,
    ensures
        ({
            let plain = html::prepared(page, Seq::empty(), extra_html);
            let made = html::prepared(page, static_site_url, extra_html);
            match links::declared_root(page) {
                Some(root) => made == links::replace_anchors(
                    plain,
                    0,
                    links::anchor_rewriter(static_site_url, root),
                ),
                None => made == links::replace_anchors(
                    plain,
                    0,
                    links::anchor_rewriter(static_site_url, Seq::empty()),
                ),
            }
        }),
{
}

/// A page declares its path to the root by `const`, white space,
/// `path_to_root`, `=` and the path in quotes; the first `const` that starts
/// such a declaration counts.
pub proof fn roots_are_read_from_declarations(
    before: Seq<char>,
    gap: Seq<char>,
    left: Seq<char>,
    right: Seq<char>,
    root: Seq<char>,
    after: Seq<char>,
)
    requires
        gap.len() > 0,
        forall|i: int| 0 <= i < gap.len() ==> #[trigger] gap[i] == ' ' || gap[i] == '\n',
        forall|i: int| 0 <= i < left.len() ==> #[trigger] left[i] == ' ' || left[i] == '\n',
        forall|i: int| 0 <= i < right.len() ==> #[trigger] right[i] == ' ' || right[i] == '\n',
        !root.contains('"'),
        forall|i: int|
            0 <= i < before.len() ==> !#[trigger] text::has_at(
                before + "const"@ + gap + "path_to_root"@ + left + seq!['='] + right + seq!['"']
                    + root + seq!['"'] + after,
                i,
                "const"@,
            ),
    ensures
        links::declared_root(
            before + "const"@ + gap + "path_to_root"@ + left + seq!['='] + right + seq!['"'] + root
                + seq!['"'] + after,
        ) == Some(root),
{
    reveal_strlit("const");
    reveal_strlit("path_to_root");
    let page = before + "const"@ + gap + "path_to_root"@ + left + seq!['='] + right + seq!['"']
        + root + seq!['"'] + after;
    let name = before.len() + 5 + gap.len();
    let equals = name + 12 + left.len();
    let open = equals + 1 + right.len();
    let d = links::RootDeclaration {
        start: before.len() as int,
        name: name as int,
        equals: equals as int,
        open: open as int,
        close: (open + 1 + root.len()) as int,
    };
    assert(page.subrange(d.start, d.start + 5) == "const"@);
    assert(page.subrange(d.name, d.name + 12) == "path_to_root"@);
    assert forall|k: int| d.start + 5 <= k < d.name implies links::is_space(#[trigger] page[k]) by {
        assert(page[k] == gap[k - d.start - 5]);
    }
    assert forall|k: int| d.name + 12 <= k < d.equals implies links::is_space(
        #[trigger] page[k],
    ) by {
        assert(page[k] == left[k - d.name - 12]);
    }
    assert forall|k: int| d.equals + 1 <= k < d.open implies links::is_space(#[trigger] page[k]) by {
        assert(page[k] == right[k - d.equals - 1]);
    }
    assert forall|k: int| d.open + 1 <= k < d.close implies #[trigger] page[k] != '"' by {
        assert(page[k] == root[k - d.open - 1]);
        assert(root.contains(root[k - d.open - 1]));
    }
    assert(links::declares_root_at(page, d));
    assert forall|other: links::RootDeclaration| #[trigger]
        links::declares_root_at(page, other) implies d.start <= other.start by {
        if other.start < d.start {
            assert(!text::has_at(page, other.start, "const"@));
        }
    }
    link_laws::first_declaration_counts(page, d);
    assert(page.subrange(d.open + 1, d.close) == root);
}

/// A page that does not name the path to its root declares none.
pub proof fn pages_without_a_declaration_have_no_root(page: Seq<char>)
    requires
        forall|i: int| !#[trigger] text::has_at(page, i, "path_to_root"@),
    ensures
        links::declared_root(page) is None,
{
    assert forall|d: links::RootDeclaration| !#[trigger] links::is_first_declaration(page, d) by {
        assert(!text::has_at(page, d.name, "path_to_root"@));
    }
}

} // verus!
