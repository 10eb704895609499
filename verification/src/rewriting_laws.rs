//! What holds of rewriting the links of a whole page.

use vstd::prelude::*;

use crate::html;
use crate::link_laws;
use crate::links;
use crate::text;

verus! {

/// Whether the text holds no quote.
pub open spec fn lacks_quote(s: Seq<char>) -> bool {
    links::lacks(s, 0, s.len() as int, '"')
}

/// What stands in one text stands in any other that has the same characters.
pub(crate) proof fn word_stands_again(s: Seq<char>, i: int, t: Seq<char>, shift: int, word: Seq<char>)
    requires
        text::has_at(s, i, word),
        0 <= i + shift,
        i + shift + word.len() <= t.len(),
        forall|k: int| i <= k < i + word.len() ==> t[k + shift] == #[trigger] s[k],
    ensures
        text::has_at(t, i + shift, word),
{
    let there = t.subrange(i + shift, i + shift + word.len());
    let here = s.subrange(i, i + word.len());
    assert forall|k: int| 0 <= k < word.len() implies there[k] == here[k] by {
        assert(here[k] == s[i + k]);
    }
    assert(there == here);
}

/// A quote stands before the link of an anchor.
pub(crate) proof fn quote_before_link(s: Seq<char>, link: int)
    requires
        text::has_at(s, link - "href=\""@.len(), "href=\""@),
    ensures
        s[link - 1] == '"',
        s[link - 2] == '=',
        s[link - 3] == 'f',
        "href=\""@.len() == 6,
        6 <= link <= s.len(),
{
    reveal_strlit("href=\"");
    let word = s.subrange(link - 6, link);
    assert(word[5] == '"' && word[4] == '=' && word[3] == 'f');
}

/// An anchor stands again where the same characters do.
pub(crate) proof fn anchor_stands_again(s: Seq<char>, a: links::Anchor, t: Seq<char>, shift: int)
    requires
        links::is_anchor_at(s, a),
        0 <= a.start + shift,
        a.close + shift < t.len(),
        forall|k: int| a.start <= k <= a.close ==> t[k + shift] == #[trigger] s[k],
    ensures
        links::is_anchor_at(
            t,
            links::Anchor {
                start: a.start + shift,
                link: a.link + shift,
                close: a.close + shift,
            },
        ),
{
    reveal_strlit("<a ");
    quote_before_link(s, a.link);
    word_stands_again(s, a.start, t, shift, "<a "@);
    word_stands_again(s, a.link - 6, t, shift, "href=\""@);
    assert forall|k: int| a.start + 3 + shift <= k < a.link - 6 + shift implies #[trigger] t[k]
        != '>' by {
        assert(s[k - shift] != '>');
    }
    assert forall|k: int| a.link + shift <= k < a.close + shift implies #[trigger] t[k] != '"' by {
        assert(s[k - shift] != '"');
    }
    assert(t[a.close + shift] == s[a.close]);
}

/// An anchor that is the first one in `s` is the first one in `t` too, where
/// the same text comes before the link and the link is another one.
proof fn first_anchor_stays_first(
    s: Seq<char>,
    from: int,
    a: links::Anchor,
    t: Seq<char>,
    shift: int,
    link: Seq<char>,
)
    requires
        links::is_first_anchor(s, from, a),
        0 <= from,
        0 <= from + shift,
        a.link + shift + link.len() < t.len(),
        forall|k: int| from <= k < a.link ==> t[k + shift] == #[trigger] s[k],
        t.subrange(a.link + shift, a.link + shift + link.len()) == link,
        t[a.link + shift + link.len()] == '"',
        link.len() > 0,
        lacks_quote(link),
    ensures
        links::is_first_anchor(
            t,
            from + shift,
            links::Anchor {
                start: a.start + shift,
                link: a.link + shift,
                close: a.link + shift + link.len(),
            },
        ),
{
    let b = links::Anchor {
        start: a.start + shift,
        link: a.link + shift,
        close: a.link + shift + link.len(),
    };
    reveal_strlit("<a ");
    quote_before_link(s, a.link);
    assert(links::is_anchor_at(t, b)) by {
        word_stands_again(s, a.start, t, shift, "<a "@);
        word_stands_again(s, a.link - 6, t, shift, "href=\""@);
        assert forall|k: int| b.start + 3 <= k < b.link - 6 implies #[trigger] t[k] != '>' by {
            assert(s[k - shift] != '>');
        }
        assert forall|k: int| b.link <= k < b.close implies #[trigger] t[k] != '"' by {
            assert(t.subrange(b.link, b.close)[k - b.link] == link[k - b.link]);
        }
    }
    assert forall|other: links::Anchor| #[trigger]
        links::is_anchor_at(t, other) && from + shift <= other.start implies b.start < other.start
        || (b.start == other.start && b.link <= other.link) by {
        if other.start <= b.start && other.link < b.link {
            assert(t[b.link - 1] == s[a.link - 1]);
            assert(other.close < b.link);
            assert forall|k: int| other.start <= k <= other.close implies s[k - shift]
                == #[trigger] t[k] by {
                assert(t[k - shift + shift] == s[k - shift]);
            }
            anchor_stands_again(t, other, s, -shift);
        } else if other.start < b.start {
            let early = links::Anchor { start: other.start - shift, link: a.link, close: a.close };
            assert(links::is_anchor_at(s, early)) by {
                assert forall|k: int| other.start <= k < other.start + 3 implies s[k - shift]
                    == #[trigger] t[k] by {
                    assert(t[k - shift + shift] == s[k - shift]);
                }
                word_stands_again(t, other.start, s, -shift, "<a "@);
                quote_before_link(t, other.link);
                assert forall|k: int| early.start + 3 <= k < a.link - 6 implies #[trigger] s[k]
                    != '>' by {
                    assert(t[k + shift] != '>');
                }
            }
        }
    }
}

/// A rewritten link holds no quote, and is not empty, where that is so of the
/// link and of the address of the site.
proof fn rewritten_links_lack_quotes(
    link: Seq<char>,
    static_site_url: Seq<char>,
    path_to_root: Seq<char>,
)
    requires
        link.len() > 0,
        lacks_quote(link),
        lacks_quote(static_site_url),
    ensures
        links::rewritten_link(link, static_site_url, path_to_root).len() > 0,
        lacks_quote(links::rewritten_link(link, static_site_url, path_to_root)),
        lacks_quote(links::site_base(static_site_url)),
{
    let base = links::site_base(static_site_url);
    let slashed = links::with_slashes(link);
    let new = links::rewritten_link(link, static_site_url, path_to_root);
    assert forall|k: int| 0 <= k < base.len() implies #[trigger] base[k] != '"' by {
        if k < static_site_url.len() {
            assert(static_site_url[k] != '"');
        }
    }
    assert forall|k: int| 0 <= k < new.len() implies #[trigger] new[k] != '"' by {
        if links::leaves_book(slashed, path_to_root) {
            if k < base.len() {
                assert(base[k] != '"');
            } else {
                assert(link[k - base.len()] != '"');
            }
        }
    }
}

/// The link of an anchor holds no quote.
proof fn links_lack_quotes(s: Seq<char>, a: links::Anchor)
    requires
        links::is_anchor_at(s, a),
    ensures
        lacks_quote(s.subrange(a.link, a.close)),
        s.subrange(a.link, a.close).len() > 0,
        0 <= a.start < a.link,
{
    quote_before_link(s, a.link);
    let link = s.subrange(a.link, a.close);
    assert forall|k: int| 0 <= k < link.len() implies #[trigger] link[k] != '"' by {
        assert(s[a.link + k] != '"');
    }
}

/// The rest of a page, if it holds no anchors, stays as it is behind any other
/// text too.
proof fn rest_without_anchors_stays(
    before: Seq<char>,
    s: Seq<char>,
    from: int,
    f: spec_fn(Seq<char>, Seq<char>) -> Seq<char>,
)
    requires
        0 <= from <= s.len(),
        forall|a: links::Anchor| !links::is_first_anchor(s, from, a),
    ensures
        links::replace_anchors(before + s.skip(from), before.len() as int, f) == s.skip(from),
{
    let page = before + s.skip(from);
    let shift = before.len() - from;
    assert forall|b: links::Anchor| !#[trigger] links::is_first_anchor(
        page,
        before.len() as int,
        b,
    ) by {
        if links::is_first_anchor(page, before.len() as int, b) {
            assert forall|k: int| b.start <= k <= b.close implies s[k - shift]
                == #[trigger] page[k] by {
                assert(page[k] == s.skip(from)[k - before.len()]);
            }
            anchor_stands_again(page, b, s, -shift);
            link_laws::first_anchor_exists(
                s,
                from,
                links::Anchor {
                    start: b.start - shift,
                    link: b.link - shift,
                    close: b.close - shift,
                },
            );
        }
    }
    assert(page.skip(before.len() as int) == s.skip(from));
}

/// What an anchor becomes.
spec fn rewritten_anchor(
    s: Seq<char>,
    a: links::Anchor,
    static_site_url: Seq<char>,
    path_to_root: Seq<char>,
) -> Seq<char> {
    links::anchor_rewriter(static_site_url, path_to_root)(
        s.subrange(a.start, a.link),
        s.subrange(a.link, a.close),
    )
}

/// Rewriting an anchor again, with whatever comes before and behind it, leaves
/// it as it is and goes on behind it.
proof fn rewritten_anchor_stays(
    before: Seq<char>,
    s: Seq<char>,
    from: int,
    a: links::Anchor,
    after: Seq<char>,
    static_site_url: Seq<char>,
    path_to_root: Seq<char>,
)
    requires
        0 <= from,
        links::is_first_anchor(s, from, a),
        links::has_scheme(static_site_url),
        lacks_quote(static_site_url),
    ensures
        ({
            let f = links::anchor_rewriter(static_site_url, path_to_root);
            let here = s.subrange(from, a.start) + rewritten_anchor(
                s,
                a,
                static_site_url,
                path_to_root,
            );
            let page = before + here + after;
            links::replace_anchors(page, before.len() as int, f) == here
                + links::replace_anchors(page, (before + here).len() as int, f)
        }),
{
    let f = links::anchor_rewriter(static_site_url, path_to_root);
    let shift = before.len() - from;
    let lead = s.subrange(from, a.start);
    let start = s.subrange(a.start, a.link);
    let link = s.subrange(a.link, a.close);
    let new = links::rewritten_link(link, static_site_url, path_to_root);
    links_lack_quotes(s, a);
    rewritten_links_lack_quotes(link, static_site_url, path_to_root);
    let here = lead + (start + new).push('"');
    let page = before + here + after;
    let b = links::Anchor {
        start: a.start + shift,
        link: a.link + shift,
        close: a.link + shift + new.len(),
    };
    assert(links::is_first_anchor(page, before.len() as int, b)) by {
        assert forall|k: int| from <= k < a.link implies page[k + shift] == #[trigger] s[k] by {
            if k < a.start {
                assert(lead[k - from] == s[k]);
            } else {
                assert(start[k - a.start] == s[k]);
            }
        }
        assert(page.subrange(b.link, b.close) == new);
        first_anchor_stays_first(s, from, a, page, shift, new);
    }
    link_laws::rewriting_goes_from_anchor_to_anchor(page, before.len() as int, b, f);
    assert(page.subrange(before.len() as int, b.start) == lead);
    assert(page.subrange(b.start, b.link) == start);
    assert(page.subrange(b.link, b.close) == new);
    link_laws::rewriting_a_link_is_idempotent(link, static_site_url, path_to_root);
    assert(f(start, new) == (start + new).push('"'));
    assert((before + here).len() == b.close + 1);
}

/// The rest of a page, once rewritten, is not changed by rewriting it again,
/// whatever comes before it.
proof fn rewritten_rest_stays(
    before: Seq<char>,
    s: Seq<char>,
    from: int,
    static_site_url: Seq<char>,
    path_to_root: Seq<char>,
)
    requires
        0 <= from <= s.len(),
        links::has_scheme(static_site_url),
        lacks_quote(static_site_url),
    ensures
        ({
            let f = links::anchor_rewriter(static_site_url, path_to_root);
            let rest = links::replace_anchors(s, from, f);
            links::replace_anchors(before + rest, before.len() as int, f) == rest
        }),
    decreases s.len() - from,
{
    let f = links::anchor_rewriter(static_site_url, path_to_root);
    if exists|a: links::Anchor| links::is_first_anchor(s, from, a) {
        let a = choose|a: links::Anchor| links::is_first_anchor(s, from, a);
        let here = s.subrange(from, a.start) + rewritten_anchor(
            s,
            a,
            static_site_url,
            path_to_root,
        );
        let after = links::replace_anchors(s, a.close + 1, f);
        links_lack_quotes(s, a);
        rewritten_anchor_stays(before, s, from, a, after, static_site_url, path_to_root);
        rewritten_rest_stays(before + here, s, a.close + 1, static_site_url, path_to_root);
        assert(links::replace_anchors(s, from, f) == here + after);
        assert(before + (here + after) == before + here + after);
    } else {
        rest_without_anchors_stays(before, s, from, f);
    }
}

/// Where the address of the site names a scheme and holds no quote, rewriting
/// the links of a page a second time changes nothing.
pub proof fn rewriting_a_page_is_idempotent(
    s: Seq<char>,
    static_site_url: Seq<char>,
    path_to_root: Seq<char>,
)
    requires
        links::has_scheme(static_site_url),
        lacks_quote(static_site_url),
    ensures
        ({
            let f = links::anchor_rewriter(static_site_url, path_to_root);
            let once = links::replace_anchors(s, 0, f);
            links::replace_anchors(once, 0, f) == once
        }),
{
    let f = links::anchor_rewriter(static_site_url, path_to_root);
    let once = links::replace_anchors(s, 0, f);
    let none = Seq::<char>::empty();
    rewritten_rest_stays(none, s, 0, static_site_url, path_to_root);
    assert(none + once == once);
}

/// Up to the quote that opens its value, a declaration of the path to the root
/// holds neither quotes nor slashes of either kind.
proof fn declarations_lack_quotes_and_slashes(s: Seq<char>, d: links::RootDeclaration, k: int)
    requires
        links::declares_root_at(s, d),
        d.start <= k < d.open,
    ensures
        s[k] != '"',
        s[k] != '/',
        s[k] != '\\',
{
    reveal_strlit("const");
    reveal_strlit("path_to_root");
    assert(!links::is_space('"') && !links::is_space('/') && !links::is_space('\\'));
    if k < d.start + 5 {
        assert(s.subrange(d.start, d.start + 5)[k - d.start] == s[k]);
    } else if k < d.name {
        assert(links::is_space(s[k]));
    } else if k < d.name + 12 {
        assert(s.subrange(d.name, d.name + 12)[k - d.name] == s[k]);
    } else if k != d.equals {
        assert(links::is_space(s[k]));
    }
}

/// A declaration stands again where the same characters do.
proof fn declaration_stands_again(
    s: Seq<char>,
    d: links::RootDeclaration,
    t: Seq<char>,
    shift: int,
)
    requires
        links::declares_root_at(s, d),
        0 <= d.start + shift,
        d.close + shift < t.len(),
        forall|k: int| d.start <= k <= d.close ==> t[k + shift] == #[trigger] s[k],
    ensures
        links::declares_root_at(t, moved(d, shift)),
        t.subrange(d.open + shift + 1, d.close + shift) == s.subrange(d.open + 1, d.close),
{
    reveal_strlit("const");
    reveal_strlit("path_to_root");
    let e = moved(d, shift);
    word_stands_again(s, d.start, t, shift, "const"@);
    word_stands_again(s, d.name, t, shift, "path_to_root"@);
    assert forall|k: int|
        e.start + 5 <= k < e.name || e.name + 12 <= k < e.equals || e.equals + 1 <= k
            < e.open implies links::is_space(#[trigger] t[k]) by {
        assert(links::is_space(s[k - shift]));
    }
    assert forall|k: int| e.open + 1 <= k < e.close implies #[trigger] t[k] != '"' by {
        assert(s[k - shift] != '"');
    }
    assert(t[d.equals + shift] == s[d.equals]);
    assert(t[d.open + shift] == s[d.open]);
    assert(t[d.close + shift] == s[d.close]);
    let value = s.subrange(d.open + 1, d.close);
    assert forall|k: int| 0 <= k < value.len() implies t.subrange(e.open + 1, e.close)[k]
        == value[k] by {
        assert(t[d.open + 1 + k + shift] == s[d.open + 1 + k]);
    }
    assert(t.subrange(e.open + 1, e.close) == value);
}

/// The positions of a declaration, all moved by as much.
spec fn moved(d: links::RootDeclaration, shift: int) -> links::RootDeclaration {
    links::RootDeclaration {
        start: d.start + shift,
        name: d.name + shift,
        equals: d.equals + shift,
        open: d.open + shift,
        close: d.close + shift,
    }
}

/// A declaration does not reach into a link: it ends before the link, or its
/// value starts behind it.
proof fn declarations_stay_clear_of_links(
    before: Seq<char>,
    link: Seq<char>,
    after: Seq<char>,
    d: links::RootDeclaration,
)
    requires
        text::has_at(before, before.len() - "href=\""@.len(), "href=\""@),
        lacks_quote(link),
        links::declares_root_at(before + link + after, d),
    ensures
        d.close < before.len() || (d.start >= before.len() && d.open >= before.len() + link.len()),
{
    let s = before + link + after;
    let quote = before.len() - 1;
    quote_before_link(before, before.len() as int);
    assert(s[quote] == '"' && s[quote - 1] == '=' && s[quote - 2] == 'f');
    if d.start <= quote {
        if d.open > quote {
            declarations_lack_quotes_and_slashes(s, d, quote);
        }
        if d.open == quote {
            assert(!links::is_space('=') && !links::is_space('f'));
            reveal_strlit("path_to_root");
            if d.equals < quote - 1 {
                assert(links::is_space(s[quote - 1]));
            }
            if d.name + 12 < d.equals {
                assert(links::is_space(s[d.equals - 1]));
            }
            assert(s.subrange(d.name, d.name + 12)[11] == s[d.name + 11]);
        }
        if d.close > quote {
            assert(s[quote] != '"');
        }
    } else if d.open < before.len() + link.len() {
        assert(s[d.open] == link[d.open - before.len()]);
    }
}

/// A declaration of a page survives when a link of the page is pointed to a
/// site.
proof fn declaration_survives(
    before: Seq<char>,
    link: Seq<char>,
    after: Seq<char>,
    base: Seq<char>,
    d: links::RootDeclaration,
) -> (res: links::RootDeclaration)
    requires
        text::has_at(before, before.len() - "href=\""@.len(), "href=\""@),
        lacks_quote(link),
        links::declares_root_at(before + link + after, d),
    ensures
        ({
            let s = before + link + after;
            let t = before + (base + links::with_slashes(link)) + after;
            &&& links::declares_root_at(t, res)
            &&& t.subrange(res.open + 1, res.close) == s.subrange(d.open + 1, d.close)
            &&& res.start == if d.start < before.len() {
                d.start
            } else {
                d.start + base.len()
            }
        }),
{
    let s = before + link + after;
    let t = before + (base + links::with_slashes(link)) + after;
    declarations_stay_clear_of_links(before, link, after, d);
    let shift = if d.start < before.len() {
        0
    } else {
        base.len() as int
    };
    assert forall|k: int| d.start <= k <= d.close implies t[k + shift] == #[trigger] s[k] by {
        if before.len() <= k < before.len() + link.len() {
            declarations_lack_quotes_and_slashes(s, d, k);
        }
    }
    declaration_stands_again(s, d, t, shift);
    moved(d, shift)
}

/// A page whose link is pointed to a site has no declaration that it did not
/// have before.
proof fn no_declaration_appears(
    before: Seq<char>,
    link: Seq<char>,
    after: Seq<char>,
    base: Seq<char>,
    d: links::RootDeclaration,
) -> (res: links::RootDeclaration)
    requires
        text::has_at(before, before.len() - "href=\""@.len(), "href=\""@),
        lacks_quote(link),
        lacks_quote(base),
        base.len() > 0,
        base.last() == '/',
        links::declares_root_at(before + (base + links::with_slashes(link)) + after, d),
    ensures
        links::declares_root_at(before + link + after, res),
        d.start == if res.start < before.len() {
            res.start
        } else {
            res.start + base.len()
        },
{
    let s = before + link + after;
    let new = base + links::with_slashes(link);
    let t = before + new + after;
    assert forall|k: int| 0 <= k < new.len() implies #[trigger] new[k] != '"' by {
        if k < base.len() {
            assert(base[k] != '"');
        } else {
            assert(link[k - base.len()] != '"');
        }
    }
    declarations_stay_clear_of_links(before, new, after, d);
    let slash = before.len() + base.len() - 1;
    assert(t[slash] == '/');
    if before.len() <= d.start <= slash {
        declarations_lack_quotes_and_slashes(t, d, slash);
    }
    let shift = if d.start < before.len() {
        0
    } else {
        -base.len()
    };
    assert forall|k: int| d.start <= k <= d.close implies s[k + shift] == #[trigger] t[k] by {
        if before.len() <= k < before.len() + new.len() {
            declarations_lack_quotes_and_slashes(t, d, k);
        }
    }
    declaration_stands_again(t, d, s, shift);
    moved(d, shift)
}

/// Pointing a link of a page to a site does not change the path to the root
/// that the page declares.
proof fn link_does_not_change_root(
    before: Seq<char>,
    link: Seq<char>,
    after: Seq<char>,
    base: Seq<char>,
)
    requires
        text::has_at(before, before.len() - "href=\""@.len(), "href=\""@),
        lacks_quote(link),
        lacks_quote(base),
        base.len() > 0,
        base.last() == '/',
    ensures
        links::declared_root(before + (base + links::with_slashes(link)) + after)
            == links::declared_root(before + link + after),
{
    let s = before + link + after;
    let t = before + (base + links::with_slashes(link)) + after;
    if links::declared_root(s) is Some {
        let d = choose|d: links::RootDeclaration| links::is_first_declaration(s, d);
        let e = declaration_survives(before, link, after, base, d);
        assert forall|other: links::RootDeclaration| #[trigger]
            links::declares_root_at(t, other) implies e.start <= other.start by {
            let origin = no_declaration_appears(before, link, after, base, other);
            assert(d.start <= origin.start);
        }
        link_laws::first_declaration_counts(s, d);
        link_laws::first_declaration_counts(t, e);
    } else if links::declared_root(t) is Some {
        let e = choose|e: links::RootDeclaration| links::is_first_declaration(t, e);
        let d = no_declaration_appears(before, link, after, base, e);
        link_laws::first_declaration_counts(s, d);
    }
}

/// Rewriting one anchor of a page puts another link in the place of its link,
/// and leaves the rest of the page as it is.
proof fn rewriting_an_anchor_changes_its_link(
    before: Seq<char>,
    s: Seq<char>,
    from: int,
    a: links::Anchor,
    static_site_url: Seq<char>,
    path_to_root: Seq<char>,
)
    requires
        0 <= from <= s.len(),
        links::is_first_anchor(s, from, a),
    ensures
        ({
            let here = s.subrange(from, a.start) + rewritten_anchor(
                s,
                a,
                static_site_url,
                path_to_root,
            );
            let x = before + s.subrange(from, a.link);
            let link = s.subrange(a.link, a.close);
            let new = links::rewritten_link(link, static_site_url, path_to_root);
            let y = s.skip(a.close);
            &&& before + s.skip(from) == x + link + y
            &&& (before + here) + s.skip(a.close + 1) == x + new + y
            &&& text::has_at(x, x.len() - "href=\""@.len(), "href=\""@)
            &&& x.len() > 0
            &&& x.last() == '"'
        }),
{
    let start = s.subrange(a.start, a.link);
    let link = s.subrange(a.link, a.close);
    let new = links::rewritten_link(link, static_site_url, path_to_root);
    let here = s.subrange(from, a.start) + (start + new).push('"');
    let x = before + s.subrange(from, a.link);
    let y = s.skip(a.close);
    links_lack_quotes(s, a);
    quote_before_link(s, a.link);
    reveal_strlit("<a ");
    let shift = before.len() - from;
    assert forall|k: int| a.link - 6 <= k < a.link implies x[k + shift] == #[trigger] s[k] by {
        assert(s.subrange(from, a.link)[k - from] == s[k]);
    }
    word_stands_again(s, a.link - 6, x, shift, "href=\""@);
    assert(x[a.link - 1 + shift] == s[a.link - 1]);
    assert(before + s.skip(from) == x + link + y);
    assert((before + here) + s.skip(a.close + 1) == x + new + y);
}

/// Rewriting one anchor of a page does not change the path to the root that
/// the page declares.
proof fn rewriting_an_anchor_keeps_root(
    before: Seq<char>,
    s: Seq<char>,
    from: int,
    a: links::Anchor,
    static_site_url: Seq<char>,
    path_to_root: Seq<char>,
)
    requires
        0 <= from <= s.len(),
        links::is_first_anchor(s, from, a),
        lacks_quote(static_site_url),
    ensures
        ({
            let here = s.subrange(from, a.start) + rewritten_anchor(
                s,
                a,
                static_site_url,
                path_to_root,
            );
            links::declared_root((before + here) + s.skip(a.close + 1)) == links::declared_root(
                before + s.skip(from),
            )
        }),
{
    let link = s.subrange(a.link, a.close);
    rewriting_an_anchor_changes_its_link(before, s, from, a, static_site_url, path_to_root);
    links_lack_quotes(s, a);
    rewritten_links_lack_quotes(link, static_site_url, path_to_root);
    if links::leaves_book(links::with_slashes(link), path_to_root) {
        link_does_not_change_root(
            before + s.subrange(from, a.link),
            link,
            s.skip(a.close),
            links::site_base(static_site_url),
        );
    }
}

/// The rest of a page can be rewritten without changing the path to the root
/// that the page declares.
proof fn rewriting_rest_keeps_root(
    before: Seq<char>,
    s: Seq<char>,
    from: int,
    static_site_url: Seq<char>,
    path_to_root: Seq<char>,
)
    requires
        0 <= from <= s.len(),
        lacks_quote(static_site_url),
    ensures
        links::declared_root(
            before + links::replace_anchors(
                s,
                from,
                links::anchor_rewriter(static_site_url, path_to_root),
            ),
        ) == links::declared_root(before + s.skip(from)),
    decreases s.len() - from,
{
    let f = links::anchor_rewriter(static_site_url, path_to_root);
    if exists|a: links::Anchor| links::is_first_anchor(s, from, a) {
        let a = choose|a: links::Anchor| links::is_first_anchor(s, from, a);
        let here = s.subrange(from, a.start) + rewritten_anchor(
            s,
            a,
            static_site_url,
            path_to_root,
        );
        let after = links::replace_anchors(s, a.close + 1, f);
        links_lack_quotes(s, a);
        rewriting_an_anchor_keeps_root(before, s, from, a, static_site_url, path_to_root);
        rewriting_rest_keeps_root(before + here, s, a.close + 1, static_site_url, path_to_root);
        assert(links::replace_anchors(s, from, f) == here + after);
        assert(before + (here + after) == (before + here) + after);
    }
}

/// Rewriting the links of a page does not change the path to the root that it
/// declares, where the address of the site holds no quote.
pub proof fn rewriting_keeps_the_declared_root(
    s: Seq<char>,
    static_site_url: Seq<char>,
    path_to_root: Seq<char>,
)
    requires
        lacks_quote(static_site_url),
    ensures
        links::declared_root(
            links::replace_anchors(s, 0, links::anchor_rewriter(static_site_url, path_to_root)),
        ) == links::declared_root(s),
{
    let f = links::anchor_rewriter(static_site_url, path_to_root);
    let none = Seq::<char>::empty();
    rewriting_rest_keeps_root(none, s, 0, static_site_url, path_to_root);
    assert(none + links::replace_anchors(s, 0, f) == links::replace_anchors(s, 0, f));
    assert(none + s.skip(0) == s);
}

/// Whether no end of a script stands in the text.
pub open spec fn ends_no_script(s: Seq<char>) -> bool {
    forall|i: int| !#[trigger] text::has_at(s, i, html::SCRIPT_END@)
}

/// Pointing a link of a page to a site ends no script.
proof fn link_ends_no_script(
    before: Seq<char>,
    link: Seq<char>,
    after: Seq<char>,
    base: Seq<char>,
)
    requires
        before.len() > 0,
        before.last() == '"',
        !base.contains('<'),
        ends_no_script(links::with_slashes(before + link + after)),
    ensures
        ends_no_script(
            links::with_slashes(before + (base + links::with_slashes(link)) + after),
        ),
{
    let s = links::with_slashes(before + link + after);
    let t = links::with_slashes(before + (base + links::with_slashes(link)) + after);
    let end = html::SCRIPT_END@;
    reveal_strlit("</script>");
    assert(end.len() == 9);
    assert forall|i: int| !#[trigger] text::has_at(t, i, end) by {
        if text::has_at(t, i, end) {
            let found = t.subrange(i, i + 9);
            let quote = before.len() - 1;
            assert(found == end);
            assert(found[0] == end[0]);
            assert(end[0] == '<');
            assert(t[i] == '<');
            if i <= quote < i + 9 {
                assert(found[quote - i] == '"');
            }
            let shift = if i < before.len() {
                0
            } else {
                if i < before.len() + base.len() {
                    assert(t[i] == base[i - before.len()]);
                }
                -base.len()
            };
            assert forall|k: int| i <= k < i + 9 implies s[k + shift] == #[trigger] t[k] by {}
            word_stands_again(t, i, s, shift, end);
        }
    }
}

/// Rewriting one anchor of a page ends no script.
proof fn rewriting_an_anchor_ends_no_script(
    before: Seq<char>,
    s: Seq<char>,
    from: int,
    a: links::Anchor,
    static_site_url: Seq<char>,
    path_to_root: Seq<char>,
)
    requires
        0 <= from <= s.len(),
        links::is_first_anchor(s, from, a),
        !static_site_url.contains('<'),
        ends_no_script(links::with_slashes(before + s.skip(from))),
    ensures
        ({
            let here = s.subrange(from, a.start) + rewritten_anchor(
                s,
                a,
                static_site_url,
                path_to_root,
            );
            ends_no_script(links::with_slashes((before + here) + s.skip(a.close + 1)))
        }),
{
    let link = s.subrange(a.link, a.close);
    let base = links::site_base(static_site_url);
    rewriting_an_anchor_changes_its_link(before, s, from, a, static_site_url, path_to_root);
    if links::leaves_book(links::with_slashes(link), path_to_root) {
        assert(!base.contains('<')) by {
            if base.contains('<') {
                let k = base.index_of('<');
                assert(static_site_url[k] == '<');
            }
        }
        link_ends_no_script(before + s.subrange(from, a.link), link, s.skip(a.close), base);
    }
}

/// Rewriting the links of the rest of a page ends no script.
proof fn rewriting_rest_ends_no_script(
    before: Seq<char>,
    s: Seq<char>,
    from: int,
    static_site_url: Seq<char>,
    path_to_root: Seq<char>,
)
    requires
        0 <= from <= s.len(),
        !static_site_url.contains('<'),
        ends_no_script(links::with_slashes(before + s.skip(from))),
    ensures
        ends_no_script(
            links::with_slashes(
                before + links::replace_anchors(
                    s,
                    from,
                    links::anchor_rewriter(static_site_url, path_to_root),
                ),
            ),
        ),
    decreases s.len() - from,
{
    let f = links::anchor_rewriter(static_site_url, path_to_root);
    if exists|a: links::Anchor| links::is_first_anchor(s, from, a) {
        let a = choose|a: links::Anchor| links::is_first_anchor(s, from, a);
        let here = s.subrange(from, a.start) + rewritten_anchor(
            s,
            a,
            static_site_url,
            path_to_root,
        );
        let after = links::replace_anchors(s, a.close + 1, f);
        links_lack_quotes(s, a);
        rewriting_an_anchor_ends_no_script(before, s, from, a, static_site_url, path_to_root);
        rewriting_rest_ends_no_script(before + here, s, a.close + 1, static_site_url, path_to_root);
        assert(links::replace_anchors(s, from, f) == here + after);
        assert(before + (here + after) == (before + here) + after);
    }
}

/// Where a script ends, it does so as well with slashes for backslashes.
proof fn script_ends_with_slashes(s: Seq<char>)
    requires
        ends_no_script(links::with_slashes(s)),
    ensures
        ends_no_script(s),
{
    let end = html::SCRIPT_END@;
    let slashed = links::with_slashes(s);
    reveal_strlit("</script>");
    assert forall|i: int| !#[trigger] text::has_at(s, i, end) by {
        if text::has_at(s, i, end) {
            let found = s.subrange(i, i + 9);
            assert forall|k: int| i <= k < i + 9 implies slashed[k + 0] == #[trigger] s[k] by {
                assert(found[k - i] == s[k]);
            }
            word_stands_again(s, i, slashed, 0, end);
        }
    }
}

/// Rewriting the links of a page that ends no script, not even with slashes
/// for backslashes, gives one that ends none, where the address of the site
/// holds no `<`.
pub proof fn rewriting_ends_no_script(
    s: Seq<char>,
    static_site_url: Seq<char>,
    path_to_root: Seq<char>,
)
    requires
        !static_site_url.contains('<'),
        ends_no_script(links::with_slashes(s)),
    ensures
        ends_no_script(s),
        ends_no_script(
            links::replace_anchors(s, 0, links::anchor_rewriter(static_site_url, path_to_root)),
        ),
{
    let none = Seq::<char>::empty();
    let once = links::replace_anchors(s, 0, links::anchor_rewriter(static_site_url, path_to_root));
    assert(none + s.skip(0) == s);
    rewriting_rest_ends_no_script(none, s, 0, static_site_url, path_to_root);
    assert(none + once == once);
    script_ends_with_slashes(s);
    script_ends_with_slashes(once);
}

} // verus!
