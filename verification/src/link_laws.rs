//! What holds of the links of any page.

use vstd::prelude::*;

use crate::links;
use crate::text;

verus! {

/// There is one first anchor at most.
proof fn first_anchor_is_unique(s: Seq<char>, from: int, a: links::Anchor, b: links::Anchor)
    requires
        links::is_first_anchor(s, from, a),
        links::is_first_anchor(s, from, b),
    ensures
        a == b,
{
    assert(a.start == b.start && a.link == b.link);
    if a.close < b.close {
        assert(s[a.close] != '"');
    }
    if b.close < a.close {
        assert(s[b.close] != '"');
    }
}

/// Whether an anchor stands at the given start.
spec fn has_anchor_from(s: Seq<char>, start: int) -> bool {
    exists|a: links::Anchor| a.start == start && #[trigger] links::is_anchor_at(s, a)
}

/// Whether an anchor stands at the given start, with its link at `link`.
spec fn has_anchor_with(s: Seq<char>, start: int, link: int) -> bool {
    exists|a: links::Anchor|
        a.start == start && a.link == link && #[trigger] links::is_anchor_at(s, a)
}

/// Of the anchors with a given start, one has the first link.
proof fn first_link_exists(s: Seq<char>, a: links::Anchor, tried: int) -> (res: links::Anchor)
    requires
        links::is_anchor_at(s, a),
        a.start <= tried <= a.link,
        forall|k: int| k < tried ==> !#[trigger] has_anchor_with(s, a.start, k),
    ensures
        links::is_anchor_at(s, res),
        res.start == a.start,
        forall|k: int| k < res.link ==> !#[trigger] has_anchor_with(s, a.start, k),
    decreases a.link - tried,
{
    if has_anchor_with(s, a.start, tried) {
        choose|b: links::Anchor|
            b.start == a.start && b.link == tried && #[trigger] links::is_anchor_at(s, b)
    } else if tried == a.link {
        a
    } else {
        first_link_exists(s, a, tried + 1)
    }
}

/// Of the anchors that do not start before `from`, one starts first.
proof fn first_start_exists(s: Seq<char>, from: int, a: links::Anchor) -> (res: links::Anchor)
    requires
        links::is_anchor_at(s, a),
        from <= a.start,
    ensures
        links::is_anchor_at(s, res),
        from <= res.start,
        forall|k: int| from <= k < res.start ==> !#[trigger] has_anchor_from(s, k),
    decreases a.start - from,
{
    if has_anchor_from(s, from) {
        choose|b: links::Anchor| b.start == from && #[trigger] links::is_anchor_at(s, b)
    } else {
        let rest = if a.start == from {
            a
        } else {
            first_start_exists(s, from + 1, a)
        };
        rest
    }
}

/// No anchor is passed over: where there is one, there is a first one.
pub proof fn first_anchor_exists(s: Seq<char>, from: int, a: links::Anchor)
    requires
        links::is_anchor_at(s, a),
        from <= a.start,
    ensures
        exists|first: links::Anchor| links::is_first_anchor(s, from, first),
{
    let earliest = first_start_exists(s, from, a);
    assert forall|k: int| k < earliest.start implies !#[trigger] has_anchor_with(
        s,
        earliest.start,
        k,
    ) by {}
    let first = first_link_exists(s, earliest, earliest.start);
    assert forall|other: links::Anchor| #[trigger]
        links::is_anchor_at(s, other) && from <= other.start implies first.start < other.start || (
    first.start == other.start && first.link <= other.link) by {
        if other.start < first.start {
            assert(has_anchor_from(s, other.start));
        } else if other.start == first.start && other.link < first.link {
            assert(has_anchor_with(s, first.start, other.link));
        }
    }
    assert(links::is_first_anchor(s, from, first));
}

/// A page is rewritten anchor by anchor: the text before the first anchor
/// stays, the anchor is replaced, and then it is the turn of the rest.
pub proof fn rewriting_goes_from_anchor_to_anchor(
    s: Seq<char>,
    from: int,
    a: links::Anchor,
    f: spec_fn(Seq<char>, Seq<char>) -> Seq<char>,
)
    requires
        links::is_first_anchor(s, from, a),
    ensures
        links::replace_anchors(s, from, f) == s.subrange(from, a.start) + f(
            s.subrange(a.start, a.link),
            s.subrange(a.link, a.close),
        ) + links::replace_anchors(s, a.close + 1, f),
{
    let b = choose|b: links::Anchor| links::is_first_anchor(s, from, b);
    first_anchor_is_unique(s, from, a, b);
}

/// A page stays as it is where each anchor would be replaced by itself.
proof fn replacing_anchors_by_themselves(
    s: Seq<char>,
    from: int,
    f: spec_fn(Seq<char>, Seq<char>) -> Seq<char>,
)
    requires
        0 <= from <= s.len(),
        forall|a: links::Anchor| #[trigger]
            links::is_anchor_at(s, a) ==> f(
                s.subrange(a.start, a.link),
                s.subrange(a.link, a.close),
            ) == s.subrange(a.start, a.close + 1),
    ensures
        links::replace_anchors(s, from, f) == s.skip(from),
    decreases s.len() - from,
{
    if exists|a: links::Anchor| links::is_first_anchor(s, from, a) {
        let a = choose|a: links::Anchor| links::is_first_anchor(s, from, a);
        replacing_anchors_by_themselves(s, a.close + 1, f);
        assert(s.subrange(from, a.start) + s.subrange(a.start, a.close + 1) + s.skip(a.close + 1)
            == s.skip(from));
    }
}

/// A page none of whose links leaves the book stays as it is.
pub proof fn page_without_outside_links_stays(
    s: Seq<char>,
    static_site_url: Seq<char>,
    path_to_root: Seq<char>,
)
    requires
        forall|a: links::Anchor| #[trigger]
            links::is_anchor_at(s, a) ==> !links::leaves_book(
                links::with_slashes(s.subrange(a.link, a.close)),
                path_to_root,
            ),
    ensures
        links::replace_anchors(s, 0, links::anchor_rewriter(static_site_url, path_to_root)) == s,
{
    let f = links::anchor_rewriter(static_site_url, path_to_root);
    assert forall|a: links::Anchor| #[trigger] links::is_anchor_at(s, a) implies f(
        s.subrange(a.start, a.link),
        s.subrange(a.link, a.close),
    ) == s.subrange(a.start, a.close + 1) by {
        assert((s.subrange(a.start, a.link) + s.subrange(a.link, a.close)).push('"') == s.subrange(
            a.start,
            a.close + 1,
        ));
    }
    replacing_anchors_by_themselves(s, 0, f);
    assert(s.skip(0) == s);
}

/// Turning backslashes into slashes does not touch a scheme.
proof fn slashes_keep_scheme(link: Seq<char>)
    requires
        links::has_scheme(link),
    ensures
        links::has_scheme(links::with_slashes(link)),
{
    let n = choose|n: int| #[trigger] links::is_scheme_end(link, n);
    let slashed = links::with_slashes(link);
    assert forall|k: int| 1 <= k < n implies links::is_scheme_char(#[trigger] slashed[k]) by {
        assert(links::is_scheme_char(link[k]));
    }
    assert(links::is_scheme_end(slashed, n));
}

/// A link to a place on the same page stays as it is.
pub proof fn fragment_links_stay(
    link: Seq<char>,
    static_site_url: Seq<char>,
    path_to_root: Seq<char>,
)
    requires
        link.len() > 0,
        link[0] == '#',
    ensures
        links::rewritten_link(link, static_site_url, path_to_root) == link,
{
    assert(links::with_slashes(link)[0] == '#');
}

/// A link that names a scheme stays as it is.
pub proof fn links_with_scheme_stay(
    link: Seq<char>,
    static_site_url: Seq<char>,
    path_to_root: Seq<char>,
)
    requires
        links::has_scheme(link),
    ensures
        links::rewritten_link(link, static_site_url, path_to_root) == link,
{
    slashes_keep_scheme(link);
}

/// Components lead up as often as there are `..` among them, at most.
pub(crate) proof fn descent_is_bounded(components: Seq<Seq<char>>)
    ensures
        links::total_descent(components) >= -links::count_dot_dot(components),
        links::count_dot_dot(components) >= 0,
    decreases components.len(),
{
    if components.len() > 0 {
        descent_is_bounded(components.drop_last());
    }
}

/// The first components hold no more `..` than all of them.
proof fn count_grows(components: Seq<Seq<char>>, n: int)
    requires
        0 <= n <= components.len(),
    ensures
        links::count_dot_dot(components.take(n)) <= links::count_dot_dot(components),
    decreases components.len() - n,
{
    if n < components.len() {
        count_grows(components, n + 1);
        assert(components.take(n + 1).drop_last() == components.take(n));
    } else {
        assert(components.take(n) == components);
    }
}

/// A link with no more `..` than its page has levels to climb stays within the
/// book, and so stays as it is.
pub proof fn links_within_the_book_stay(
    link: Seq<char>,
    static_site_url: Seq<char>,
    path_to_root: Seq<char>,
)
    requires
        links::count_dot_dot(links::link_components(links::with_slashes(link)))
            <= links::page_depth(path_to_root),
    ensures
        !links::escapes_root(links::with_slashes(link), path_to_root),
        links::rewritten_link(link, static_site_url, path_to_root) == link,
{
    let slashed = links::with_slashes(link);
    let components = links::link_components(slashed);
    assert forall|n: int| !#[trigger] links::is_above_root_after(slashed, path_to_root, n) by {
        if 0 <= n <= components.len() {
            descent_is_bounded(components.take(n));
            count_grows(components, n);
        }
    }
}

/// Components all of which are `..` lead up one level each.
proof fn climbing(components: Seq<Seq<char>>)
    requires
        forall|i: int| 0 <= i < components.len() ==> #[trigger] components[i] == text::dot_dot(),
    ensures
        links::total_descent(components) == -components.len(),
    decreases components.len(),
{
    if components.len() > 0 {
        let front = components.drop_last();
        assert forall|i: int| 0 <= i < front.len() implies #[trigger] front[i]
            == text::dot_dot() by {
            assert(front[i] == components[i]);
        }
        climbing(front);
        assert(components.last() == text::dot_dot());
        assert(text::dot_dot().len() == 2 && text::dot().len() == 1);
    }
}

/// A link that starts with more `..` than its page has levels to climb leads
/// above the root of the book, wherever it goes from there.
pub proof fn links_that_climb_too_far_escape(link: Seq<char>, path_to_root: Seq<char>, n: int)
    requires
        links::page_depth(path_to_root) < n <= links::link_components(link).len(),
        0 <= n,
        forall|i: int|
            0 <= i < n ==> #[trigger] links::link_components(link)[i] == text::dot_dot(),
    ensures
        links::escapes_root(link, path_to_root),
{
    let first = links::link_components(link).take(n);
    assert forall|i: int| 0 <= i < first.len() implies #[trigger] first[i] == text::dot_dot() by {
        assert(first[i] == links::link_components(link)[i]);
    }
    climbing(first);
    assert(links::is_above_root_after(link, path_to_root, n));
}

/// What climbs above the root from a page does so from any page that lies no
/// deeper.
pub proof fn deeper_pages_escape_less(
    link: Seq<char>,
    path_to_root: Seq<char>,
    shallower: Seq<char>,
)
    requires
        links::page_depth(shallower) <= links::page_depth(path_to_root),
        links::escapes_root(link, path_to_root),
    ensures
        links::escapes_root(link, shallower),
{
    let n = choose|n: int| #[trigger] links::is_above_root_after(link, path_to_root, n);
    assert(links::is_above_root_after(link, shallower, n));
}

/// Where the address of the site names a scheme, rewriting a link a second
/// time changes nothing.
pub proof fn rewriting_a_link_is_idempotent(
    link: Seq<char>,
    static_site_url: Seq<char>,
    path_to_root: Seq<char>,
)
    requires
        links::has_scheme(static_site_url),
    ensures
        links::rewritten_link(
            links::rewritten_link(link, static_site_url, path_to_root),
            static_site_url,
            path_to_root,
        ) == links::rewritten_link(link, static_site_url, path_to_root),
{
    let once = links::rewritten_link(link, static_site_url, path_to_root);
    if links::leaves_book(links::with_slashes(link), path_to_root) {
        let n = choose|n: int| #[trigger] links::is_scheme_end(static_site_url, n);
        assert forall|k: int| 0 <= k <= n implies once[k] == static_site_url[k] by {}
        assert forall|k: int| 1 <= k < n implies links::is_scheme_char(#[trigger] once[k]) by {
            assert(links::is_scheme_char(static_site_url[k]));
        }
        assert(links::is_scheme_end(once, n));
        links_with_scheme_stay(once, static_site_url, path_to_root);
    }
}

/// There is one first declaration at most.
proof fn first_declaration_is_unique(
    s: Seq<char>,
    d: links::RootDeclaration,
    e: links::RootDeclaration,
)
    requires
        links::is_first_declaration(s, d),
        links::is_first_declaration(s, e),
    ensures
        d == e,
{
    reveal_strlit("const");
    reveal_strlit("path_to_root");
    let word = "path_to_root"@;
    assert(s.subrange(d.name, d.name + word.len())[0] == s[d.name]);
    assert(s.subrange(e.name, e.name + word.len())[0] == s[e.name]);
    assert(s[d.name] == 'p' && s[e.name] == 'p');
    assert(!links::is_space('p') && !links::is_space('=') && !links::is_space('"'));
    if d.name < e.name {
        assert(links::is_space(s[d.name]));
    } else if e.name < d.name {
        assert(links::is_space(s[e.name]));
    }
    if d.equals < e.equals {
        assert(links::is_space(s[d.equals]));
    } else if e.equals < d.equals {
        assert(links::is_space(s[e.equals]));
    }
    if d.open < e.open {
        assert(links::is_space(s[d.open]));
    } else if e.open < d.open {
        assert(links::is_space(s[e.open]));
    }
    if d.close < e.close {
        assert(s[d.close] != '"');
    } else if e.close < d.close {
        assert(s[e.close] != '"');
    }
}

/// Whether a declaration of the path to the root starts at the given position.
spec fn has_declaration_from(s: Seq<char>, start: int) -> bool {
    exists|d: links::RootDeclaration| d.start == start && #[trigger] links::declares_root_at(s, d)
}

/// Of the declarations that do not start before `from`, one starts first.
proof fn first_declaration_from(
    s: Seq<char>,
    from: int,
    d: links::RootDeclaration,
) -> (res: links::RootDeclaration)
    requires
        links::declares_root_at(s, d),
        from <= d.start,
        forall|k: int| k < from ==> !#[trigger] has_declaration_from(s, k),
    ensures
        links::is_first_declaration(s, res),
    decreases d.start - from,
{
    if has_declaration_from(s, from) || d.start == from {
        let first = if d.start == from {
            d
        } else {
            choose|e: links::RootDeclaration|
                e.start == from && #[trigger] links::declares_root_at(s, e)
        };
        assert forall|other: links::RootDeclaration| #[trigger]
            links::declares_root_at(s, other) implies first.start <= other.start by {
            assert(has_declaration_from(s, other.start));
        }
        first
    } else {
        first_declaration_from(s, from + 1, d)
    }
}

/// A page that declares its path to the root has the one that it declares
/// first.
pub proof fn first_declaration_counts(s: Seq<char>, d: links::RootDeclaration)
    requires
        links::declares_root_at(s, d),
    ensures
        links::declared_root(s) is Some,
        links::is_first_declaration(s, d) ==> links::declared_root(s) == Some(
            s.subrange(d.open + 1, d.close),
        ),
{
    assert forall|k: int| k < 0 implies !#[trigger] has_declaration_from(s, k) by {}
    let first = first_declaration_from(s, 0, d);
    let chosen = choose|e: links::RootDeclaration| links::is_first_declaration(s, e);
    assert(links::is_first_declaration(s, first));
    if links::is_first_declaration(s, d) {
        first_declaration_is_unique(s, d, chosen);
    }
}

} // verus!
