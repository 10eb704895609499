//! Links of a rendered page: which of them leave the book, and where those
//! are pointed instead.

use vstd::prelude::*;

use crate::text;
use crate::text::{chars_of, push_all, same, split_text, text_of};

verus! {

/// A link that names a scheme, such as `https:`.
pub const SCHEME_LINK: &'static str = r"^[a-z][a-z0-9+.-]*:";

/// The `href` of an anchor: what stands before the link, and the link.
pub const A_LINK: &'static str = r#"(<a [^>]*?href=")([^"]+?)""#;

/// The declaration by which a page says how to reach the root of its book.
pub const PATH_TO_ROOT: &'static str = r#"const\s+path_to_root\s*=\s*\"([^\"]*)\""#;

/// A compiled regular expression.
#[verifier::external_type_specification]
#[verifier::external_body]
pub struct ExRegex(regex::Regex);

/// Why a pattern does not compile.
#[verifier::external_type_specification]
#[verifier::external_body]
pub struct ExRegexError(regex::Error);

/// The pattern that a regular expression was compiled from, as
/// `regex::Regex::as_str` gives it. The regular expressions of this module are
/// made by [`compile`], which says their patterns, and by nothing else.
pub uninterp spec fn pattern_of(re: regex::Regex) -> Seq<char>;

/// `regex::Regex::new` compiles a pattern. The patterns of this module are
/// valid, so they compile; the regular expression keeps its pattern.
#[verifier::external_body]
fn compile(pattern: &str) -> (res: Result<regex::Regex, regex::Error>)
    ensures
        pattern@ == SCHEME_LINK@ || pattern@ == A_LINK@ || pattern@ == PATH_TO_ROOT@ ==> res is Ok,
        res matches Ok(re) ==> pattern_of(re) == pattern@,
{
    regex::Regex::new(pattern)
}

/// Whether the character may follow the first character of a scheme.
pub open spec fn is_scheme_char(c: char) -> bool {
    'a' <= c <= 'z' || '0' <= c <= '9' || c == '+' || c == '.' || c == '-'
}

/// Whether the link starts with a scheme: a lower-case letter, any number of
/// lower-case letters, digits, `+`, `.` and `-`, and a colon.
pub open spec fn has_scheme(link: Seq<char>) -> bool {
    exists|n: int| #[trigger] is_scheme_end(link, n)
}

/// Whether the colon at position `n` of the link ends a scheme.
pub open spec fn is_scheme_end(link: Seq<char>, n: int) -> bool {
    &&& 1 <= n < link.len()
    &&& link[n] == ':'
    &&& 'a' <= link[0] <= 'z'
    &&& forall|k: int| 1 <= k < n ==> is_scheme_char(#[trigger] link[k])
}

/// `regex::Regex::is_match`, on the pattern [`SCHEME_LINK`], finds out whether
/// the text starts with a scheme.
#[verifier::external_body]
fn is_match(re: &regex::Regex, text: &str) -> (res: bool)
    requires
        pattern_of(*re) == SCHEME_LINK@,
    ensures
        res == has_scheme(text@),
{
    re.is_match(text)
}

/// The characters with the Unicode property `White_Space`.
pub open spec fn is_space(c: char) -> bool {
    ||| '\t' <= c <= '\r'
    ||| c == ' '
    ||| c == '\u{85}'
    ||| c == '\u{a0}'
    ||| c == '\u{1680}'
    ||| '\u{2000}' <= c <= '\u{200a}'
    ||| c == '\u{2028}'
    ||| c == '\u{2029}'
    ||| c == '\u{202f}'
    ||| c == '\u{205f}'
    ||| c == '\u{3000}'
}

/// Whether `s` holds nothing but white space from `from` up to `to`.
pub open spec fn is_blank(s: Seq<char>, from: int, to: int) -> bool {
    forall|k: int| from <= k < to ==> is_space(#[trigger] s[k])
}

/// Whether `s` does not hold `c` from `from` up to `to`.
pub open spec fn lacks(s: Seq<char>, from: int, to: int, c: char) -> bool {
    forall|k: int| from <= k < to ==> #[trigger] s[k] != c
}

/// The positions of a declaration of the path to the root: where it starts,
/// and where its name, its `=` and its two quotes stand.
pub struct RootDeclaration {
    pub start: int,
    pub name: int,
    pub equals: int,
    pub open: int,
    pub close: int,
}

/// Whether a declaration stands in `s` at the given positions: `const`, white
/// space, `path_to_root`, `=`, and a text in quotes, with white space allowed
/// on both sides of the `=`.
pub open spec fn declares_root_at(s: Seq<char>, d: RootDeclaration) -> bool {
    &&& text::has_at(s, d.start, "const"@)
    &&& d.start + "const"@.len() < d.name
    &&& is_blank(s, d.start + "const"@.len(), d.name)
    &&& text::has_at(s, d.name, "path_to_root"@)
    &&& d.name + "path_to_root"@.len() <= d.equals < d.open < d.close < s.len()
    &&& is_blank(s, d.name + "path_to_root"@.len(), d.equals)
    &&& s[d.equals] == '='
    &&& is_blank(s, d.equals + 1, d.open)
    &&& s[d.open] == '"'
    &&& lacks(s, d.open + 1, d.close, '"')
    &&& s[d.close] == '"'
}

/// Whether the declaration at the given positions is the first one in `s`.
pub open spec fn is_first_declaration(s: Seq<char>, d: RootDeclaration) -> bool {
    &&& declares_root_at(s, d)
    &&& forall|other: RootDeclaration| #[trigger]
        declares_root_at(s, other) ==> d.start <= other.start
}

/// The path to the root that a page declares first, if it declares one.
pub open spec fn declared_root(s: Seq<char>) -> Option<Seq<char>> {
    if exists|d: RootDeclaration| is_first_declaration(s, d) {
        let d = choose|d: RootDeclaration| is_first_declaration(s, d);
        Some(s.subrange(d.open + 1, d.close))
    } else {
        None
    }
}

/// `regex::Regex::captures`, on the pattern [`PATH_TO_ROOT`], finds the first
/// declaration of the path to the root; the first group holds the path.
#[verifier::external_body]
fn first_capture(re: &regex::Regex, text: &str) -> (res: Option<String>)
    requires
        pattern_of(*re) == PATH_TO_ROOT@,
    ensures
        text::optional_text(res) == declared_root(text@),
{
    re.captures(text).and_then(|captures| captures.get(1)).map(|m| m.as_str().to_string())
}

/// The positions of an anchor's link: where the anchor starts, where the link
/// starts, and where the quote behind it stands.
pub struct Anchor {
    pub start: int,
    pub link: int,
    pub close: int,
}

/// Whether an anchor with a link stands in `s` at the given positions: `<a `,
/// anything but `>`, `href="`, a link that is not empty and holds no quote,
/// and a quote.
pub open spec fn is_anchor_at(s: Seq<char>, a: Anchor) -> bool {
    &&& text::has_at(s, a.start, "<a "@)
    &&& a.start + "<a "@.len() <= a.link - "href=\""@.len()
    &&& lacks(s, a.start + "<a "@.len(), a.link - "href=\""@.len(), '>')
    &&& text::has_at(s, a.link - "href=\""@.len(), "href=\""@)
    &&& a.link < a.close < s.len()
    &&& lacks(s, a.link, a.close, '"')
    &&& s[a.close] == '"'
}

/// Whether the anchor at the given positions is the first one in `s` that
/// does not start before `from`, with the first `href` of it that has a link.
pub open spec fn is_first_anchor(s: Seq<char>, from: int, a: Anchor) -> bool {
    &&& is_anchor_at(s, a)
    &&& from <= a.start
    &&& forall|other: Anchor| #[trigger]
        is_anchor_at(s, other) && from <= other.start ==> a.start < other.start || (a.start
            == other.start && a.link <= other.link)
}

/// `s` from position `from` on, with each anchor up to and with the quote
/// behind its link replaced by what `f` makes of its two parts: what stands
/// before the link, and the link.
pub open spec fn replace_anchors(
    s: Seq<char>,
    from: int,
    f: spec_fn(Seq<char>, Seq<char>) -> Seq<char>,
) -> Seq<char>
    decreases s.len() - from,
{
    if exists|a: Anchor| is_first_anchor(s, from, a) {
        let a = choose|a: Anchor| is_first_anchor(s, from, a);
        s.subrange(from, a.start) + f(s.subrange(a.start, a.link), s.subrange(a.link, a.close))
            + replace_anchors(s, a.close + 1, f)
    } else {
        s.skip(from)
    }
}

/// `regex::Regex::replace_all`, on the pattern [`A_LINK`], replaces each
/// anchor by what [`rewrite_anchor`] makes of its two groups, and keeps the
/// text between the anchors.
#[verifier::external_body]
fn replace_all(
    re: &regex::Regex,
    text: &str,
    static_site_url: &str,
    path_to_root: &str,
    scheme: &regex::Regex,
) -> (res: String)
    requires
        pattern_of(*re) == A_LINK@,
        pattern_of(*scheme) == SCHEME_LINK@,
    ensures
        res@ == replace_anchors(text@, 0, anchor_rewriter(static_site_url@, path_to_root@)),
{
    re.replace_all(
        text,
        |caps: &regex::Captures<'_>|
            rewrite_anchor(&caps[1], &caps[2], static_site_url, path_to_root, scheme),
    ).into_owned()
}

/// The number of characters of `s` before the first `?` or `#`.
pub open spec fn path_len(s: Seq<char>) -> int
    decreases s.len(),
{
    if s.len() == 0 || s[0] == '?' || s[0] == '#' {
        0
    } else {
        1 + path_len(s.skip(1))
    }
}

/// How far a component of a path leads down: a name one level, `..` one level
/// up, an empty component and `.` nowhere.
pub open spec fn descent(component: Seq<char>) -> int {
    if component.len() == 0 || component == text::dot() {
        0
    } else if component == text::dot_dot() {
        -1
    } else {
        1
    }
}

/// How far the components lead down in all.
pub open spec fn total_descent(components: Seq<Seq<char>>) -> int
    decreases components.len(),
{
    if components.len() == 0 {
        0
    } else {
        total_descent(components.drop_last()) + descent(components.last())
    }
}

/// How many levels below the root of its book a page lies: the number of
/// components `..` of its path to the root.
pub open spec fn page_depth(path_to_root: Seq<char>) -> int {
    count_dot_dot(text::split(path_to_root, '/'))
}

/// The number of components `..`.
pub open spec fn count_dot_dot(components: Seq<Seq<char>>) -> int
    decreases components.len(),
{
    if components.len() == 0 {
        0
    } else {
        count_dot_dot(components.drop_last()) + if components.last() == text::dot_dot() {
            1int
        } else {
            0int
        }
    }
}

/// The components of a link's path, which ends before a query or a fragment.
pub open spec fn link_components(link: Seq<char>) -> Seq<Seq<char>> {
    text::split(link.take(path_len(link)), '/')
}

/// Whether the link, followed component by component from a page, climbs
/// above the root of the book on its way.
pub open spec fn escapes_root(link: Seq<char>, path_to_root: Seq<char>) -> bool {
    exists|n: int| #[trigger] is_above_root_after(link, path_to_root, n)
}

/// Whether the first `n` components of the link end above the root.
pub open spec fn is_above_root_after(link: Seq<char>, path_to_root: Seq<char>, n: int) -> bool {
    &&& 0 <= n <= link_components(link).len()
    &&& page_depth(path_to_root) + total_descent(link_components(link).take(n)) < 0
}

/// The link with each `\` turned into `/`.
pub open spec fn with_slashes(link: Seq<char>) -> Seq<char> {
    link.map_values(
        |c: char|
            if c == '\\' {
                '/'
            } else {
                c
            },
    )
}

/// Whether a link, written with slashes, leads out of the book: it is no
/// fragment of the page, names no scheme and climbs above the root.
pub open spec fn leaves_book(link: Seq<char>, path_to_root: Seq<char>) -> bool {
    &&& !(link.len() > 0 && link[0] == '#')
    &&& !has_scheme(link)
    &&& escapes_root(link, path_to_root)
}

/// The address of the site, with a slash at its end.
pub open spec fn site_base(static_site_url: Seq<char>) -> Seq<char> {
    if static_site_url.len() > 0 && static_site_url.last() == '/' {
        static_site_url
    } else {
        static_site_url.push('/')
    }
}

/// The link that a page gets in place of the given one: a link out of the
/// book is looked up on the site, any other one stays as it is.
pub open spec fn rewritten_link(
    link: Seq<char>,
    static_site_url: Seq<char>,
    path_to_root: Seq<char>,
) -> Seq<char> {
    if leaves_book(with_slashes(link), path_to_root) {
        site_base(static_site_url) + with_slashes(link)
    } else {
        link
    }
}

/// What an anchor becomes: the same text before the link, the rewritten link,
/// and the quote.
pub open spec fn anchor_rewriter(
    static_site_url: Seq<char>,
    path_to_root: Seq<char>,
) -> spec_fn(Seq<char>, Seq<char>) -> Seq<char> {
    |before: Seq<char>, link: Seq<char>|
        (before + rewritten_link(link, static_site_url, path_to_root)).push('"')
}

/// The path to the root that a page declares, if it declares one.
pub fn html_path_to_root(contents: &str) -> (res: Option<String>)
    ensures
        text::optional_text(res) == declared_root(contents@),
{
    first_capture(&compile(PATH_TO_ROOT).unwrap(), contents)
}

pub proof fn path_len_is_first(s: Seq<char>, n: int)
    requires
        0 <= n <= s.len(),
        forall|k: int| 0 <= k < n ==> s[k] != '?' && s[k] != '#',
        n == s.len() || s[n] == '?' || s[n] == '#',
    ensures
        path_len(s) == n,
    decreases s.len(),
{
    if n > 0 {
        path_len_is_first(s.skip(1), n - 1);
    }
}

/// Whether the link, followed from a page with the given path to the root of
/// its book, climbs above that root.
pub fn link_escapes_book_root(link: &str, path_to_root: &str) -> (res: bool)
    ensures
        res == escapes_root(link@, path_to_root@),
{
    let dot = ['.'];
    let dot_dot = ['.', '.'];
    assert(dot@ == text::dot());
    assert(dot_dot@ == text::dot_dot());
    let root = split_text(&chars_of(path_to_root), '/');
    let ghost root_components = text::split(path_to_root@, '/');
    let mut depth: u128 = 0;
    for i in 0..root.len()
        invariant
            dot_dot@ == text::dot_dot(),
            text::texts(root@) == root_components,
            depth == count_dot_dot(root_components.take(i as int)),
            depth <= i,
    {
        assert(root_components.take(i + 1).drop_last() == root_components.take(i as int));
        assert(root_components[i as int] == root@[i as int]@);
        if same(&root[i], &dot_dot) {
            depth = depth + 1;
        }
    }
    assert(root_components.take(root@.len() as int) == root_components);

    let chars = chars_of(link);
    let mut end: usize = 0;
    while end < chars.len() && chars[end] != '?' && chars[end] != '#'
        invariant
            end <= chars@.len(),
            forall|k: int| 0 <= k < end ==> chars@[k] != '?' && chars@[k] != '#',
        decreases chars@.len() - end,
    {
        end = end + 1;
    }
    proof {
        path_len_is_first(link@, end as int);
    }
    let path = split_text(vstd::slice::slice_subrange(chars.as_slice(), 0, end), '/');
    let ghost components = link_components(link@);
    assert(link@.subrange(0, end as int) == link@.take(end as int));

    for i in 0..path.len()
        invariant
            dot@ == text::dot(),
            dot_dot@ == text::dot_dot(),
            text::texts(path@) == components,
            components == link_components(link@),
            depth == page_depth(path_to_root@) + total_descent(components.take(i as int)),
            depth <= usize::MAX + i,
            forall|n: int| 0 <= n <= i ==> !#[trigger] is_above_root_after(link@, path_to_root@, n),
    {
        assert(components.take(i + 1).drop_last() == components.take(i as int));
        assert(components[i as int] == path@[i as int]@);
        if path[i].len() == 0 || same(&path[i], &dot) {
        } else if same(&path[i], &dot_dot) {
            if depth == 0 {
                assert(is_above_root_after(link@, path_to_root@, i + 1));
                return true;
            }
            depth = depth - 1;
        } else {
            depth = depth + 1;
        }
    }
    false
}

/// Whether a link, written with slashes, leads out of the book.
fn is_outside_link(link: &str, path_to_root: &str, scheme: &regex::Regex) -> (res: bool)
    requires
        pattern_of(*scheme) == SCHEME_LINK@,
    ensures
        res == leaves_book(link@, path_to_root@),
{
    let chars = chars_of(link);
    !(chars.len() > 0 && chars[0] == '#') && !is_match(scheme, link) && link_escapes_book_root(
        link,
        path_to_root,
    )
}

/// What an anchor becomes, given the text before its link and the link.
fn rewrite_anchor(
    before: &str,
    link: &str,
    static_site_url: &str,
    path_to_root: &str,
    scheme: &regex::Regex,
) -> (res: String)
    requires
        pattern_of(*scheme) == SCHEME_LINK@,
    ensures
        res@ == anchor_rewriter(static_site_url@, path_to_root@)(before@, link@),
{
    let chars = chars_of(link);
    let mut slashed: Vec<char> = Vec::new();
    for i in 0..chars.len()
        invariant
            chars@ == link@,
            slashed@ == with_slashes(link@).take(i as int),
    {
        slashed.push(
            if chars[i] == '\\' {
                '/'
            } else {
                chars[i]
            },
        );
    }
    assert(slashed@ == with_slashes(link@));

    let mut res = chars_of(before);
    if is_outside_link(&text_of(&slashed), path_to_root, scheme) {
        let mut base = chars_of(static_site_url);
        if base.len() == 0 || base[base.len() - 1] != '/' {
            base.push('/');
        }
        push_all(&mut res, &base);
        push_all(&mut res, &slashed);
        assert(before@ + site_base(static_site_url@) + with_slashes(link@) == before@
            + rewritten_link(link@, static_site_url@, path_to_root@));
    } else {
        push_all(&mut res, &chars);
    }
    res.push('"');
    text_of(&res)
}

/// The page with each link out of the book pointed to the site; `path_to_root`
/// leads from the page to the root of its book.
pub fn rewrite_links(contents: &str, static_site_url: &str, path_to_root: &str) -> (res: String)
    ensures
        res@ == replace_anchors(contents@, 0, anchor_rewriter(static_site_url@, path_to_root@)),
{
    replace_all(
        &compile(A_LINK).unwrap(),
        contents,
        static_site_url,
        path_to_root,
        &compile(SCHEME_LINK).unwrap(),
    )
}

} // verus!
