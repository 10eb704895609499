//! When a link leads out of the book, read off its text from left to right.

use vstd::prelude::*;

use crate::link_laws;
use crate::links;
use crate::text;

verus! {

/// How far the components lead down, the first one counted apart.
proof fn descent_of_first(first: Seq<char>, rest: Seq<Seq<char>>)
    ensures
        links::total_descent(seq![first] + rest) == links::descent(first) + links::total_descent(
            rest,
        ),
    decreases rest.len(),
{
    let all = seq![first] + rest;
    if rest.len() == 0 {
        assert(all.drop_last() == Seq::<Seq<char>>::empty());
        assert(all.last() == first);
        assert(links::total_descent(all.drop_last()) == 0);
    } else {
        descent_of_first(first, rest.drop_last());
        assert(all.drop_last() == seq![first] + rest.drop_last());
        assert(all.last() == rest.last());
    }
}

/// How many components are `..`, the first one counted apart.
proof fn count_of_first(first: Seq<char>, rest: Seq<Seq<char>>)
    ensures
        links::count_dot_dot(seq![first] + rest) == links::count_dot_dot(rest) + if first
            == text::dot_dot() {
            1int
        } else {
            0int
        },
    decreases rest.len(),
{
    let all = seq![first] + rest;
    if rest.len() == 0 {
        assert(all.drop_last() == Seq::<Seq<char>>::empty());
        assert(all.last() == first);
        assert(links::count_dot_dot(all.drop_last()) == 0);
    } else {
        count_of_first(first, rest.drop_last());
        assert(all.drop_last() == seq![first] + rest.drop_last());
        assert(all.last() == rest.last());
    }
}

/// A page lies as deep as its path to the root has steps up, and no less deep
/// than at the root: `..` before a slash is one step, any other name none.
pub proof fn depth_counts_steps_up(first: Seq<char>, rest: Seq<char>)
    requires
        !first.contains('/'),
    ensures
        links::page_depth(first + seq!['/'] + rest) == links::page_depth(rest) + if first
            == seq!['.', '.'] {
            1int
        } else {
            0int
        },
        links::page_depth(first) == if first == seq!['.', '.'] {
            1int
        } else {
            0int
        },
        links::page_depth(rest) >= 0,
{
    assert(first + seq!['/'] + rest == first.push('/') + rest);
    text::split_at_separator(first, rest, '/');
    text::split_without_separator(first, '/');
    count_of_first(first, text::split(rest, '/'));
    let none = Seq::<Seq<char>>::empty();
    count_of_first(first, none);
    assert(seq![first] + none == seq![first]);
    assert(links::count_dot_dot(none) == 0);
    link_laws::descent_is_bounded(text::split(rest, '/'));
}

/// The path of a link goes up to its first `?` or `#`.
proof fn path_of_link(link: Seq<char>) -> (n: int)
    ensures
        n == links::path_len(link),
        0 <= n <= link.len(),
        forall|k: int| 0 <= k < n ==> link[k] != '?' && link[k] != '#',
        n == link.len() || link[n] == '?' || link[n] == '#',
    decreases link.len(),
{
    if link.len() == 0 || link[0] == '?' || link[0] == '#' {
        0
    } else {
        let n = path_of_link(link.skip(1)) + 1;
        assert forall|k: int| 0 <= k < n implies link[k] != '?' && link[k] != '#' by {
            if k > 0 {
                assert(link.skip(1)[k - 1] == link[k]);
            }
        }
        assert(n == link.len() || link.skip(1)[n - 1] == link[n]);
        n
    }
}

/// What stands behind the first `?` or `#` of a link does not matter to
/// whether it leads out of the book.
pub proof fn queries_and_fragments_do_not_matter(
    path: Seq<char>,
    mark: char,
    rest: Seq<char>,
    path_to_root: Seq<char>,
)
    requires
        mark == '?' || mark == '#',
    ensures
        links::escapes_root(path + seq![mark] + rest, path_to_root) == links::escapes_root(
            path,
            path_to_root,
        ),
{
    let link = path + seq![mark] + rest;
    let n = path_of_link(path);
    assert forall|k: int| 0 <= k < n implies link[k] != '?' && link[k] != '#' by {
        assert(link[k] == path[k]);
    }
    assert(link[path.len() as int] == mark);
    if n < path.len() {
        assert(link[n] == path[n]);
    }
    links::path_len_is_first(link, n);
    assert(link.take(n) == path.take(n));
    assert(links::link_components(link) == links::link_components(path));
    assert forall|k: int|
        links::is_above_root_after(link, path_to_root, k) == links::is_above_root_after(
            path,
            path_to_root,
            k,
        ) by {}
    if links::escapes_root(link, path_to_root) {
        let k = choose|k: int| links::is_above_root_after(link, path_to_root, k);
        assert(links::is_above_root_after(path, path_to_root, k));
    }
    if links::escapes_root(path, path_to_root) {
        let k = choose|k: int| links::is_above_root_after(path, path_to_root, k);
        assert(links::is_above_root_after(link, path_to_root, k));
    }
}

/// The components of a link, the first one apart.
proof fn first_component(first: Seq<char>, rest: Seq<char>)
    requires
        !first.contains('/'),
        !first.contains('?'),
        !first.contains('#'),
    ensures
        links::link_components(first + seq!['/'] + rest) == seq![first] + links::link_components(
            rest,
        ),
        links::link_components(first) == seq![first],
{
    let link = first + seq!['/'] + rest;
    let n = path_of_link(rest);
    let m = first.len() + 1 + n;
    assert forall|k: int| 0 <= k < m implies link[k] != '?' && link[k] != '#' by {
        if k < first.len() {
            assert(first.contains(first[k]));
        } else if k > first.len() {
            assert(link[k] == rest[k - first.len() - 1]);
        }
    }
    if m < link.len() {
        assert(link[m] == rest[n]);
    }
    links::path_len_is_first(link, m);
    assert(link.take(m) == first.push('/') + rest.take(n));
    text::split_at_separator(first, rest.take(n), '/');
    text::split_without_separator(first, '/');
    assert forall|k: int| 0 <= k < first.len() implies first[k] != '?' && first[k] != '#' by {
        assert(first.contains(first[k]));
    }
    links::path_len_is_first(first, first.len() as int);
    assert(first.take(first.len() as int) == first);
}

/// A link behind a first component climbs above the root where its rest does,
/// seen from where the first component leads.
proof fn escaping_behind_first(first: Seq<char>, rest: Seq<char>, here: Seq<char>, there: Seq<char>)
    requires
        !first.contains('/'),
        !first.contains('?'),
        !first.contains('#'),
        links::page_depth(there) == links::page_depth(here) + links::descent(first),
    ensures
        links::escapes_root(first + seq!['/'] + rest, here) == links::escapes_root(rest, there),
{
    let link = first + seq!['/'] + rest;
    let tail = links::link_components(rest);
    let all = links::link_components(link);
    first_component(first, rest);
    link_laws::descent_is_bounded(text::split(here, '/'));
    link_laws::descent_is_bounded(text::split(there, '/'));
    if links::escapes_root(link, here) {
        let n = choose|n: int| links::is_above_root_after(link, here, n);
        if n == 0 {
            assert(all.take(0) == Seq::<Seq<char>>::empty());
        } else {
            assert(all.take(n) == seq![first] + tail.take(n - 1));
            descent_of_first(first, tail.take(n - 1));
            assert(links::is_above_root_after(rest, there, n - 1));
        }
    }
    if links::escapes_root(rest, there) {
        let n = choose|n: int| links::is_above_root_after(rest, there, n);
        assert(all.take(n + 1) == seq![first] + tail.take(n));
        descent_of_first(first, tail.take(n));
        assert(links::is_above_root_after(link, here, n + 1));
    }
}

/// A link that starts with a step up leads out of the book from a page at the
/// root; from a deeper page it does so where its rest does, seen from one level
/// higher.
pub proof fn steps_up_lead_to_the_level_above(
    rest: Seq<char>,
    path_to_root: Seq<char>,
    above: Seq<char>,
)
    ensures
        links::page_depth(path_to_root) == 0 ==> links::escapes_root(
            seq!['.', '.', '/'] + rest,
            path_to_root,
        ),
        links::page_depth(path_to_root) == links::page_depth(above) + 1 ==> (links::escapes_root(
            seq!['.', '.', '/'] + rest,
            path_to_root,
        ) <==> links::escapes_root(rest, above)),
{
    let first = seq!['.', '.'];
    let link = seq!['.', '.', '/'] + rest;
    assert(first + seq!['/'] + rest == link);
    assert(first == text::dot_dot());
    assert(first.len() == 2 && text::dot().len() == 1);
    assert(links::descent(first) == -1);
    first_component(first, rest);
    if links::page_depth(path_to_root) == 0 {
        let one = links::link_components(link).take(1);
        let none = Seq::<Seq<char>>::empty();
        assert(one == seq![first] + none);
        descent_of_first(first, none);
        assert(links::is_above_root_after(link, path_to_root, 1));
    }
    if links::page_depth(path_to_root) == links::page_depth(above) + 1 {
        escaping_behind_first(first, rest, path_to_root, above);
    }
}

/// A link that starts with a name leads out of the book where its rest does,
/// seen from one level deeper; nothing and `.` before a slash lead nowhere.
pub proof fn names_lead_one_level_down(
    first: Seq<char>,
    rest: Seq<char>,
    path_to_root: Seq<char>,
    below: Seq<char>,
)
    requires
        !first.contains('/'),
        !first.contains('?'),
        !first.contains('#'),
        first != seq!['.', '.'],
    ensures
        first.len() == 0 || first == seq!['.'] ==> (links::escapes_root(
            first + seq!['/'] + rest,
            path_to_root,
        ) <==> links::escapes_root(rest, path_to_root)),
        first.len() > 0 && first != seq!['.'] && links::page_depth(below) == links::page_depth(
            path_to_root,
        ) + 1 ==> (links::escapes_root(first + seq!['/'] + rest, path_to_root)
            <==> links::escapes_root(rest, below)),
{
    assert(seq!['.'] == text::dot());
    assert(seq!['.', '.'] == text::dot_dot());
    if first.len() == 0 || first == seq!['.'] {
        escaping_behind_first(first, rest, path_to_root, path_to_root);
    } else if links::page_depth(below) == links::page_depth(path_to_root) + 1 {
        escaping_behind_first(first, rest, path_to_root, below);
    }
}

/// A link without slashes leads out of the book just when it is `..` on a page
/// at the root.
pub proof fn single_names_stay_in_the_book(name: Seq<char>, path_to_root: Seq<char>)
    requires
        !name.contains('/'),
        !name.contains('?'),
        !name.contains('#'),
    ensures
        links::escapes_root(name, path_to_root) <==> name == seq!['.', '.'] && links::page_depth(
            path_to_root,
        ) == 0,
{
    let none = Seq::<Seq<char>>::empty();
    let all = links::link_components(name);
    assert(seq!['.', '.'] == text::dot_dot());
    assert(text::dot_dot().len() == 2 && text::dot().len() == 1);
    first_component(name, name);
    link_laws::descent_is_bounded(text::split(path_to_root, '/'));
    descent_of_first(name, none);
    assert(seq![name] + none == all);
    assert(all.take(1) == all);
    assert(all.take(0) == none);
    if links::escapes_root(name, path_to_root) {
        let n = choose|n: int| links::is_above_root_after(name, path_to_root, n);
        assert(n == 0 || n == 1);
    }
    if name == seq!['.', '.'] && links::page_depth(path_to_root) == 0 {
        assert(links::is_above_root_after(name, path_to_root, 1));
    }
}

/// Whether a link names a scheme shows at its first colon: before it stands a
/// lower-case letter, and then nothing but lower-case letters, digits, `+`, `.`
/// and `-`. A link without a colon names none.
pub proof fn schemes_end_at_the_first_colon(word: Seq<char>, rest: Seq<char>)
    requires
        !word.contains(':'),
    ensures
        !links::has_scheme(word),
        links::has_scheme(word + seq![':'] + rest) <==> word.len() > 0 && 97 <= word[0] as int
            <= 122 && forall|k: int|
            0 < k < word.len() ==> 97 <= #[trigger] word[k] as int <= 122 || 48 <= word[k] as int
                <= 57 || word[k] == '+' || word[k] == '.' || word[k] == '-',
{
    let link = word + seq![':'] + rest;
    if links::has_scheme(word) {
        let n = choose|n: int| links::is_scheme_end(word, n);
        assert(word.contains(word[n]));
    }
    assert(link[word.len() as int] == ':');
    if links::has_scheme(link) {
        let n = choose|n: int| links::is_scheme_end(link, n);
        if n < word.len() {
            assert(link[n] == word[n]);
            assert(word.contains(word[n]));
        }
        if n > word.len() {
            assert(!links::is_scheme_char(':'));
            assert(links::is_scheme_char(link[word.len() as int])) by {
                if word.len() == 0 {
                    assert(link[0] == ':');
                }
            }
        }
        assert(n == word.len());
        assert forall|k: int| 0 < k < word.len() implies 97 <= #[trigger] word[k] as int <= 122
            || 48 <= word[k] as int <= 57 || word[k] == '+' || word[k] == '.' || word[k] == '-' by {
            assert(links::is_scheme_char(link[k]));
        }
        assert(link[0] == word[0]);
    }
    if word.len() > 0 && 97 <= word[0] as int <= 122 && (forall|k: int|
        0 < k < word.len() ==> 97 <= #[trigger] word[k] as int <= 122 || 48 <= word[k] as int <= 57
            || word[k] == '+' || word[k] == '.' || word[k] == '-') {
        assert forall|k: int| 1 <= k < word.len() implies links::is_scheme_char(
            #[trigger] link[k],
        ) by {
            assert(link[k] == word[k]);
        }
        assert(links::is_scheme_end(link, word.len() as int));
    }
}

} // verus!
