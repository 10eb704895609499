//! Where things lie, read off the bytes of paths. A slash is 47, a dot is 46.

use vstd::prelude::*;

use crate::encoding_laws;
use crate::path_laws;
use crate::paths;
use crate::text;
use crate::unicode;

verus! {

/// Whether the bytes can stand between slashes.
pub open spec fn is_piece(name: Seq<u8>) -> bool {
    !name.contains(47u8)
}

/// Whether the bytes are a name: a piece that is neither empty nor `.`.
pub open spec fn is_name(name: Seq<u8>) -> bool {
    is_piece(name) && name.len() > 0 && name != seq![46u8]
}

/// Whether the path is not empty and ends neither with a slash nor with a dot
/// behind a slash.
pub open spec fn is_trim(path: Seq<u8>) -> bool {
    &&& path.len() > 0
    &&& path[path.len() - 1] != 47
    &&& !(path.len() >= 2 && path[path.len() - 1] == 46 && path[path.len() - 2] == 47)
}

/// Whether the path is empty or ends with a slash.
pub open spec fn is_prefix(path: Seq<u8>) -> bool {
    path.len() == 0 || path[path.len() - 1] == 47
}

/// The components of a path are what stands between its slashes, but for
/// nothing and `.`, and the slash at its start: read off the last slash.
pub proof fn components_stand_between_slashes(path: Seq<u8>, piece: Seq<u8>)
    requires
        is_piece(piece),
    ensures
        paths::components(Seq::empty()) == Seq::<Seq<u8>>::empty(),
        piece.len() > 0 ==> paths::components(piece) == seq![piece],
        is_name(piece) ==> paths::components(seq![47u8] + piece) == seq![seq![47u8], piece],
        !is_name(piece) ==> paths::components(seq![47u8] + piece) == seq![seq![47u8]],
        path.len() > 0 && is_name(piece) ==> paths::components(path + seq![47u8] + piece)
            == paths::components(path).push(piece),
        path.len() > 0 && !is_name(piece) ==> paths::components(path + seq![47u8] + piece)
            == paths::components(path),
{
    let empty = Seq::<u8>::empty();
    let root = seq![47u8];
    path_laws::an_empty_path_has_no_components(empty);
    text::split_without_separator(piece, 47u8);
    path_laws::counting_one(piece);
    path_laws::lead_shows_in_pieces(piece);
    assert(paths::dot() == seq![46u8]);
    assert(paths::root() == root);
    assert(paths::names(piece) == if is_name(piece) {
        seq![piece]
    } else {
        seq![]
    });
    if piece.len() > 0 {
        assert(paths::components(piece) == seq![piece]);
    }
    assert(!paths::is_absolute(piece)) by {
        if paths::is_absolute(piece) {
            assert(piece.contains(piece[0]));
        }
    }
    path_laws::bare_lead(root);
    path_laws::joining_appends_components(root, piece);
    assert(paths::joined(root, piece) == root + piece);
    assert(paths::components(root) == seq![root]);
    if is_name(piece) {
        assert(seq![root] + seq![piece] == seq![root, piece]);
    } else {
        assert(seq![root] + Seq::<Seq<u8>>::empty() == seq![root]);
    }
    if path.len() > 0 {
        let base = path.push(47u8);
        path_laws::last_slash_does_not_count(path);
        path_laws::joining_appends_components(base, piece);
        assert(paths::joined(base, piece) == path + seq![47u8] + piece);
        if is_name(piece) {
            assert(paths::components(path) + seq![piece] == paths::components(path).push(piece));
        } else {
            assert(paths::components(path) + Seq::<Seq<u8>>::empty() == paths::components(path));
        }
    }
}

/// Joining one more text.
proof fn join_grows(parts: Seq<Seq<char>>, more: Seq<char>)
    ensures
        parts.len() > 0 ==> text::join(parts.push(more), seq!['/']) == text::join(parts, seq!['/'])
            + seq!['/'] + more,
        text::join(seq![more], seq!['/']) == more,
{
    assert(parts.push(more).drop_last() == parts);
}

/// The normal form of a path consists of its components as text, with slashes
/// between them: read off the last slash.
pub proof fn normal_forms_have_slashes_between_components(path: Seq<u8>, piece: Seq<u8>)
    requires
        is_piece(piece),
    ensures
        paths::normalized(Seq::empty()) == Seq::<char>::empty(),
        piece.len() > 0 ==> paths::normalized(piece) == unicode::displayed(piece),
        is_name(piece) ==> paths::normalized(seq![47u8] + piece) == seq!['/', '/']
            + unicode::displayed(piece),
        path.len() > 0 && is_name(piece) ==> paths::normalized(path + seq![47u8] + piece)
            == paths::normalized(path) + seq!['/'] + unicode::displayed(piece),
        path.len() > 0 && !is_name(piece) ==> paths::normalized(path + seq![47u8] + piece)
            == paths::normalized(path),
{
    let shown = unicode::displayed(piece);
    let none = Seq::<Seq<char>>::empty();
    let root = seq![47u8];
    components_stand_between_slashes(path, piece);
    assert(paths::component_texts(Seq::<u8>::empty()) == none);
    join_grows(none, shown);
    if piece.len() > 0 {
        assert(paths::component_texts(piece) == seq![shown]);
    }
    if is_name(piece) {
        encoding_laws::slash_is_shown_as_slash();
        assert(unicode::displayed(root) == seq!['/']);
        assert(paths::component_texts(root + piece) == seq![seq!['/'], shown]);
        join_grows(seq![seq!['/']], shown);
        join_grows(none, seq!['/']);
        assert(seq![seq!['/']].push(shown) == seq![seq!['/'], shown]);
        assert(seq!['/'] + seq!['/'] + shown == seq!['/', '/'] + shown);
    }
    if path.len() > 0 && is_name(piece) {
        let before = paths::component_texts(path);
        assert(paths::component_texts(path + seq![47u8] + piece) == before.push(shown));
        paths_have_components(path);
        join_grows(before, shown);
    }
}

/// A path that is not empty has components.
proof fn paths_have_components(path: Seq<u8>)
    requires
        path.len() > 0,
    ensures
        paths::components(path).len() > 0,
    decreases path.len(),
{
    let last = path[path.len() - 1];
    let front = path.drop_last();
    if path.contains(47u8) {
        let k = last_slash(path);
        let before = path.take(k);
        let piece = path.skip(k + 1);
        assert(path == before + seq![47u8] + piece);
        components_stand_between_slashes(before, piece);
        if before.len() > 0 {
            paths_have_components(before);
        } else {
            assert(path == seq![47u8] + piece);
        }
    } else {
        components_stand_between_slashes(path, path);
    }
}

/// Where the last slash of a path stands.
proof fn last_slash(path: Seq<u8>) -> (k: int)
    requires
        path.contains(47u8),
    ensures
        0 <= k < path.len(),
        path[k] == 47,
        is_piece(path.skip(k + 1)),
    decreases path.len(),
{
    let n = path.len() - 1;
    if path[n] == 47 {
        assert(path.skip(n + 1) == Seq::<u8>::empty());
        n
    } else {
        let front = path.drop_last();
        assert(front.contains(47u8)) by {
            let i = path.index_of(47u8);
            assert(front[i] == 47);
        }
        let k = last_slash(front);
        let tail = path.skip(k + 1);
        assert(!tail.contains(47u8)) by {
            if tail.contains(47u8) {
                let i = tail.index_of(47u8);
                assert(front.skip(k + 1)[i] == 47);
            }
        }
        k
    }
}

/// A path is joined to a base with one slash between them, unless one of them
/// makes it needless; a path from the root stands for itself.
pub proof fn paths_are_joined_by_a_slash(base: Seq<u8>, path: Seq<u8>)
    ensures
        path.len() > 0 && path[0] == 47 ==> paths::joined(base, path) == path,
        (path.len() == 0 || path[0] != 47) && is_prefix(base) ==> paths::joined(base, path) == base
            + path,
        (path.len() == 0 || path[0] != 47) && !is_prefix(base) ==> paths::joined(base, path) == base
            + seq![47u8] + path,
{
    assert(base.push(47u8) == base + seq![47u8]);
}

/// How a path that ends with a name is cut.
proof fn last_name(prefix: Seq<u8>, name: Seq<u8>)
    requires
        is_prefix(prefix),
        is_name(name),
    ensures
        paths::trimmed(prefix + name) == prefix + name,
        paths::tail_len(prefix + name) == name.len(),
        (prefix + name).len() > paths::lead_len(prefix + name),
{
    let path = prefix + name;
    let n = name.len() - 1;
    assert(path.last() == name[n]);
    assert(name.contains(name[n]));
    tail_of_name(prefix, name);
    if path.len() >= 2 && path.last() == 46 && path[path.len() - 2] == 47 {
        if name.len() >= 2 {
            assert(path[path.len() - 2] == name[n - 1]);
            assert(name.contains(name[n - 1]));
        } else {
            assert(name == seq![46u8]);
        }
    }
    if prefix.len() == 0 {
        assert(path == name);
        if name.len() == 1 {
            if paths::is_absolute(name) {
                assert(name.contains(name[0]));
            }
            if paths::starts_with_dot(name) {
                assert(name == seq![46u8]);
            }
        }
    }
}

/// What stands behind the last slash, where it is known.
proof fn tail_of_name(prefix: Seq<u8>, name: Seq<u8>)
    requires
        is_prefix(prefix),
        is_piece(name),
    ensures
        paths::tail_len(prefix + name) == name.len(),
    decreases name.len(),
{
    let path = prefix + name;
    if name.len() == 0 {
        assert(path == prefix);
    } else {
        let front = name.drop_last();
        assert(name.contains(name[name.len() - 1]));
        assert(is_piece(front)) by {
            if front.contains(47u8) {
                let i = front.index_of(47u8);
                assert(name[i] == 47);
            }
        }
        tail_of_name(prefix, front);
        assert(path.drop_last() == prefix + front);
        assert(path.last() == name[name.len() - 1]);
    }
}

/// The directory of a path that ends with a name is the path before it, without
/// the slash between them; in front of a single name is nothing.
pub proof fn parents_stand_before_the_last_name(dir: Seq<u8>, name: Seq<u8>)
    requires
        is_name(name),
    ensures
        is_trim(dir) ==> paths::parent(dir + seq![47u8] + name) == Some(dir),
        paths::parent(name) == Some(Seq::<u8>::empty()),
        paths::parent(seq![47u8] + name) == Some(seq![47u8]),
        paths::parent(dir + seq![47u8, 47u8] + name) == paths::parent(dir + seq![47u8] + name),
        paths::parent(dir + seq![47u8, 46u8, 47u8] + name) == paths::parent(
            dir + seq![47u8] + name,
        ),
{
    let empty = Seq::<u8>::empty();
    let one = dir + seq![47u8];
    let two = dir + seq![47u8, 47u8];
    let three = dir + seq![47u8, 46u8, 47u8];
    last_name(empty, name);
    assert(empty + name == name);
    assert(name.take(0) == empty);
    last_name(seq![47u8], name);
    assert((seq![47u8] + name).take(1) == seq![47u8]);
    last_name(one, name);
    assert((one + name).take(one.len() as int) == one);
    last_name(two, name);
    assert((two + name).take(two.len() as int) == two);
    last_name(three, name);
    assert((three + name).take(three.len() as int) == three);
    assert(two.drop_last() == one);
    assert(paths::trimmed(two) == paths::trimmed(one));
    let dotted = three.drop_last();
    assert(dotted == dir + seq![47u8, 46u8]);
    assert(paths::trimmed(three) == paths::trimmed(dotted));
    assert(dotted.drop_last() == one);
    assert(paths::trimmed(dotted) == paths::trimmed(one));
    if is_trim(dir) {
        assert(one.drop_last() == dir);
        assert(paths::trimmed(one) == paths::trimmed(dir));
        assert(paths::trimmed(dir) == dir);
    }
}

/// A slash at the end, with or without a dot behind it, does not matter to the
/// directory and the file name of a path. Nothing and the root have neither.
pub proof fn ends_of_paths_do_not_matter(path: Seq<u8>)
    requires
        path.len() > 0,
    ensures
        paths::parent(path + seq![47u8]) == paths::parent(path),
        paths::parent(path + seq![47u8, 46u8]) == paths::parent(path),
        paths::file_name(path + seq![47u8]) == paths::file_name(path),
        paths::file_name(path + seq![47u8, 46u8]) == paths::file_name(path),
        paths::parent(Seq::empty()) is None,
        paths::parent(seq![47u8]) is None,
        paths::file_name(Seq::empty()) is None,
        paths::file_name(seq![47u8]) is None,
        paths::file_name(seq![46u8]) is None,
{
    let slash = path + seq![47u8];
    let dotted = path + seq![47u8, 46u8];
    assert(slash.drop_last() == path);
    assert(paths::trimmed(slash) == paths::trimmed(path));
    assert(dotted.drop_last() == slash);
    assert(paths::trimmed(dotted) == paths::trimmed(slash));
    assert(paths::trimmed(Seq::<u8>::empty()) == Seq::<u8>::empty());
    assert(paths::trimmed(seq![47u8]) == seq![47u8]);
    assert(paths::trimmed(seq![46u8]) == seq![46u8]);
}

/// The file name of a path is the name that it ends with, unless that is `..`.
pub proof fn file_names_stand_behind_the_last_slash(prefix: Seq<u8>, name: Seq<u8>)
    requires
        is_prefix(prefix),
        is_name(name),
    ensures
        name != seq![46u8, 46u8] ==> paths::file_name(prefix + name) == Some(name),
        paths::file_name(prefix + seq![46u8, 46u8]) is None,
{
    let up = seq![46u8, 46u8];
    assert(is_name(up)) by {
        assert(up.len() == 2 && seq![46u8].len() == 1);
        assert(!up.contains(47u8));
    }
    last_name(prefix, name);
    last_name(prefix, up);
    assert((prefix + name).skip(prefix.len() as int) == name);
    assert((prefix + up).skip(prefix.len() as int) == up);
    assert(paths::dot_dot() == up);
}

/// The extension of a file name starts at its last dot.
proof fn stems_end_at_the_last_dot(stem: Seq<u8>, ending: Seq<u8>)
    requires
        stem.len() > 0,
        !ending.contains(46u8),
    ensures
        paths::stem_len(stem + seq![46u8] + ending) == stem.len(),
{
    let name = stem + seq![46u8] + ending;
    let at = stem.len() as int;
    assert forall|k: int| at < k < name.len() implies #[trigger] name[k] != 46 by {
        assert(name[k] == ending[k - at - 1]);
        assert(ending.contains(ending[k - at - 1]));
    }
    assert(name[at] == 46);
    assert(paths::is_last_dot(name, at));
    let i = choose|i: int| paths::is_last_dot(name, i);
    assert(i == at);
}

/// A name without a dot behind its first byte has no extension.
proof fn names_without_dots_are_stems(name: Seq<u8>)
    requires
        forall|k: int| 0 < k < name.len() ==> #[trigger] name[k] != 46,
    ensures
        paths::stem_len(name) == name.len(),
{
    if exists|i: int| paths::is_last_dot(name, i) {
        let i = choose|i: int| paths::is_last_dot(name, i);
        assert(i == 0);
    }
}

/// A new extension takes the place of what stands behind the last dot of the
/// file name, wherever the file lies; the dot at the start of a name starts no
/// extension, and a name without one gets one.
pub proof fn extensions_stand_behind_the_last_dot(
    prefix: Seq<u8>,
    stem: Seq<u8>,
    ending: Seq<u8>,
    extension: Seq<u8>,
)
    requires
        is_prefix(prefix),
        is_piece(stem),
        is_piece(ending),
        stem.len() > 0,
        extension.len() > 0,
    ensures
        !ending.contains(46u8) && !(stem == seq![46u8] && ending.len() == 0)
            ==> paths::with_extension(prefix + stem + seq![46u8] + ending, extension) == prefix
            + stem + seq![46u8] + extension,
        !ending.contains(46u8) && !(stem == seq![46u8] && ending.len() == 0)
            ==> paths::with_extension(prefix + stem + seq![46u8] + ending, Seq::empty()) == prefix
            + stem,
        is_name(stem) && (forall|k: int| 0 < k < stem.len() ==> #[trigger] stem[k] != 46)
            ==> paths::with_extension(prefix + stem, extension) == prefix + stem + seq![46u8]
            + extension,
{
    if !ending.contains(46u8) && !(stem == seq![46u8] && ending.len() == 0) {
        let name = stem + seq![46u8] + ending;
        assert(is_name(name)) by {
            if name.contains(47u8) {
                let i = name.index_of(47u8);
                if i < stem.len() {
                    assert(stem.contains(stem[i]));
                } else if i > stem.len() {
                    assert(ending.contains(ending[i - stem.len() - 1]));
                }
            }
        }
        assert(name != seq![46u8, 46u8]) by {
            if name == seq![46u8, 46u8] {
                assert(stem[0] == name[0]);
                assert(stem == seq![46u8]);
            }
        }
        let path = prefix + stem + seq![46u8] + ending;
        assert(path == prefix + name);
        file_names_stand_behind_the_last_slash(prefix, name);
        last_name(prefix, name);
        stems_end_at_the_last_dot(stem, ending);
        assert(path.take((prefix.len() + stem.len()) as int) == prefix + stem);
        assert((prefix + stem).push(46u8) == prefix + stem + seq![46u8]);
    }
    if is_name(stem) && (forall|k: int| 0 < k < stem.len() ==> #[trigger] stem[k] != 46) {
        let path = prefix + stem;
        assert(stem != seq![46u8, 46u8]) by {
            if stem == seq![46u8, 46u8] {
                assert(stem[1] == 46);
            }
        }
        file_names_stand_behind_the_last_slash(prefix, stem);
        last_name(prefix, stem);
        names_without_dots_are_stems(stem);
        assert(path.take(path.len() as int) == path);
        assert(path.push(46u8) == path + seq![46u8]);
    }
}

/// A slash at the end does not matter to a new extension either, and a path
/// without a file name stays as it is.
pub proof fn extensions_need_file_names(path: Seq<u8>, extension: Seq<u8>)
    requires
        path.len() > 0,
    ensures
        paths::file_name(path) is None ==> paths::with_extension(path, extension) == path,
        paths::file_name(path) is Some ==> paths::with_extension(path + seq![47u8], extension)
            == paths::with_extension(path, extension),
{
    ends_of_paths_do_not_matter(path);
    let slash = path + seq![47u8];
    assert(slash.drop_last() == path);
    assert(paths::trimmed(slash) == paths::trimmed(path));
}

/// A new file name takes the place of the name that a path ends with.
pub proof fn file_names_are_replaced(dir: Seq<u8>, name: Seq<u8>, new: Seq<u8>)
    requires
        is_name(name),
        name != seq![46u8, 46u8],
        is_name(new),
    ensures
        is_trim(dir) ==> paths::with_file_name(dir + seq![47u8] + name, new) == dir + seq![47u8]
            + new,
        paths::with_file_name(name, new) == new,
        paths::with_file_name(seq![47u8] + name, new) == seq![47u8] + new,
{
    let empty = Seq::<u8>::empty();
    parents_stand_before_the_last_name(dir, name);
    file_names_stand_behind_the_last_slash(dir + seq![47u8], name);
    file_names_stand_behind_the_last_slash(empty, name);
    file_names_stand_behind_the_last_slash(seq![47u8], name);
    assert(empty + name == name);
    assert(new[0] != 47) by {
        assert(new.contains(new[0]));
    }
    paths_are_joined_by_a_slash(dir, new);
    paths_are_joined_by_a_slash(empty, new);
    paths_are_joined_by_a_slash(seq![47u8], new);
    assert(empty + new == new);
}

/// Wherever a path with a file name leads, its new file name is joined to the
/// directory that it lies in; a slash at its end does not matter.
pub proof fn new_file_names_are_joined_to_the_directory(path: Seq<u8>, dir: Seq<u8>, new: Seq<u8>)
    requires
        path.len() > 0,
        paths::file_name(path) is Some,
        paths::parent(path) == Some(dir),
    ensures
        paths::with_file_name(path, new) == paths::joined(dir, new),
        paths::with_file_name(path + seq![47u8], new) == paths::joined(dir, new),
{
    ends_of_paths_do_not_matter(path);
}

} // verus!
