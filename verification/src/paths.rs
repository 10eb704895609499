//! Paths as bytes: names between slashes, as in `guide/install.md`.
//!
//! These are the paths of the Unix family: names need not be Unicode, only
//! slashes separate them, and a path that does not depend on a base starts with
//! a slash. A caller on another system writes its paths in this way, with slashes
//! for its separators and a slash before a drive.
//!
//! A path is read as a sequence of components. Repeated slashes, a slash at
//! the end and components `.` do not count, except a `.` at the very start of
//! a relative path; a slash at the start is the root, a component of its own.

use vstd::prelude::*;

use crate::text;
use crate::text::{chars_of, join_texts, push_all, same, split_text, text_of};
use crate::unicode;
use crate::unicode::text_of_bytes;

verus! {

/// What separates names: `/`.
pub const SLASH: u8 = 47;

/// What starts an extension, and makes up the names for the same place and for
/// the place above: `.`.
pub const DOT: u8 = 46;

/// The component that a path with a slash at its start starts with.
pub open spec fn root() -> Seq<u8> {
    seq![SLASH]
}

/// The piece that stands for the same place.
pub open spec fn dot() -> Seq<u8> {
    seq![DOT]
}

/// The piece that stands for the place above.
pub open spec fn dot_dot() -> Seq<u8> {
    seq![DOT, DOT]
}

/// The path that an optional vector of bytes holds.
pub open spec fn optional_path(path: Option<Vec<u8>>) -> Option<Seq<u8>> {
    match path {
        Some(path) => Some(path@),
        None => None,
    }
}

/// Whether the path starts at the root.
pub open spec fn is_absolute(path: Seq<u8>) -> bool {
    path.len() > 0 && path[0] == SLASH
}

/// Whether the path starts with a component `.`.
pub open spec fn starts_with_dot(path: Seq<u8>) -> bool {
    path.len() > 0 && path[0] == DOT && (path.len() == 1 || path[1] == SLASH)
}

/// The component that the start of the path stands for, if there is one: the
/// root, or a leading `.`.
pub open spec fn lead(path: Seq<u8>) -> Seq<Seq<u8>> {
    if is_absolute(path) {
        seq![root()]
    } else if starts_with_dot(path) {
        seq![dot()]
    } else {
        seq![]
    }
}

/// Whether what stands between two slashes is a component.
pub open spec fn counts(piece: Seq<u8>) -> bool {
    piece.len() > 0 && piece != dot()
}

/// The pieces that are components.
pub open spec fn counting(pieces: Seq<Seq<u8>>) -> Seq<Seq<u8>> {
    pieces.filter(|piece: Seq<u8>| counts(piece))
}

/// The components that stand between slashes.
pub open spec fn names(path: Seq<u8>) -> Seq<Seq<u8>> {
    counting(text::split(path, SLASH))
}

/// The components of a path.
pub open spec fn components(path: Seq<u8>) -> Seq<Seq<u8>> {
    lead(path) + names(path)
}

/// The path with nothing in it that does not count: its components with a
/// slash between neighbours.
pub open spec fn tidied(path: Seq<u8>) -> Seq<u8> {
    text::join(components(path), seq![SLASH])
}

/// The form in which chapter paths are compared: the components of the path as
/// text, with a slash between neighbours.
pub open spec fn normalized(path: Seq<u8>) -> Seq<char> {
    text::join(component_texts(path), seq!['/'])
}

/// The components of a path as text.
pub open spec fn component_texts(path: Seq<u8>) -> Seq<Seq<char>> {
    components(path).map_values(|component: Seq<u8>| unicode::displayed(component))
}

/// Where the path `path` leads, seen from `base`: a path from the root
/// replaces the base.
pub open spec fn joined(base: Seq<u8>, path: Seq<u8>) -> Seq<u8> {
    if is_absolute(path) {
        path
    } else if base.len() > 0 && base.last() != SLASH {
        base.push(SLASH) + path
    } else {
        base + path
    }
}

/// The number of bytes that stand for the lead of the path.
pub open spec fn lead_len(path: Seq<u8>) -> int {
    if is_absolute(path) || starts_with_dot(path) {
        1
    } else {
        0
    }
}

/// The path without what does not count at its end: slashes, and `.` behind a
/// slash.
pub open spec fn trimmed(path: Seq<u8>) -> Seq<u8>
    decreases path.len(),
{
    if path.len() > lead_len(path) && (path.last() == SLASH || (path.last() == DOT && path.len() >= 2
        && path[path.len() - 2] == SLASH)) {
        trimmed(path.drop_last())
    } else {
        path
    }
}

/// The number of bytes behind the last slash.
pub open spec fn tail_len(path: Seq<u8>) -> int
    decreases path.len(),
{
    if path.len() == 0 || path.last() == SLASH {
        0
    } else {
        1 + tail_len(path.drop_last())
    }
}

/// The path without its last component. A path without components has none,
/// nor has the root.
pub open spec fn parent(path: Seq<u8>) -> Option<Seq<u8>> {
    let path = trimmed(path);
    if path.len() > lead_len(path) {
        Some(trimmed(path.take(path.len() - tail_len(path))))
    } else if starts_with_dot(path) {
        Some(Seq::empty())
    } else {
        None
    }
}

/// The last component of the path, if it is a name: not the root, and neither
/// a leading `.` nor `..`.
pub open spec fn file_name(path: Seq<u8>) -> Option<Seq<u8>> {
    let path = trimmed(path);
    let name = path.skip(path.len() - tail_len(path));
    if path.len() > lead_len(path) && name != dot_dot() {
        Some(name)
    } else {
        None
    }
}

/// The length of a file name without its extension, which starts at the last
/// dot; a dot at the start of the name starts no extension.
pub open spec fn stem_len(name: Seq<u8>) -> int {
    if exists|i: int| is_last_dot(name, i) {
        let i = choose|i: int| is_last_dot(name, i);
        if i == 0 {
            name.len() as int
        } else {
            i
        }
    } else {
        name.len() as int
    }
}

/// Whether the last dot of the name stands at position `i`.
pub open spec fn is_last_dot(name: Seq<u8>, i: int) -> bool {
    &&& 0 <= i < name.len()
    &&& name[i] == DOT
    &&& forall|k: int| i < k < name.len() ==> #[trigger] name[k] != DOT
}

/// The path with the extension of its file name replaced, or one added; where
/// the new extension is empty, the name has none. A path without a file name
/// stays as it is.
pub open spec fn with_extension(path: Seq<u8>, extension: Seq<u8>) -> Seq<u8> {
    match file_name(path) {
        Some(name) => {
            let path = trimmed(path);
            let stem = path.take(path.len() - name.len() + stem_len(name));
            if extension.len() == 0 {
                stem
            } else {
                stem.push(DOT) + extension
            }
        },
        None => path,
    }
}

/// The path with its file name, if it has one, replaced; else with one added.
pub open spec fn with_file_name(path: Seq<u8>, name: Seq<u8>) -> Seq<u8> {
    match (file_name(path), parent(path)) {
        (Some(_), Some(dir)) => joined(dir, name),
        _ => joined(path, name),
    }
}

fn is_absolute_text(path: &[u8]) -> (res: bool)
    ensures
        res == is_absolute(path@),
{
    path.len() > 0 && path[0] == SLASH
}

fn starts_with_dot_text(path: &[u8]) -> (res: bool)
    ensures
        res == starts_with_dot(path@),
{
    path.len() > 0 && path[0] == DOT && (path.len() == 1 || path[1] == SLASH)
}

/// The components of the path, in order.
fn components_of(path: &[u8]) -> (res: Vec<Vec<u8>>)
    ensures
        text::texts(res@) == components(path@),
{
    let mut res: Vec<Vec<u8>> = Vec::new();
    if is_absolute_text(path) {
        res.push(vec![SLASH]);
    } else if starts_with_dot_text(path) {
        res.push(vec![DOT]);
    }
    assert(text::texts(res@) =~~= lead(path@));
    let pieces = split_text(path, SLASH);
    let dot_text = [DOT];
    assert(dot_text@ == dot());
    let ghost all = text::split(path@, SLASH);
    assert(counting(all.take(0)) == Seq::<Seq<u8>>::empty()) by {
        reveal(Seq::filter);
    }
    for i in 0..pieces.len()
        invariant
            dot_text@ == dot(),
            text::texts(pieces@) == all,
            text::texts(res@) == lead(path@) + counting(all.take(i as int)),
    {
        let ghost before = res@;
        proof {
            reveal(Seq::filter);
            assert(all.take(i + 1).drop_last() == all.take(i as int));
            assert(all[i as int] == pieces@[i as int]@);
        }
        if pieces[i].len() > 0 && !same(&pieces[i], &dot_text) {
            let mut piece: Vec<u8> = Vec::new();
            push_all(&mut piece, &pieces[i]);
            res.push(piece);
            assert(text::texts(res@) == text::texts(before).push(all[i as int]));
        }
    }
    assert(all.take(all.len() as int) == all);
    res
}

/// The form in which chapter paths are compared: the components of the path as
/// text, with a slash between neighbours.
pub fn normalize_chapter_path(path: &[u8]) -> (res: String)
    ensures
        res@ == normalized(path@),
{
    let all = components_of(path);
    let mut parts: Vec<Vec<char>> = Vec::new();
    let ghost wanted = component_texts(path@);
    for i in 0..all.len()
        invariant
            text::texts(all@) == components(path@),
            wanted == component_texts(path@),
            text::texts(parts@) == wanted.take(i as int),
    {
        let ghost before = parts@;
        assert(components(path@)[i as int] == all@[i as int]@);
        parts.push(chars_of(&text_of_bytes(&all[i])));
        assert(text::texts(parts@) == text::texts(before).push(wanted[i as int]));
    }
    assert(wanted.take(all@.len() as int) == wanted);
    let sep = ['/'];
    assert(sep@ == seq!['/']);
    text_of(&join_texts(&parts, &sep))
}

/// Where the path leads, seen from `base`.
pub fn join_paths(base: &[u8], path: &[u8]) -> (res: Vec<u8>)
    ensures
        res@ == joined(base@, path@),
{
    let mut res: Vec<u8> = Vec::new();
    if !is_absolute_text(path) {
        push_all(&mut res, base);
        if base.len() > 0 && base[base.len() - 1] != SLASH {
            res.push(SLASH);
        }
    }
    push_all(&mut res, path);
    res
}

/// The length of the path without what does not count at its end.
fn trimmed_len(path: &[u8], len: usize) -> (res: usize)
    requires
        len <= path@.len(),
    ensures
        res <= len,
        path@.take(res as int) == trimmed(path@.take(len as int)),
{
    let mut end = len;
    loop
        invariant
            end <= len <= path@.len(),
            trimmed(path@.take(end as int)) == trimmed(path@.take(len as int)),
        decreases end,
    {
        let ghost prefix = path@.take(end as int);
        let lead: usize = if end > 0 && (path[0] == SLASH || (path[0] == DOT && (end == 1 || path[1]
            == SLASH))) {
            1
        } else {
            0
        };
        assert(lead == lead_len(prefix));
        if end > lead && (path[end - 1] == SLASH || (path[end - 1] == DOT && end >= 2 && path[end - 2]
            == SLASH)) {
            assert(prefix.drop_last() == path@.take(end - 1));
            end = end - 1;
        } else {
            return end;
        }
    }
}

/// Where what stands behind the last slash starts.
fn tail_start(path: &[u8], len: usize) -> (res: usize)
    requires
        len <= path@.len(),
    ensures
        res <= len,
        len - res == tail_len(path@.take(len as int)),
{
    let mut start = len;
    while start > 0 && path[start - 1] != SLASH
        invariant
            start <= len <= path@.len(),
            len - start + tail_len(path@.take(start as int)) == tail_len(path@.take(len as int)),
        decreases start,
    {
        assert(path@.take(start as int).drop_last() == path@.take(start - 1));
        start = start - 1;
    }
    start
}

/// A copy of the bytes from `from` up to `to`.
fn part_of(path: &[u8], from: usize, to: usize) -> (res: Vec<u8>)
    requires
        from <= to <= path@.len(),
    ensures
        res@ == path@.subrange(from as int, to as int),
{
    let mut res: Vec<u8> = Vec::new();
    push_all(&mut res, vstd::slice::slice_subrange(path, from, to));
    res
}

/// The path without its last component, if it has one that can be left out.
pub fn parent_path(path: &[u8]) -> (res: Option<Vec<u8>>)
    ensures
        optional_path(res) == parent(path@),
{
    let len = trimmed_len(path, path.len());
    let path_text = vstd::slice::slice_subrange(path, 0, len);
    assert(path@.take(path@.len() as int) == path@);
    assert(path_text@ == trimmed(path@));
    if path_text.len() > 0 && !(path_text.len() == 1 && (path_text[0] == SLASH || path_text[0]
        == DOT)) {
        let end = trimmed_len(path_text, tail_start(path_text, len));
        assert(path_text@.take(len as int) == path_text@);
        let dir = part_of(path_text, 0, end);
        assert(dir@ == path_text@.take(end as int));
        Some(dir)
    } else if path_text.len() == 1 && path_text[0] == DOT {
        Some(Vec::new())
    } else {
        None
    }
}

/// The last component of the path, if it is a name.
pub fn path_file_name(path: &[u8]) -> (res: Option<Vec<u8>>)
    ensures
        optional_path(res) == file_name(path@),
{
    let len = trimmed_len(path, path.len());
    let path_text = vstd::slice::slice_subrange(path, 0, len);
    assert(path@.take(path@.len() as int) == path@);
    assert(path_text@ == trimmed(path@));
    let start = tail_start(path_text, len);
    assert(path_text@.take(len as int) == path_text@);
    let name = part_of(path_text, start, len);
    let dot_dot_text = [DOT, DOT];
    assert(dot_dot_text@ == dot_dot());
    assert(name@ == path_text@.skip(path_text@.len() - tail_len(path_text@)));
    if path_text.len() > 0 && !(path_text.len() == 1 && (path_text[0] == SLASH || path_text[0]
        == DOT)) && !same(&name, &dot_dot_text) {
        Some(name)
    } else {
        None
    }
}

/// The path with the extension of its file name replaced, or one added; an
/// empty extension takes the old one away.
pub fn replace_extension(path: &[u8], extension: &[u8]) -> (res: Vec<u8>)
    requires
        !extension@.contains(SLASH),
    ensures
        res@ == with_extension(path@, extension@),
{
    let name = match path_file_name(path) {
        Some(name) => name,
        None => {
            let res = part_of(path, 0, path.len());
            assert(res@ == path@);
            return res;
        },
    };
    let mut dot: usize = name.len();
    while dot > 0 && name[dot - 1] != DOT
        invariant
            dot <= name@.len(),
            forall|k: int| dot <= k < name@.len() ==> #[trigger] name@[k] != DOT,
        decreases dot,
    {
        dot = dot - 1;
    }
    let stem: usize = if dot > 1 {
        dot - 1
    } else {
        name.len()
    };
    proof {
        if dot > 0 {
            assert(is_last_dot(name@, dot - 1));
            let i = choose|i: int| is_last_dot(name@, i);
            assert(i == dot - 1);
        }
        assert(stem == stem_len(name@));
    }
    let len = trimmed_len(path, path.len());
    assert(path@.take(path@.len() as int) == path@);
    let ghost whole = trimmed(path@);
    proof {
        tail_is_within(whole);
    }
    let end = len - name.len() + stem;
    let mut res = part_of(path, 0, end);
    assert(res@ == whole.take(end as int));
    if extension.len() > 0 {
        res.push(DOT);
        push_all(&mut res, extension);
    }
    res
}

/// The path with its file name, if it has one, replaced; else with one added.
pub fn replace_file_name(path: &[u8], name: &[u8]) -> (res: Vec<u8>)
    ensures
        res@ == with_file_name(path@, name@),
{
    match (path_file_name(path), parent_path(path)) {
        (Some(_), Some(dir)) => join_paths(&dir, name),
        _ => join_paths(path, name),
    }
}

/// The number of bytes behind the last slash is one of the path's.
proof fn tail_is_within(path: Seq<u8>)
    ensures
        0 <= tail_len(path) <= path.len(),
    decreases path.len(),
{
    if path.len() > 0 && path.last() != SLASH {
        tail_is_within(path.drop_last());
    }
}

} // verus!
