//! What holds of paths, whatever way they are written.

use vstd::prelude::*;

use crate::encoding_laws;
use crate::paths;
use crate::text;
use crate::unicode;

verus! {

/// The start of a path shows in its first piece.
pub(crate) proof fn lead_shows_in_pieces(path: Seq<u8>)
    ensures
        text::split(path, paths::SLASH).len() >= 1,
        paths::is_absolute(path) <==> text::split(path, paths::SLASH).len() > 1 && text::split(
            path,
            paths::SLASH,
        )[0].len() == 0,
        paths::starts_with_dot(path) <==> text::split(path, paths::SLASH)[0] == paths::dot(),
{
    text::split_is_not_empty(path, paths::SLASH);
    if path.contains(paths::SLASH) {
        let k = path.index_of_first(paths::SLASH).unwrap();
        path.index_of_first_ensures(paths::SLASH);
        let first = path.take(k);
        let rest = path.skip(k + 1);
        assert(!first.contains(paths::SLASH)) by {
            if first.contains(paths::SLASH) {
                let i = choose|i: int| 0 <= i < first.len() && first[i] == paths::SLASH;
                assert(path[i] == paths::SLASH);
            }
        }
        text::split_without_separator(first, paths::SLASH);
        text::split_at_separator(first, rest, paths::SLASH);
        text::split_is_not_empty(rest, paths::SLASH);
        assert(path == first.push(paths::SLASH) + rest);
        assert(text::split(path, paths::SLASH)[0] == first);
        if paths::starts_with_dot(path) {
            assert(path[0] != paths::SLASH);
            assert(k == 1);
            assert(first == paths::dot());
        }
        if first == paths::dot() {
            assert(first[0] == paths::DOT);
            assert(path[k] == paths::SLASH);
        }
    } else {
        text::split_without_separator(path, paths::SLASH);
        if paths::is_absolute(path) {
            assert(path.contains(path[0]));
        }
        if paths::starts_with_dot(path) {
            if path.len() > 1 {
                assert(path.contains(path[1]));
            }
            assert(path == paths::dot());
        }
        if path == paths::dot() {
            assert(path[0] == paths::DOT);
        }
    }
}

/// Pieces that count are components of the whole.
pub(crate) proof fn counting_splits(a: Seq<Seq<u8>>, b: Seq<Seq<u8>>)
    ensures
        paths::counting(a + b) == paths::counting(a) + paths::counting(b),
{
    Seq::filter_distributes_over_add(a, b, |piece: Seq<u8>| paths::counts(piece));
}

/// A piece that does not count adds nothing.
pub(crate) proof fn counting_one(piece: Seq<u8>)
    ensures
        paths::counting(seq![piece]) == if paths::counts(piece) {
            seq![piece]
        } else {
            seq![]
        },
{
    reveal(Seq::filter);
    assert(seq![piece].drop_last() == Seq::<Seq<u8>>::empty());
    assert(paths::counting(seq![piece].drop_last()) == Seq::<Seq<u8>>::empty());
    assert(paths::counting(seq![piece]) == if paths::counts(piece) {
        seq![piece]
    } else {
        seq![]
    });
}

/// Pieces all of which count stay as they are.
proof fn counting_all(pieces: Seq<Seq<u8>>)
    requires
        forall|i: int| 0 <= i < pieces.len() ==> paths::counts(#[trigger] pieces[i]),
    ensures
        paths::counting(pieces) == pieces,
    decreases pieces.len(),
{
    reveal(Seq::filter);
    if pieces.len() > 0 {
        let front = pieces.drop_last();
        assert forall|i: int| 0 <= i < front.len() implies paths::counts(#[trigger] front[i]) by {
            assert(front[i] == pieces[i]);
        }
        counting_all(front);
        assert(front.push(pieces.last()) == pieces);
    }
}

/// The names of a path count, and hold no slash.
proof fn names_are_names(path: Seq<u8>)
    ensures
        forall|i: int| 0 <= i < paths::names(path).len() ==> paths::counts(
            #[trigger] paths::names(path)[i],
        ) && !paths::names(path)[i].contains(paths::SLASH),
{
    let pieces = text::split(path, paths::SLASH);
    let names = paths::names(path);
    text::split_pieces_lack_separator(path, paths::SLASH);
    assert forall|i: int| 0 <= i < names.len() implies paths::counts(#[trigger] names[i])
        && !names[i].contains(paths::SLASH) by {
        pieces.lemma_filter_pred(|piece: Seq<u8>| paths::counts(piece), i);
        assert(names.contains(names[i]));
        pieces.lemma_filter_contains_rev(|piece: Seq<u8>| paths::counts(piece), names[i]);
        let k = choose|k: int| 0 <= k < pieces.len() && pieces[k] == names[i];
        assert(!pieces[k].contains(paths::SLASH));
    }
}

/// Tidying a path keeps its components.
pub proof fn tidying_keeps_components(path: Seq<u8>)
    ensures
        paths::components(paths::tidied(path)) == paths::components(path),
{
    let names = paths::names(path);
    let sep = seq![paths::SLASH];
    let normal = paths::tidied(path);
    names_are_names(path);
    counting_all(names);
    let rest = text::join(names, sep);
    if names.len() > 0 {
        text::split_undoes_join(names, paths::SLASH);
    }
    lead_shows_in_pieces(normal);
    if paths::is_absolute(path) || paths::starts_with_dot(path) {
        let first = paths::lead(path)[0];
        assert(paths::lead(path) == seq![first]);
        if names.len() == 0 {
            assert(paths::components(path) == seq![first]);
            assert(normal == first);
            if paths::is_absolute(path) {
                let empty = Seq::<u8>::empty();
                text::split_at_separator(empty, empty, paths::SLASH);
                assert(empty.push(paths::SLASH) + empty == normal);
                text::split_without_separator(empty, paths::SLASH);
                assert(text::split(normal, paths::SLASH) == seq![empty] + seq![empty]);
                counting_one(empty);
                counting_splits(seq![empty], seq![empty]);
                assert(paths::names(normal) == Seq::<Seq<u8>>::empty());
            } else {
                assert(!normal.contains(paths::SLASH));
                text::split_without_separator(normal, paths::SLASH);
                counting_one(normal);
            }
        } else {
            text::join_starts_with_first(first, names, sep);
            assert(normal == first + sep + rest);
            assert(normal == first.push(paths::SLASH) + rest);
            text::split_at_separator(first, rest, paths::SLASH);
            if paths::is_absolute(path) {
                let empty = Seq::<u8>::empty();
                text::split_at_separator(empty, empty, paths::SLASH);
                assert(empty.push(paths::SLASH) + empty == first);
                text::split_without_separator(empty, paths::SLASH);
                assert(text::split(first, paths::SLASH) == seq![empty] + seq![empty]);
                counting_one(empty);
                counting_splits(seq![empty], seq![empty]);
                counting_splits(text::split(first, paths::SLASH), names);
                assert(paths::names(normal) == names);
            } else {
                assert(!first.contains(paths::SLASH));
                text::split_without_separator(first, paths::SLASH);
                counting_one(first);
                counting_splits(seq![first], names);
                assert(paths::names(normal) == names);
            }
        }
    } else {
        assert(paths::components(path) == names);
        if names.len() == 0 {
            assert(normal == Seq::<u8>::empty());
            text::split_without_separator(normal, paths::SLASH);
            counting_one(normal);
        } else {
            assert(text::split(normal, paths::SLASH)[0] == names[0]);
        }
    }
}

/// Tidying a tidy path changes nothing.
pub proof fn tidying_is_idempotent(path: Seq<u8>)
    ensures
        paths::tidied(paths::tidied(path)) == paths::tidied(path),
{
    tidying_keeps_components(path);
}

/// Whether the components of the path are Unicode.
pub open spec fn has_unicode_components(path: Seq<u8>) -> bool {
    forall|i: int|
        0 <= i < paths::components(path).len() ==> vstd::utf8::valid_utf8(
            #[trigger] paths::components(path)[i],
        )
}

/// The components of a path that is Unicode are Unicode.
pub proof fn unicode_paths_have_unicode_components(path: Seq<u8>)
    requires
        vstd::utf8::valid_utf8(path),
    ensures
        has_unicode_components(path),
{
    let pieces = text::split(path, paths::SLASH);
    let names = paths::names(path);
    encoding_laws::pieces_of_unicode_are_unicode(path);
    assert forall|i: int| 0 <= i < paths::components(path).len() implies vstd::utf8::valid_utf8(
        #[trigger] paths::components(path)[i],
    ) by {
        let lead = paths::lead(path);
        if i < lead.len() {
            encoding_laws::slash_and_dot_are_unicode();
        } else {
            let name = names[i - lead.len()];
            assert(paths::components(path)[i] == name);
            assert(names.contains(name));
            pieces.lemma_filter_contains_rev(|piece: Seq<u8>| paths::counts(piece), name);
            let k = choose|k: int| 0 <= k < pieces.len() && pieces[k] == name;
            assert(vstd::utf8::valid_utf8(pieces[k]));
        }
    }
}

/// The normal form of a path whose components are Unicode is the tidy path, as
/// text.
pub proof fn normal_forms_are_tidy_paths(path: Seq<u8>)
    requires
        has_unicode_components(path),
    ensures
        unicode::encoded(paths::normalized(path)) == paths::tidied(path),
{
    let texts = paths::component_texts(path);
    encoding_laws::encoding_joins(texts);
    let again = texts.map_values(|part: Seq<char>| unicode::encoded(part));
    assert(again == paths::components(path)) by {
        assert forall|i: int| 0 <= i < again.len() implies again[i] == paths::components(
            path,
        )[i] by {
            encoding_laws::decoding_is_undone_by_encoding(paths::components(path)[i]);
        }
    }
}

/// Two paths with Unicode components have the same normal form just when they
/// have the same components, so it does not matter how a path is written.
pub proof fn normal_forms_agree_with_components(a: Seq<u8>, b: Seq<u8>)
    requires
        has_unicode_components(a),
        has_unicode_components(b),
    ensures
        paths::normalized(a) == paths::normalized(b) <==> paths::components(a) == paths::components(
            b,
        ),
{
    normal_forms_are_tidy_paths(a);
    normal_forms_are_tidy_paths(b);
    tidying_keeps_components(a);
    tidying_keeps_components(b);
}

/// Normalizing the normal form of a path with Unicode components changes
/// nothing.
pub proof fn normalizing_is_idempotent(path: Seq<u8>)
    requires
        has_unicode_components(path),
    ensures
        paths::normalized(unicode::encoded(paths::normalized(path))) == paths::normalized(path),
{
    normal_forms_are_tidy_paths(path);
    tidying_keeps_components(path);
}

/// A slash at the end does not count.
pub(crate) proof fn last_slash_does_not_count(path: Seq<u8>)
    requires
        path.len() > 0,
    ensures
        paths::components(path.push(paths::SLASH)) == paths::components(path),
        text::split(path.push(paths::SLASH), paths::SLASH) == text::split(path, paths::SLASH).push(Seq::empty()),
{
    let empty = Seq::<u8>::empty();
    let long = path.push(paths::SLASH);
    text::split_at_separator(path, empty, paths::SLASH);
    text::split_without_separator(empty, paths::SLASH);
    assert(long + empty == long);
    counting_one(empty);
    counting_splits(text::split(path, paths::SLASH), seq![empty]);
    assert(text::split(path, paths::SLASH) + seq![empty] == text::split(path, paths::SLASH).push(empty));
    lead_shows_in_pieces(path);
    lead_shows_in_pieces(long);
    assert(paths::names(long) == paths::names(path));
    assert(paths::lead(long) == paths::lead(path));
}

/// A `.` behind a slash does not count.
proof fn last_dot_does_not_count(path: Seq<u8>)
    requires
        path.len() > 0,
    ensures
        paths::components(path.push(paths::SLASH).push(paths::DOT)) == paths::components(path),
{
    let long = path.push(paths::SLASH).push(paths::DOT);
    text::split_at_separator(path, paths::dot(), paths::SLASH);
    assert(!paths::dot().contains(paths::SLASH));
    text::split_without_separator(paths::dot(), paths::SLASH);
    assert(path.push(paths::SLASH) + paths::dot() == long);
    counting_one(paths::dot());
    counting_splits(text::split(path, paths::SLASH), seq![paths::dot()]);
    lead_shows_in_pieces(path);
    lead_shows_in_pieces(long);
    assert(paths::names(long) == paths::names(path));
    assert(paths::lead(long) == paths::lead(path));
}

/// Whether the last character of the path does not count.
spec fn has_idle_end(path: Seq<u8>) -> bool {
    path.len() > paths::lead_len(path) && (path.last() == paths::SLASH || (path.last() == paths::DOT && path.len()
        >= 2 && path[path.len() - 2] == paths::SLASH))
}

/// A character that does not count can be left out.
proof fn idle_end_does_not_count(path: Seq<u8>)
    requires
        has_idle_end(path),
    ensures
        paths::components(path.drop_last()) == paths::components(path),
{
    let short = path.drop_last();
    if path.last() == paths::SLASH {
        assert(short.push(paths::SLASH) == path);
        last_slash_does_not_count(short);
    } else if path.len() == 2 {
        assert(short == paths::root());
        let empty = Seq::<u8>::empty();
        text::split_at_separator(empty, paths::dot(), paths::SLASH);
        assert(empty.push(paths::SLASH) + paths::dot() == path);
        assert(!paths::dot().contains(paths::SLASH));
        text::split_without_separator(paths::dot(), paths::SLASH);
        text::split_without_separator(empty, paths::SLASH);
        counting_one(empty);
        counting_one(paths::dot());
        counting_splits(seq![empty], seq![paths::dot()]);
        bare_lead(short);
        assert(paths::names(path) == Seq::<Seq<u8>>::empty());
    } else {
        let shorter = short.drop_last();
        assert(shorter.push(paths::SLASH) == short);
        assert(shorter.push(paths::SLASH).push(paths::DOT) == path);
        last_slash_does_not_count(shorter);
        last_dot_does_not_count(shorter);
    }
}

/// What does not count at the end of a path can be left out.
proof fn trimming_keeps_components(path: Seq<u8>)
    ensures
        paths::components(paths::trimmed(path)) == paths::components(path),
        !has_idle_end(paths::trimmed(path)),
    decreases path.len(),
{
    if has_idle_end(path) {
        idle_end_does_not_count(path);
        trimming_keeps_components(path.drop_last());
        assert(paths::trimmed(path) == paths::trimmed(path.drop_last()));
    } else {
        assert(paths::trimmed(path) == path);
    }
}

/// What stands behind the last slash is the last piece.
proof fn tail_is_last_piece(path: Seq<u8>)
    ensures
        0 <= paths::tail_len(path) <= path.len(),
        text::split(path, paths::SLASH).len() >= 1,
        text::split(path, paths::SLASH).last() == path.skip(path.len() - paths::tail_len(path)),
        paths::tail_len(path) < path.len() ==> path[path.len() - paths::tail_len(path) - 1] == paths::SLASH,
    decreases path.len(),
{
    text::split_is_not_empty(path, paths::SLASH);
    if path.len() == 0 {
        assert(path.skip(0) == Seq::<u8>::empty());
    } else if path.last() == paths::SLASH {
        assert(path.skip(path.len() as int) == Seq::<u8>::empty());
    } else {
        let short = path.drop_last();
        tail_is_last_piece(short);
        text::split_is_not_empty(short, paths::SLASH);
        assert(path.skip(path.len() - paths::tail_len(path)) == short.skip(
            short.len() - paths::tail_len(short),
        ).push(path.last()));
    }
}

/// The components of a trimmed path that goes beyond its lead: those of the
/// path before the last piece, and the last piece.
proof fn last_piece_is_last_component(path: Seq<u8>)
    requires
        path.len() > paths::lead_len(path),
        path.last() != paths::SLASH,
        !(path.last() == paths::DOT && path.len() >= 2 && path[path.len() - 2] == paths::SLASH),
    ensures
        ({
            let cut = path.len() - paths::tail_len(path);
            &&& 0 <= cut < path.len()
            &&& paths::components(path) == paths::components(path.take(cut)).push(path.skip(cut))
            &&& paths::counts(path.skip(cut))
            &&& !path.skip(cut).contains(paths::SLASH)
        }),
{
    let cut = path.len() - paths::tail_len(path);
    let dir = path.take(cut);
    let name = path.skip(cut);
    let empty = Seq::<u8>::empty();
    tail_is_last_piece(path);
    text::split_pieces_lack_separator(path, paths::SLASH);
    assert(name == text::split(path, paths::SLASH)[text::split(path, paths::SLASH).len() - 1]);
    assert(paths::tail_len(path) > 0) by {
        tail_is_last_piece(path.drop_last());
    }
    if name == paths::dot() {
        assert(name[0] == paths::DOT);
        assert(path[cut] == paths::DOT);
        assert(false);
    }
    counting_one(name);
    counting_one(empty);
    lead_shows_in_pieces(path);
    lead_shows_in_pieces(dir);
    if cut == 0 {
        assert(name == path);
        text::split_without_separator(path, paths::SLASH);
        assert(dir == empty);
        text::split_without_separator(empty, paths::SLASH);
        assert(paths::components(dir) == Seq::<Seq<u8>>::empty());
        assert(paths::components(path) == seq![path]);
    } else {
        let before = dir.drop_last();
        assert(dir.last() == paths::SLASH);
        assert(before.push(paths::SLASH) == dir);
        assert(before.push(paths::SLASH) + name == path);
        assert(before.push(paths::SLASH) + empty == dir);
        text::split_at_separator(before, name, paths::SLASH);
        text::split_at_separator(before, empty, paths::SLASH);
        text::split_without_separator(name, paths::SLASH);
        text::split_without_separator(empty, paths::SLASH);
        text::split_is_not_empty(before, paths::SLASH);
        counting_splits(text::split(before, paths::SLASH), seq![name]);
        counting_splits(text::split(before, paths::SLASH), seq![empty]);
        assert(text::split(path, paths::SLASH)[0] == text::split(before, paths::SLASH)[0]);
        assert(text::split(dir, paths::SLASH)[0] == text::split(before, paths::SLASH)[0]);
        assert(paths::lead(path) == paths::lead(dir));
        assert(paths::components(path) == paths::components(dir).push(name));
    }
}

/// The components of a path that consists of its lead alone.
pub(crate) proof fn bare_lead(path: Seq<u8>)
    requires
        path.len() <= paths::lead_len(path),
    ensures
        paths::components(path) == paths::lead(path),
{
    let empty = Seq::<u8>::empty();
    counting_one(empty);
    text::split_without_separator(empty, paths::SLASH);
    if paths::is_absolute(path) {
        assert(path == paths::root());
        text::split_at_separator(empty, empty, paths::SLASH);
        assert(empty.push(paths::SLASH) + empty == path);
        counting_splits(seq![empty], seq![empty]);
    } else if paths::starts_with_dot(path) {
        assert(path == paths::dot());
        assert(!path.contains(paths::SLASH));
        text::split_without_separator(path, paths::SLASH);
        counting_one(path);
    } else {
        assert(path == empty);
    }
    assert(paths::names(path) == Seq::<Seq<u8>>::empty());
}

/// An empty path has no components.
pub proof fn an_empty_path_has_no_components(path: Seq<u8>)
    requires
        path.len() == 0,
    ensures
        paths::components(path) == Seq::<Seq<u8>>::empty(),
        paths::names(path) == Seq::<Seq<u8>>::empty(),
{
    bare_lead(path);
    assert(paths::lead(path) == Seq::<Seq<u8>>::empty());
    assert(paths::components(path) == paths::names(path));
}

/// The parent of a path has all its components but the last; a path without
/// components, and the root, have no parent.
pub proof fn parent_drops_last_component(path: Seq<u8>)
    ensures
        paths::parent(path) is Some <==> paths::components(path).len() > 0 && paths::components(
            path,
        ) != seq![paths::root()],
        paths::parent(path) matches Some(dir) ==> paths::components(dir) == paths::components(
            path,
        ).drop_last(),
{
    let short = paths::trimmed(path);
    let all = paths::components(path);
    trimming_keeps_components(path);
    if short.len() > paths::lead_len(short) {
        last_piece_is_last_component(short);
        let dir = short.take(short.len() - paths::tail_len(short));
        let name = short.skip(short.len() - paths::tail_len(short));
        trimming_keeps_components(dir);
        assert(paths::parent(path) == Some(paths::trimmed(dir)));
        assert(all == paths::components(dir).push(name));
        assert(all.drop_last() == paths::components(dir));
        if all == seq![paths::root()] {
            assert(all.last() == name);
            assert(name.contains(paths::root()[0]));
        }
    } else {
        bare_lead(short);
        let empty = Seq::<u8>::empty();
        bare_lead(empty);
        if paths::starts_with_dot(short) {
            assert(paths::parent(path) == Some(empty));
            assert(all == seq![paths::dot()]);
            assert(all.drop_last() == paths::components(empty));
            assert(all[0][0] == paths::DOT);
            assert(seq![paths::root()][0][0] == paths::SLASH);
        } else {
            assert(paths::parent(path) is None);
        }
    }
}

/// The file name of a path is its last component, where that is a name: not
/// the root, and neither `.` nor `..`.
pub proof fn file_name_is_last_component(path: Seq<u8>)
    ensures
        paths::file_name(path) is Some <==> paths::components(path).len() > 0 && paths::components(
            path,
        ).last() != paths::root() && paths::components(path).last() != paths::dot()
            && paths::components(path).last() != paths::dot_dot(),
        paths::file_name(path) matches Some(name) ==> name == paths::components(path).last(),
{
    let short = paths::trimmed(path);
    trimming_keeps_components(path);
    if short.len() > paths::lead_len(short) {
        last_piece_is_last_component(short);
        let name = short.skip(short.len() - paths::tail_len(short));
        assert(paths::components(path).last() == name);
        if name == paths::root() {
            assert(name[0] == paths::SLASH);
        }
    } else {
        bare_lead(short);
    }
}

/// Joining a relative path to a base puts its names behind the components of
/// the base; a path from the root stands for itself.
pub proof fn joining_appends_components(base: Seq<u8>, path: Seq<u8>)
    ensures
        paths::is_absolute(path) ==> paths::components(paths::joined(base, path))
            == paths::components(path),
        !paths::is_absolute(path) && base.len() == 0 ==> paths::components(
            paths::joined(base, path),
        ) == paths::components(path),
        !paths::is_absolute(path) && base.len() > 0 ==> paths::components(paths::joined(base, path))
            == paths::components(base) + paths::names(path),
{
    let whole = paths::joined(base, path);
    if !paths::is_absolute(path) {
        if base.len() == 0 {
            assert(whole == path);
        } else {
            let before = if base.last() == paths::SLASH {
                base.drop_last()
            } else {
                base
            };
            let empty = Seq::<u8>::empty();
            assert(whole == before.push(paths::SLASH) + path);
            text::split_at_separator(before, path, paths::SLASH);
            text::split_is_not_empty(before, paths::SLASH);
            text::split_is_not_empty(path, paths::SLASH);
            counting_splits(text::split(before, paths::SLASH), text::split(path, paths::SLASH));
            lead_shows_in_pieces(whole);
            lead_shows_in_pieces(base);
            if base.last() == paths::SLASH {
                assert(before.push(paths::SLASH) + empty == base);
                text::split_at_separator(before, empty, paths::SLASH);
                text::split_without_separator(empty, paths::SLASH);
                counting_one(empty);
                counting_splits(text::split(before, paths::SLASH), seq![empty]);
                assert(text::split(base, paths::SLASH)[0] == text::split(before, paths::SLASH)[0]);
            }
            assert(text::split(whole, paths::SLASH)[0] == text::split(before, paths::SLASH)[0]);
            assert(paths::is_absolute(whole) == paths::is_absolute(base));
            assert(paths::lead(whole) == paths::lead(base));
            assert(paths::names(whole) == paths::names(base) + paths::names(path));
            assert(paths::components(whole) == paths::components(base) + paths::names(path));
        }
    }
}

/// Replacing the extension of a path changes its last component alone.
pub proof fn extension_changes_last_component(path: Seq<u8>, extension: Seq<u8>)
    requires
        paths::file_name(path) is Some,
        extension.len() > 0,
        !extension.contains(paths::SLASH),
    ensures
        ({
            let name = paths::components(path).last();
            paths::components(paths::with_extension(path, extension)) == paths::components(
                path,
            ).drop_last().push(name.take(paths::stem_len(name)).push(paths::DOT) + extension)
        }),
{
    let short = paths::trimmed(path);
    let cut = short.len() - paths::tail_len(short);
    let dir = short.take(cut);
    let name = short.skip(cut);
    trimming_keeps_components(path);
    last_piece_is_last_component(short);
    assert(paths::components(path).last() == name);
    assert(paths::components(path).drop_last() == paths::components(dir));
    assert(0 <= paths::stem_len(name) <= name.len()) by {
        if exists|i: int| paths::is_last_dot(name, i) {
            let i = choose|i: int| paths::is_last_dot(name, i);
        }
    }
    let new_name = name.take(paths::stem_len(name)).push(paths::DOT) + extension;
    let whole = paths::with_extension(path, extension);
    assert(whole == dir + new_name);
    tail_is_last_piece(short);
    assert(!new_name.contains(paths::SLASH)) by {
        if new_name.contains(paths::SLASH) {
            let i = choose|i: int| 0 <= i < new_name.len() && new_name[i] == paths::SLASH;
            if i < paths::stem_len(name) {
                assert(name[i] == paths::SLASH);
            } else {
                assert(extension[i - paths::stem_len(name) - 1] == paths::SLASH);
            }
        }
    }
    assert(paths::counts(new_name));
    text::split_without_separator(new_name, paths::SLASH);
    counting_one(new_name);
    assert(!paths::is_absolute(new_name)) by {
        if paths::is_absolute(new_name) {
            assert(new_name.contains(new_name[0]));
        }
    }
    joining_appends_components(dir, new_name);
    if cut == 0 {
        assert(whole == new_name);
        bare_lead(dir);
        lead_shows_in_pieces(new_name);
    } else {
        assert(dir.last() == paths::SLASH);
        assert(whole == paths::joined(dir, new_name));
    }
    assert(paths::components(whole) == paths::components(dir).push(new_name));
}

/// A name is a path of one component.
pub proof fn a_name_is_a_path(name: Seq<u8>)
    requires
        paths::counts(name),
        !name.contains(paths::SLASH),
    ensures
        !paths::is_absolute(name),
        paths::names(name) == seq![name],
        paths::components(name) == seq![name],
{
    text::split_without_separator(name, paths::SLASH);
    counting_one(name);
    lead_shows_in_pieces(name);
}

/// Whether a path starts at the root shows in its components.
pub proof fn absolute_paths_start_with_the_root(path: Seq<u8>)
    ensures
        paths::is_absolute(path) <==> paths::components(path).len() > 0 && paths::components(
            path,
        )[0] == paths::root(),
{
    names_are_names(path);
    if !paths::is_absolute(path) && paths::components(path).len() > 0 && paths::components(path)[0]
        == paths::root() {
        assert(paths::root()[0] == paths::SLASH);
        if paths::starts_with_dot(path) {
            assert(paths::components(path)[0] == paths::dot());
            assert(paths::dot()[0] == paths::DOT);
        } else {
            assert(paths::components(path)[0] == paths::names(path)[0]);
            assert(paths::names(path)[0].contains(paths::SLASH));
        }
    }
}

/// The parent of a relative path is relative.
pub proof fn parents_of_relative_paths_are_relative(path: Seq<u8>)
    requires
        !paths::is_absolute(path),
    ensures
        paths::parent(path) matches Some(dir) ==> !paths::is_absolute(dir),
{
    parent_drops_last_component(path);
    absolute_paths_start_with_the_root(path);
    if let Some(dir) = paths::parent(path) {
        absolute_paths_start_with_the_root(dir);
        if paths::is_absolute(dir) {
            assert(paths::components(dir)[0] == paths::components(path)[0]);
        }
    }
}

/// Replacing the file name of a path changes its last component alone.
pub proof fn file_name_changes_last_component(path: Seq<u8>, name: Seq<u8>)
    requires
        paths::file_name(path) is Some,
        paths::counts(name),
        !name.contains(paths::SLASH),
    ensures
        paths::components(paths::with_file_name(path, name)) == paths::components(
            path,
        ).drop_last().push(name),
{
    file_name_is_last_component(path);
    parent_drops_last_component(path);
    a_name_is_a_path(name);
    if paths::components(path) == seq![paths::root()] {
        assert(paths::components(path).last() == paths::root());
    }
    let dir = paths::parent(path).unwrap();
    joining_appends_components(dir, name);
    if dir.len() == 0 {
        assert(dir == Seq::<u8>::empty());
        bare_lead(dir);
    }
    assert(paths::components(path).drop_last() + seq![name] == paths::components(
        path,
    ).drop_last().push(name));
}

} // verus!
