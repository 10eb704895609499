//! What the hidden table of contents consists of.

use vstd::prelude::*;

use crate::encoding_laws;
use crate::outline;
use crate::toc;
use crate::unicode;

verus! {

/// Whether `id` is the path with a dash for each slash and backslash, with the
/// letters `A` to `Z` in lower case, and else character by character the same.
pub open spec fn is_lowered_and_dashed(id: Seq<char>, path: Seq<char>) -> bool {
    &&& id.len() == path.len()
    &&& forall|i: int|
        0 <= i < path.len() ==> if path[i] == '/' || path[i] == '\\' {
            #[trigger] id[i] == '-'
        } else if 65 <= path[i] as int <= 90 {
            id[i] as int == path[i] as int + 32
        } else {
            id[i] == path[i]
        }
}

/// The identifier of a page is the path without `.md` at its end, lowered and
/// with dashes; a path with another end is taken whole.
pub proof fn page_ids_are_paths_without_md(path: Seq<char>)
    ensures
        is_lowered_and_dashed(toc::page_id(path + seq!['.', 'm', 'd']), path),
        (path.len() < 3 || path[path.len() - 3] != '.' || path[path.len() - 2] != 'm'
            || path[path.len() - 1] != 'd') ==> is_lowered_and_dashed(toc::page_id(path), path),
{
    reveal_strlit(".md");
    let ending = ".md"@;
    assert(ending == seq!['.', 'm', 'd']);
    let long = path + ending;
    let n = path.len() as int;
    assert(long.subrange(n, n + 3) == ending);
    assert(long.take(n) == path);
    assert(toc::without_md(long) == path);
    if n >= 3 && path.subrange(n - 3, n) == ending {
        assert(path.subrange(n - 3, n)[0] == path[n - 3]);
        assert(path.subrange(n - 3, n)[1] == path[n - 2]);
        assert(path.subrange(n - 3, n)[2] == path[n - 1]);
    }
}

/// A path of lower-case letters, digits and underscores, and `.md` behind it,
/// has the path without `.md` as the identifier of its page.
pub proof fn plain_paths_are_their_own_ids(path: Seq<char>)
    requires
        forall|i: int|
            0 <= i < path.len() ==> 97 <= #[trigger] path[i] as int <= 122 || 48 <= path[i] as int
                <= 57 || path[i] == '_',
    ensures
        toc::page_id(path + seq!['.', 'm', 'd']) == path,
{
    page_ids_are_paths_without_md(path);
    let id = toc::page_id(path + seq!['.', 'm', 'd']);
    assert forall|i: int| 0 <= i < path.len() implies id[i] == path[i] by {
        assert(97 <= path[i] as int <= 122 || 48 <= path[i] as int <= 57 || path[i] == '_');
    }
    assert(id == path);
}

/// The table of contents of no items is an empty block that is not displayed.
pub proof fn no_items_give_an_empty_table()
    ensures
        toc::toc_fix(Seq::empty()) == "<div style=\"display: none\">"@ + "</div>"@,
{
    assert("<div style=\"display: none\">"@ + Seq::<char>::empty()
        == "<div style=\"display: none\">"@);
}

/// The links of a table and its end.
proof fn tables_end(items: Seq<outline::ItemView>, item: outline::ItemView, more: Seq<char>)
    requires
        toc::item_link(item) == more,
    ensures
        toc::toc_fix(items).len() >= "</div>"@.len(),
        toc::toc_fix(items.push(item)) == toc::toc_fix(items).take(
            toc::toc_fix(items).len() - "</div>"@.len(),
        ) + more + "</div>"@,
{
    let open = "<div style=\"display: none\">"@;
    let end = "</div>"@;
    let table = toc::toc_fix(items);
    assert(items.push(item).drop_last() == items);
    assert(table.take(table.len() - end.len()) == open + toc::item_links(items));
    assert(open + (toc::item_links(items) + more) == open + toc::item_links(items) + more);
}

/// A chapter more that is no draft adds one link to the end of the table, to
/// the identifier of its page and with it as its text.
pub proof fn chapters_add_links(
    items: Seq<outline::ItemView>,
    chapter: outline::ChapterView,
    path: Seq<u8>,
)
    requires
        chapter.path == Some(path),
    ensures
        ({
            let table = toc::toc_fix(items);
            let id = toc::page_id(unicode::displayed(path));
            toc::toc_fix(items.push(outline::ItemView::Chapter(chapter))) == table.take(
                table.len() - "</div>"@.len(),
            ) + ("<a href=\"#"@ + id + "\">"@ + id + "</a>"@) + "</div>"@
        }),
{
    tables_end(
        items,
        outline::ItemView::Chapter(chapter),
        toc::page_link(toc::page_id(unicode::displayed(path))),
    );
}

/// A draft, a separator or the title of a part adds nothing.
pub proof fn other_items_add_nothing(items: Seq<outline::ItemView>, item: outline::ItemView)
    requires
        item matches outline::ItemView::Chapter(chapter) ==> chapter.path is None,
    ensures
        toc::toc_fix(items.push(item)) == toc::toc_fix(items),
{
    let none = Seq::<char>::empty();
    tables_end(items, item, none);
    let table = toc::toc_fix(items);
    let end = "</div>"@;
    assert(table.take(table.len() - end.len()) + none + end == table);
}

/// The text that stands for bytes is what they encode in UTF-8; what stands for
/// bytes that are not UTF-8 is not for this library to say.
pub proof fn bytes_are_shown_as_what_they_encode(s: Seq<char>, bytes: Seq<u8>)
    ensures
        unicode::displayed(vstd::utf8::encode_utf8(s)) == s,
        !vstd::utf8::valid_utf8(bytes) ==> unicode::displayed(bytes) == unicode::lossy_text(bytes),
{
    encoding_laws::encoding_is_undone_by_decoding(s);
}

} // verus!
