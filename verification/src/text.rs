//! Texts as sequences of characters, and sequences of any kind: searching,
//! splitting, joining.

use vstd::prelude::*;

verus! {

/// `String::push` appends the given character to the end of the string.
pub assume_specification[ String::push ](s: &mut String, c: char)
    ensures
        final(s)@ == old(s)@.push(c),
;

/// What texts and paths are made of: characters and bytes.
pub(crate) trait Symbol: Copy {
    /// Whether the two are the same.
    fn is(self, other: Self) -> (res: bool)
        ensures
            res == (self == other),
    ;
}

impl Symbol for char {
    fn is(self, other: char) -> (res: bool) {
        self == other
    }
}

impl Symbol for u8 {
    fn is(self, other: u8) -> (res: bool) {
        self == other
    }
}

/// Whether `word` stands in `s` at position `i`.
pub open spec fn has_at<A>(s: Seq<A>, i: int, word: Seq<A>) -> bool {
    &&& 0 <= i
    &&& i + word.len() <= s.len()
    &&& s.subrange(i, i + word.len()) == word
}

/// Whether `i` is the first position at which `word` stands in `s`.
pub open spec fn is_first_at(s: Seq<char>, i: int, word: Seq<char>) -> bool {
    &&& has_at(s, i, word)
    &&& forall|j: int| 0 <= j < i ==> !#[trigger] has_at(s, j, word)
}

/// `s` with the first occurrence of `word`, if there is one, replaced by `by`.
pub open spec fn replace_first(s: Seq<char>, word: Seq<char>, by: Seq<char>) -> Seq<char> {
    if exists|i: int| is_first_at(s, i, word) {
        let i = choose|i: int| is_first_at(s, i, word);
        s.take(i) + by + s.skip(i + word.len())
    } else {
        s
    }
}

/// The pieces of `s` between the separators: always one more than there are
/// separators, and none of them holds one.
pub open spec fn split<A>(s: Seq<A>, sep: A) -> Seq<Seq<A>>
    decreases s.len(),
{
    if s.len() == 0 {
        seq![Seq::<A>::empty()]
    } else {
        let front = split(s.drop_last(), sep);
        if s.last() == sep {
            front.push(Seq::empty())
        } else {
            front.drop_last().push(front.last().push(s.last()))
        }
    }
}

/// The parts one after the other, with `sep` between neighbours.
pub open spec fn join<A>(parts: Seq<Seq<A>>, sep: Seq<A>) -> Seq<A>
    decreases parts.len(),
{
    if parts.len() == 0 {
        Seq::empty()
    } else if parts.len() == 1 {
        parts[0]
    } else {
        join(parts.drop_last(), sep) + sep + parts.last()
    }
}

/// What the given vectors hold.
pub open spec fn texts<A>(parts: Seq<Vec<A>>) -> Seq<Seq<A>> {
    parts.map_values(|p: Vec<A>| p@)
}

/// The texts that the given strings hold.
pub open spec fn string_texts(parts: Seq<String>) -> Seq<Seq<char>> {
    parts.map_values(|p: String| p@)
}

/// The text that an optional string holds.
pub open spec fn optional_text(s: Option<String>) -> Option<Seq<char>> {
    match s {
        Some(s) => Some(s@),
        None => None,
    }
}

/// The piece that stands for the same place.
pub open spec fn dot() -> Seq<char> {
    seq!['.']
}

/// The piece that stands for the place above.
pub open spec fn dot_dot() -> Seq<char> {
    seq!['.', '.']
}

/// The lower-case form of an ASCII letter; any other character itself.
pub open spec fn ascii_lower(c: char) -> char {
    if 'A' <= c <= 'Z' {
        (c as u8 + 32) as u8 as char
    } else {
        c
    }
}

/// The lower-case form of an ASCII letter; any other character itself.
pub(crate) fn to_ascii_lower(c: char) -> (res: char)
    ensures
        res == ascii_lower(c),
{
    if 'A' <= c && c <= 'Z' {
        (c as u8 + 32) as char
    } else {
        c
    }
}

/// The characters of `s`, in order.
pub(crate) fn chars_of(s: &str) -> (res: Vec<char>)
    ensures
        res@ == s@,
{
    let mut res: Vec<char> = Vec::new();
    for c in it: s.chars()
        invariant
            it.seq() == s@,
            res@ == s@.take(it.index() as int),
    {
        res.push(c);
    }
    res
}

/// The text that consists of the given characters.
pub(crate) fn text_of(chars: &[char]) -> (res: String)
    ensures
        res@ == chars@,
{
    let mut res = String::new();
    for i in 0..chars.len()
        invariant
            res@ == chars@.take(i as int),
    {
        res.push(chars[i]);
    }
    res
}

/// Appends `more` to `s`.
pub(crate) fn push_all<A: Copy>(s: &mut Vec<A>, more: &[A])
    ensures
        final(s)@ == old(s)@ + more@,
{
    let ghost before = s@;
    for i in 0..more.len()
        invariant
            s@ == before + more@.take(i as int),
    {
        s.push(more[i]);
    }
}

/// Appends `more` to `s`.
pub(crate) fn push_text(s: &mut Vec<char>, more: &str)
    ensures
        final(s)@ == old(s)@ + more@,
{
    let more = chars_of(more);
    push_all(s, &more);
}

/// Whether `word` stands in `s` at position `i`.
pub(crate) fn stands_at<A: Symbol>(s: &[A], i: usize, word: &[A]) -> (res: bool)
    ensures
        res == has_at(s@, i as int, word@),
{
    if word.len() > s.len() || i > s.len() - word.len() {
        return false;
    }
    let len: usize = s.len();
    for k in 0..word.len()
        invariant
            i + word@.len() <= s@.len(),
            len == s@.len(),
            s@.subrange(i as int, i + k) == word@.take(k as int),
    {
        if !s[i + k].is(word[k]) {
            assert(s@.subrange(i as int, i + word@.len())[k as int] == s@[i + k]);
            return false;
        }
    }
    assert(word@.take(word@.len() as int) == word@);
    true
}

/// Whether the two are the same, symbol by symbol.
pub(crate) fn same<A: Symbol>(a: &[A], b: &[A]) -> (res: bool)
    ensures
        res == (a@ == b@),
{
    if a.len() != b.len() {
        return false;
    }
    let res = stands_at(a, 0, b);
    assert(a@.subrange(0, a@.len() as int) == a@);
    res
}

/// Replaces the first occurrence of `word`, if there is one, by `by`.
pub(crate) fn replace_first_text(s: &[char], word: &[char], by: &[char]) -> (res: Vec<char>)
    ensures
        res@ == replace_first(s@, word@, by@),
{
    let mut i: usize = 0;
    let len: usize = s.len();
    while i < len && !stands_at(s, i, word)
        invariant
            i <= len,
            len == s@.len(),
            forall|j: int| 0 <= j < i ==> !#[trigger] has_at(s@, j, word@),
        decreases len - i,
    {
        i = i + 1;
    }
    let mut res: Vec<char> = Vec::new();
    if stands_at(s, i, word) {
        assert(is_first_at(s@, i as int, word@));
        proof {
            let k = choose|k: int| is_first_at(s@, k, word@);
            assert(k == i);
        }
        push_all(&mut res, vstd::slice::slice_subrange(s, 0, i));
        push_all(&mut res, by);
        push_all(&mut res, vstd::slice::slice_subrange(s, i + word.len(), len));
        assert(s@.subrange(0, i as int) == s@.take(i as int));
        assert(s@.subrange(i + word@.len(), s@.len() as int) == s@.skip(i + word@.len()));
        assert(res@ == s@.take(i as int) + by@ + s@.skip(i + word@.len()));
    } else {
        assert forall|k: int| !is_first_at(s@, k, word@) by {
            if is_first_at(s@, k, word@) {
                assert(has_at(s@, k, word@));
            }
        }
        push_all(&mut res, s);
    }
    res
}

/// The pieces of `s` between the separators.
pub(crate) fn split_text<A: Symbol>(s: &[A], sep: A) -> (res: Vec<Vec<A>>)
    ensures
        texts(res@) == split(s@, sep),
{
    let mut res: Vec<Vec<A>> = Vec::new();
    let mut piece: Vec<A> = Vec::new();
    for i in 0..s.len()
        invariant
            texts(res@).push(piece@) == split(s@.take(i as int), sep),
    {
        let ghost front = split(s@.take(i as int), sep);
        let c = s[i];
        assert(s@.take(i + 1).drop_last() == s@.take(i as int));
        assert(front.last() == piece@);
        assert(front.drop_last() == texts(res@));
        if c.is(sep) {
            let ghost before = res@;
            let ghost last = piece;
            res.push(piece);
            piece = Vec::new();
            assert(texts(res@) == texts(before).push(last@));
            assert(texts(res@).push(piece@) == front.push(Seq::empty()));
        } else {
            piece.push(c);
        }
    }
    assert(s@.take(s@.len() as int) == s@);
    let ghost before = res@;
    let ghost last = piece;
    res.push(piece);
    assert(texts(res@) == texts(before).push(last@));
    res
}

/// The parts one after the other, with `sep` between neighbours.
pub(crate) fn join_texts<A: Copy>(parts: &[Vec<A>], sep: &[A]) -> (res: Vec<A>)
    ensures
        res@ == join(texts(parts@), sep@),
{
    let mut res: Vec<A> = Vec::new();
    for i in 0..parts.len()
        invariant
            res@ == join(texts(parts@).take(i as int), sep@),
    {
        assert(texts(parts@).take(i + 1).drop_last() == texts(parts@).take(i as int));
        assert(texts(parts@).take(i + 1).last() == parts@[i as int]@);
        if i > 0 {
            push_all(&mut res, sep);
        }
        push_all(&mut res, &parts[i]);
    }
    assert(texts(parts@).take(parts@.len() as int) == texts(parts@));
    res
}

/// A split text has at least one piece.
pub proof fn split_is_not_empty<A>(s: Seq<A>, sep: A)
    ensures
        split(s, sep).len() >= 1,
    decreases s.len(),
{
    if s.len() > 0 {
        split_is_not_empty(s.drop_last(), sep);
    }
}

/// No piece of a split text holds the separator.
pub proof fn split_pieces_lack_separator<A>(s: Seq<A>, sep: A)
    ensures
        forall|i: int| 0 <= i < split(s, sep).len() ==> !(#[trigger] split(s, sep)[i]).contains(sep),
    decreases s.len(),
{
    if s.len() > 0 {
        let front = split(s.drop_last(), sep);
        split_pieces_lack_separator(s.drop_last(), sep);
        split_is_not_empty(s.drop_last(), sep);
        assert forall|i: int| 0 <= i < split(s, sep).len() implies !(#[trigger] split(
            s,
            sep,
        )[i]).contains(sep) by {
            if i < front.len() {
                assert(!front[i].contains(sep));
                if s.last() != sep && i == front.len() - 1 {
                    let piece = front.last().push(s.last());
                    if piece.contains(sep) {
                        let k = piece.index_of(sep);
                        assert(front.last()[k] == sep);
                    }
                }
            }
        }
    }
}

/// Splitting what stands on both sides of a separator splits the whole.
pub proof fn split_at_separator<A>(a: Seq<A>, b: Seq<A>, sep: A)
    ensures
        split(a.push(sep) + b, sep) == split(a, sep) + split(b, sep),
    decreases b.len(),
{
    let whole = a.push(sep) + b;
    split_is_not_empty(a, sep);
    if b.len() == 0 {
        assert(whole == a.push(sep));
        assert(whole.drop_last() == a);
    } else {
        split_at_separator(a, b.drop_last(), sep);
        split_is_not_empty(b.drop_last(), sep);
        assert(whole.drop_last() == a.push(sep) + b.drop_last());
        let front = split(b.drop_last(), sep);
        assert((split(a, sep) + front).drop_last() == split(a, sep) + front.drop_last());
    }
}

/// A text without a separator is its only piece.
pub proof fn split_without_separator<A>(s: Seq<A>, sep: A)
    requires
        !s.contains(sep),
    ensures
        split(s, sep) == seq![s],
    decreases s.len(),
{
    if s.len() == 0 {
        assert(s == Seq::<A>::empty());
    } else {
        assert(s[s.len() - 1] != sep);
        assert forall|k: int| 0 <= k < s.len() - 1 implies s.drop_last()[k] != sep by {
            assert(s[k] != sep);
        }
        split_without_separator(s.drop_last(), sep);
        assert(s.drop_last().push(s.last()) == s);
    }
}

/// Splitting undoes joining, for parts that do not hold the separator.
pub proof fn split_undoes_join<A>(parts: Seq<Seq<A>>, sep: A)
    requires
        parts.len() > 0,
        forall|i: int| 0 <= i < parts.len() ==> !(#[trigger] parts[i]).contains(sep),
    ensures
        split(join(parts, seq![sep]), sep) == parts,
    decreases parts.len(),
{
    if parts.len() == 1 {
        split_without_separator(parts[0], sep);
    } else {
        let front = parts.drop_last();
        assert forall|i: int| 0 <= i < front.len() implies !(#[trigger] front[i]).contains(sep) by {
            assert(front[i] == parts[i]);
        }
        split_undoes_join(front, sep);
        split_without_separator(parts.last(), sep);
        split_at_separator(join(front, seq![sep]), parts.last(), sep);
        assert(join(front, seq![sep]) + seq![sep] == join(front, seq![sep]).push(sep));
        assert(front + seq![parts.last()] == parts);
    }
}

/// Joining takes the first part to the front.
pub proof fn join_starts_with_first<A>(first: Seq<A>, rest: Seq<Seq<A>>, sep: Seq<A>)
    requires
        rest.len() > 0,
    ensures
        join(seq![first] + rest, sep) == first + sep + join(rest, sep),
    decreases rest.len(),
{
    let parts = seq![first] + rest;
    assert(parts.drop_last() == seq![first] + rest.drop_last());
    if rest.len() == 1 {
        assert(rest.drop_last() == Seq::<Seq<A>>::empty());
        assert(parts.drop_last() == seq![first]);
        assert(join(seq![first], sep) == first);
    } else {
        join_starts_with_first(first, rest.drop_last(), sep);
        assert(first + sep + join(rest.drop_last(), sep) + sep + rest.last() == first + sep + (join(
            rest.drop_last(),
            sep,
        ) + sep + rest.last()));
    }
}

} // verus!
