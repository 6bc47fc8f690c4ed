//! Text helpers shared by the path and type modules: joining and splitting
//! sequences of characters, and the few string operations that are taken on trust.

use itertools::Itertools;
use vstd::prelude::*;

verus! {

/// The texts behind a sequence of strings.
pub open spec fn texts_of(items: Seq<String>) -> Seq<Seq<char>> {
    items.map_values(|s: String| s@)
}

/// The character sequences behind a sequence of character vectors.
pub open spec fn seqs_of(items: Seq<Vec<char>>) -> Seq<Seq<char>> {
    items.map_values(|v: Vec<char>| v@)
}

/// The items written one after another, with `sep` between neighbours.
pub open spec fn join_with(items: Seq<Seq<char>>, sep: Seq<char>) -> Seq<char>
    decreases items.len(),
{
    if items.len() == 0 {
        Seq::empty()
    } else if items.len() == 1 {
        items[0]
    } else {
        items[0] + sep + join_with(items.drop_first(), sep)
    }
}

/// Whether `sep` stands in `s` at position `i`.
pub open spec fn occurs_at(s: Seq<char>, sep: Seq<char>, i: int) -> bool {
    &&& 0 <= i
    &&& i + sep.len() <= s.len()
    &&& forall|k: int| 0 <= k < sep.len() ==> s[i + k] == #[trigger] sep[k]
}

/// The first position at or after `from` where `sep` stands in `s`.
pub open spec fn find_from(s: Seq<char>, sep: Seq<char>, from: int) -> Option<int>
    decreases s.len() - from,
{
    if from < 0 || from + sep.len() > s.len() {
        None
    } else if occurs_at(s, sep, from) {
        Some(from)
    } else {
        find_from(s, sep, from + 1)
    }
}

/// Whether `sep` stands anywhere in `s`.
pub open spec fn contains_text(s: Seq<char>, sep: Seq<char>) -> bool {
    find_from(s, sep, 0) is Some
}

/// The pieces of `s` from position `start` on, cut at each occurrence of `sep`
/// found scanning left to right; an occurrence that is used is skipped whole.
pub open spec fn split_from(s: Seq<char>, sep: Seq<char>, start: int) -> Seq<Seq<char>>
    decreases s.len() - start,
{
    match find_from(s, sep, start) {
        Some(i) => if sep.len() > 0 && start <= i && i + sep.len() <= s.len() {
            seq![s.subrange(start, i)] + split_from(s, sep, i + sep.len())
        } else {
            seq![s.subrange(start, s.len() as int)]
        },
        None => seq![s.subrange(start, s.len() as int)],
    }
}

/// The pieces of `s` between the occurrences of the non-empty separator `sep`.
pub open spec fn split_on(s: Seq<char>, sep: Seq<char>) -> Seq<Seq<char>> {
    split_from(s, sep, 0)
}

/// What `find_from` returns is an occurrence, and the first one.
pub proof fn lemma_find_from(s: Seq<char>, sep: Seq<char>, from: int)
    requires
        0 <= from,
    ensures
        match find_from(s, sep, from) {
            Some(i) => from <= i && occurs_at(s, sep, i) && forall|j: int|
                from <= j < i ==> !occurs_at(s, sep, j),
            None => forall|j: int| from <= j ==> !occurs_at(s, sep, j),
        },
    decreases s.len() - from,
{
    if from + sep.len() > s.len() {
    } else if occurs_at(s, sep, from) {
    } else {
        lemma_find_from(s, sep, from + 1);
    }
}

/// Where nothing occurs between `from` and `to`, the search may start at `to`.
pub proof fn lemma_find_from_skip(s: Seq<char>, sep: Seq<char>, from: int, to: int)
    requires
        0 <= from <= to,
        forall|j: int| from <= j < to ==> !occurs_at(s, sep, j),
    ensures
        find_from(s, sep, from) == find_from(s, sep, to),
    decreases to - from,
{
    if from < to {
        lemma_find_from_skip(s, sep, from + 1, to);
        if from + sep.len() > s.len() {
            lemma_find_from(s, sep, to);
        }
    }
}

/// `String::push` appends one character.
pub assume_specification[ std::string::String::push ](s: &mut std::string::String, c: char)
    ensures
        final(s)@ == old(s)@.push(c),
;

/// `Itertools::format` rendered through `to_string`: every item in turn, with
/// `sep` written between two neighbouring items and nowhere else.
#[verifier::external_body]
pub(crate) fn format_joined(items: &Vec<String>, sep: &str) -> (text: String)
    ensures
        text@ == join_with(texts_of(items@), sep@),
{
    items.iter().format(sep).to_string()
}

/// Joining one item more appends the separator and the item, or the item
/// alone where it is the first.
pub proof fn lemma_join_push(items: Seq<Seq<char>>, item: Seq<char>, sep: Seq<char>)
    ensures
        join_with(items.push(item), sep) == if items.len() == 0 {
            item
        } else {
            join_with(items, sep) + sep + item
        },
    decreases items.len(),
{
    let all = items.push(item);
    if items.len() == 0 {
    } else if items.len() == 1 {
        assert(all.drop_first() =~= seq![item]);
        assert(all[0] == items[0]);
        assert(join_with(all.drop_first(), sep) == item);
        assert(join_with(all, sep) == all[0] + sep + join_with(all.drop_first(), sep));
        assert(join_with(items, sep) == items[0]);
    } else {
        assert(all.drop_first() =~= items.drop_first().push(item));
        assert(all[0] == items[0]);
        lemma_join_push(items.drop_first(), item, sep);
        assert(join_with(all, sep) == all[0] + sep + join_with(all.drop_first(), sep));
        assert(join_with(items, sep) == items[0] + sep + join_with(items.drop_first(), sep));
        assert(join_with(all, sep) =~= join_with(items, sep) + sep + item);
    }
}

/// The items concatenated, with `sep` between neighbours.
pub(crate) fn concat_joined(items: &Vec<String>, sep: &str) -> (text: String)
    ensures
        text@ == join_with(texts_of(items@), sep@),
{
    let mut text = String::new();
    let mut i: usize = 0;
    assert(texts_of(items@).take(0) =~= Seq::<Seq<char>>::empty());
    while i < items.len()
        invariant
            i <= items.len(),
            text@ == join_with(texts_of(items@).take(i as int), sep@),
        decreases items.len() - i,
    {
        proof {
            let all = texts_of(items@);
            assert(all.take(i + 1) =~= all.take(i as int).push(items@[i as int]@));
            lemma_join_push(all.take(i as int), items@[i as int]@, sep@);
        }
        if i > 0 {
            text.append(sep);
        }
        text.append(items[i].as_str());
        i += 1;
    }
    assert(texts_of(items@).take(i as int) =~= texts_of(items@));
    text
}

/// The characters of a string, in order.
pub(crate) fn chars_of(s: &str) -> (chars: Vec<char>)
    ensures
        chars@ == s@,
{
    let mut chars: Vec<char> = Vec::new();
    for c in it: s.chars()
        invariant
            chars@ == it.seq().take(it.index() as int),
            it.seq() == s@,
    {
        chars.push(c);
    }
    chars
}

/// The string made of the given characters.
pub(crate) fn string_of(chars: &Vec<char>) -> (s: String)
    ensures
        s@ == chars@,
{
    let mut s = String::new();
    let mut i: usize = 0;
    while i < chars.len()
        invariant
            i <= chars.len(),
            s@ == chars@.take(i as int),
        decreases chars.len() - i,
    {
        s.push(chars[i]);
        i += 1;
    }
    s
}

/// Whether `sep` stands in `s` at position `i`.
pub(crate) fn occurs_at_index(s: &Vec<char>, sep: &Vec<char>, i: usize) -> (found: bool)
    ensures
        found == occurs_at(s@, sep@, i as int),
{
    if sep.len() > s.len() || i > s.len() - sep.len() {
        return false;
    }
    let mut k: usize = 0;
    while k < sep.len()
        invariant
            k <= sep.len(),
            i + sep.len() <= s.len(),
            forall|j: int| 0 <= j < k ==> s@[i + j] == sep@[j],
        decreases sep.len() - k,
    {
        if s[i + k] != sep[k] {
            return false;
        }
        k += 1;
    }
    true
}

/// Whether `sep` stands anywhere in `s`.
pub(crate) fn contains_chars(s: &Vec<char>, sep: &Vec<char>) -> (found: bool)
    ensures
        found == contains_text(s@, sep@),
{
    let mut i: usize = 0;
    while i < s.len() && sep.len() <= s.len() - i
        invariant
            i <= s.len(),
            find_from(s@, sep@, 0) == find_from(s@, sep@, i as int),
        decreases s.len() - i,
    {
        if occurs_at_index(s, sep, i) {
            return true;
        }
        proof {
            lemma_find_from_skip(s@, sep@, i as int, i + 1);
        }
        i += 1;
    }
    if sep.len() == 0 {
        assert(occurs_at(s@, sep@, i as int));
        return true;
    }
    false
}

/// The characters of `s` from `from` up to `to`.
pub(crate) fn slice_chars(s: &Vec<char>, from: usize, to: usize) -> (piece: Vec<char>)
    requires
        from <= to <= s.len(),
    ensures
        piece@ == s@.subrange(from as int, to as int),
{
    let mut piece: Vec<char> = Vec::new();
    let mut i: usize = from;
    while i < to
        invariant
            from <= i <= to <= s.len(),
            piece@ == s@.subrange(from as int, i as int),
        decreases to - i,
    {
        piece.push(s[i]);
        i += 1;
    }
    piece
}

/// Cuts `s` at each occurrence of the non-empty separator `sep`.
pub(crate) fn split_chars(s: &Vec<char>, sep: &Vec<char>) -> (pieces: Vec<Vec<char>>)
    requires
        sep.len() > 0,
    ensures
        seqs_of(pieces@) == split_on(s@, sep@),
{
    let mut pieces: Vec<Vec<char>> = Vec::new();
    let mut start: usize = 0;
    let mut i: usize = 0;
    while i < s.len() && sep.len() <= s.len() - i
        invariant
            sep.len() > 0,
            start <= i <= s.len(),
            find_from(s@, sep@, start as int) == find_from(s@, sep@, i as int),
            split_on(s@, sep@) == seqs_of(pieces@) + split_from(s@, sep@, start as int),
        decreases s.len() - i,
    {
        if occurs_at_index(s, sep, i) {
            let piece = slice_chars(s, start, i);
            proof {
                assert(seqs_of(pieces@.push(piece)) =~= seqs_of(pieces@) + seq![piece@]);
            }
            pieces.push(piece);
            i += sep.len();
            start = i;
        } else {
            proof {
                lemma_find_from_skip(s@, sep@, i as int, i + 1);
            }
            i += 1;
        }
    }
    let piece = slice_chars(s, start, s.len());
    proof {
        assert(find_from(s@, sep@, i as int) is None);
        assert(seqs_of(pieces@.push(piece)) =~= seqs_of(pieces@) + seq![piece@]);
    }
    pieces.push(piece);
    pieces
}

/// Searching in `b` finds what searching in `a + b` finds behind `a`.
pub proof fn lemma_find_from_shift(a: Seq<char>, b: Seq<char>, sep: Seq<char>, from: int)
    requires
        0 <= from,
    ensures
        find_from(a + b, sep, a.len() + from) == match find_from(b, sep, from) {
            Some(i) => Some(a.len() + i),
            None => None,
        },
    decreases b.len() - from,
{
    let s = a + b;
    if from + sep.len() > b.len() {
    } else {
        if occurs_at(b, sep, from) {
            assert forall|k: int| 0 <= k < sep.len() implies s[a.len() + from + k]
                == #[trigger] sep[k] by {
                assert(s[a.len() + from + k] == b[from + k]);
            }
        }
        if occurs_at(s, sep, a.len() + from) {
            assert forall|k: int| 0 <= k < sep.len() implies b[from + k] == #[trigger] sep[k] by {
                assert(s[a.len() + from + k] == b[from + k]);
            }
        }
        assert(occurs_at(s, sep, a.len() + from) == occurs_at(b, sep, from));
        if !occurs_at(b, sep, from) {
            lemma_find_from_shift(a, b, sep, from + 1);
        }
    }
}

/// Splitting `b` gives what splitting `a + b` gives behind `a`.
pub proof fn lemma_split_from_shift(a: Seq<char>, b: Seq<char>, sep: Seq<char>, start: int)
    requires
        0 <= start <= b.len(),
    ensures
        split_from(a + b, sep, a.len() + start) == split_from(b, sep, start),
    decreases b.len() - start,
{
    let s = a + b;
    lemma_find_from_shift(a, b, sep, start);
    lemma_find_from(b, sep, start);
    match find_from(b, sep, start) {
        Some(i) => {
            if sep.len() > 0 && start <= i && i + sep.len() <= b.len() {
                lemma_split_from_shift(a, b, sep, i + sep.len());
                assert(s.subrange(a.len() + start, a.len() + i) =~= b.subrange(start, i));
            } else {
                assert(s.subrange(a.len() + start, s.len() as int) =~= b.subrange(
                    start,
                    b.len() as int,
                ));
            }
        },
        None => {
            assert(s.subrange(a.len() + start, s.len() as int) =~= b.subrange(
                start,
                b.len() as int,
            ));
        },
    }
}

/// A character that is in no item and not in the separator is not in the joined text.
pub proof fn lemma_join_avoids(items: Seq<Seq<char>>, sep: Seq<char>, c: char)
    requires
        forall|i: int, k: int| 0 <= i < items.len() && 0 <= k < items[i].len() ==> items[i][k] != c,
        forall|k: int| 0 <= k < sep.len() ==> sep[k] != c,
    ensures
        forall|k: int| 0 <= k < join_with(items, sep).len() ==> join_with(items, sep)[k] != c,
    decreases items.len(),
{
    if items.len() >= 2 {
        let rest = items.drop_first();
        assert forall|i: int, k: int| 0 <= i < rest.len() && 0 <= k < rest[i].len() implies rest[i][k]
            != c by {
            assert(rest[i] == items[i + 1]);
        }
        lemma_join_avoids(rest, sep, c);
        let tail = join_with(rest, sep);
        let text = join_with(items, sep);
        assert(text == items[0] + sep + tail);
        assert forall|k: int| 0 <= k < text.len() implies text[k] != c by {
            if k < items[0].len() {
                assert(text[k] == items[0][k]);
            } else if k < items[0].len() + sep.len() {
                assert(text[k] == sep[k - items[0].len()]);
            } else {
                assert(text[k] == tail[k - items[0].len() - sep.len()]);
            }
        }
    } else if items.len() == 1 {
        let text = join_with(items, sep);
        assert forall|k: int| 0 <= k < text.len() implies text[k] != c by {
            assert(text[k] == items[0][k]);
        }
    }
}

/// Joining and then splitting gives the items back, where the separator is found
/// at the joints only: it starts at no position inside an item of the joined text.
pub proof fn lemma_split_join(items: Seq<Seq<char>>, sep: Seq<char>)
    requires
        sep.len() > 0,
        items.len() > 0,
        joints_only(items, sep),
    ensures
        split_on(join_with(items, sep), sep) == items,
    decreases items.len(),
{
    let text = join_with(items, sep);
    if items.len() == 1 {
        assert(items.drop_first().len() == 0);
        lemma_find_from_skip(text, sep, 0, text.len() as int);
        assert(find_from(text, sep, text.len() as int) is None);
        assert(text.subrange(0, text.len() as int) =~= text);
        assert(split_on(text, sep) =~= items);
    } else {
        let head = items[0];
        let rest = items.drop_first();
        let tail = join_with(rest, sep);
        assert(text == head + sep + tail);
        assert(occurs_at(text, sep, head.len() as int)) by {
            assert forall|k: int| 0 <= k < sep.len() implies text[head.len() + k]
                == #[trigger] sep[k] by {}
        }
        lemma_find_from_skip(text, sep, 0, head.len() as int);
        assert(find_from(text, sep, 0) == Some(head.len() as int));
        assert(text.subrange(0, head.len() as int) =~= head);
        assert(text =~= (head + sep) + tail);
        lemma_split_from_shift(head + sep, tail, sep, 0);
        lemma_split_join(rest, sep);
        assert(split_on(text, sep) =~= items);
    }
}

/// Whether, in the joined text, the separator starts at no position inside an
/// item, for this item list and for each of its tails.
pub open spec fn joints_only(items: Seq<Seq<char>>, sep: Seq<char>) -> bool
    decreases items.len(),
{
    if items.len() == 0 {
        true
    } else {
        &&& forall|j: int|
            0 <= j < items[0].len() ==> !occurs_at(join_with(items, sep), sep, j)
        &&& items.len() > 1 ==> joints_only(items.drop_first(), sep)
    }
}

} // verus!
