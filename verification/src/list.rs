//! Lists: a value cut at its commas into items.
//!
//! The cut is aware of quotes. A comma separates two items only where an even
//! number of double quotes stands before it in the value, so an item written
//! in quotes may hold commas. Each piece is then trimmed and loses one layer
//! of surrounding quotes.

use vstd::prelude::*;
use crate::text::{join, owned_range, strip_quotes, strip_quotes_bounds, trim, trim_bounds};

verus! {

/// The number of characters before the first separating comma of `s`, or the
/// length of `s` where it holds none. `quoted` says whether `s` starts inside
/// quotes.
pub open spec fn first_piece_len(s: Seq<char>, quoted: bool) -> nat
    decreases s.len(),
{
    if s.len() == 0 || (s.first() == ',' && !quoted) {
        0
    } else {
        1 + first_piece_len(s.drop_first(), quoted != (s.first() == '"'))
    }
}

/// The pieces of `s` between its separating commas, in order. A value without
/// a separating comma is one piece, so the result is never empty.
pub open spec fn split_pieces(s: Seq<char>) -> Seq<Seq<char>>
    decreases s.len(),
{
    let n = first_piece_len(s, false) as int;
    if n >= s.len() {
        seq![s]
    } else {
        seq![s.take(n)] + split_pieces(s.skip(n + 1))
    }
}

/// The item that a piece stands for: the piece trimmed, without one layer of
/// surrounding quotes.
pub open spec fn item_of(piece: Seq<char>) -> Seq<char> {
    strip_quotes(trim(piece))
}

/// The items of the list that `s` writes.
pub open spec fn list_items(s: Seq<char>) -> Seq<Seq<char>> {
    split_pieces(s).map_values(|piece: Seq<char>| item_of(piece))
}

/// Whether one of `items` is the empty text.
pub open spec fn has_empty_item(items: Seq<Seq<char>>) -> bool {
    exists|i: int| 0 <= i < items.len() && #[trigger] items[i].len() == 0
}

/// Whether the end of `s` is inside quotes, where `quoted` says whether its
/// start is: each double quote of `s` opens or closes.
pub open spec fn ends_quoted(s: Seq<char>, quoted: bool) -> bool
    decreases s.len(),
{
    if s.len() == 0 {
        quoted
    } else {
        ends_quoted(s.drop_first(), quoted != (s.first() == '"'))
    }
}

/// `first_piece_len` stays within the text and stops at a comma outside
/// quotes; before that place no comma separates.
pub proof fn lemma_first_piece_len(s: Seq<char>, quoted: bool)
    ensures
        first_piece_len(s, quoted) <= s.len(),
        first_piece_len(s.take(first_piece_len(s, quoted) as int), quoted) == first_piece_len(
            s,
            quoted,
        ),
        first_piece_len(s, quoted) < s.len() ==> s[first_piece_len(s, quoted) as int] == ','
            && !ends_quoted(s.take(first_piece_len(s, quoted) as int), quoted),
    decreases s.len(),
{
    let n = first_piece_len(s, quoted) as int;
    if s.len() > 0 && !(s.first() == ',' && !quoted) {
        let t = s.drop_first();
        lemma_first_piece_len(t, quoted != (s.first() == '"'));
        assert(s.take(n).drop_first() == t.take(n - 1));
    }
}

/// The pieces are cut at the commas outside quotes and nowhere else: there is
/// one piece at least, no comma separates within a piece, every piece but the
/// last ends outside quotes, and the pieces with a comma between each two of
/// them are the value.
pub proof fn law_split_pieces(s: Seq<char>)
    ensures
        split_pieces(s).len() >= 1,
        join(split_pieces(s), ',') == s,
        forall|i: int|
            0 <= i < split_pieces(s).len() ==> first_piece_len(
                #[trigger] split_pieces(s)[i],
                false,
            ) == split_pieces(s)[i].len(),
        forall|i: int|
            0 <= i < split_pieces(s).len() - 1 ==> !ends_quoted(
                #[trigger] split_pieces(s)[i],
                false,
            ),
    decreases s.len(),
{
    let n = first_piece_len(s, false) as int;
    let pieces = split_pieces(s);
    lemma_first_piece_len(s, false);
    if n < s.len() {
        let rest = split_pieces(s.skip(n + 1));
        law_split_pieces(s.skip(n + 1));
        assert(pieces.drop_first() == rest);
        assert forall|i: int| 0 <= i < pieces.len() implies first_piece_len(
            #[trigger] pieces[i],
            false,
        ) == pieces[i].len() by {
            if i > 0 {
                assert(pieces[i] == rest[i - 1]);
            }
        }
        assert forall|i: int| 0 <= i < pieces.len() - 1 implies !ends_quoted(
            #[trigger] pieces[i],
            false,
        ) by {
            if i > 0 {
                assert(pieces[i] == rest[i - 1]);
            }
        }
    }
}

/// The end of the piece that starts at `lo` in the window `[lo, hi)` of `v`.
pub(crate) fn piece_end(v: &Vec<char>, lo: usize, hi: usize) -> (r: usize)
    requires
        lo <= hi <= v.len(),
    ensures
        lo <= r <= hi,
        r - lo == first_piece_len(v@.subrange(lo as int, hi as int), false),
{
    let mut i: usize = lo;
    let mut quoted = false;
    while i < hi && (quoted || v[i] != ',')
        invariant
            lo <= i <= hi <= v.len(),
            first_piece_len(v@.subrange(lo as int, hi as int), false) == (i - lo)
                + first_piece_len(v@.subrange(i as int, hi as int), quoted),
        decreases hi - i,
    {
        assert(v@.subrange(i as int, hi as int).drop_first() == v@.subrange(i + 1, hi as int));
        if v[i] == '"' {
            quoted = !quoted;
        }
        i += 1;
    }
    i
}

/// Reads the list that the window `[lo, hi)` of `text` writes. `chars` holds
/// the characters of `text`. The result is `None` where an item is empty.
pub(crate) fn read_items(text: &str, chars: &Vec<char>, lo: usize, hi: usize) -> (r: Option<
    Vec<String>,
>)
    requires
        chars@ == text@,
        lo <= hi <= chars.len(),
    ensures
        r is None <==> has_empty_item(list_items(chars@.subrange(lo as int, hi as int))),
        r matches Some(items) ==> items.deep_view() == list_items(
            chars@.subrange(lo as int, hi as int),
        ),
{
    let ghost whole = chars@.subrange(lo as int, hi as int);
    let mut items: Vec<String> = Vec::new();
    let mut start: usize = lo;
    loop
        invariant
            chars@ == text@,
            lo <= start <= hi <= chars.len(),
            whole == chars@.subrange(lo as int, hi as int),
            list_items(whole) == items.deep_view() + list_items(
                chars@.subrange(start as int, hi as int),
            ),
            !has_empty_item(items.deep_view()),
        decreases hi - start,
    {
        let ghost rest = chars@.subrange(start as int, hi as int);
        let ghost before = items.deep_view();
        let end = piece_end(chars, start, hi);
        let (a, b) = trim_bounds(chars, start, end);
        let (a, b) = strip_quotes_bounds(chars, a, b);
        assert(chars@.subrange(start as int, end as int) == rest.take(end - start));
        if a == b {
            proof {
                let all = list_items(whole);
                assert(all[before.len() as int] == list_items(rest)[0]);
            }
            return None;
        }
        let item = owned_range(text, a, b);
        items.push(item);
        assert(items.deep_view() == before.push(item@));
        if end == hi {
            return Some(items);
        }
        proof {
            let after = chars@.subrange(end + 1, hi as int);
            assert(rest.skip(end - start + 1) == after);
        }
        start = end + 1;
    }
}

} // verus!
