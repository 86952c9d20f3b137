//! Character classes, trimming, quote stripping and line splitting.
//!
//! Every contract here speaks of a text as a `Seq<char>`. The executable
//! helpers work on a window `[lo, hi)` of a vector of characters and hand back
//! a narrower window, so that no text is copied before it is known to be kept.

use vstd::prelude::*;

verus! {

/// Whether `c` is whitespace as Unicode defines it: a `White_Space` character.
pub open spec fn is_whitespace(c: char) -> bool {
    ||| '\u{9}' <= c <= '\u{d}'
    ||| c == ' '
    ||| c == '\u{85}'
    ||| c == '\u{a0}'
    ||| c == '\u{1680}'
    ||| '\u{2000}' <= c <= '\u{200a}'
    ||| c == '\u{2028}'
    ||| c == '\u{2029}'
    ||| c == '\u{202f}'
    ||| c == '\u{205f}'
    ||| c == '\u{3000}'
}

/// `s` without its leading whitespace.
pub open spec fn trim_start(s: Seq<char>) -> Seq<char>
    decreases s.len(),
{
    if s.len() > 0 && is_whitespace(s.first()) {
        trim_start(s.drop_first())
    } else {
        s
    }
}

/// `s` without its trailing whitespace.
pub open spec fn trim_end(s: Seq<char>) -> Seq<char>
    decreases s.len(),
{
    if s.len() > 0 && is_whitespace(s.last()) {
        trim_end(s.drop_last())
    } else {
        s
    }
}

/// `s` without its leading and trailing whitespace.
pub open spec fn trim(s: Seq<char>) -> Seq<char> {
    trim_end(trim_start(s))
}

/// `s` without one layer of surrounding double quotes. The layer is removed
/// only when `s` both starts and ends with a quote: one quote goes at each
/// end, and no more. A text that is a lone quote starts and ends with it, and
/// nothing is left of it.
pub open spec fn strip_quotes(s: Seq<char>) -> Seq<char> {
    if s.len() >= 2 && s.first() == '"' && s.last() == '"' {
        s.subrange(1, s.len() - 1)
    } else if s.len() == 1 && s.first() == '"' {
        Seq::empty()
    } else {
        s
    }
}

/// The number of characters before the first line feed of `s`, or the length
/// of `s` where it holds none.
pub open spec fn first_line_len(s: Seq<char>) -> nat
    decreases s.len(),
{
    if s.len() == 0 || s.first() == '\n' {
        0
    } else {
        1 + first_line_len(s.drop_first())
    }
}

/// The lines of `s`: the pieces between its line feeds, in order. A text
/// without a line feed is one line, so the result is never empty, and a text
/// that ends in a line feed has an empty last line.
pub open spec fn split_lines(s: Seq<char>) -> Seq<Seq<char>>
    decreases s.len(),
{
    let n = first_line_len(s) as int;
    if n >= s.len() {
        seq![s]
    } else {
        seq![s.take(n)] + split_lines(s.skip(n + 1))
    }
}

/// The texts `parts` written one after the other, with `mark` between each
/// two of them.
pub open spec fn join(parts: Seq<Seq<char>>, mark: char) -> Seq<char>
    decreases parts.len(),
{
    if parts.len() == 0 {
        Seq::empty()
    } else if parts.len() == 1 {
        parts.first()
    } else {
        parts.first() + seq![mark] + join(parts.drop_first(), mark)
    }
}

/// What `trim_start` drops is whitespace, and what it keeps starts with none.
/// The result is the number of characters dropped.
pub proof fn lemma_trim_start(s: Seq<char>) -> (n: int)
    ensures
        0 <= n <= s.len(),
        trim_start(s) == s.skip(n),
        forall|i: int| 0 <= i < n ==> is_whitespace(s[i]),
        n < s.len() ==> !is_whitespace(s[n]),
    decreases s.len(),
{
    if s.len() > 0 && is_whitespace(s.first()) {
        let t = s.drop_first();
        let m = lemma_trim_start(t);
        assert forall|i: int| 0 <= i < m + 1 implies is_whitespace(s[i]) by {
            if i > 0 {
                assert(s[i] == t[i - 1]);
            }
        }
        m + 1
    } else {
        0
    }
}

/// What `trim_end` drops is whitespace, and what it keeps ends with none. The
/// result is the number of characters kept.
pub proof fn lemma_trim_end(s: Seq<char>) -> (n: int)
    ensures
        0 <= n <= s.len(),
        trim_end(s) == s.take(n),
        forall|i: int| n <= i < s.len() ==> is_whitespace(s[i]),
        n > 0 ==> !is_whitespace(s[n - 1]),
    decreases s.len(),
{
    if s.len() > 0 && is_whitespace(s.last()) {
        let t = s.drop_last();
        let m = lemma_trim_end(t);
        assert forall|i: int| m <= i < s.len() implies is_whitespace(s[i]) by {
            if i < s.len() - 1 {
                assert(s[i] == t[i]);
            }
        }
        m
    } else {
        s.len() as int
    }
}

/// What `trim` keeps: the window of the text from its first to its last
/// character that is no whitespace, which is empty where there is none. The
/// result is that window.
pub proof fn law_trim(s: Seq<char>) -> (r: (int, int))
    ensures
        0 <= r.0 <= r.1 <= s.len(),
        trim(s) == s.subrange(r.0, r.1),
        forall|i: int| 0 <= i < r.0 ==> is_whitespace(s[i]),
        forall|i: int| r.1 <= i < s.len() ==> is_whitespace(s[i]),
        r.0 < r.1 ==> !is_whitespace(s[r.0]) && !is_whitespace(s[r.1 - 1]),
{
    let a = lemma_trim_start(s);
    let t = s.skip(a);
    let n = lemma_trim_end(t);
    assert forall|i: int| a + n <= i < s.len() implies is_whitespace(s[i]) by {
        assert(s[i] == t[i - a]);
    }
    (a, a + n)
}

/// `first_line_len` stays within the text, stops at a line feed and passes
/// over none.
pub proof fn lemma_first_line_len(s: Seq<char>)
    ensures
        first_line_len(s) <= s.len(),
        first_line_len(s) < s.len() ==> s[first_line_len(s) as int] == '\n',
        forall|i: int| 0 <= i < first_line_len(s) ==> s[i] != '\n',
    decreases s.len(),
{
    if s.len() > 0 && s.first() != '\n' {
        let t = s.drop_first();
        lemma_first_line_len(t);
        assert forall|i: int| 0 <= i < first_line_len(s) implies s[i] != '\n' by {
            if i > 0 {
                assert(s[i] == t[i - 1]);
            }
        }
    }
}

/// A window without a line feed that ends at the text's end or at a line feed
/// is the first line.
pub proof fn lemma_first_line_len_is(s: Seq<char>, n: int)
    requires
        0 <= n <= s.len(),
        forall|i: int| 0 <= i < n ==> s[i] != '\n',
        n < s.len() ==> s[n] == '\n',
    ensures
        first_line_len(s) == n,
    decreases s.len(),
{
    if s.len() > 0 && s.first() != '\n' {
        let t = s.drop_first();
        assert forall|i: int| 0 <= i < n - 1 implies t[i] != '\n' by {
            assert(t[i] == s[i + 1]);
        }
        lemma_first_line_len_is(t, n - 1);
    }
}

/// The lines are cut at the line feeds and nowhere else: there is one line at
/// least, no line holds a line feed, and the lines with a line feed between
/// each two of them are the text.
pub proof fn law_split_lines(s: Seq<char>)
    ensures
        split_lines(s).len() >= 1,
        join(split_lines(s), '\n') == s,
        forall|i: int|
            0 <= i < split_lines(s).len() ==> !(#[trigger] split_lines(s)[i]).contains('\n'),
    decreases s.len(),
{
    let n = first_line_len(s) as int;
    let lines = split_lines(s);
    lemma_first_line_len(s);
    if n < s.len() {
        let rest = split_lines(s.skip(n + 1));
        law_split_lines(s.skip(n + 1));
        assert(lines.drop_first() == rest);
        assert forall|i: int| 0 <= i < lines.len() implies !(#[trigger] lines[i]).contains(
            '\n',
        ) by {
            if i > 0 {
                assert(lines[i] == rest[i - 1]);
            }
        }
    }
}

/// A text without a line feed is its own single line.
pub proof fn lemma_split_lines_one(s: Seq<char>)
    requires
        !s.contains('\n'),
    ensures
        split_lines(s) == seq![s],
{
    lemma_first_line_len(s);
    if first_line_len(s) < s.len() {
        assert(s.contains(s[first_line_len(s) as int]));
    }
}

/// The lines of two texts with a line feed between them are the lines of the
/// first and then the lines of the second.
pub proof fn lemma_split_lines_join(first: Seq<char>, second: Seq<char>)
    ensures
        split_lines(first + seq!['\n'] + second) == split_lines(first) + split_lines(second),
    decreases first.len(),
{
    let whole = first + seq!['\n'] + second;
    let n = first_line_len(first) as int;
    lemma_first_line_len(first);
    assert forall|i: int| 0 <= i < n implies whole[i] != '\n' by {
        assert(whole[i] == first[i]);
    }
    lemma_first_line_len_is(whole, n);
    if n >= first.len() {
        assert(whole.take(n) == first);
        assert(whole.skip(n + 1) == second);
    } else {
        assert(whole.take(n) == first.take(n));
        assert(whole.skip(n + 1) == first.skip(n + 1) + seq!['\n'] + second);
        lemma_split_lines_join(first.skip(n + 1), second);
    }
}

/// Decides `is_whitespace`.
pub fn char_is_whitespace(c: char) -> (r: bool)
    ensures
        r == is_whitespace(c),
{
    ('\u{9}' <= c && c <= '\u{d}') || c == ' ' || c == '\u{85}' || c == '\u{a0}' || c
        == '\u{1680}' || ('\u{2000}' <= c && c <= '\u{200a}') || c == '\u{2028}' || c
        == '\u{2029}' || c == '\u{202f}' || c == '\u{205f}' || c == '\u{3000}'
}

/// The characters of `s`, in order.
pub(crate) fn chars_of(s: &str) -> (v: Vec<char>)
    ensures
        v@ == s@,
{
    let mut v: Vec<char> = Vec::new();
    for c in it: s.chars()
        invariant
            v@ == it.seq().take(it.index()),
            it.seq() == s@,
    {
        v.push(c);
    }
    v
}

/// The characters `[lo, hi)` of `s` as an owned string.
pub(crate) fn owned_range(s: &str, lo: usize, hi: usize) -> (r: String)
    requires
        lo <= hi <= s@.len(),
    ensures
        r@ == s@.subrange(lo as int, hi as int),
{
    s.substring_char(lo, hi).to_owned()
}

/// Narrows the window `[lo, hi)` of `v` to what `trim` keeps of it.
pub(crate) fn trim_bounds(v: &Vec<char>, lo: usize, hi: usize) -> (r: (usize, usize))
    requires
        lo <= hi <= v.len(),
    ensures
        lo <= r.0 <= r.1 <= hi,
        v@.subrange(r.0 as int, r.1 as int) == trim(v@.subrange(lo as int, hi as int)),
{
    let mut a: usize = lo;
    while a < hi && char_is_whitespace(v[a])
        invariant
            lo <= a <= hi <= v.len(),
            trim_start(v@.subrange(lo as int, hi as int)) == trim_start(
                v@.subrange(a as int, hi as int),
            ),
        decreases hi - a,
    {
        assert(v@.subrange(a as int, hi as int).drop_first() == v@.subrange(a + 1, hi as int));
        a += 1;
    }
    let mut b: usize = hi;
    while a < b && char_is_whitespace(v[b - 1])
        invariant
            a <= b <= hi <= v.len(),
            trim_end(v@.subrange(a as int, hi as int)) == trim_end(
                v@.subrange(a as int, b as int),
            ),
        decreases b - a,
    {
        assert(v@.subrange(a as int, b as int).drop_last() == v@.subrange(a as int, b - 1));
        b -= 1;
    }
    (a, b)
}

/// Narrows the window `[lo, hi)` of `v` to what `strip_quotes` keeps of it.
pub(crate) fn strip_quotes_bounds(v: &Vec<char>, lo: usize, hi: usize) -> (r: (usize, usize))
    requires
        lo <= hi <= v.len(),
    ensures
        lo <= r.0 <= r.1 <= hi,
        v@.subrange(r.0 as int, r.1 as int) == strip_quotes(v@.subrange(lo as int, hi as int)),
{
    if hi - lo >= 2 && v[lo] == '"' && v[hi - 1] == '"' {
        (lo + 1, hi - 1)
    } else if hi - lo == 1 && v[lo] == '"' {
        (hi, hi)
    } else {
        (lo, hi)
    }
}

/// The end of the line that starts at `lo` in `v`: the place of the next line
/// feed, or the length of `v` where none follows.
pub(crate) fn line_end(v: &Vec<char>, lo: usize) -> (r: usize)
    requires
        lo <= v.len(),
    ensures
        lo <= r <= v.len(),
        r - lo == first_line_len(v@.skip(lo as int)),
{
    let ghost s = v@.skip(lo as int);
    let mut i: usize = lo;
    while i < v.len() && v[i] != '\n'
        invariant
            lo <= i <= v.len(),
            s == v@.skip(lo as int),
            forall|k: int| 0 <= k < i - lo ==> s[k] != '\n',
        decreases v.len() - i,
    {
        i += 1;
    }
    proof {
        lemma_first_line_len_is(s, i - lo);
    }
    i
}

/// Whether the window `[lo, hi)` of `v` starts with `word`.
pub(crate) fn starts_with(v: &Vec<char>, lo: usize, hi: usize, word: &Vec<char>) -> (r: bool)
    requires
        lo <= hi <= v.len(),
    ensures
        r == word@.is_prefix_of(v@.subrange(lo as int, hi as int)),
{
    let n = word.len();
    if hi - lo < n {
        return false;
    }
    let ghost s = v@.subrange(lo as int, hi as int);
    let mut i: usize = 0;
    while i < n
        invariant
            i <= n == word.len(),
            lo + n <= hi <= v.len(),
            s == v@.subrange(lo as int, hi as int),
            forall|k: int| 0 <= k < i ==> word@[k] == s[k],
        decreases n - i,
    {
        if v[lo + i] != word[i] {
            return false;
        }
        i += 1;
    }
    true
}

/// Whether the window `[lo, hi)` of `v` ends with `word`.
pub(crate) fn ends_with(v: &Vec<char>, lo: usize, hi: usize, word: &Vec<char>) -> (r: bool)
    requires
        lo <= hi <= v.len(),
    ensures
        r == word@.is_suffix_of(v@.subrange(lo as int, hi as int)),
{
    let n = word.len();
    if hi - lo < n {
        return false;
    }
    let ghost s = v@.subrange(lo as int, hi as int);
    let start = hi - n;
    let mut i: usize = 0;
    while i < n
        invariant
            i <= n == word.len(),
            lo <= start == hi - n,
            hi <= v.len(),
            s == v@.subrange(lo as int, hi as int),
            forall|k: int| 0 <= k < i ==> word@[k] == s[s.len() - n + k],
        decreases n - i,
    {
        if v[start + i] != word[i] {
            return false;
        }
        i += 1;
    }
    true
}

} // verus!
