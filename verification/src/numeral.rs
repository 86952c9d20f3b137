//! Numerals: the texts that stand for an amount or a count.
//!
//! An amount (a payout, a conversion rate) is kept as its numeral, the text as
//! it was written, once that text is known to follow the grammar of decimal
//! numbers below. A count is read into a `u32`.
//!
//! ```text
//! Numeral  ::= Sign? ( 'inf' | 'infinity' | 'nan' | Number )
//! Number   ::= ( Digit+ | Digit+ '.' Digit* | Digit* '.' Digit+ ) Exponent?
//! Exponent ::= 'e' Sign? Digit+
//! Sign     ::= [+-]
//! Digit    ::= [0-9]
//! ```
//!
//! Letters are matched without regard to ASCII case. No whitespace and no
//! other character may stand anywhere in a numeral.

use vstd::prelude::*;
use crate::text::chars_of;

verus! {

/// Whether `c` is one of the ASCII digits `0` to `9`.
pub open spec fn is_digit(c: char) -> bool {
    '0' <= c <= '9'
}

/// Whether `c` is `+` or `-`.
pub open spec fn is_sign(c: char) -> bool {
    c == '+' || c == '-'
}

/// The number of digits that `s` starts with.
pub open spec fn leading_digits(s: Seq<char>) -> nat
    decreases s.len(),
{
    if s.len() > 0 && is_digit(s.first()) {
        1 + leading_digits(s.drop_first())
    } else {
        0
    }
}

/// Whether `s` holds digits only. The empty text does.
pub open spec fn all_digits(s: Seq<char>) -> bool {
    leading_digits(s) == s.len()
}

/// `s` without the sign that it may start with.
pub open spec fn without_sign(s: Seq<char>) -> Seq<char> {
    if s.len() > 0 && is_sign(s.first()) {
        s.drop_first()
    } else {
        s
    }
}

/// Whether `c` is the lower-case ASCII letter `lower` or its upper-case form.
pub open spec fn same_letter(c: char, lower: char) -> bool {
    c == lower || ('A' <= c <= 'Z' && c as int + 32 == lower as int)
}

/// Whether `s` spells the lower-case word `word`, in any mix of cases.
pub open spec fn spells(s: Seq<char>, word: Seq<char>) -> bool {
    s.len() == word.len() && forall|i: int| 0 <= i < s.len() ==> same_letter(s[i], word[i])
}

/// Whether `s` is one of the words for a value that is no finite number.
pub open spec fn is_special(s: Seq<char>) -> bool {
    spells(s, "inf"@) || spells(s, "infinity"@) || spells(s, "nan"@)
}

/// Whether `s` is an exponent: `e` or `E`, an optional sign, one digit or more.
pub open spec fn is_exponent(s: Seq<char>) -> bool {
    &&& s.len() >= 1
    &&& (s.first() == 'e' || s.first() == 'E')
    &&& without_sign(s.drop_first()).len() >= 1
    &&& all_digits(without_sign(s.drop_first()))
}

/// Whether `s` is an unsigned number: digits with at most one point among
/// them, at least one digit in all, and an optional exponent behind.
pub open spec fn is_number(s: Seq<char>) -> bool {
    let whole = leading_digits(s) as int;
    let rest = s.skip(whole);
    let pointed = rest.len() > 0 && rest.first() == '.';
    let fraction = if pointed { leading_digits(rest.drop_first()) as int } else { 0 };
    let tail = if pointed { rest.drop_first().skip(fraction) } else { rest };
    &&& whole + fraction >= 1
    &&& (tail.len() == 0 || is_exponent(tail))
}

/// Whether `s` is a numeral of the grammar in this module's header.
pub open spec fn is_numeral(s: Seq<char>) -> bool {
    is_special(without_sign(s)) || is_number(without_sign(s))
}

/// The value of the digit `c`.
pub open spec fn digit_value(c: char) -> nat
    recommends
        is_digit(c),
{
    (c as int - '0' as int) as nat
}

/// The number that the digits `s` write in base ten. The empty text writes 0.
pub open spec fn digits_value(s: Seq<char>) -> nat
    recommends
        all_digits(s),
    decreases s.len(),
{
    if s.len() == 0 {
        0
    } else {
        10 * digits_value(s.drop_last()) + digit_value(s.last())
    }
}

/// The count that `s` writes: an optional `+`, then one digit or more, whose
/// value fits in a `u32`. `None` for every other text.
pub open spec fn count_of(s: Seq<char>) -> Option<u32> {
    let digits = if s.len() > 0 && s.first() == '+' { s.drop_first() } else { s };
    if digits.len() >= 1 && all_digits(digits) && digits_value(digits) <= u32::MAX {
        Some(digits_value(digits) as u32)
    } else {
        None
    }
}

/// `leading_digits` stays within the text, passes over digits only and stops
/// at the first character that is none.
pub proof fn lemma_leading_digits(s: Seq<char>)
    ensures
        leading_digits(s) <= s.len(),
        leading_digits(s) < s.len() ==> !is_digit(s[leading_digits(s) as int]),
        forall|i: int| 0 <= i < leading_digits(s) ==> is_digit(s[i]),
    decreases s.len(),
{
    if s.len() > 0 && is_digit(s.first()) {
        let t = s.drop_first();
        lemma_leading_digits(t);
        assert forall|i: int| 0 <= i < leading_digits(s) implies is_digit(s[i]) by {
            if i > 0 {
                assert(s[i] == t[i - 1]);
            }
        }
    }
}

/// A run of digits that ends at the text's end or before a character that is
/// no digit is the leading run.
pub proof fn lemma_leading_digits_is(s: Seq<char>, n: int)
    requires
        0 <= n <= s.len(),
        forall|i: int| 0 <= i < n ==> is_digit(s[i]),
        n < s.len() ==> !is_digit(s[n]),
    ensures
        leading_digits(s) == n,
    decreases s.len(),
{
    if s.len() > 0 && is_digit(s.first()) {
        let t = s.drop_first();
        assert forall|i: int| 0 <= i < n - 1 implies is_digit(t[i]) by {
            assert(t[i] == s[i + 1]);
        }
        lemma_leading_digits_is(t, n - 1);
    }
}

/// Digits written behind a number do not make it smaller.
pub proof fn lemma_digits_value_grows(s: Seq<char>, n: int)
    requires
        0 <= n <= s.len(),
    ensures
        digits_value(s.take(n)) <= digits_value(s),
    decreases s.len() - n,
{
    if n < s.len() {
        assert(s.take(n + 1).drop_last() == s.take(n));
        lemma_digits_value_grows(s, n + 1);
    } else {
        assert(s.take(n) == s);
    }
}

/// Digits that stand before the end of a text, or before a character that is
/// no digit, are its leading digits.
pub proof fn lemma_leading_digits_of_run(digits: Seq<char>, rest: Seq<char>)
    requires
        all_digits(digits),
        rest.len() > 0 ==> !is_digit(rest.first()),
    ensures
        leading_digits(digits + rest) == digits.len(),
        (digits + rest).skip(digits.len() as int) == rest,
{
    let s = digits + rest;
    lemma_leading_digits(digits);
    assert forall|i: int| 0 <= i < digits.len() implies is_digit(s[i]) by {
        assert(s[i] == digits[i]);
    }
    if rest.len() > 0 {
        assert(s[digits.len() as int] == rest.first());
    }
    lemma_leading_digits_is(s, digits.len() as int);
}

/// The parts of a number written one after the other: the digits `whole`,
/// then, where `pointed` holds, a point and the digits `fraction`, then
/// `exponent`.
pub open spec fn number_of_parts(
    whole: Seq<char>,
    pointed: bool,
    fraction: Seq<char>,
    exponent: Seq<char>,
) -> Seq<char> {
    if pointed {
        whole + seq!['.'] + fraction + exponent
    } else {
        whole + exponent
    }
}

/// Whether the parts are those of a number: `whole` and `fraction` are
/// digits, one digit at least between them, and `exponent` is empty or an
/// exponent.
pub open spec fn are_number_parts(
    whole: Seq<char>,
    pointed: bool,
    fraction: Seq<char>,
    exponent: Seq<char>,
) -> bool {
    &&& all_digits(whole)
    &&& all_digits(fraction)
    &&& pointed || fraction.len() == 0
    &&& whole.len() + fraction.len() >= 1
    &&& exponent.len() == 0 || is_exponent(exponent)
}

/// What the parts of a number give is a number.
pub proof fn law_parts_make_number(
    whole: Seq<char>,
    pointed: bool,
    fraction: Seq<char>,
    exponent: Seq<char>,
)
    requires
        are_number_parts(whole, pointed, fraction, exponent),
    ensures
        is_number(number_of_parts(whole, pointed, fraction, exponent)),
{
    let s = number_of_parts(whole, pointed, fraction, exponent);
    if pointed {
        let rest = seq!['.'] + fraction + exponent;
        assert(s == whole + rest);
        lemma_leading_digits_of_run(whole, rest);
        assert(rest.drop_first() == fraction + exponent);
        lemma_leading_digits_of_run(fraction, exponent);
    } else {
        lemma_leading_digits_of_run(whole, exponent);
    }
}

/// Every number is made of the parts of a number. The result holds them:
/// `whole`, `pointed`, `fraction` and `exponent`.
pub proof fn law_number_has_parts(s: Seq<char>) -> (parts: (
    Seq<char>,
    bool,
    Seq<char>,
    Seq<char>,
))
    requires
        is_number(s),
    ensures
        are_number_parts(parts.0, parts.1, parts.2, parts.3),
        s == number_of_parts(parts.0, parts.1, parts.2, parts.3),
{
    let n = leading_digits(s) as int;
    lemma_leading_digits(s);
    let whole = s.take(n);
    let rest = s.skip(n);
    assert forall|i: int| 0 <= i < whole.len() implies is_digit(whole[i]) by {
        assert(whole[i] == s[i]);
    }
    lemma_leading_digits_is(whole, n);
    if rest.len() > 0 && rest.first() == '.' {
        let behind = rest.drop_first();
        let m = leading_digits(behind) as int;
        lemma_leading_digits(behind);
        let fraction = behind.take(m);
        let exponent = behind.skip(m);
        assert forall|i: int| 0 <= i < fraction.len() implies is_digit(fraction[i]) by {
            assert(fraction[i] == behind[i]);
        }
        lemma_leading_digits_is(fraction, m);
        (whole, true, fraction, exponent)
    } else {
        (whole, false, Seq::empty(), rest)
    }
}

/// Decides `is_digit`.
pub(crate) fn char_is_digit(c: char) -> (r: bool)
    ensures
        r == is_digit(c),
{
    '0' <= c && c <= '9'
}

/// The end of the run of digits that starts at `lo` in the window `[lo, hi)`
/// of `v`.
pub(crate) fn scan_digits(v: &Vec<char>, lo: usize, hi: usize) -> (r: usize)
    requires
        lo <= hi <= v.len(),
    ensures
        lo <= r <= hi,
        r - lo == leading_digits(v@.subrange(lo as int, hi as int)),
{
    let ghost s = v@.subrange(lo as int, hi as int);
    let mut i: usize = lo;
    while i < hi && char_is_digit(v[i])
        invariant
            lo <= i <= hi <= v.len(),
            s == v@.subrange(lo as int, hi as int),
            forall|k: int| 0 <= k < i - lo ==> is_digit(s[k]),
        decreases hi - i,
    {
        i += 1;
    }
    proof {
        lemma_leading_digits_is(s, i - lo);
    }
    i
}

/// The start of what follows an optional sign in the window `[lo, hi)` of `v`.
pub(crate) fn skip_sign(v: &Vec<char>, lo: usize, hi: usize) -> (r: usize)
    requires
        lo <= hi <= v.len(),
    ensures
        lo <= r <= hi,
        v@.subrange(r as int, hi as int) == without_sign(v@.subrange(lo as int, hi as int)),
{
    if lo < hi && (v[lo] == '+' || v[lo] == '-') {
        lo + 1
    } else {
        lo
    }
}

/// Decides `same_letter`.
pub(crate) fn char_same_letter(c: char, lower: char) -> (r: bool)
    ensures
        r == same_letter(c, lower),
{
    c == lower || ('A' <= c && c <= 'Z' && c as u32 + 32 == lower as u32)
}

/// Whether the window `[lo, hi)` of `v` spells `word`.
pub(crate) fn window_spells(v: &Vec<char>, lo: usize, hi: usize, word: &str) -> (r: bool)
    requires
        lo <= hi <= v.len(),
    ensures
        r == spells(v@.subrange(lo as int, hi as int), word@),
{
    let w = chars_of(word);
    if hi - lo != w.len() {
        return false;
    }
    let ghost s = v@.subrange(lo as int, hi as int);
    let mut i: usize = 0;
    while i < w.len()
        invariant
            i <= w.len() == hi - lo,
            hi <= v.len(),
            w@ == word@,
            s == v@.subrange(lo as int, hi as int),
            forall|k: int| 0 <= k < i ==> same_letter(s[k], w@[k]),
        decreases w.len() - i,
    {
        if !char_same_letter(v[lo + i], w[i]) {
            return false;
        }
        i += 1;
    }
    true
}

/// Decides `is_exponent` on the window `[lo, hi)` of `v`.
pub(crate) fn window_is_exponent(v: &Vec<char>, lo: usize, hi: usize) -> (r: bool)
    requires
        lo <= hi <= v.len(),
    ensures
        r == is_exponent(v@.subrange(lo as int, hi as int)),
{
    if lo == hi || !(v[lo] == 'e' || v[lo] == 'E') {
        return false;
    }
    assert(v@.subrange(lo as int, hi as int).drop_first() == v@.subrange(lo + 1, hi as int));
    let digits = skip_sign(v, lo + 1, hi);
    let end = scan_digits(v, digits, hi);
    digits < hi && end == hi
}

/// Decides `is_number` on the window `[lo, hi)` of `v`.
pub(crate) fn window_is_number(v: &Vec<char>, lo: usize, hi: usize) -> (r: bool)
    requires
        lo <= hi <= v.len(),
    ensures
        r == is_number(v@.subrange(lo as int, hi as int)),
{
    let ghost s = v@.subrange(lo as int, hi as int);
    let point = scan_digits(v, lo, hi);
    assert(s.skip(point - lo) == v@.subrange(point as int, hi as int));
    if point < hi && v[point] == '.' {
        assert(v@.subrange(point as int, hi as int).drop_first() == v@.subrange(
            point + 1,
            hi as int,
        ));
        let tail = scan_digits(v, point + 1, hi);
        assert(v@.subrange(point + 1, hi as int).skip(tail - (point + 1)) == v@.subrange(
            tail as int,
            hi as int,
        ));
        (point - lo) + (tail - (point + 1)) >= 1 && (tail == hi || window_is_exponent(
            v,
            tail,
            hi,
        ))
    } else {
        point - lo >= 1 && (point == hi || window_is_exponent(v, point, hi))
    }
}

/// Decides `is_numeral` on the window `[lo, hi)` of `v`.
pub(crate) fn window_is_numeral(v: &Vec<char>, lo: usize, hi: usize) -> (r: bool)
    requires
        lo <= hi <= v.len(),
    ensures
        r == is_numeral(v@.subrange(lo as int, hi as int)),
{
    let start = skip_sign(v, lo, hi);
    window_spells(v, start, hi, "inf") || window_spells(v, start, hi, "infinity")
        || window_spells(v, start, hi, "nan") || window_is_number(v, start, hi)
}

/// Reads the count that the window `[lo, hi)` of `v` writes.
pub(crate) fn window_count(v: &Vec<char>, lo: usize, hi: usize) -> (r: Option<u32>)
    requires
        lo <= hi <= v.len(),
    ensures
        r == count_of(v@.subrange(lo as int, hi as int)),
{
    let ghost s = v@.subrange(lo as int, hi as int);
    let start: usize = if lo < hi && v[lo] == '+' { lo + 1 } else { lo };
    let ghost digits = v@.subrange(start as int, hi as int);
    assert(digits == if s.len() > 0 && s.first() == '+' { s.drop_first() } else { s });
    let end = scan_digits(v, start, hi);
    if start == hi || end != hi {
        return None;
    }
    proof {
        lemma_leading_digits(digits);
    }
    let mut total: u64 = 0;
    let mut i: usize = start;
    while i < hi
        invariant
            start <= i <= hi <= v.len(),
            digits == v@.subrange(start as int, hi as int),
            s == v@.subrange(lo as int, hi as int),
            digits == if s.len() > 0 && s.first() == '+' { s.drop_first() } else { s },
            digits.len() >= 1,
            all_digits(digits),
            forall|k: int| 0 <= k < digits.len() ==> is_digit(digits[k]),
            total == digits_value(digits.take(i - start)),
            total <= u32::MAX,
        decreases hi - i,
    {
        let c = v[i];
        assert(is_digit(digits[i - start]));
        let d: u64 = (c as u32 - '0' as u32) as u64;
        let next: u64 = total * 10 + d;
        proof {
            let upto = digits.take(i - start + 1);
            assert(upto.drop_last() == digits.take(i - start));
            lemma_digits_value_grows(digits, i - start + 1);
        }
        if next > 0xffff_ffff {
            return None;
        }
        total = next;
        i += 1;
    }
    assert(digits.take(hi - start) == digits);
    Some(total as u32)
}

} // verus!
