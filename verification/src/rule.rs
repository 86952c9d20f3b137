//! The seven rules of the format: their keywords, and what each asks of the
//! value that follows its keyword.
//!
//! A line states a rule when it starts with the rule's keyword and a colon, in
//! upper case and with nothing between them. No keyword with its colon starts
//! another, so a line states one rule at most.

use vstd::prelude::*;
use crate::errors::{ParseError, ParseFailure};
use crate::list::{has_empty_item, list_items, read_items};
use crate::numeral::{count_of, is_numeral, window_count, window_is_numeral};
use crate::text::{
    chars_of,
    ends_with,
    owned_range,
    starts_with,
    strip_quotes,
    strip_quotes_bounds,
    trim,
    trim_bounds,
};

verus! {

/// A rule of the format.
#[derive(Debug, Clone, Copy, PartialEq, Eq)]
pub enum Rule {
    /// `OFFER:`, the offer's name. Required.
    Offer,
    /// `GEO:`, the list of target geographies.
    Geo,
    /// `TRAFFIC:`, the list of traffic sources.
    Traffic,
    /// `PAYOUT:`, the amount paid for a conversion, in USD. Required.
    Payout,
    /// `CR:`, the conversion rate, in percent. Required.
    Cr,
    /// `CAP:`, the daily cap on conversions.
    Cap,
    /// `VERTICAL:`, the offer's category.
    Vertical,
}

impl Rule {
    /// The rule's keyword. Failures that name a rule carry it.
    pub open spec fn keyword(self) -> Seq<char> {
        match self {
            Rule::Offer => "OFFER"@,
            Rule::Geo => "GEO"@,
            Rule::Traffic => "TRAFFIC"@,
            Rule::Payout => "PAYOUT"@,
            Rule::Cr => "CR"@,
            Rule::Cap => "CAP"@,
            Rule::Vertical => "VERTICAL"@,
        }
    }

    /// What a line that states the rule starts with: the keyword and a colon.
    pub open spec fn prefix(self) -> Seq<char> {
        self.keyword().push(':')
    }

    /// The rule's keyword.
    pub fn name(self) -> (r: &'static str)
        ensures
            r@ == self.keyword(),
    {
        match self {
            Rule::Offer => "OFFER",
            Rule::Geo => "GEO",
            Rule::Traffic => "TRAFFIC",
            Rule::Payout => "PAYOUT",
            Rule::Cr => "CR",
            Rule::Cap => "CAP",
            Rule::Vertical => "VERTICAL",
        }
    }

    /// The characters of the rule's prefix.
    pub(crate) fn prefix_chars(self) -> (r: Vec<char>)
        ensures
            r@ == self.prefix(),
    {
        let mut r = chars_of(self.name());
        r.push(':');
        r
    }
}

/// The keywords, spelled out.
pub proof fn lemma_keywords()
    ensures
        Rule::Offer.keyword() == seq!['O', 'F', 'F', 'E', 'R'],
        Rule::Geo.keyword() == seq!['G', 'E', 'O'],
        Rule::Traffic.keyword() == seq!['T', 'R', 'A', 'F', 'F', 'I', 'C'],
        Rule::Payout.keyword() == seq!['P', 'A', 'Y', 'O', 'U', 'T'],
        Rule::Cr.keyword() == seq!['C', 'R'],
        Rule::Cap.keyword() == seq!['C', 'A', 'P'],
        Rule::Vertical.keyword() == seq!['V', 'E', 'R', 'T', 'I', 'C', 'A', 'L'],
{
    reveal_strlit("OFFER");
    reveal_strlit("GEO");
    reveal_strlit("TRAFFIC");
    reveal_strlit("PAYOUT");
    reveal_strlit("CR");
    reveal_strlit("CAP");
    reveal_strlit("VERTICAL");
}

/// Whether `line` states `rule`.
pub open spec fn states(line: Seq<char>, rule: Rule) -> bool {
    rule.prefix().is_prefix_of(line)
}

/// The rule that `line` states, if it states one.
pub open spec fn rule_of(line: Seq<char>) -> Option<Rule> {
    if states(line, Rule::Offer) {
        Some(Rule::Offer)
    } else if states(line, Rule::Geo) {
        Some(Rule::Geo)
    } else if states(line, Rule::Traffic) {
        Some(Rule::Traffic)
    } else if states(line, Rule::Payout) {
        Some(Rule::Payout)
    } else if states(line, Rule::Cr) {
        Some(Rule::Cr)
    } else if states(line, Rule::Cap) {
        Some(Rule::Cap)
    } else if states(line, Rule::Vertical) {
        Some(Rule::Vertical)
    } else {
        None
    }
}

/// A line states one rule at most, so `rule_of` finds the rule of every line
/// that states one.
pub proof fn law_one_rule_per_line(line: Seq<char>, rule: Rule)
    ensures
        states(line, rule) <==> rule_of(line) == Some(rule),
{
    lemma_keywords();
    if states(line, rule) {
        let p = rule.prefix();
        assert(line[0] == p[0]);
        assert(line[1] == p[1]);
    }
    match rule_of(line) {
        Some(found) => {
            let q = found.prefix();
        },
        None => {},
    }
}

/// The value of a line that states `rule`: what follows the prefix, trimmed.
pub open spec fn value_of(line: Seq<char>, rule: Rule) -> Seq<char>
    recommends
        states(line, rule),
{
    trim(line.skip(rule.prefix().len() as int))
}

/// The name that an `OFFER` value gives: the value without one layer of
/// quotes, which must leave something.
pub open spec fn name_of(value: Seq<char>) -> Result<Seq<char>, ParseFailure> {
    if strip_quotes(value).len() == 0 {
        Err(ParseFailure::EmptyValue(Rule::Offer.keyword()))
    } else {
        Ok(strip_quotes(value))
    }
}

/// The list that a `GEO` or `TRAFFIC` value gives: its items, none of which
/// may be empty. The empty value is a list of one empty item and so fails too.
pub open spec fn items_of(value: Seq<char>, rule: Rule) -> Result<Seq<Seq<char>>, ParseFailure> {
    if has_empty_item(list_items(value)) {
        Err(ParseFailure::EmptyValue(rule.keyword()))
    } else {
        Ok(list_items(value))
    }
}

/// What stands before the unit in a value that ends with `unit`, trimmed.
pub open spec fn before_unit(value: Seq<char>, unit: Seq<char>) -> Seq<char>
    recommends
        unit.is_suffix_of(value),
{
    trim(value.take(value.len() - unit.len()))
}

/// The numeral that a `PAYOUT` or `CR` value gives. The value must end with
/// `unit`; what stands before the unit, trimmed, must be a numeral. `line` is
/// the line that holds the value: the failures carry it.
pub open spec fn amount_of(line: Seq<char>, value: Seq<char>, unit: Seq<char>) -> Result<
    Seq<char>,
    ParseFailure,
> {
    if !unit.is_suffix_of(value) {
        Err(ParseFailure::InvalidFormat(line))
    } else if !is_numeral(before_unit(value, unit)) {
        Err(ParseFailure::InvalidNumber(line))
    } else {
        Ok(before_unit(value, unit))
    }
}

/// The count that a `CAP` value gives. `line` is the line that holds the
/// value: the failure of a value that is no count carries it.
pub open spec fn cap_of(line: Seq<char>, value: Seq<char>) -> Result<u32, ParseFailure> {
    if value.len() == 0 {
        Err(ParseFailure::EmptyValue(Rule::Cap.keyword()))
    } else {
        match count_of(value) {
            Some(n) => Ok(n),
            None => Err(ParseFailure::InvalidNumber(line)),
        }
    }
}

/// The category that a `VERTICAL` value gives: the value, which must not be
/// empty, without one layer of quotes.
pub open spec fn vertical_of(value: Seq<char>) -> Result<Seq<char>, ParseFailure> {
    if value.len() == 0 {
        Err(ParseFailure::EmptyValue(Rule::Vertical.keyword()))
    } else {
        Ok(strip_quotes(value))
    }
}

/// The unit that a `PAYOUT` value ends with.
pub open spec fn payout_unit() -> Seq<char> {
    "USD"@
}

/// The unit that a `CR` value ends with.
pub open spec fn rate_unit() -> Seq<char> {
    "%"@
}

/// Finds the rule that the window `[lo, hi)` of `chars` states.
pub(crate) fn classify(chars: &Vec<char>, lo: usize, hi: usize) -> (r: Option<Rule>)
    requires
        lo <= hi <= chars.len(),
    ensures
        r == rule_of(chars@.subrange(lo as int, hi as int)),
{
    if starts_with(chars, lo, hi, &Rule::Offer.prefix_chars()) {
        Some(Rule::Offer)
    } else if starts_with(chars, lo, hi, &Rule::Geo.prefix_chars()) {
        Some(Rule::Geo)
    } else if starts_with(chars, lo, hi, &Rule::Traffic.prefix_chars()) {
        Some(Rule::Traffic)
    } else if starts_with(chars, lo, hi, &Rule::Payout.prefix_chars()) {
        Some(Rule::Payout)
    } else if starts_with(chars, lo, hi, &Rule::Cr.prefix_chars()) {
        Some(Rule::Cr)
    } else if starts_with(chars, lo, hi, &Rule::Cap.prefix_chars()) {
        Some(Rule::Cap)
    } else if starts_with(chars, lo, hi, &Rule::Vertical.prefix_chars()) {
        Some(Rule::Vertical)
    } else {
        None
    }
}

/// The keyword of `rule` as an owned string.
fn keyword_string(rule: Rule) -> (r: String)
    ensures
        r@ == rule.keyword(),
{
    String::from_str(rule.name())
}

/// Reads the name that the window `[lo, hi)` of `text` gives as an `OFFER`
/// value. `chars` holds the characters of `text`.
pub(crate) fn read_name(text: &str, chars: &Vec<char>, lo: usize, hi: usize) -> (r: Result<
    String,
    ParseError,
>)
    requires
        chars@ == text@,
        lo <= hi <= chars.len(),
    ensures
        match name_of(chars@.subrange(lo as int, hi as int)) {
            Ok(name) => r matches Ok(s) && s@ == name,
            Err(e) => r matches Err(err) && err@ == e,
        },
{
    let (a, b) = strip_quotes_bounds(chars, lo, hi);
    if a == b {
        Err(ParseError::EmptyValue(keyword_string(Rule::Offer)))
    } else {
        Ok(owned_range(text, a, b))
    }
}

/// Reads the list that the window `[lo, hi)` of `text` gives as the value of
/// `rule`. `chars` holds the characters of `text`.
pub(crate) fn read_list(text: &str, chars: &Vec<char>, lo: usize, hi: usize, rule: Rule) -> (r: Result<
    Vec<String>,
    ParseError,
>)
    requires
        chars@ == text@,
        lo <= hi <= chars.len(),
    ensures
        match items_of(chars@.subrange(lo as int, hi as int), rule) {
            Ok(items) => r matches Ok(v) && v.deep_view() == items,
            Err(e) => r matches Err(err) && err@ == e,
        },
{
    match read_items(text, chars, lo, hi) {
        Some(items) => Ok(items),
        None => Err(ParseError::EmptyValue(keyword_string(rule))),
    }
}

/// Reads the numeral that the window `[lo, hi)` of `text` gives as a value
/// with the unit `unit`. `chars` holds the characters of `text`, and the
/// window `[from, to)` is the line that the failures carry.
pub(crate) fn read_amount(
    text: &str,
    chars: &Vec<char>,
    from: usize,
    to: usize,
    lo: usize,
    hi: usize,
    unit: &str,
) -> (r: Result<String, ParseError>)
    requires
        chars@ == text@,
        from <= to <= chars.len(),
        lo <= hi <= chars.len(),
    ensures
        match amount_of(
            chars@.subrange(from as int, to as int),
            chars@.subrange(lo as int, hi as int),
            unit@,
        ) {
            Ok(numeral) => r matches Ok(s) && s@ == numeral,
            Err(e) => r matches Err(err) && err@ == e,
        },
{
    let unit_chars = chars_of(unit);
    if !ends_with(chars, lo, hi, &unit_chars) {
        return Err(ParseError::InvalidFormat(owned_range(text, from, to)));
    }
    let ghost value = chars@.subrange(lo as int, hi as int);
    let end = hi - unit_chars.len();
    assert(value.take(value.len() - unit@.len()) == chars@.subrange(lo as int, end as int));
    let (a, b) = trim_bounds(chars, lo, end);
    if window_is_numeral(chars, a, b) {
        Ok(owned_range(text, a, b))
    } else {
        Err(ParseError::InvalidNumber(owned_range(text, from, to)))
    }
}

/// Reads the count that the window `[lo, hi)` of `text` gives as a `CAP`
/// value. `chars` holds the characters of `text`, and the window `[from, to)`
/// is the line that the failure of a value that is no count carries.
pub(crate) fn read_cap(text: &str, chars: &Vec<char>, from: usize, to: usize, lo: usize, hi: usize) -> (r:
    Result<u32, ParseError>)
    requires
        chars@ == text@,
        from <= to <= chars.len(),
        lo <= hi <= chars.len(),
    ensures
        match cap_of(
            chars@.subrange(from as int, to as int),
            chars@.subrange(lo as int, hi as int),
        ) {
            Ok(n) => r == Ok::<u32, ParseError>(n),
            Err(e) => r matches Err(err) && err@ == e,
        },
{
    if lo == hi {
        return Err(ParseError::EmptyValue(keyword_string(Rule::Cap)));
    }
    match window_count(chars, lo, hi) {
        Some(n) => Ok(n),
        None => Err(ParseError::InvalidNumber(owned_range(text, from, to))),
    }
}

/// Reads the category that the window `[lo, hi)` of `text` gives as a
/// `VERTICAL` value. `chars` holds the characters of `text`.
pub(crate) fn read_vertical(text: &str, chars: &Vec<char>, lo: usize, hi: usize) -> (r: Result<
    String,
    ParseError,
>)
    requires
        chars@ == text@,
        lo <= hi <= chars.len(),
    ensures
        match vertical_of(chars@.subrange(lo as int, hi as int)) {
            Ok(category) => r matches Ok(s) && s@ == category,
            Err(e) => r matches Err(err) && err@ == e,
        },
{
    if lo == hi {
        return Err(ParseError::EmptyValue(keyword_string(Rule::Vertical)));
    }
    let (a, b) = strip_quotes_bounds(chars, lo, hi);
    Ok(owned_range(text, a, b))
}

} // verus!
