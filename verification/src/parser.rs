//! The offer parser: one pass over the lines of a text.
//!
//! Each line is trimmed. A line that is then empty, or starts with `#`, is
//! passed over. Every other line must state one of the seven rules, and no
//! rule twice; its value is read as the rule asks. The first line that fails
//! ends the parse with its failure. When the lines are through, the offer is
//! put together, provided that the three required rules were stated.

use vstd::prelude::*;
use crate::errors::{ParseError, ParseFailure};
use crate::rule::{
    amount_of,
    cap_of,
    classify,
    items_of,
    name_of,
    payout_unit,
    rate_unit,
    read_amount,
    read_cap,
    read_list,
    read_name,
    read_vertical,
    rule_of,
    value_of,
    vertical_of,
    Rule,
};
use crate::numeral::is_numeral;
use crate::text::{chars_of, line_end, owned_range, split_lines, trim, trim_bounds};

verus! {

/// The model of an offer in contracts.
pub struct OfferRecord {
    /// The offer's name; not empty.
    pub name: Seq<char>,
    /// The target geographies, in the order written; empty where no `GEO`
    /// line was given.
    pub geo: Seq<Seq<char>>,
    /// The traffic sources, in the order written; empty where no `TRAFFIC`
    /// line was given.
    pub traffic: Seq<Seq<char>>,
    /// The numeral of the payout in USD.
    pub payout: Seq<char>,
    /// The numeral of the conversion rate in percent.
    pub cr: Seq<char>,
    /// The daily cap, where a `CAP` line was given.
    pub cap: Option<u32>,
    /// The category, where a `VERTICAL` line was given.
    pub vertical: Option<Seq<char>>,
}

impl OfferRecord {
    /// What holds of every offer that the parser gives: the name and every
    /// item of the two lists are not empty, and the two amounts are numerals.
    pub open spec fn well_formed(self) -> bool {
        &&& self.name.len() > 0
        &&& forall|i: int| 0 <= i < self.geo.len() ==> (#[trigger] self.geo[i]).len() > 0
        &&& forall|i: int| 0 <= i < self.traffic.len() ==> (#[trigger] self.traffic[i]).len() > 0
        &&& is_numeral(self.payout)
        &&& is_numeral(self.cr)
    }
}

/// An offer read from a text.
///
/// The payout and the conversion rate are kept as the numerals that the text
/// holds, for example `42.5` and `1.25`.
#[derive(Debug, Clone, PartialEq, Eq)]
pub struct OfferConfig {
    /// The offer's name.
    pub name: String,
    /// The target geographies.
    pub geo: Vec<String>,
    /// The traffic sources.
    pub traffic: Vec<String>,
    /// The numeral of the payout in USD.
    pub payout: String,
    /// The numeral of the conversion rate in percent.
    pub cr: String,
    /// The daily cap, if one was given.
    pub cap: Option<u32>,
    /// The category, if one was given.
    pub vertical: Option<String>,
}

impl View for OfferConfig {
    type V = OfferRecord;

    open spec fn view(&self) -> OfferRecord {
        OfferRecord {
            name: self.name@,
            geo: self.geo.deep_view(),
            traffic: self.traffic.deep_view(),
            payout: self.payout@,
            cr: self.cr@,
            cap: self.cap,
            vertical: self.vertical.deep_view(),
        }
    }
}

/// The model of a draft in contracts: what the lines read so far have given,
/// for each rule its value, once a line has stated it.
pub struct Draft {
    /// The name, from the `OFFER` line.
    pub name: Option<Seq<char>>,
    /// The items of the `GEO` line.
    pub geo: Option<Seq<Seq<char>>>,
    /// The items of the `TRAFFIC` line.
    pub traffic: Option<Seq<Seq<char>>>,
    /// The numeral of the `PAYOUT` line.
    pub payout: Option<Seq<char>>,
    /// The numeral of the `CR` line.
    pub cr: Option<Seq<char>>,
    /// The count of the `CAP` line.
    pub cap: Option<u32>,
    /// The category of the `VERTICAL` line.
    pub vertical: Option<Seq<char>>,
}

/// Whether a trimmed line is passed over: it is empty or a comment.
pub open spec fn is_ignored(line: Seq<char>) -> bool {
    line.len() == 0 || line.first() == '#'
}

impl Draft {
    /// The draft before any line: no rule stated.
    pub open spec fn empty() -> Draft {
        Draft {
            name: None,
            geo: None,
            traffic: None,
            payout: None,
            cr: None,
            cap: None,
            vertical: None,
        }
    }

    /// Whether a line has stated `rule`.
    pub open spec fn has(self, rule: Rule) -> bool {
        match rule {
            Rule::Offer => self.name is Some,
            Rule::Geo => self.geo is Some,
            Rule::Traffic => self.traffic is Some,
            Rule::Payout => self.payout is Some,
            Rule::Cr => self.cr is Some,
            Rule::Cap => self.cap is Some,
            Rule::Vertical => self.vertical is Some,
        }
    }

    /// What holds of every draft that lines have led to: what
    /// `OfferRecord::well_formed` asks, of the values that are there, and that
    /// a list that is there has an item.
    pub open spec fn well_formed(self) -> bool {
        &&& self.name matches Some(name) ==> name.len() > 0
        &&& self.geo matches Some(geo) ==> geo.len() > 0 && forall|i: int|
            0 <= i < geo.len() ==> (#[trigger] geo[i]).len() > 0
        &&& self.traffic matches Some(traffic) ==> traffic.len() > 0 && forall|i: int|
            0 <= i < traffic.len() ==> (#[trigger] traffic[i]).len() > 0
        &&& self.payout matches Some(payout) ==> is_numeral(payout)
        &&& self.cr matches Some(cr) ==> is_numeral(cr)
    }

    /// The draft after the trimmed line `line`, which states `rule`, a rule
    /// that no line before it stated: the line's value is read as the rule
    /// asks and put down.
    pub open spec fn note(self, line: Seq<char>, rule: Rule) -> Result<Draft, ParseFailure> {
        let value = value_of(line, rule);
        match rule {
            Rule::Offer => match name_of(value) {
                Ok(name) => Ok(Draft { name: Some(name), ..self }),
                Err(e) => Err(e),
            },
            Rule::Geo => match items_of(value, rule) {
                Ok(items) => Ok(Draft { geo: Some(items), ..self }),
                Err(e) => Err(e),
            },
            Rule::Traffic => match items_of(value, rule) {
                Ok(items) => Ok(Draft { traffic: Some(items), ..self }),
                Err(e) => Err(e),
            },
            Rule::Payout => match amount_of(line, value, payout_unit()) {
                Ok(numeral) => Ok(Draft { payout: Some(numeral), ..self }),
                Err(e) => Err(e),
            },
            Rule::Cr => match amount_of(line, value, rate_unit()) {
                Ok(numeral) => Ok(Draft { cr: Some(numeral), ..self }),
                Err(e) => Err(e),
            },
            Rule::Cap => match cap_of(line, value) {
                Ok(n) => Ok(Draft { cap: Some(n), ..self }),
                Err(e) => Err(e),
            },
            Rule::Vertical => match vertical_of(value) {
                Ok(category) => Ok(Draft { vertical: Some(category), ..self }),
                Err(e) => Err(e),
            },
        }
    }

    /// The draft after one more line, `raw`, or the failure of that line.
    pub open spec fn accept(self, raw: Seq<char>) -> Result<Draft, ParseFailure> {
        let line = trim(raw);
        if is_ignored(line) {
            Ok(self)
        } else {
            match rule_of(line) {
                None => Err(ParseFailure::UnknownRule(line)),
                Some(rule) => if self.has(rule) {
                    Err(ParseFailure::DuplicateField(rule.keyword()))
                } else {
                    self.note(line, rule)
                },
            }
        }
    }

    /// The draft after the lines `lines`, or the failure of the first of them
    /// that fails.
    pub open spec fn accept_all(self, lines: Seq<Seq<char>>) -> Result<Draft, ParseFailure>
        decreases lines.len(),
    {
        if lines.len() == 0 {
            Ok(self)
        } else {
            match self.accept(lines.first()) {
                Ok(next) => next.accept_all(lines.drop_first()),
                Err(e) => Err(e),
            }
        }
    }

    /// What the parse comes to from this draft with the lines `lines` still
    /// to read.
    pub open spec fn complete(self, lines: Seq<Seq<char>>) -> Result<OfferRecord, ParseFailure> {
        match self.accept_all(lines) {
            Ok(draft) => draft.finish(),
            Err(e) => Err(e),
        }
    }

    /// The offer that the draft amounts to when the lines are through, or the
    /// failure that names the first required rule, of `OFFER`, `PAYOUT` and
    /// `CR` in this order, that no line stated.
    pub open spec fn finish(self) -> Result<OfferRecord, ParseFailure> {
        if self.name is None {
            Err(ParseFailure::MissingField(Rule::Offer.keyword()))
        } else if self.payout is None {
            Err(ParseFailure::MissingField(Rule::Payout.keyword()))
        } else if self.cr is None {
            Err(ParseFailure::MissingField(Rule::Cr.keyword()))
        } else {
            Ok(
                OfferRecord {
                    name: self.name->0,
                    geo: match self.geo {
                        Some(items) => items,
                        None => Seq::empty(),
                    },
                    traffic: match self.traffic {
                        Some(items) => items,
                        None => Seq::empty(),
                    },
                    payout: self.payout->0,
                    cr: self.cr->0,
                    cap: self.cap,
                    vertical: self.vertical,
                },
            )
        }
    }
}

/// What the lines `lines` parse to: the offer that the empty draft amounts to
/// after them, or the first failure on the way.
pub open spec fn parse_lines(lines: Seq<Seq<char>>) -> Result<OfferRecord, ParseFailure> {
    Draft::empty().complete(lines)
}

/// What the text `text` parses to: what its lines parse to.
pub open spec fn parse_text(text: Seq<char>) -> Result<OfferRecord, ParseFailure> {
    parse_lines(split_lines(text))
}

/// The lines read so far: for each rule its value, once a line has stated it.
///
/// A draft is made empty, takes the lines one by one and is finished when
/// they are through. It cannot be looked into before: an offer exists only
/// once every line has been accepted.
pub struct OfferDraft {
    name: Option<String>,
    geo: Option<Vec<String>>,
    traffic: Option<Vec<String>>,
    payout: Option<String>,
    cr: Option<String>,
    cap: Option<u32>,
    vertical: Option<String>,
}

impl View for OfferDraft {
    type V = Draft;

    closed spec fn view(&self) -> Draft {
        Draft {
            name: self.name.deep_view(),
            geo: self.geo.deep_view(),
            traffic: self.traffic.deep_view(),
            payout: self.payout.deep_view(),
            cr: self.cr.deep_view(),
            cap: self.cap,
            vertical: self.vertical.deep_view(),
        }
    }
}

impl OfferDraft {
    #[verifier::type_invariant]
    spec fn inv(self) -> bool {
        self@.well_formed()
    }

    /// The draft before any line.
    pub fn new() -> (r: OfferDraft)
        ensures
            r@ == Draft::empty(),
    {
        OfferDraft {
            name: None,
            geo: None,
            traffic: None,
            payout: None,
            cr: None,
            cap: None,
            vertical: None,
        }
    }

    /// Whether a line has stated `rule`.
    fn has(&self, rule: Rule) -> (r: bool)
        ensures
            r == self@.has(rule),
    {
        match rule {
            Rule::Offer => self.name.is_some(),
            Rule::Geo => self.geo.is_some(),
            Rule::Traffic => self.traffic.is_some(),
            Rule::Payout => self.payout.is_some(),
            Rule::Cr => self.cr.is_some(),
            Rule::Cap => self.cap.is_some(),
            Rule::Vertical => self.vertical.is_some(),
        }
    }

    /// Takes one more line. The line is trimmed; an empty line and a comment
    /// leave the draft as it is. The result is the draft with the line's value
    /// put down, or the failure of the line: `UnknownRule` where it states no
    /// rule, `DuplicateField` where an earlier line stated its rule, and else
    /// what the rule finds wrong with the value.
    pub fn accept_line(self, line: &str) -> (r: Result<OfferDraft, ParseError>)
        ensures
            match self@.accept(line@) {
                Ok(next) => r matches Ok(draft) && draft@ == next,
                Err(e) => r matches Err(err) && err@ == e,
            },
    {
        let chars = chars_of(line);
        assert(chars@.subrange(0, chars.len() as int) == line@);
        self.accept_window(line, &chars, 0, chars.len())
    }

    /// Takes as one more line the window `[start, end)` of `text`. `chars`
    /// holds the characters of `text`.
    fn accept_window(self, text: &str, chars: &Vec<char>, start: usize, end: usize) -> (r: Result<
        OfferDraft,
        ParseError,
    >)
        requires
            chars@ == text@,
            start <= end <= chars.len(),
        ensures
            match self@.accept(chars@.subrange(start as int, end as int)) {
                Ok(next) => r matches Ok(draft) && draft@ == next,
                Err(e) => r matches Err(err) && err@ == e,
            },
    {
        proof {
            use_type_invariant(&self);
        }
        let (from, to) = trim_bounds(chars, start, end);
        if from == to || chars[from] == '#' {
            return Ok(self);
        }
        let ghost line = chars@.subrange(from as int, to as int);
        let rule = match classify(chars, from, to) {
            Some(rule) => rule,
            None => {
                return Err(ParseError::UnknownRule(owned_range(text, from, to)));
            },
        };
        if self.has(rule) {
            return Err(ParseError::DuplicateField(String::from_str(rule.name())));
        }
        let skip = rule.prefix_chars().len();
        assert(line.skip(skip as int) == chars@.subrange(from + skip, to as int));
        let (lo, hi) = trim_bounds(chars, from + skip, to);
        let OfferDraft { name, geo, traffic, payout, cr, cap, vertical } = self;
        match rule {
            Rule::Offer => match read_name(text, chars, lo, hi) {
                Ok(value) => Ok(
                    OfferDraft { name: Some(value), geo, traffic, payout, cr, cap, vertical },
                ),
                Err(e) => Err(e),
            },
            Rule::Geo => match read_list(text, chars, lo, hi, rule) {
                Ok(items) => Ok(
                    OfferDraft { name, geo: Some(items), traffic, payout, cr, cap, vertical },
                ),
                Err(e) => Err(e),
            },
            Rule::Traffic => match read_list(text, chars, lo, hi, rule) {
                Ok(items) => Ok(
                    OfferDraft { name, geo, traffic: Some(items), payout, cr, cap, vertical },
                ),
                Err(e) => Err(e),
            },
            Rule::Payout => match read_amount(text, chars, from, to, lo, hi, "USD") {
                Ok(value) => Ok(
                    OfferDraft { name, geo, traffic, payout: Some(value), cr, cap, vertical },
                ),
                Err(e) => Err(e),
            },
            Rule::Cr => match read_amount(text, chars, from, to, lo, hi, "%") {
                Ok(value) => Ok(
                    OfferDraft { name, geo, traffic, payout, cr: Some(value), cap, vertical },
                ),
                Err(e) => Err(e),
            },
            Rule::Cap => match read_cap(text, chars, from, to, lo, hi) {
                Ok(n) => Ok(
                    OfferDraft { name, geo, traffic, payout, cr, cap: Some(n), vertical },
                ),
                Err(e) => Err(e),
            },
            Rule::Vertical => match read_vertical(text, chars, lo, hi) {
                Ok(value) => Ok(
                    OfferDraft { name, geo, traffic, payout, cr, cap, vertical: Some(value) },
                ),
                Err(e) => Err(e),
            },
        }
    }

    /// Ends the parse: the offer that the lines have given, with empty lists
    /// and absent values for the optional rules that no line stated, or
    /// `MissingField` with the first required rule, of `OFFER`, `PAYOUT` and
    /// `CR` in this order, that no line stated.
    pub fn finish(self) -> (r: Result<OfferConfig, ParseError>)
        ensures
            match self@.finish() {
                Ok(record) => r matches Ok(config) && config@ == record,
                Err(e) => r matches Err(err) && err@ == e,
            },
            r matches Ok(config) ==> config@.well_formed(),
    {
        proof {
            use_type_invariant(&self);
        }
        let OfferDraft { name, geo, traffic, payout, cr, cap, vertical } = self;
        let name = match name {
            Some(name) => name,
            None => {
                return Err(ParseError::MissingField(String::from_str(Rule::Offer.name())));
            },
        };
        let payout = match payout {
            Some(payout) => payout,
            None => {
                return Err(ParseError::MissingField(String::from_str(Rule::Payout.name())));
            },
        };
        let cr = match cr {
            Some(cr) => cr,
            None => {
                return Err(ParseError::MissingField(String::from_str(Rule::Cr.name())));
            },
        };
        let geo = match geo {
            Some(items) => items,
            None => Vec::new(),
        };
        let traffic = match traffic {
            Some(items) => items,
            None => Vec::new(),
        };
        assert(self@.geo is None ==> geo.deep_view() == Seq::<Seq<char>>::empty());
        assert(self@.traffic is None ==> traffic.deep_view() == Seq::<Seq<char>>::empty());
        Ok(OfferConfig { name, geo, traffic, payout, cr, cap, vertical })
    }
}

/// Parses the text of an offer.
///
/// The lines of `text` are the pieces between its line feeds. The result is
/// the offer that they give, or the failure of the first line that fails, or,
/// where no line fails, the `MissingField` of the first required rule that no
/// line stated.
pub fn parse_offer_text(text: &str) -> (r: Result<OfferConfig, ParseError>)
    ensures
        match parse_text(text@) {
            Ok(record) => r matches Ok(config) && config@ == record,
            Err(e) => r matches Err(err) && err@ == e,
        },
        r matches Ok(config) ==> config@.well_formed(),
{
    let chars = chars_of(text);
    let mut draft = OfferDraft::new();
    let mut start: usize = 0;
    assert(chars@.skip(0) == text@);
    loop
        invariant
            chars@ == text@,
            start <= chars.len(),
            parse_text(text@) == draft@.complete(split_lines(chars@.skip(start as int))),
        decreases chars.len() - start,
    {
        let ghost rest = chars@.skip(start as int);
        let ghost before = draft@;
        let ghost lines = split_lines(rest);
        let end = line_end(&chars, start);
        assert(chars@.subrange(start as int, end as int) == rest.take(end - start));
        draft =
        match draft.accept_window(text, &chars, start, end) {
            Ok(next) => next,
            Err(e) => {
                return Err(e);
            },
        };
        if end == chars.len() {
            assert(before.accept_all(lines) == draft@.accept_all(lines.drop_first()));
            return draft.finish();
        }
        proof {
            let after = chars@.skip(end + 1);
            assert(rest.skip(end - start + 1) == after);
            assert(lines.drop_first() == split_lines(after));
        }
        start = end + 1;
    }
}

} // verus!
