//! What holds of the parser on every input.
//!
//! The laws speak of the lines of a text; `parse_text` is `parse_lines` of
//! `split_lines`, so each of them holds of a text through its lines.

use vstd::prelude::*;
use crate::errors::ParseFailure;
use crate::list::{law_split_pieces, list_items, split_pieces};
use crate::numeral::count_of;
use crate::parser::{is_ignored, parse_lines, parse_text, Draft, OfferRecord};
use crate::rule::{before_unit, lemma_keywords, payout_unit, rate_unit, rule_of, value_of, Rule};
use crate::text::{
    join,
    lemma_split_lines_join,
    lemma_split_lines_one,
    split_lines,
    strip_quotes,
    trim,
};

verus! {

/// The rule that the line `raw` states, if it states one.
pub open spec fn stated_rule(raw: Seq<char>) -> Option<Rule> {
    rule_of(trim(raw))
}

/// Whether one of `lines` states `rule`.
pub open spec fn states_rule(lines: Seq<Seq<char>>, rule: Rule) -> bool {
    exists|i: int| 0 <= i < lines.len() && #[trigger] stated_rule(lines[i]) == Some(rule)
}

/// Whether no two of `lines` state the same rule.
pub open spec fn no_rule_twice(lines: Seq<Seq<char>>) -> bool {
    forall|i: int, j: int|
        0 <= i < j < lines.len() && (#[trigger] stated_rule(lines[i])) is Some ==> stated_rule(
            lines[i],
        ) != #[trigger] stated_rule(lines[j])
}

/// Whether the line `raw` is accepted where no line stands before it: it is
/// passed over, or it states a rule and its value is what the rule asks for.
pub open spec fn accepted_alone(raw: Seq<char>) -> bool {
    Draft::empty().accept(raw) is Ok
}

/// Whether every one of `lines` is accepted alone.
pub open spec fn all_accepted_alone(lines: Seq<Seq<char>>) -> bool {
    forall|i: int| 0 <= i < lines.len() ==> accepted_alone(#[trigger] lines[i])
}

/// Whether the drafts `a` and `b` hold the same for `rule`.
pub open spec fn same_at(a: Draft, b: Draft, rule: Rule) -> bool {
    match rule {
        Rule::Offer => a.name == b.name,
        Rule::Geo => a.geo == b.geo,
        Rule::Traffic => a.traffic == b.traffic,
        Rule::Payout => a.payout == b.payout,
        Rule::Cr => a.cr == b.cr,
        Rule::Cap => a.cap == b.cap,
        Rule::Vertical => a.vertical == b.vertical,
    }
}

/// A line that is passed over states no rule.
pub proof fn lemma_ignored_states_none(raw: Seq<char>)
    requires
        is_ignored(trim(raw)),
    ensures
        stated_rule(raw) is None,
{
    lemma_keywords();
    let line = trim(raw);
    match rule_of(line) {
        Some(rule) => {
            assert(line[0] == rule.prefix()[0]);
        },
        None => {},
    }
}

/// What a draft makes of one line, told by what the empty draft makes of it:
/// a line that states a rule which the draft has fails as a duplicate; any
/// other line fails as it fails alone, or changes the draft for its own rule
/// only, to what it gives alone.
pub proof fn lemma_accept_frame(draft: Draft, raw: Seq<char>)
    ensures
        match stated_rule(raw) {
            None => draft.accept(raw) == if is_ignored(trim(raw)) {
                Ok::<Draft, ParseFailure>(draft)
            } else {
                Err::<Draft, ParseFailure>(ParseFailure::UnknownRule(trim(raw)))
            },
            Some(rule) => if draft.has(rule) {
                draft.accept(raw) == Err::<Draft, ParseFailure>(
                    ParseFailure::DuplicateField(rule.keyword()),
                )
            } else {
                match Draft::empty().accept(raw) {
                    Err(e) => draft.accept(raw) == Err::<Draft, ParseFailure>(e),
                    Ok(alone) => {
                        &&& draft.accept(raw) matches Ok(next)
                        &&& next.has(rule)
                        &&& same_at(next, alone, rule)
                        &&& forall|other: Rule|
                            other != rule ==> #[trigger] same_at(next, draft, other)
                    },
                }
            },
        },
{
    if is_ignored(trim(raw)) {
        lemma_ignored_states_none(raw);
    }
}

/// Reading the lines `first` and then the lines `second` is reading them in
/// one go.
pub proof fn lemma_accept_all_concat(draft: Draft, first: Seq<Seq<char>>, second: Seq<Seq<char>>)
    ensures
        draft.accept_all(first + second) == match draft.accept_all(first) {
            Ok(middle) => middle.accept_all(second),
            Err(e) => Err(e),
        },
    decreases first.len(),
{
    if first.len() > 0 {
        assert((first + second).first() == first.first());
        assert((first + second).drop_first() == first.drop_first() + second);
        match draft.accept(first.first()) {
            Ok(next) => lemma_accept_all_concat(next, first.drop_first(), second),
            Err(_) => {},
        }
    }
}

/// What the lines that a draft accepts leave as it was: the value of a rule
/// that the draft has, and the absence of one that none of the lines states.
/// After them the draft has the rules that it had and those that the lines
/// state.
pub proof fn lemma_accept_all_frame(draft: Draft, lines: Seq<Seq<char>>, rule: Rule)
    requires
        draft.accept_all(lines) is Ok,
    ensures
        ({
            let after = draft.accept_all(lines)->Ok_0;
            &&& after.has(rule) <==> draft.has(rule) || states_rule(lines, rule)
            &&& draft.has(rule) || !states_rule(lines, rule) ==> same_at(after, draft, rule)
        }),
    decreases lines.len(),
{
    if lines.len() > 0 {
        let raw = lines.first();
        let rest = lines.drop_first();
        let next = draft.accept(raw)->Ok_0;
        lemma_accept_frame(draft, raw);
        lemma_accept_all_frame(next, rest, rule);
        if states_rule(rest, rule) {
            let i = choose|i: int|
                0 <= i < rest.len() && #[trigger] stated_rule(rest[i]) == Some(rule);
            assert(stated_rule(lines[i + 1]) == Some(rule));
        }
        if states_rule(lines, rule) && stated_rule(raw) != Some(rule) {
            let i = choose|i: int|
                0 <= i < lines.len() && #[trigger] stated_rule(lines[i]) == Some(rule);
            assert(stated_rule(rest[i - 1]) == Some(rule));
        }
        if stated_rule(raw) == Some(rule) {
            assert(stated_rule(lines[0]) == Some(rule));
        }
    }
}

/// Whether `draft` has none of the rules that `lines` state.
pub open spec fn states_only_new(draft: Draft, lines: Seq<Seq<char>>) -> bool {
    forall|i: int|
        0 <= i < lines.len() ==> ((#[trigger] stated_rule(lines[i])) matches Some(rule)
            ==> !draft.has(rule))
}

/// A draft accepts lines exactly when each of them is accepted alone, no two
/// of them state the same rule, and none states a rule that the draft has.
pub proof fn lemma_accept_all_ok(draft: Draft, lines: Seq<Seq<char>>)
    ensures
        draft.accept_all(lines) is Ok <==> all_accepted_alone(lines) && no_rule_twice(lines)
            && states_only_new(draft, lines),
    decreases lines.len(),
{
    if lines.len() > 0 {
        let raw = lines.first();
        let rest = lines.drop_first();
        lemma_accept_frame(draft, raw);
        assert forall|i: int| 0 <= i < rest.len() implies rest[i] == lines[i + 1] by {}
        if let Ok(next) = draft.accept(raw) {
            lemma_accept_all_ok(next, rest);
            if next.accept_all(rest) is Ok {
                assert forall|i: int| 0 <= i < lines.len() implies accepted_alone(
                    #[trigger] lines[i],
                ) by {
                    if i > 0 {
                        assert(accepted_alone(rest[i - 1]));
                    }
                }
                assert forall|i: int, j: int|
                    0 <= i < j < lines.len() && (#[trigger] stated_rule(
                        lines[i],
                    )) is Some implies stated_rule(lines[i]) != #[trigger] stated_rule(
                    lines[j],
                ) by {
                    if i > 0 {
                        assert(stated_rule(rest[i - 1]) != stated_rule(rest[j - 1]));
                    }
                }
                assert forall|i: int| 0 <= i < lines.len() implies ((#[trigger] stated_rule(
                    lines[i],
                )) matches Some(rule) ==> !draft.has(rule)) by {
                    if i > 0 {
                        assert(stated_rule(rest[i - 1]) matches Some(rule) ==> !next.has(rule));
                    }
                }
            }
            if all_accepted_alone(lines) && no_rule_twice(lines) && states_only_new(draft, lines) {
                assert forall|i: int| 0 <= i < rest.len() implies ((#[trigger] stated_rule(
                    rest[i],
                )) matches Some(rule) ==> !next.has(rule)) by {}
            }
        }
    }
}

/// After lines that a draft accepts, the draft holds for the rule of each of
/// them what that line gives alone.
pub proof fn lemma_accept_all_value(draft: Draft, lines: Seq<Seq<char>>, i: int)
    requires
        draft.accept_all(lines) is Ok,
        0 <= i < lines.len(),
        stated_rule(lines[i]) is Some,
    ensures
        accepted_alone(lines[i]),
        same_at(
            draft.accept_all(lines)->Ok_0,
            Draft::empty().accept(lines[i])->Ok_0,
            stated_rule(lines[i])->0,
        ),
    decreases lines.len(),
{
    let raw = lines.first();
    let rest = lines.drop_first();
    let next = draft.accept(raw)->Ok_0;
    let rule = stated_rule(lines[i])->0;
    lemma_accept_frame(draft, raw);
    if i == 0 {
        lemma_accept_all_frame(next, rest, rule);
    } else {
        lemma_accept_all_value(next, rest, i - 1);
    }
}

/// The first of the required rules, `OFFER`, `PAYOUT` and `CR` in this order,
/// that none of `lines` states.
pub open spec fn first_missing(lines: Seq<Seq<char>>) -> Option<Rule> {
    if !states_rule(lines, Rule::Offer) {
        Some(Rule::Offer)
    } else if !states_rule(lines, Rule::Payout) {
        Some(Rule::Payout)
    } else if !states_rule(lines, Rule::Cr) {
        Some(Rule::Cr)
    } else {
        None
    }
}

/// Success: lines parse to an offer exactly when each of them is accepted
/// alone, no two of them state the same rule, and `OFFER`, `PAYOUT` and `CR`
/// are each stated.
pub proof fn law_success(lines: Seq<Seq<char>>)
    ensures
        parse_lines(lines) is Ok <==> all_accepted_alone(lines) && no_rule_twice(lines)
            && first_missing(lines) is None,
{
    let start = Draft::empty();
    lemma_accept_all_ok(start, lines);
    if start.accept_all(lines) is Ok {
        lemma_accept_all_frame(start, lines, Rule::Offer);
        lemma_accept_all_frame(start, lines, Rule::Payout);
        lemma_accept_all_frame(start, lines, Rule::Cr);
    }
}

/// Round trip of the required fields: where every line is accepted alone, no
/// two lines state the same rule, and the lines at `offer`, `payout` and `cr`
/// state `OFFER`, `PAYOUT` and `CR`, the lines parse to an offer. Its name is
/// the value of the `OFFER` line without one layer of quotes; its payout and
/// its conversion rate are the numerals that stand before the units in the
/// values of the other two lines.
pub proof fn law_required_fields_round_trip(
    lines: Seq<Seq<char>>,
    offer: int,
    payout: int,
    cr: int,
)
    requires
        all_accepted_alone(lines),
        no_rule_twice(lines),
        0 <= offer < lines.len() && stated_rule(lines[offer]) == Some(Rule::Offer),
        0 <= payout < lines.len() && stated_rule(lines[payout]) == Some(Rule::Payout),
        0 <= cr < lines.len() && stated_rule(lines[cr]) == Some(Rule::Cr),
    ensures
        parse_lines(lines) matches Ok(record) && {
            &&& record.name == strip_quotes(value_of(trim(lines[offer]), Rule::Offer))
            &&& record.payout == before_unit(
                value_of(trim(lines[payout]), Rule::Payout),
                payout_unit(),
            )
            &&& record.cr == before_unit(value_of(trim(lines[cr]), Rule::Cr), rate_unit())
        },
{
    law_success(lines);
    law_stated_values(lines, offer);
    law_stated_values(lines, payout);
    law_stated_values(lines, cr);
}

/// Every stated value is in the offer: where lines parse to an offer and the
/// line at `i` states a rule, the offer holds for that rule what the rule
/// makes of the line's own value.
pub proof fn law_stated_values(lines: Seq<Seq<char>>, i: int)
    requires
        parse_lines(lines) is Ok,
        0 <= i < lines.len(),
        stated_rule(lines[i]) is Some,
    ensures
        ({
            let record = parse_lines(lines)->Ok_0;
            let rule = stated_rule(lines[i])->0;
            let value = value_of(trim(lines[i]), rule);
            match rule {
                Rule::Offer => record.name == strip_quotes(value),
                Rule::Geo => record.geo == list_items(value),
                Rule::Traffic => record.traffic == list_items(value),
                Rule::Payout => record.payout == before_unit(value, payout_unit()),
                Rule::Cr => record.cr == before_unit(value, rate_unit()),
                Rule::Cap => record.cap == count_of(value) && record.cap is Some,
                Rule::Vertical => record.vertical == Some(strip_quotes(value)),
            }
        }),
{
    let start = Draft::empty();
    lemma_accept_all_value(start, lines, i);
    lemma_accept_frame(start, lines[i]);
}

/// Defaulting: in an offer that lines parse to, the list of `GEO` or of
/// `TRAFFIC` is empty exactly when no line states the rule, and the value of
/// `CAP` or of `VERTICAL` is absent exactly when no line states the rule.
pub proof fn law_defaults(lines: Seq<Seq<char>>)
    requires
        parse_lines(lines) is Ok,
    ensures
        ({
            let record = parse_lines(lines)->Ok_0;
            &&& !states_rule(lines, Rule::Geo) <==> record.geo == Seq::<Seq<char>>::empty()
            &&& !states_rule(lines, Rule::Traffic) <==> record.traffic == Seq::<
                Seq<char>,
            >::empty()
            &&& !states_rule(lines, Rule::Cap) <==> record.cap is None
            &&& !states_rule(lines, Rule::Vertical) <==> record.vertical is None
        }),
{
    let start = Draft::empty();
    lemma_accept_all_frame(start, lines, Rule::Geo);
    lemma_accept_all_frame(start, lines, Rule::Traffic);
    lemma_accept_all_frame(start, lines, Rule::Cap);
    lemma_accept_all_frame(start, lines, Rule::Vertical);
    lemma_accept_all_well_formed(start, lines);
}

/// List parsing: the items of a list are as many as the pieces of its value,
/// one at least, and each item is its piece trimmed and without one layer of
/// quotes; the pieces with a comma between each two of them are the value.
pub proof fn law_list_items(value: Seq<char>)
    ensures
        list_items(value).len() == split_pieces(value).len() >= 1,
        forall|i: int|
            0 <= i < list_items(value).len() ==> #[trigger] list_items(value)[i] == strip_quotes(
                trim(split_pieces(value)[i]),
            ),
        join(split_pieces(value), ',') == value,
{
    law_split_pieces(value);
}

/// Duplicate detection: where the lines at `first` and `second` state the
/// same rule and no line before `second` fails, the parse fails at `second`
/// with `DuplicateField`, which carries the rule's keyword.
pub proof fn law_duplicate(lines: Seq<Seq<char>>, first: int, second: int)
    requires
        0 <= first < second < lines.len(),
        stated_rule(lines[first]) is Some,
        stated_rule(lines[first]) == stated_rule(lines[second]),
        Draft::empty().accept_all(lines.take(second)) is Ok,
    ensures
        parse_lines(lines) == Err::<OfferRecord, ParseFailure>(
            ParseFailure::DuplicateField(stated_rule(lines[second])->0.keyword()),
        ),
{
    let start = Draft::empty();
    let rule = stated_rule(lines[second])->0;
    let head = lines.take(second);
    let tail = lines.skip(second);
    assert(lines == head + tail);
    lemma_accept_all_concat(start, head, tail);
    lemma_accept_all_frame(start, head, rule);
    let middle = start.accept_all(head)->Ok_0;
    lemma_accept_frame(middle, lines[second]);
}

/// Fail fast: where the lines before the line at `at` are accepted and that
/// line fails, the parse fails with its failure, whatever follows.
pub proof fn law_fail_fast(lines: Seq<Seq<char>>, at: int)
    requires
        0 <= at < lines.len(),
        Draft::empty().accept_all(lines.take(at)) matches Ok(draft) && draft.accept(
            lines[at],
        ) is Err,
    ensures
        parse_lines(lines) == Err::<OfferRecord, ParseFailure>(
            Draft::empty().accept_all(lines.take(at))->Ok_0.accept(lines[at])->Err_0,
        ),
{
    let head = lines.take(at);
    let tail = lines.skip(at);
    assert(lines == head + tail);
    lemma_accept_all_concat(Draft::empty(), head, tail);
}

/// Missing required field: where no line fails, the parse fails with
/// `MissingField` exactly when a required rule is stated by no line, and the
/// failure carries the keyword of the first such rule, of `OFFER`, `PAYOUT`
/// and `CR` in this order.
pub proof fn law_missing(lines: Seq<Seq<char>>)
    requires
        Draft::empty().accept_all(lines) is Ok,
    ensures
        match first_missing(lines) {
            Some(rule) => parse_lines(lines) == Err::<OfferRecord, ParseFailure>(
                ParseFailure::MissingField(rule.keyword()),
            ),
            None => parse_lines(lines) is Ok,
        },
{
    let start = Draft::empty();
    lemma_accept_all_frame(start, lines, Rule::Offer);
    lemma_accept_all_frame(start, lines, Rule::Payout);
    lemma_accept_all_frame(start, lines, Rule::Cr);
}

/// Comments and blank lines change nothing: a line that is empty once
/// trimmed, or then starts with `#`, can be put between any lines, before
/// them or behind them, and the lines parse to what they parsed to without it.
pub proof fn law_ignored_line(before: Seq<Seq<char>>, raw: Seq<char>, after: Seq<Seq<char>>)
    requires
        is_ignored(trim(raw)),
    ensures
        parse_lines(before + seq![raw] + after) == parse_lines(before + after),
{
    let start = Draft::empty();
    lemma_accept_all_concat(start, before + seq![raw], after);
    lemma_accept_all_concat(start, before, seq![raw]);
    lemma_accept_all_concat(start, before, after);
    if let Ok(middle) = start.accept_all(before) {
        assert(middle.accept_all(seq![raw].drop_first()) == Ok::<Draft, ParseFailure>(middle));
    }
}

/// Comments and blank lines change nothing in a text either: a line without a
/// line feed that is empty once trimmed, or then starts with `#`, can stand
/// between two texts, before a text or behind one, and the whole parses to
/// what it parses to without that line.
pub proof fn law_ignored_line_in_text(before: Seq<char>, raw: Seq<char>, after: Seq<char>)
    requires
        is_ignored(trim(raw)),
        !raw.contains('\n'),
    ensures
        parse_text(before + seq!['\n'] + raw + seq!['\n'] + after) == parse_text(
            before + seq!['\n'] + after,
        ),
        parse_text(raw + seq!['\n'] + after) == parse_text(after),
        parse_text(before + seq!['\n'] + raw) == parse_text(before),
{
    let none = Seq::<Seq<char>>::empty();
    lemma_split_lines_one(raw);
    lemma_split_lines_join(before + seq!['\n'] + raw, after);
    lemma_split_lines_join(before, raw);
    lemma_split_lines_join(before, after);
    lemma_split_lines_join(raw, after);
    law_ignored_line(split_lines(before), raw, split_lines(after));
    law_ignored_line(none, raw, split_lines(after));
    law_ignored_line(split_lines(before), raw, none);
}

/// A well-formed draft is well formed after every run of lines that it
/// accepts.
pub proof fn lemma_accept_all_well_formed(draft: Draft, lines: Seq<Seq<char>>)
    requires
        draft.well_formed(),
    ensures
        draft.accept_all(lines) matches Ok(after) ==> after.well_formed(),
    decreases lines.len(),
{
    if lines.len() > 0 {
        if let Ok(next) = draft.accept(lines.first()) {
            lemma_accept_all_well_formed(next, lines.drop_first());
        }
    }
}

/// Every offer that lines parse to is well formed: its name is not empty, no
/// item of its lists is empty, and its payout and its conversion rate are
/// numerals.
pub proof fn law_well_formed(lines: Seq<Seq<char>>)
    ensures
        parse_lines(lines) matches Ok(record) ==> record.well_formed(),
{
    lemma_accept_all_well_formed(Draft::empty(), lines);
}

/// Reading is not the parser's part: no line fails with `Io`.
pub proof fn lemma_accept_all_no_io(draft: Draft, lines: Seq<Seq<char>>)
    ensures
        draft.accept_all(lines) matches Err(e) ==> !(e is Io),
    decreases lines.len(),
{
    if lines.len() > 0 {
        if let Ok(next) = draft.accept(lines.first()) {
            lemma_accept_all_no_io(next, lines.drop_first());
        }
    }
}

/// No parse fails with `Io`: that failure is for whoever reads the text.
pub proof fn law_no_io_failure(lines: Seq<Seq<char>>)
    ensures
        parse_lines(lines) matches Err(e) ==> !(e is Io),
{
    lemma_accept_all_no_io(Draft::empty(), lines);
}

} // verus!
