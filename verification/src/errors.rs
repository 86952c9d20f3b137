//! The ways in which a text fails to be an offer.

use vstd::prelude::*;

verus! {

/// The model of a failure in contracts: the kind, and the text that it carries.
/// For the kinds that name a rule the text is the rule's keyword; for those
/// that speak of a line it is the whole line, trimmed.
pub enum ParseFailure {
    /// The source could not be read; the text describes why.
    Io(Seq<char>),
    /// A line has the right keyword but not the shape that its rule asks for.
    InvalidFormat(Seq<char>),
    /// A required rule is in no line.
    MissingField(Seq<char>),
    /// A rule is in more than one line.
    DuplicateField(Seq<char>),
    /// A line starts with none of the keywords.
    UnknownRule(Seq<char>),
    /// A line has the right shape, but what should be a number is none.
    InvalidNumber(Seq<char>),
    /// A rule's value, or an item of its list, is empty.
    EmptyValue(Seq<char>),
}

impl ParseFailure {
    /// The text that the failure carries.
    pub open spec fn detail(self) -> Seq<char> {
        match self {
            ParseFailure::Io(t) => t,
            ParseFailure::InvalidFormat(t) => t,
            ParseFailure::MissingField(t) => t,
            ParseFailure::DuplicateField(t) => t,
            ParseFailure::UnknownRule(t) => t,
            ParseFailure::InvalidNumber(t) => t,
            ParseFailure::EmptyValue(t) => t,
        }
    }

    /// What the message of a failure of this kind starts with.
    pub open spec fn heading(self) -> Seq<char> {
        match self {
            ParseFailure::Io(_) => "IO Error: "@,
            ParseFailure::InvalidFormat(_) => "Invalid format in line: "@,
            ParseFailure::MissingField(_) => "Missing required field: "@,
            ParseFailure::DuplicateField(_) => "Duplicate field detected: "@,
            ParseFailure::UnknownRule(_) => "Unknown rule: "@,
            ParseFailure::InvalidNumber(_) => "Invalid number in line: "@,
            ParseFailure::EmptyValue(_) => "Empty value for field: "@,
        }
    }

    /// The message for a reader: the heading of the kind, then the detail.
    pub open spec fn message(self) -> Seq<char> {
        self.heading() + self.detail()
    }
}

/// A failure of parsing, with the text that it carries.
#[derive(Debug, PartialEq, Eq)]
pub enum ParseError {
    /// The source could not be read; the text describes why.
    Io(String),
    /// A line has the right keyword but not the shape that its rule asks for.
    InvalidFormat(String),
    /// A required rule is in no line.
    MissingField(String),
    /// A rule is in more than one line.
    DuplicateField(String),
    /// A line starts with none of the keywords.
    UnknownRule(String),
    /// A line has the right shape, but what should be a number is none.
    InvalidNumber(String),
    /// A rule's value, or an item of its list, is empty.
    EmptyValue(String),
}

impl View for ParseError {
    type V = ParseFailure;

    open spec fn view(&self) -> ParseFailure {
        match self {
            ParseError::Io(t) => ParseFailure::Io(t@),
            ParseError::InvalidFormat(t) => ParseFailure::InvalidFormat(t@),
            ParseError::MissingField(t) => ParseFailure::MissingField(t@),
            ParseError::DuplicateField(t) => ParseFailure::DuplicateField(t@),
            ParseError::UnknownRule(t) => ParseFailure::UnknownRule(t@),
            ParseError::InvalidNumber(t) => ParseFailure::InvalidNumber(t@),
            ParseError::EmptyValue(t) => ParseFailure::EmptyValue(t@),
        }
    }
}

impl ParseError {
    /// The message for a reader: the heading of the kind, then the text that
    /// the failure carries.
    pub fn message(&self) -> (r: String)
        ensures
            r@ == self@.message(),
    {
        match self {
            ParseError::Io(t) => String::from_str("IO Error: ").concat(t.as_str()),
            ParseError::InvalidFormat(t) => String::from_str("Invalid format in line: ").concat(
                t.as_str(),
            ),
            ParseError::MissingField(t) => String::from_str("Missing required field: ").concat(
                t.as_str(),
            ),
            ParseError::DuplicateField(t) => String::from_str("Duplicate field detected: ").concat(
                t.as_str(),
            ),
            ParseError::UnknownRule(t) => String::from_str("Unknown rule: ").concat(t.as_str()),
            ParseError::InvalidNumber(t) => String::from_str("Invalid number in line: ").concat(
                t.as_str(),
            ),
            ParseError::EmptyValue(t) => String::from_str("Empty value for field: ").concat(
                t.as_str(),
            ),
        }
    }
}

} // verus!
