//! Parser for affiliate offer configuration texts.
//!
//! An offer is written one rule to a line, in any order:
//!
//! ```text
//! # a comment
//! OFFER: "Crypto Pro Max"
//! GEO: US, CA
//! TRAFFIC: Facebook, "Google, Search"
//! PAYOUT: 42.5 USD
//! CR: 1.25%
//! CAP: 200
//! VERTICAL: Crypto
//! ```
//!
//! `OFFER`, `PAYOUT` and `CR` are required; no rule may be stated twice.
//! [`parse_offer_text`] reads a whole text, and [`OfferDraft`] reads it line
//! by line. What each of them returns is stated by the `spec` functions of
//! [`parser`], over texts as sequences of characters, and [`laws`] holds what
//! follows from them for every input.

pub mod errors;
pub mod laws;
pub mod list;
pub mod numeral;
pub mod parser;
pub mod rule;
pub mod text;

pub use errors::ParseError;
pub use parser::{parse_offer_text, OfferConfig, OfferDraft};
pub use rule::Rule;
