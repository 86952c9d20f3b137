use affiliate_config_parser::{parse_offer_text, ParseError};

fn payout(numeral: &str) -> Result<String, ParseError> {
    parse_offer_text(&format!("OFFER: A\nCR: 1%\nPAYOUT: {} USD", numeral)).map(|c| c.payout)
}

fn rate(numeral: &str) -> Result<String, ParseError> {
    parse_offer_text(&format!("OFFER: A\nPAYOUT: 1 USD\nCR: {}%", numeral)).map(|c| c.cr)
}

fn cap(value: &str) -> Result<Option<u32>, ParseError> {
    parse_offer_text(&format!("OFFER: A\nPAYOUT: 1 USD\nCR: 1%\nCAP: {}", value)).map(|c| c.cap)
}

const NUMERALS: [&str; 37] = [
    "0", "1", "42", "42.5", "1.25", "0.5", "5.", ".5", "007", "00.00", "1e5", "1E5", "1e+5",
    "1e-5", "1.5e10", "1.E3", ".5e2", "+1", "-1", "+.5", "-5.", "+1e-3", "inf", "INF", "Inf",
    "+inf", "-inf", "infinity", "INFINITY", "InFiNiTy", "-infinity", "nan", "NaN", "NAN", "+nan",
    "-nan", "123456789012345678901234567890.123456789e-400",
];

const NOT_NUMERALS: [&str; 41] = [
    ".", "+", "-", "+.", "e", "e5", ".e5", "1e", "1e+", "1e-", "1e5.", "1e5e5", "1e.5", "1.2.3",
    "1..2", "--1", "++1", "+-1", "1+", "1-", "1 2", "1,5", "1_000", "0x10", "1f", "1.0f32", "$1",
    "in", "infi", "infinit", "infinityy", "na", "nann", "i", "n", "1inf", "inf1", "einf", "1.5 e3",
    "1e 5", "٣",
];

#[test]
fn numerals_are_accepted_as_payout_and_rate() {
    for numeral in NUMERALS {
        assert_eq!(payout(numeral), Ok(numeral.to_string()), "{}", numeral);
        assert_eq!(rate(numeral), Ok(numeral.to_string()), "{}", numeral);
    }
}

#[test]
fn other_texts_are_no_numerals() {
    for text in NOT_NUMERALS {
        assert_eq!(
            payout(text),
            Err(ParseError::InvalidNumber(format!("PAYOUT: {} USD", text))),
            "{}",
            text
        );
        assert_eq!(
            rate(text),
            Err(ParseError::InvalidNumber(format!("CR: {}%", text))),
            "{}",
            text
        );
    }
}

#[test]
fn numerals_are_what_the_standard_library_reads_as_f32() {
    for text in NUMERALS.iter().chain(NOT_NUMERALS.iter()) {
        assert_eq!(payout(text).is_ok(), text.parse::<f32>().is_ok(), "{}", text);
    }
}

#[test]
fn every_short_text_agrees_with_the_standard_library() {
    let alphabet = ['0', '7', '.', 'e', 'E', '+', '-', 'i', 'n', 'f', 'a', 'N', 'x'];
    let mut texts: Vec<String> = vec![String::new()];
    let mut last: Vec<String> = vec![String::new()];
    for _ in 0..4 {
        let mut next = Vec::new();
        for text in &last {
            for c in alphabet {
                let mut longer = text.clone();
                longer.push(c);
                next.push(longer);
            }
        }
        texts.extend(next.iter().cloned());
        last = next;
    }
    for text in &texts {
        assert_eq!(payout(text).is_ok(), text.parse::<f32>().is_ok(), "{:?}", text);
    }
}

#[test]
fn accepted_numerals_have_their_value() {
    assert!((payout("42.5").unwrap().parse::<f32>().unwrap() - 42.5).abs() < f32::EPSILON);
    assert!((rate("1.25").unwrap().parse::<f32>().unwrap() - 1.25).abs() < f32::EPSILON);
    assert_eq!(payout("1e3").unwrap().parse::<f64>().unwrap(), 1000.0);
    assert!(payout("inf").unwrap().parse::<f32>().unwrap().is_infinite());
    assert!(rate("NaN").unwrap().parse::<f32>().unwrap().is_nan());
}

#[test]
fn cap_is_a_count() {
    assert_eq!(cap("0"), Ok(Some(0)));
    assert_eq!(cap("200"), Ok(Some(200)));
    assert_eq!(cap("+5"), Ok(Some(5)));
    assert_eq!(cap("007"), Ok(Some(7)));
    assert_eq!(cap("  12  "), Ok(Some(12)));
    assert_eq!(cap("4294967295"), Ok(Some(4294967295)));
    assert_eq!(cap("0000000004294967295"), Ok(Some(4294967295)));
}

#[test]
fn cap_that_is_no_count() {
    let values = [
        "not_a_number", "-1", "-0", "+", "++1", "1.5", "1e3", "1 2", "0x10", "1_000", "12a", "a12",
        "4294967296", "99999999999", "18446744073709551616", "\"5\"", "٣",
    ];
    for value in values {
        assert_eq!(
            cap(value),
            Err(ParseError::InvalidNumber(format!("CAP: {}", value))),
            "{}",
            value
        );
    }
}

#[test]
fn counts_are_what_the_standard_library_reads_as_u32() {
    let values = [
        "0", "1", "+1", "-1", "+0", "-0", "", "+", "-", "00", "010", "4294967295", "4294967296",
        "4294967300", "+4294967295", "42949672950", "1.0", "1e1", "abc", "1a", "+-1", "9", "99",
    ];
    for value in values {
        if value.is_empty() {
            continue;
        }
        assert_eq!(cap(value).ok().flatten(), value.parse::<u32>().ok(), "{}", value);
    }
}
