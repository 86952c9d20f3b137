use affiliate_config_parser::{parse_offer_text, OfferConfig, ParseError, Rule};

const REQUIRED: &str = "OFFER: Base\nPAYOUT: 1 USD\nCR: 2%\n";

fn with_line(line: &str) -> Result<OfferConfig, ParseError> {
    parse_offer_text(&format!("{}{}\n", REQUIRED, line))
}

fn owned(items: &[&str]) -> Vec<String> {
    items.iter().map(|s| s.to_string()).collect()
}

#[test]
fn end_to_end_example() {
    let text = "OFFER: \"Crypto Pro Max\"\nGEO: US, CA\nTRAFFIC: Facebook, TikTok\nPAYOUT: 42.5 USD\nCR: 1.25%\nCAP: 200\nVERTICAL: Crypto";
    let expected = OfferConfig {
        name: "Crypto Pro Max".to_string(),
        geo: owned(&["US", "CA"]),
        traffic: owned(&["Facebook", "TikTok"]),
        payout: "42.5".to_string(),
        cr: "1.25".to_string(),
        cap: Some(200),
        vertical: Some("Crypto".to_string()),
    };
    assert_eq!(parse_offer_text(text), Ok(expected));
}

#[test]
fn geo_list_of_three() {
    let cfg = with_line("GEO: US, CA, UK").unwrap();
    assert_eq!(cfg.geo, owned(&["US", "CA", "UK"]));
}

#[test]
fn rules_in_any_order() {
    let text = "VERTICAL: Crypto\nCR: 1.25%\nCAP: 200\nPAYOUT: 42.5 USD\nTRAFFIC: Facebook\nGEO: US\nOFFER: Name";
    let cfg = parse_offer_text(text).unwrap();
    assert_eq!(cfg.name, "Name");
    assert_eq!(cfg.geo, owned(&["US"]));
    assert_eq!(cfg.traffic, owned(&["Facebook"]));
    assert_eq!(cfg.payout, "42.5");
    assert_eq!(cfg.cr, "1.25");
    assert_eq!(cfg.cap, Some(200));
    assert_eq!(cfg.vertical, Some("Crypto".to_string()));
}

#[test]
fn required_fields_alone_give_defaults() {
    let cfg = parse_offer_text(REQUIRED).unwrap();
    assert_eq!(cfg.name, "Base");
    assert_eq!(cfg.payout, "1");
    assert_eq!(cfg.cr, "2");
    assert_eq!(cfg.geo, Vec::<String>::new());
    assert_eq!(cfg.traffic, Vec::<String>::new());
    assert_eq!(cfg.cap, None);
    assert_eq!(cfg.vertical, None);
}

#[test]
fn empty_text_misses_offer() {
    assert_eq!(parse_offer_text(""), Err(ParseError::MissingField("OFFER".to_string())));
    assert_eq!(parse_offer_text("\n\n  \n"), Err(ParseError::MissingField("OFFER".to_string())));
}

#[test]
fn missing_fields_are_named_in_order() {
    assert_eq!(
        parse_offer_text("GEO: US"),
        Err(ParseError::MissingField("OFFER".to_string()))
    );
    assert_eq!(
        parse_offer_text("OFFER: A"),
        Err(ParseError::MissingField("PAYOUT".to_string()))
    );
    assert_eq!(
        parse_offer_text("OFFER: A\nCR: 1%"),
        Err(ParseError::MissingField("PAYOUT".to_string()))
    );
    assert_eq!(
        parse_offer_text("OFFER: A\nPAYOUT: 1 USD"),
        Err(ParseError::MissingField("CR".to_string()))
    );
    assert_eq!(
        parse_offer_text("PAYOUT: 1 USD\nCR: 1%"),
        Err(ParseError::MissingField("OFFER".to_string()))
    );
}

#[test]
fn every_rule_twice_is_a_duplicate() {
    let lines = [
        ("OFFER: A", "OFFER"),
        ("GEO: US", "GEO"),
        ("TRAFFIC: FB", "TRAFFIC"),
        ("PAYOUT: 1 USD", "PAYOUT"),
        ("CR: 1%", "CR"),
        ("CAP: 5", "CAP"),
        ("VERTICAL: V", "VERTICAL"),
    ];
    for (line, keyword) in lines {
        let text = format!("{}\n{}\n", line, line);
        assert_eq!(
            parse_offer_text(&text),
            Err(ParseError::DuplicateField(keyword.to_string())),
            "{}",
            keyword
        );
    }
}

#[test]
fn duplicate_is_found_before_the_value_is_read() {
    assert_eq!(
        parse_offer_text("OFFER: A\nOFFER:\n"),
        Err(ParseError::DuplicateField("OFFER".to_string()))
    );
    assert_eq!(
        parse_offer_text("PAYOUT: 1 USD\nPAYOUT: 1\n"),
        Err(ParseError::DuplicateField("PAYOUT".to_string()))
    );
    assert_eq!(
        parse_offer_text("CAP: 1\nCAP: x\n"),
        Err(ParseError::DuplicateField("CAP".to_string()))
    );
}

#[test]
fn first_failure_wins() {
    assert_eq!(
        parse_offer_text("BAD\nOFFER: A\nOFFER: B"),
        Err(ParseError::UnknownRule("BAD".to_string()))
    );
    assert_eq!(
        parse_offer_text("CAP: x\nBAD"),
        Err(ParseError::InvalidNumber("CAP: x".to_string()))
    );
    assert_eq!(
        parse_offer_text("GEO: US\nPAYOUT: 5\nCR: 5"),
        Err(ParseError::InvalidFormat("PAYOUT: 5".to_string()))
    );
}

#[test]
fn unknown_rule_carries_the_trimmed_line() {
    assert_eq!(
        parse_offer_text("   SOMETHING: x \t"),
        Err(ParseError::UnknownRule("SOMETHING: x".to_string()))
    );
}

#[test]
fn keywords_are_case_sensitive_and_need_their_colon() {
    assert_eq!(with_line("offer: x"), Err(ParseError::UnknownRule("offer: x".to_string())));
    assert_eq!(with_line("Geo: US"), Err(ParseError::UnknownRule("Geo: US".to_string())));
    assert_eq!(with_line("GEO : US"), Err(ParseError::UnknownRule("GEO : US".to_string())));
    assert_eq!(with_line("GEO US"), Err(ParseError::UnknownRule("GEO US".to_string())));
    assert_eq!(with_line("CAPS: 1"), Err(ParseError::UnknownRule("CAPS: 1".to_string())));
    assert_eq!(with_line("C: 1"), Err(ParseError::UnknownRule("C: 1".to_string())));
    assert_eq!(with_line("CA"), Err(ParseError::UnknownRule("CA".to_string())));
}

#[test]
fn value_may_follow_the_colon_directly() {
    let cfg = parse_offer_text("OFFER:A\nPAYOUT:1USD\nCR:2%\nCAP:3\nGEO:US,CA\nVERTICAL:V").unwrap();
    assert_eq!(cfg.name, "A");
    assert_eq!(cfg.payout, "1");
    assert_eq!(cfg.cr, "2");
    assert_eq!(cfg.cap, Some(3));
    assert_eq!(cfg.geo, owned(&["US", "CA"]));
    assert_eq!(cfg.vertical, Some("V".to_string()));
}

#[test]
fn offer_name_loses_one_layer_of_quotes() {
    let name = |line: &str| parse_offer_text(&format!("{}\nPAYOUT: 1 USD\nCR: 1%", line)).map(|c| c.name);
    assert_eq!(name("OFFER: \"A B\""), Ok("A B".to_string()));
    assert_eq!(name("OFFER: A B"), Ok("A B".to_string()));
    assert_eq!(name("OFFER: \"\"A\"\""), Ok("\"A\"".to_string()));
    assert_eq!(name("OFFER: \"A"), Ok("\"A".to_string()));
    assert_eq!(name("OFFER: A\""), Ok("A\"".to_string()));
    assert_eq!(name("OFFER: \" A \""), Ok(" A ".to_string()));
}

#[test]
fn empty_offer_name() {
    let text = |line: &str| parse_offer_text(&format!("{}\nPAYOUT: 1 USD\nCR: 1%", line));
    assert_eq!(text("OFFER:"), Err(ParseError::EmptyValue("OFFER".to_string())));
    assert_eq!(text("OFFER:    "), Err(ParseError::EmptyValue("OFFER".to_string())));
    assert_eq!(text("OFFER: \"\""), Err(ParseError::EmptyValue("OFFER".to_string())));
    assert_eq!(text("OFFER: \""), Err(ParseError::EmptyValue("OFFER".to_string())));
}

#[test]
fn empty_values_name_their_rule() {
    assert_eq!(with_line("GEO:"), Err(ParseError::EmptyValue("GEO".to_string())));
    assert_eq!(with_line("TRAFFIC:  "), Err(ParseError::EmptyValue("TRAFFIC".to_string())));
    assert_eq!(with_line("CAP:"), Err(ParseError::EmptyValue("CAP".to_string())));
    assert_eq!(with_line("VERTICAL:"), Err(ParseError::EmptyValue("VERTICAL".to_string())));
}

#[test]
fn empty_list_items() {
    assert_eq!(with_line("GEO: , ,"), Err(ParseError::EmptyValue("GEO".to_string())));
    assert_eq!(with_line("GEO: US,"), Err(ParseError::EmptyValue("GEO".to_string())));
    assert_eq!(with_line("GEO: ,US"), Err(ParseError::EmptyValue("GEO".to_string())));
    assert_eq!(with_line("GEO: US,,CA"), Err(ParseError::EmptyValue("GEO".to_string())));
    assert_eq!(with_line("GEO: US, \"\""), Err(ParseError::EmptyValue("GEO".to_string())));
    assert_eq!(with_line("GEO: US, \""), Err(ParseError::EmptyValue("GEO".to_string())));
    assert_eq!(with_line("TRAFFIC: FB, , X"), Err(ParseError::EmptyValue("TRAFFIC".to_string())));
}

#[test]
fn list_items_are_trimmed_and_lose_one_layer_of_quotes() {
    let geo = |line: &str| with_line(line).map(|c| c.geo);
    assert_eq!(geo("GEO:   US  ,\tCA ,UK   "), Ok(owned(&["US", "CA", "UK"])));
    assert_eq!(geo("GEO: \"US\", \"\"CA\"\""), Ok(owned(&["US", "\"CA\""])));
    assert_eq!(geo("GEO: \" US \""), Ok(owned(&[" US "])));
    assert_eq!(geo("GEO: US"), Ok(owned(&["US"])));
}

#[test]
fn commas_inside_quotes_do_not_separate() {
    let traffic = |line: &str| with_line(line).map(|c| c.traffic);
    assert_eq!(
        traffic("TRAFFIC: \"Google, Search\", Facebook"),
        Ok(owned(&["Google, Search", "Facebook"]))
    );
    assert_eq!(traffic("TRAFFIC: \"a,b,c\""), Ok(owned(&["a,b,c"])));
    assert_eq!(traffic("TRAFFIC: x \"a,b\" y, z"), Ok(owned(&["x \"a,b\" y", "z"])));
    assert_eq!(traffic("TRAFFIC: a, \"b, c"), Ok(owned(&["a", "\"b, c"])));
    assert_eq!(traffic("TRAFFIC: \"a\",\"b\""), Ok(owned(&["a", "b"])));
    assert_eq!(traffic("TRAFFIC: \",\""), Ok(owned(&[","])));
}

#[test]
fn payout_needs_its_unit() {
    let bad = |line: &str| {
        assert_eq!(
            parse_offer_text(line),
            Err(ParseError::InvalidFormat(line.to_string())),
            "{}",
            line
        )
    };
    bad("PAYOUT: 42.5");
    bad("PAYOUT: 42.5 usd");
    bad("PAYOUT: 42.5 US");
    bad("PAYOUT: USD 42.5");
    bad("PAYOUT:");
    bad("CR: 1.0");
    bad("CR: % 1");
    bad("CR:");
}

#[test]
fn amount_before_the_unit_must_be_a_numeral() {
    let bad = |line: &str| {
        assert_eq!(
            parse_offer_text(line),
            Err(ParseError::InvalidNumber(line.to_string())),
            "{}",
            line
        )
    };
    bad("PAYOUT: USD");
    bad("PAYOUT: abc USD");
    bad("PAYOUT: 1 2 USD");
    bad("PAYOUT: 1,5 USD");
    bad("PAYOUT: $5 USD");
    bad("CR: %");
    bad("CR: x%");
    bad("CR: 1%%");
    bad("CR: 1 %%");
}

#[test]
fn amounts_are_kept_as_written() {
    let cfg = parse_offer_text("OFFER: A\nPAYOUT:   0042.50   USD\nCR: +1e-2 %").unwrap();
    assert_eq!(cfg.payout, "0042.50");
    assert_eq!(cfg.cr, "+1e-2");
}

#[test]
fn failing_line_is_carried_trimmed() {
    assert_eq!(
        parse_offer_text("  \t PAYOUT:   42.5   \r\n"),
        Err(ParseError::InvalidFormat("PAYOUT:   42.5".to_string()))
    );
    assert_eq!(
        parse_offer_text("   CAP:   x1   "),
        Err(ParseError::InvalidNumber("CAP:   x1".to_string()))
    );
}

#[test]
fn vertical_loses_one_layer_of_quotes() {
    let vertical = |line: &str| with_line(line).map(|c| c.vertical);
    assert_eq!(vertical("VERTICAL: Crypto"), Ok(Some("Crypto".to_string())));
    assert_eq!(vertical("VERTICAL: \"Crypto Coins\""), Ok(Some("Crypto Coins".to_string())));
    assert_eq!(vertical("VERTICAL: \"\"x\"\""), Ok(Some("\"x\"".to_string())));
    assert_eq!(vertical("VERTICAL: \"\""), Ok(Some(String::new())));
    assert_eq!(vertical("VERTICAL: \""), Ok(Some(String::new())));
    assert_eq!(vertical("VERTICAL: \"x"), Ok(Some("\"x".to_string())));
    assert_eq!(vertical("VERTICAL: a, b"), Ok(Some("a, b".to_string())));
}

#[test]
fn rule_names() {
    assert_eq!(Rule::Offer.name(), "OFFER");
    assert_eq!(Rule::Geo.name(), "GEO");
    assert_eq!(Rule::Traffic.name(), "TRAFFIC");
    assert_eq!(Rule::Payout.name(), "PAYOUT");
    assert_eq!(Rule::Cr.name(), "CR");
    assert_eq!(Rule::Cap.name(), "CAP");
    assert_eq!(Rule::Vertical.name(), "VERTICAL");
}
