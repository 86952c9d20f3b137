use affiliate_config_parser::{parse_offer_text, OfferConfig, ParseError};

/// One layer of quotes less, read with the standard library's string functions.
fn unquote(s: &str) -> &str {
    if s.len() >= 2 && s.starts_with('"') && s.ends_with('"') {
        &s[1..s.len() - 1]
    } else if s == "\"" {
        ""
    } else {
        s
    }
}

fn pieces(value: &str) -> Vec<&str> {
    let mut found = Vec::new();
    let mut start = 0;
    let mut quoted = false;
    for (at, c) in value.char_indices() {
        if c == '"' {
            quoted = !quoted;
        } else if c == ',' && !quoted {
            found.push(&value[start..at]);
            start = at + 1;
        }
    }
    found.push(&value[start..]);
    found
}

fn list(value: &str, keyword: &str) -> Result<Vec<String>, ParseError> {
    let items: Vec<String> =
        pieces(value).iter().map(|piece| unquote(piece.trim()).to_string()).collect();
    if items.iter().any(|item| item.is_empty()) {
        return Err(ParseError::EmptyValue(keyword.to_string()));
    }
    Ok(items)
}

fn amount(line: &str, value: &str, unit: &str) -> Result<String, ParseError> {
    if !value.ends_with(unit) {
        return Err(ParseError::InvalidFormat(line.to_string()));
    }
    let number = value[..value.len() - unit.len()].trim();
    match number.parse::<f32>() {
        Ok(_) => Ok(number.to_string()),
        Err(_) => Err(ParseError::InvalidNumber(line.to_string())),
    }
}

/// The format read line by line with the standard library's string functions.
fn plain_reading(text: &str) -> Result<OfferConfig, ParseError> {
    let mut name = None;
    let mut geo = None;
    let mut traffic = None;
    let mut payout = None;
    let mut cr = None;
    let mut cap = None;
    let mut vertical = None;
    let duplicate = |keyword: &str| Err(ParseError::DuplicateField(keyword.to_string()));
    for line in text.split('\n') {
        let line = line.trim();
        if line.is_empty() || line.starts_with('#') {
            continue;
        }
        if let Some(rest) = line.strip_prefix("OFFER:") {
            if name.is_some() {
                return duplicate("OFFER");
            }
            let value = unquote(rest.trim());
            if value.is_empty() {
                return Err(ParseError::EmptyValue("OFFER".to_string()));
            }
            name = Some(value.to_string());
        } else if let Some(rest) = line.strip_prefix("GEO:") {
            if geo.is_some() {
                return duplicate("GEO");
            }
            geo = Some(list(rest.trim(), "GEO")?);
        } else if let Some(rest) = line.strip_prefix("TRAFFIC:") {
            if traffic.is_some() {
                return duplicate("TRAFFIC");
            }
            traffic = Some(list(rest.trim(), "TRAFFIC")?);
        } else if let Some(rest) = line.strip_prefix("PAYOUT:") {
            if payout.is_some() {
                return duplicate("PAYOUT");
            }
            payout = Some(amount(line, rest.trim(), "USD")?);
        } else if let Some(rest) = line.strip_prefix("CR:") {
            if cr.is_some() {
                return duplicate("CR");
            }
            cr = Some(amount(line, rest.trim(), "%")?);
        } else if let Some(rest) = line.strip_prefix("CAP:") {
            if cap.is_some() {
                return duplicate("CAP");
            }
            let value = rest.trim();
            if value.is_empty() {
                return Err(ParseError::EmptyValue("CAP".to_string()));
            }
            match value.parse::<u32>() {
                Ok(n) => cap = Some(n),
                Err(_) => return Err(ParseError::InvalidNumber(line.to_string())),
            }
        } else if let Some(rest) = line.strip_prefix("VERTICAL:") {
            if vertical.is_some() {
                return duplicate("VERTICAL");
            }
            let value = rest.trim();
            if value.is_empty() {
                return Err(ParseError::EmptyValue("VERTICAL".to_string()));
            }
            vertical = Some(unquote(value).to_string());
        } else {
            return Err(ParseError::UnknownRule(line.to_string()));
        }
    }
    let missing = |keyword: &str| ParseError::MissingField(keyword.to_string());
    Ok(OfferConfig {
        name: name.ok_or(missing("OFFER"))?,
        geo: geo.unwrap_or_default(),
        traffic: traffic.unwrap_or_default(),
        payout: payout.ok_or(missing("PAYOUT"))?,
        cr: cr.ok_or(missing("CR"))?,
        cap,
        vertical,
    })
}

struct Dice(u64);

impl Dice {
    fn roll(&mut self, sides: usize) -> usize {
        self.0 = self.0.wrapping_mul(6364136223846793005).wrapping_add(1442695040888963407);
        ((self.0 >> 33) % sides as u64) as usize
    }
}

const STARTS: [&str; 16] = [
    "OFFER:", "GEO:", "TRAFFIC:", "PAYOUT:", "CR:", "CAP:", "VERTICAL:", "OFFER:", "PAYOUT:",
    "CR:", "#", "", " ", "X:", "offer:", "CAP",
];

const PARTS: [&str; 28] = [
    " ", "  ", "\t", "\r", "\u{a0}", "\u{3000}", "\"", "\"", ",", ",", "a", "US", "Ünï", "0", "1",
    "42", ".", ".5", "e3", "E-2", "USD", "USD", "%", "%", "+", "-", "inf", "nan",
];

fn random_line(dice: &mut Dice) -> String {
    let mut line = String::new();
    if dice.roll(4) == 0 {
        line.push_str(PARTS[dice.roll(6)]);
    }
    line.push_str(STARTS[dice.roll(STARTS.len())]);
    for _ in 0..dice.roll(6) {
        line.push_str(PARTS[dice.roll(PARTS.len())]);
    }
    line
}

fn well_chosen_line(dice: &mut Dice) -> String {
    let lines = [
        "OFFER: \"A, B\"", "GEO: US, \"CA\" ,UK", "TRAFFIC: \"x, y\", z", "PAYOUT: 42.5 USD",
        "CR: 1.25%", "CAP: 200", "VERTICAL: \"V\"", "# note", "", "PAYOUT: 1e3USD", "CR:.5 %",
        "CAP: +7", "OFFER: B",
    ];
    lines[dice.roll(lines.len())].to_string()
}

#[test]
fn random_texts_read_as_with_the_standard_library() {
    let mut dice = Dice(2024);
    let mut accepted = 0;
    for _ in 0..30000 {
        let mut lines = Vec::new();
        for _ in 0..dice.roll(7) {
            if dice.roll(3) == 0 {
                lines.push(random_line(&mut dice));
            } else {
                lines.push(well_chosen_line(&mut dice));
            }
        }
        let text = lines.join(if dice.roll(5) == 0 { "\r\n" } else { "\n" });
        let read = parse_offer_text(&text);
        assert_eq!(read, plain_reading(&text), "{:?}", text);
        if read.is_ok() {
            accepted += 1;
        }
    }
    assert!(accepted > 100, "{}", accepted);
}

#[test]
fn random_lines_read_as_with_the_standard_library() {
    let mut dice = Dice(7);
    let mut kinds = [0usize; 6];
    for _ in 0..60000 {
        let line = random_line(&mut dice);
        let read = parse_offer_text(&line);
        assert_eq!(read, plain_reading(&line), "{:?}", line);
        match read {
            Err(ParseError::InvalidFormat(_)) => kinds[0] += 1,
            Err(ParseError::MissingField(_)) => kinds[1] += 1,
            Err(ParseError::UnknownRule(_)) => kinds[2] += 1,
            Err(ParseError::InvalidNumber(_)) => kinds[3] += 1,
            Err(ParseError::EmptyValue(_)) => kinds[4] += 1,
            _ => kinds[5] += 1,
        }
    }
    for count in &kinds[..5] {
        assert!(*count > 50, "{:?}", kinds);
    }
}
