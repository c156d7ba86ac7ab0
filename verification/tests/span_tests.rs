use lonely_highway_pipeline::span::{parse_i8_span, parse_u64_span, parse_u8_span, trim};

fn chars(s: &str) -> Vec<char> {
    s.chars().collect()
}

fn u8_of(s: &str) -> Option<u8> {
    let c = chars(s);
    parse_u8_span(&c, 0, c.len())
}

fn i8_of(s: &str) -> Option<i8> {
    let c = chars(s);
    parse_i8_span(&c, 0, c.len())
}

#[test]
fn unsigned_parsing_follows_str_parse() {
    for t in ["0", "7", "+7", "255", "256", "", "+", "-0", "-1", " 1", "1 ", "007", "1a", "٣"] {
        assert_eq!(u8_of(t), t.parse::<u8>().ok(), "input {:?}", t);
    }
    let c = chars("18446744073709551615");
    assert_eq!(parse_u64_span(&c, 0, c.len()), Some(u64::MAX));
    let c = chars("18446744073709551616");
    assert_eq!(parse_u64_span(&c, 0, c.len()), None);
}

#[test]
fn signed_parsing_follows_str_parse() {
    for t in ["0", "-0", "+0", "127", "128", "-128", "-129", "-", "+", "--1", "+-1", "", "12x"] {
        assert_eq!(i8_of(t), t.parse::<i8>().ok(), "input {:?}", t);
    }
}

#[test]
fn trim_follows_str_trim() {
    for t in ["  a b  ", "\t\r\n x\u{a0}", "\u{3000}y\u{2009}", "", "   ", "z"] {
        let c = chars(t);
        let (a, b) = trim(&c, 0, c.len());
        let got: String = c[a..b].iter().collect();
        assert_eq!(got, t.trim());
    }
}
