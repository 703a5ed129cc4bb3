use bluetooth_ctl::numeral::{append_dec, append_hex_pair, parse_dec_byte, parse_hex_byte};
use bluetooth_ctl::text::{chars_of, contains, split_text};

fn chars(text: &str) -> Vec<char> {
    text.chars().collect()
}

fn tokens(text: &str, sep: char) -> Vec<String> {
    split_text(text, sep).into_iter().map(|t| t.into_iter().collect()).collect()
}

#[test]
fn chars_are_read_in_order() {
    assert_eq!(chars_of("a:é"), vec!['a', ':', 'é']);
    assert_eq!(chars_of(""), Vec::<char>::new());
}

#[test]
fn split_gives_one_token_more_than_separators() {
    assert_eq!(tokens("", ':'), vec![""]);
    assert_eq!(tokens("abc", ':'), vec!["abc"]);
    assert_eq!(tokens("a:b", ':'), vec!["a", "b"]);
    assert_eq!(tokens(":", ':'), vec!["", ""]);
    assert_eq!(tokens("a::b:", ':'), vec!["a", "", "b", ""]);
    assert_eq!(tokens("1.2.3.4", '.'), vec!["1", "2", "3", "4"]);
}

#[test]
fn split_agrees_with_the_standard_split() {
    for text in ["", ".", "..", "a.b", ".a", "a.", "192.168.1.40", "é.ü", "a:b.c"] {
        let expected: Vec<String> = text.split('.').map(|t| t.to_string()).collect();
        assert_eq!(tokens(text, '.'), expected);
    }
}

#[test]
fn contains_finds_a_part_anywhere() {
    assert!(contains("hello world", "hello"));
    assert!(contains("hello world", "o w"));
    assert!(contains("hello world", "world"));
    assert!(contains("hello world", ""));
    assert!(contains("", ""));
    assert!(contains("aab", "ab"));
    assert!(!contains("hello world", "worlds"));
    assert!(!contains("", "a"));
    assert!(!contains("ab", "abc"));
    assert!(!contains("abab", "ba b"));
}

#[test]
fn hex_byte_takes_exactly_two_digits() {
    assert_eq!(parse_hex_byte(&chars("00")), Some(0));
    assert_eq!(parse_hex_byte(&chars("0a")), Some(10));
    assert_eq!(parse_hex_byte(&chars("A0")), Some(160));
    assert_eq!(parse_hex_byte(&chars("fF")), Some(255));
    assert_eq!(parse_hex_byte(&chars("99")), Some(153));
    assert_eq!(parse_hex_byte(&chars("")), None);
    assert_eq!(parse_hex_byte(&chars("f")), None);
    assert_eq!(parse_hex_byte(&chars("fff")), None);
    assert_eq!(parse_hex_byte(&chars("g0")), None);
    assert_eq!(parse_hex_byte(&chars("0G")), None);
    assert_eq!(parse_hex_byte(&chars("/0")), None);
    assert_eq!(parse_hex_byte(&chars(":0")), None);
    assert_eq!(parse_hex_byte(&chars("@0")), None);
    assert_eq!(parse_hex_byte(&chars("`0")), None);
}

#[test]
fn hex_byte_agrees_with_the_standard_reading() {
    for b in 0..=255u8 {
        assert_eq!(parse_hex_byte(&chars(&format!("{:02x}", b))), Some(b));
        assert_eq!(parse_hex_byte(&chars(&format!("{:02X}", b))), Some(b));
    }
}

#[test]
fn dec_byte_agrees_with_the_standard_reading() {
    for text in [
        "0", "7", "10", "99", "100", "255", "256", "260", "999", "1000", "65536", "+0", "+255",
        "+256", "007", "0000000000000000000255", "0000000000000000000256", "", "+", "-1", "1a",
        "a1", " 1", "1 ", "++1", "+-1", "1+", "/", ":", "2:",
    ] {
        assert_eq!(parse_dec_byte(&chars(text)), text.parse::<u8>().ok(), "{:?}", text);
    }
}

#[test]
fn hex_pair_is_written_as_the_standard_writes_it() {
    for b in 0..=255u8 {
        let mut out = String::from("x");
        append_hex_pair(&mut out, b);
        assert_eq!(out, format!("x{:02x}", b));
    }
}

#[test]
fn decimal_is_written_as_the_standard_writes_it() {
    for b in 0..=255u8 {
        let mut out = String::from("x");
        append_dec(&mut out, b);
        assert_eq!(out, format!("x{}", b));
    }
}
