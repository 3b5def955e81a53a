use audio_forwarder::text::{
    decimal_string, join_strings, parse_u16, position_of, replace_char_in, split_char,
    trim_end_matches_char,
};

#[test]
fn decimal_numbers() {
    assert_eq!(decimal_string(0), "0");
    assert_eq!(decimal_string(7), "7");
    assert_eq!(decimal_string(10), "10");
    assert_eq!(decimal_string(1234567890), "1234567890");
    assert_eq!(decimal_string(u64::MAX), u64::MAX.to_string());
}

#[test]
fn parses_u16_like_std() {
    for text in ["0", "42", "+42", "0042", "65535", "65536", "", "+", "-1", "4 2", "1e3", "٣"].iter() {
        assert_eq!(parse_u16(text), text.parse::<u16>().ok(), "{}", text);
    }
}

#[test]
fn splits_like_std() {
    for text in ["a|b|c", "|", "", "||x", "abc"].iter() {
        let expected: Vec<String> = text.split('|').map(|s| s.to_string()).collect();
        assert_eq!(split_char(text, '|'), expected);
    }
}

#[test]
fn trims_like_std() {
    for text in ["1.200", "000", "", "10", "1.0.0"].iter() {
        assert_eq!(trim_end_matches_char(text, '0'), text.trim_end_matches('0'));
    }
}

#[test]
fn replaces_like_std() {
    let text = "Core Audio|Mic|Input|2x48xf32";
    assert_eq!(replace_char_in(text, '|', '_'), text.replace('|', "_"));
}

#[test]
fn joins_like_std() {
    let items = vec!["a".to_string(), "b".to_string(), "c".to_string()];
    assert_eq!(join_strings(&items, ", "), "a, b, c");
    assert_eq!(join_strings(&Vec::new(), ", "), "");
    assert_eq!(join_strings(&vec!["x".to_string()], ", "), "x");
}

#[test]
fn finds_first_position() {
    let names = vec!["a".to_string(), "b".to_string(), "b".to_string()];
    assert_eq!(position_of(&names, "b"), Some(1));
    assert_eq!(position_of(&names, "c"), None);
}
