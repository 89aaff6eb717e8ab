use wb_switch_core::decimal::{decimal, parse_u32};
use wb_switch_core::text::{split_chars, trimmed};

#[test]
fn u32_numerals_read_as_str_parse_does() {
    for text in ["0", "42", "+7", "007", "4294967295", "4294967296", "", "+", "-1", " 1", "1a", "99999999999"] {
        assert_eq!(parse_u32(text), text.parse::<u32>().ok(), "{text:?}");
    }
}

#[test]
fn decimal_numerals_match_to_string() {
    for n in [0u64, 7, 10, 99, 100, 123456789, u64::MAX] {
        assert_eq!(decimal(n), n.to_string());
    }
}

#[test]
fn split_and_trim_match_std() {
    for (text, sep) in [("a|b||c", '|'), ("", '|'), ("|", '|'), ("x\ny\n", '\n')] {
        let expected: Vec<String> = text.split(sep).map(str::to_string).collect();
        assert_eq!(split_chars(text, sep), expected);
    }
    assert_eq!(trimmed("\u{3000} a b \t"), "a b");
}
