use vong_lexer::chars::{is_digit, is_whitespace, CharClass};
use vong_lexer::number::parse_decimal;

fn every_char() -> Vec<char> {
    (0..=0x10ffff_u32).filter_map(char::from_u32).collect()
}

#[test]
fn blank_is_what_the_standard_library_calls_whitespace() {
    for c in every_char() {
        assert_eq!(is_whitespace(c), c.is_whitespace(), "{:?}", c);
        assert_eq!(CharClass::Whitespace.test(c), c.is_whitespace(), "{:?}", c);
    }
}

#[test]
fn digit_is_what_the_standard_library_calls_a_digit_of_base_ten() {
    for c in every_char() {
        assert_eq!(is_digit(c), c.is_digit(10), "{:?}", c);
        assert_eq!(CharClass::Digit.test(c), c.is_ascii_digit(), "{:?}", c);
    }
}

#[test]
fn alphanumeric_is_what_the_standard_library_calls_alphanumeric() {
    for c in every_char() {
        assert_eq!(CharClass::Alphanumeric.test(c), c.is_alphanumeric(), "{:?}", c);
    }
}

#[test]
fn ascii_alphanumerics_are_the_letters_and_the_digits() {
    for c in (0..=0x7f_u8).map(char::from) {
        let letter_or_digit =
            ('a'..='z').contains(&c) || ('A'..='Z').contains(&c) || ('0'..='9').contains(&c);
        assert_eq!(CharClass::Alphanumeric.test(c), letter_or_digit, "{:?}", c);
    }
    assert!(CharClass::Alphanumeric.test('K'));
    assert!(CharClass::Alphanumeric.test('7'));
    assert!(!CharClass::Alphanumeric.test('_'));
    assert!(!CharClass::Alphanumeric.test(' '));
}

#[test]
fn no_blank_is_alphanumeric() {
    for c in every_char() {
        assert!(!(c.is_whitespace() && c.is_alphanumeric()), "{:?}", c);
        assert!(!(CharClass::Whitespace.test(c) && CharClass::Alphanumeric.test(c)), "{:?}", c);
    }
}

#[test]
fn comment_body_is_all_but_the_line_feed() {
    for c in every_char() {
        assert_eq!(CharClass::CommentBody.test(c), c != '\n', "{:?}", c);
    }
}

#[test]
fn string_body_is_all_but_the_double_quote() {
    for c in every_char() {
        assert_eq!(CharClass::StringBody.test(c), c != '"', "{:?}", c);
    }
}

#[test]
fn digits_stand_for_zero_to_nine() {
    for (value, c) in ('0'..='9').enumerate() {
        assert_eq!(parse_decimal(&c.to_string()), Some(value as i32));
        assert_eq!(c.to_digit(10), Some(value as u32));
    }
}

#[test]
fn decimal_digits_are_parsed_as_the_standard_library_parses_them() {
    let mut texts: Vec<String> = Vec::new();
    for value in 0..2000_i64 {
        texts.push(value.to_string());
    }
    for value in (i32::MAX as i64 - 1000)..(i32::MAX as i64 + 1000) {
        texts.push(value.to_string());
        texts.push(format!("000{}", value));
    }
    for exponent in 0..30_u32 {
        texts.push(format!("1{}", "0".repeat(exponent as usize)));
        texts.push("9".repeat(exponent as usize + 1));
    }
    for text in texts {
        assert_eq!(parse_decimal(&text), text.parse::<i32>().ok(), "{}", text);
    }
}

#[test]
fn decimal_value_at_the_bound_of_i32() {
    assert_eq!(parse_decimal("2147483647"), Some(2147483647));
    assert_eq!(parse_decimal("2147483648"), None);
    assert_eq!(parse_decimal("0"), Some(0));
    assert_eq!(parse_decimal("00"), Some(0));
}

#[test]
fn text_with_anything_but_digits_has_no_decimal_value() {
    for text in ["", " ", "-1", "+1", "1 ", " 1", "1a", "a1", "1.0", "1_000", "٣", "１２", "0x10"] {
        assert_eq!(parse_decimal(text), None, "{:?}", text);
    }
}
