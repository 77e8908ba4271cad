use vong_lexer::lexer::{LexError, Lexer, Token};

/// Every token of `source` up to and including the end marker.
fn tokens_of(source: &str) -> Result<Vec<Token>, LexError> {
    let mut lexer = Lexer::new(source.to_string());
    let mut tokens = Vec::new();
    loop {
        let token = lexer.get_next_token()?;
        let done = token == Token::EOF;
        tokens.push(token);
        if done {
            return Ok(tokens);
        }
    }
}

fn word(name: &str) -> Token {
    Token::Id(name.to_string())
}

#[test]
fn blanks_and_comments_give_only_the_end_marker() {
    let inputs = [
        "",
        " ",
        "   \t\r\n  ",
        "# only a comment",
        "# a comment and its line feed\n",
        "# one\n# two\n",
        "  # indented\n \n#next",
        "#",
        "\n#\n#\n",
        "# a \"quote\" and 12 and bims in a comment",
        "\u{a0}\u{2003}\u{3000}",
    ];
    for input in inputs {
        let mut lexer = Lexer::new(input.to_string());
        for _ in 0..3 {
            assert_eq!(lexer.get_next_token(), Ok(Token::EOF), "input {:?}", input);
        }
    }
}

#[test]
fn digit_strings_are_integers_in_base_ten() {
    let cases: [(&str, i32); 7] = [
        ("0", 0),
        ("7", 7),
        ("42", 42),
        ("007", 7),
        ("1234567890", 1234567890),
        ("2147483647", i32::MAX),
        ("0000000002147483647", i32::MAX),
    ];
    for (text, value) in cases {
        assert_eq!(tokens_of(text), Ok(vec![Token::Integer(value), Token::EOF]), "{}", text);
        assert_eq!(text.parse::<i32>(), Ok(value));
    }
}

#[test]
fn integer_literal_beyond_i32_is_an_error() {
    for text in ["2147483648", "4294967296", "99999999999999999999999999"] {
        assert_eq!(tokens_of(text), Err(LexError::IntegerOverflow { position: 0 }), "{}", text);
        assert!(text.parse::<i32>().is_err());
    }
    assert_eq!(tokens_of("  1 + 2147483648"), Err(LexError::IntegerOverflow { position: 6 }));
}

#[test]
fn real_literals_keep_their_text_and_stand_for_its_decimal_value() {
    let cases: [(&str, f32); 6] = [
        ("3.14", 3.14),
        ("0.5", 0.5),
        ("10.", 10.0),
        ("007.250", 7.25),
        ("0.0", 0.0),
        ("123456789.125", 123456789.125),
    ];
    for (text, value) in cases {
        let tokens = tokens_of(text).unwrap();
        assert_eq!(tokens, vec![Token::Real(text.to_string()), Token::EOF]);
        match &tokens[0] {
            Token::Real(literal) => assert_eq!(literal.parse::<f32>(), Ok(value)),
            other => panic!("not a real literal: {:?}", other),
        }
    }
}

#[test]
fn real_literal_with_many_digits_is_no_error() {
    let text = "99999999999999999999999999999999999999999999.5";
    assert_eq!(tokens_of(text), Ok(vec![Token::Real(text.to_string()), Token::EOF]));
}

#[test]
fn every_reserved_word_gives_its_token() {
    let table = [
        ("i", Token::IToken),
        ("bims", Token::BimsToken),
        ("vong", Token::VongToken),
        ("her", Token::HerToken),
        ("mit", Token::MitToken),
        ("bis", Token::BisRangeToken),
        ("Funktionigkeit", Token::FunktionigkeitToken),
        ("am", Token::AmElseToken),
        ("Wahrigkeit", Token::WahrigkeitBoolToken),
        ("Sonstigkeit", Token::SonstigkeitElseToken),
        ("solange", Token::SolangeWhileToken),
        ("bidde", Token::BiddeFuncCallToken),
    ];
    for (spelling, token) in table {
        assert_eq!(tokens_of(spelling), Ok(vec![token, Token::EOF]), "{}", spelling);
    }
}

#[test]
fn other_words_are_identifiers_with_their_text() {
    let words = [
        "Arc", "x", "I", "Bims", "BIMS", "bims2", "bimsbims", "ibims", "funktionigkeit", "solang",
        "solangee", "a1b2c3", "é", "Größe", "名前", "x٣",
    ];
    for text in words {
        assert_eq!(tokens_of(text), Ok(vec![word(text), Token::EOF]), "{}", text);
    }
}

#[test]
fn keyword_is_not_found_inside_a_longer_word() {
    assert_eq!(tokens_of("bims2 i2 ami"), Ok(vec![word("bims2"), word("i2"), word("ami"), Token::EOF]));
}

#[test]
fn texts_joined_by_a_blank_give_both_token_streams() {
    let texts = [
        "",
        "i bims",
        "3 + 4 $ 2",
        "3.14 / 2",
        "3.",
        "\"closed string\"",
        "solange(x)",
        "# comment\ni",
        "# comment with its line feed\n",
        "x , y",
        "12",
        "abc",
        "  ",
    ];
    for separator in [' ', '\n', '\t', '\r', '\u{a0}', '\u{2028}'] {
        for a in texts {
            for b in texts {
                let joined = format!("{}{}{}", a, separator, b);
                let mut expected = tokens_of(a).unwrap();
                expected.pop();
                expected.extend(tokens_of(b).unwrap());
                assert_eq!(tokens_of(&joined), Ok(expected), "{:?}", joined);
            }
        }
    }
}

#[test]
fn line_feed_closes_an_open_comment_before_the_second_text() {
    assert_eq!(tokens_of("x # note"), Ok(vec![word("x"), Token::EOF]));
    assert_eq!(tokens_of("x # note\ny"), Ok(vec![word("x"), word("y"), Token::EOF]));
}

#[test]
fn open_comment_hides_a_text_joined_by_a_space() {
    assert_eq!(tokens_of("x # note y"), Ok(vec![word("x"), Token::EOF]));
}

#[test]
fn open_comment_does_no_harm_where_the_next_line_holds_no_token() {
    for b in ["", "   ", "# more\ny", "\ny + 1", "  # more"] {
        let joined = format!("x # note {}", b);
        let mut expected = tokens_of("x # note").unwrap();
        expected.pop();
        expected.extend(tokens_of(b).unwrap());
        assert_eq!(tokens_of(&joined), Ok(expected), "{:?}", joined);
    }
}

#[test]
fn open_string_takes_in_a_text_joined_by_a_space() {
    assert_eq!(tokens_of("\"abc"), Ok(vec![Token::String("abc".to_string()), Token::EOF]));
    assert_eq!(tokens_of("d"), Ok(vec![word("d"), Token::EOF]));
    assert_eq!(tokens_of("\"abc d"), Ok(vec![Token::String("abc d".to_string()), Token::EOF]));
}

#[test]
fn texts_joined_without_a_blank_may_merge() {
    assert_eq!(tokens_of("bims2"), Ok(vec![word("bims2"), Token::EOF]));
    assert_eq!(tokens_of("12"), Ok(vec![Token::Integer(12), Token::EOF]));
    assert_eq!(tokens_of("1.5"), Ok(vec![Token::Real("1.5".to_string()), Token::EOF]));
}

#[test]
fn end_marker_is_returned_at_every_later_call() {
    let mut lexer = Lexer::new("i bims".to_string());
    assert_eq!(lexer.get_next_token(), Ok(Token::IToken));
    assert_eq!(lexer.get_next_token(), Ok(Token::BimsToken));
    for _ in 0..10 {
        assert_eq!(lexer.get_next_token(), Ok(Token::EOF));
    }
}

#[test]
fn error_is_returned_at_every_later_call() {
    let mut lexer = Lexer::new("i ? bims".to_string());
    assert_eq!(lexer.get_next_token(), Ok(Token::IToken));
    for _ in 0..5 {
        assert_eq!(
            lexer.get_next_token(),
            Err(LexError::InvalidCharacter { position: 2, found: '?' })
        );
    }
    let mut lexer = Lexer::new("1 3000000000 2".to_string());
    assert_eq!(lexer.get_next_token(), Ok(Token::Integer(1)));
    for _ in 0..5 {
        assert_eq!(lexer.get_next_token(), Err(LexError::IntegerOverflow { position: 2 }));
    }
}
