use vong_lexer::lexer::{LexError, Lexer, Token};

fn lex(source: &str) -> Result<Vec<Token>, LexError> {
    let mut lexer = Lexer::new(source.to_string());
    let mut tokens = Vec::new();
    loop {
        let token = lexer.get_next_token()?;
        let done = token == Token::EOF;
        tokens.push(token);
        if done {
            return Ok(tokens);
        }
    }
}

fn name(text: &str) -> Token {
    Token::Id(text.to_string())
}

fn string(text: &str) -> Token {
    Token::String(text.to_string())
}

#[test]
fn empty_source_is_at_its_end() {
    assert_eq!(lex(""), Ok(vec![Token::EOF]));
}

#[test]
fn every_punctuation_character_has_its_token() {
    assert_eq!(
        lex("+-*/$(),"),
        Ok(vec![
            Token::Plus,
            Token::Minus,
            Token::Mul,
            Token::RealDiv,
            Token::IntegerDiv,
            Token::LParen,
            Token::RParen,
            Token::Comma,
            Token::EOF,
        ])
    );
}

#[test]
fn dollar_divides_integers_and_slash_divides_reals() {
    assert_eq!(lex("$"), Ok(vec![Token::IntegerDiv, Token::EOF]));
    assert_eq!(lex("/"), Ok(vec![Token::RealDiv, Token::EOF]));
}

#[test]
fn tokens_need_no_blank_between_them() {
    assert_eq!(
        lex("1+2*(x,y)"),
        Ok(vec![
            Token::Integer(1),
            Token::Plus,
            Token::Integer(2),
            Token::Mul,
            Token::LParen,
            name("x"),
            Token::Comma,
            name("y"),
            Token::RParen,
            Token::EOF,
        ])
    );
}

#[test]
fn number_is_read_to_its_last_digit() {
    assert_eq!(lex("12"), Ok(vec![Token::Integer(12), Token::EOF]));
    assert_eq!(lex("1 2"), Ok(vec![Token::Integer(1), Token::Integer(2), Token::EOF]));
}

#[test]
fn digits_before_letters_are_a_number_and_then_a_word() {
    assert_eq!(lex("3x"), Ok(vec![Token::Integer(3), name("x"), Token::EOF]));
    assert_eq!(lex("3ab 4"), Ok(vec![Token::Integer(3), name("ab"), Token::Integer(4), Token::EOF]));
    assert_eq!(lex("3bims"), Ok(vec![Token::Integer(3), Token::BimsToken, Token::EOF]));
}

#[test]
fn point_without_digits_after_it_still_makes_a_real() {
    assert_eq!(lex("3."), Ok(vec![Token::Real("3.".to_string()), Token::EOF]));
    assert_eq!(lex("3.x"), Ok(vec![Token::Real("3.".to_string()), name("x"), Token::EOF]));
    assert_eq!("3.".parse::<f32>(), Ok(3.0));
}

#[test]
fn second_point_is_an_invalid_character() {
    assert_eq!(lex("3..4"), Err(LexError::InvalidCharacter { position: 2, found: '.' }));
    assert_eq!(lex("1.2.3"), Err(LexError::InvalidCharacter { position: 3, found: '.' }));
}

#[test]
fn point_before_digits_is_an_invalid_character() {
    assert_eq!(lex(".5"), Err(LexError::InvalidCharacter { position: 0, found: '.' }));
}

#[test]
fn minus_is_a_token_of_its_own() {
    assert_eq!(lex("-5"), Ok(vec![Token::Minus, Token::Integer(5), Token::EOF]));
}

#[test]
fn other_digits_than_ascii_begin_a_word() {
    assert_eq!(lex("٣"), Ok(vec![name("٣"), Token::EOF]));
}

#[test]
fn string_literal_holds_the_text_between_the_quotes() {
    assert_eq!(lex("\"\""), Ok(vec![string(""), Token::EOF]));
    assert_eq!(lex("\"a\""), Ok(vec![string("a"), Token::EOF]));
    assert_eq!(lex("\"a b\" \"c\""), Ok(vec![string("a b"), string("c"), Token::EOF]));
    assert_eq!(lex("\"a\"\"b\""), Ok(vec![string("a"), string("b"), Token::EOF]));
}

#[test]
fn string_literal_is_taken_as_it_stands() {
    assert_eq!(
        lex("\"i bims # 12 + @ \\n \n line\" x"),
        Ok(vec![string("i bims # 12 + @ \\n \n line"), name("x"), Token::EOF])
    );
}

#[test]
fn backslash_does_not_escape_a_quote() {
    assert_eq!(lex("\"a\\\" b"), Ok(vec![string("a\\"), name("b"), Token::EOF]));
}

#[test]
fn string_literal_without_closing_quote_holds_the_rest() {
    assert_eq!(lex("\"abc"), Ok(vec![string("abc"), Token::EOF]));
    assert_eq!(lex("x \"abc def\n"), Ok(vec![name("x"), string("abc def\n"), Token::EOF]));
    assert_eq!(lex("\""), Ok(vec![string(""), Token::EOF]));
}

#[test]
fn comment_runs_to_the_end_of_its_line() {
    assert_eq!(lex("i # bims\nvong"), Ok(vec![Token::IToken, Token::VongToken, Token::EOF]));
    assert_eq!(lex("i# bims"), Ok(vec![Token::IToken, Token::EOF]));
    assert_eq!(lex("#a\n#b\n\n  #c\n7"), Ok(vec![Token::Integer(7), Token::EOF]));
    assert_eq!(lex("1 #\n2"), Ok(vec![Token::Integer(1), Token::Integer(2), Token::EOF]));
}

#[test]
fn carriage_return_does_not_end_a_comment() {
    assert_eq!(lex("# a\rb\nc"), Ok(vec![name("c"), Token::EOF]));
}

#[test]
fn blanks_beyond_ascii_separate_tokens() {
    for blank in ['\u{85}', '\u{a0}', '\u{1680}', '\u{2000}', '\u{200a}', '\u{2028}', '\u{2029}',
        '\u{202f}', '\u{205f}', '\u{3000}', '\u{b}', '\u{c}']
    {
        let source = format!("a{}b", blank);
        assert_eq!(lex(&source), Ok(vec![name("a"), name("b"), Token::EOF]), "{:?}", blank);
    }
}

#[test]
fn zero_width_space_is_an_invalid_character() {
    assert_eq!(lex("a\u{200b}b"), Err(LexError::InvalidCharacter { position: 1, found: '\u{200b}' }));
}

#[test]
fn invalid_characters_are_reported_with_their_position() {
    for (source, position, found) in [
        ("@", 0, '@'),
        ("i bims @", 7, '@'),
        ("x = 1", 2, '='),
        ("a;b", 1, ';'),
        ("# c\n  !", 6, '!'),
        ("é ä €", 4, '€'),
        ("a_b", 1, '_'),
        ("[", 0, '['),
        ("'a'", 0, '\''),
    ] {
        assert_eq!(lex(source), Err(LexError::InvalidCharacter { position, found }), "{}", source);
    }
}

#[test]
fn position_of_an_error_counts_characters_not_bytes() {
    assert_eq!(lex("äöü 名 %"), Err(LexError::InvalidCharacter { position: 6, found: '%' }));
}

#[test]
fn tokens_before_an_error_are_still_handed_out() {
    let mut lexer = Lexer::new("i bims @ vong".to_string());
    assert_eq!(lexer.get_next_token(), Ok(Token::IToken));
    assert_eq!(lexer.get_next_token(), Ok(Token::BimsToken));
    assert_eq!(lexer.get_next_token(), Err(LexError::InvalidCharacter { position: 7, found: '@' }));
}

#[test]
fn lexers_do_not_share_their_state() {
    let mut first = Lexer::new("i bims".to_string());
    let mut second = Lexer::new("vong her".to_string());
    assert_eq!(first.get_next_token(), Ok(Token::IToken));
    assert_eq!(second.get_next_token(), Ok(Token::VongToken));
    assert_eq!(first.get_next_token(), Ok(Token::BimsToken));
    assert_eq!(second.get_next_token(), Ok(Token::HerToken));
    assert_eq!(first.get_next_token(), Ok(Token::EOF));
    assert_eq!(second.get_next_token(), Ok(Token::EOF));
}

#[test]
fn error_messages_name_the_error() {
    assert_eq!(LexError::InvalidCharacter { position: 3, found: '@' }.message(), "invalid character!");
    assert_eq!(LexError::IntegerOverflow { position: 0 }.message(), "integer literal out of range");
}

#[test]
fn cloned_token_equals_the_token() {
    for token in [
        Token::Integer(-3),
        Token::Real("1.5".to_string()),
        Token::String("text".to_string()),
        Token::Id("name".to_string()),
        Token::Plus,
        Token::EOF,
        Token::FunktionigkeitToken,
    ] {
        assert_eq!(token.clone(), token);
    }
}

#[test]
fn longer_program_is_lexed_to_its_end() {
    let mut source = String::new();
    for i in 0..200 {
        source.push_str(&format!("i bims x{} vong {} her # line {}\n", i, i, i));
    }
    let tokens = lex(&source).unwrap();
    assert_eq!(tokens.len(), 200 * 6 + 1);
    assert_eq!(tokens[2], name("x0"));
    assert_eq!(tokens[6 * 199 + 4], Token::Integer(199));
    assert_eq!(tokens[tokens.len() - 1], Token::EOF);
}
