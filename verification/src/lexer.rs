//! The lexer: a cursor over a source text that hands out one token per call.

use vstd::prelude::*;
use vstd::hash_map::StringHashMap;
use crate::chars::{CharClass, is_digit, is_whitespace};
use crate::grammar::{
    comment_end, lemma_comment_end_bounds, lemma_run_end_bounds, lemma_run_end_is_maximal,
    lemma_skip_trivia_bounds, lemma_skip_trivia_over_blanks, lemma_token_at_bounds,
    lemma_token_moves_on, next_token, number_at, run_end, skip_trivia, string_at, token_at,
    word_at,
};
use crate::keywords::{fill_map, keyword_table};
use crate::number::parse_decimal;
pub use crate::token::{outcome_view, LexError, Token, TokenView};

verus! {

/// A source text, the position that has been read up to, and the keyword
/// table. Each lexer owns all three and shares nothing.
pub struct Lexer {
    text: String,
    /// The number of characters of `text`.
    length: usize,
    /// The cursor: the index, in characters, of the next one to read.
    position: usize,
    keywords: StringHashMap<Token>,
}

impl Lexer {
    /// What holds of every lexer: the length is that of the text, the cursor
    /// lies within the text or at its end, and the table is the keyword table.
    #[verifier::type_invariant]
    spec fn well_formed(&self) -> bool {
        &&& self.length == self.text@.len()
        &&& self.position <= self.length
        &&& self.keywords@ == keyword_table()
    }

    /// The source text. It never changes.
    pub closed spec fn source(&self) -> Seq<char> {
        self.text@
    }

    /// The cursor: how many characters of the source have been read.
    pub closed spec fn cursor(&self) -> int {
        self.position as int
    }

    /// The character at the cursor, if the source is not used up.
    pub open spec fn current(&self) -> Option<char> {
        if 0 <= self.cursor() < self.source().len() {
            Some(self.source()[self.cursor()])
        } else {
            None
        }
    }

    /// A lexer at the beginning of `input`, with a keyword table of its own.
    pub fn new(input: String) -> (lexer: Lexer)
        ensures
            lexer.source() == input@,
            lexer.cursor() == 0,
    {
        let map = fill_map();
        let length = input.as_str().unicode_len();
        Lexer { text: input, length, position: 0, keywords: map }
    }

    /// The character at the cursor, if the source is not used up.
    fn current_char(&self) -> (c: Option<char>)
        ensures
            c == self.current(),
            self.cursor() <= self.source().len() == self.length,
    {
        proof {
            use_type_invariant(self);
        }
        if self.position < self.length {
            Some(self.text.as_str().get_char(self.position))
        } else {
            None
        }
    }

    /// Moves the cursor over one character.
    fn advance(&mut self)
        requires
            old(self).cursor() < old(self).source().len(),
        ensures
            final(self).source() == old(self).source(),
            final(self).cursor() == old(self).cursor() + 1,
    {
        proof {
            use_type_invariant(&*self);
        }
        self.position = self.position + 1;
    }

    /// Moves the cursor to the end of the run of `class` that it stands at.
    fn scan_run(&mut self, class: CharClass)
        ensures
            final(self).source() == old(self).source(),
            final(self).cursor() == run_end(old(self).source(), old(self).cursor(), class),
            old(self).cursor() <= final(self).cursor() <= final(self).source().len(),
    {
        let ghost s = self.text@;
        let ghost start = self.position as int;
        proof {
            use_type_invariant(&*self);
        }
        loop
            invariant
                self.source() == s,
                start <= self.cursor() <= s.len(),
                run_end(s, self.cursor(), class) == run_end(s, start, class),
            ensures
                self.source() == s,
                start <= self.cursor() <= s.len(),
                self.cursor() == run_end(s, start, class),
            decreases s.len() - self.cursor(),
        {
            match self.current_char() {
                Some(c) => {
                    if class.test(c) {
                        self.advance();
                    } else {
                        break ;
                    }
                },
                None => {
                    break ;
                },
            }
        }
    }

    /// The text from `start` to the cursor.
    fn lexeme(&self, start: usize) -> (text: String)
        requires
            start <= self.cursor(),
        ensures
            text@ == self.source().subrange(start as int, self.cursor()),
    {
        proof {
            use_type_invariant(self);
        }
        self.text.as_str().substring_char(start, self.position).to_owned()
    }

    /// Passes over the blanks at the cursor.
    fn ignore_whitespace(&mut self)
        ensures
            final(self).source() == old(self).source(),
            final(self).cursor() == run_end(
                old(self).source(),
                old(self).cursor(),
                CharClass::Whitespace,
            ),
    {
        self.scan_run(CharClass::Whitespace);
    }

    /// Passes over the rest of a comment, the cursor being behind its `#`:
    /// all up to the line feed, and the line feed.
    fn ignore_comment(&mut self)
        ensures
            final(self).source() == old(self).source(),
            final(self).cursor() == comment_end(old(self).source(), old(self).cursor()),
    {
        self.scan_run(CharClass::CommentBody);
        proof {
            use_type_invariant(&*self);
        }
        if self.position < self.length {
            self.advance();
        }
    }

    /// Reads the number literal at the cursor, which stands at a digit. If
    /// the literal is an integer too large for `i32`, the cursor goes back to
    /// where the literal begins.
    fn number(&mut self) -> (result: Result<Token, LexError>)
        requires
            old(self).current() is Some,
            CharClass::Digit.contains(old(self).current()->0),
        ensures
            final(self).source() == old(self).source(),
            outcome_view(result) == number_at(old(self).source(), old(self).cursor()).outcome,
            final(self).cursor() == number_at(old(self).source(), old(self).cursor()).next,
    {
        let ghost s = self.text@;
        let start = self.position;
        proof {
            use_type_invariant(&*self);
            lemma_run_end_bounds(s, start as int, CharClass::Digit);
            lemma_run_end_is_maximal(s, start as int, CharClass::Digit);
        }
        self.scan_run(CharClass::Digit);
        match self.current_char() {
            Some('.') => {
                self.advance();
                self.scan_run(CharClass::Digit);
                Ok(Token::Real(self.lexeme(start)))
            },
            _ => {
                let digits = self.lexeme(start);
                proof {
                    assert(digits@.len() > 0);
                    assert(CharClass::Digit.contains_all(digits@)) by {
                        assert forall|i: int| 0 <= i < digits@.len() implies #[trigger]
                            CharClass::Digit.contains(digits@[i]) by {
                            assert(digits@[i] == s[start + i]);
                        }
                    }
                }
                match parse_decimal(digits.as_str()) {
                    Some(value) => Ok(Token::Integer(value)),
                    None => {
                        proof {
                            use_type_invariant(&*self);
                        }
                        self.position = start;
                        Err(LexError::IntegerOverflow { position: start })
                    },
                }
            },
        }
    }

    /// Reads the word at the cursor and looks it up in the keyword table.
    fn id(&mut self) -> (token: Token)
        ensures
            final(self).source() == old(self).source(),
            Ok::<TokenView, LexError>(token@) == word_at(
                old(self).source(),
                old(self).cursor(),
            ).outcome,
            final(self).cursor() == word_at(old(self).source(), old(self).cursor()).next,
    {
        let start = self.position;
        self.scan_run(CharClass::Alphanumeric);
        let word = self.lexeme(start);
        proof {
            use_type_invariant(&*self);
        }
        match self.keywords.get(word.as_str()) {
            Some(token) => token.clone(),
            None => Token::Id(word),
        }
    }

    /// Reads the text of a string literal, the cursor being behind its
    /// opening `"`.
    fn string(&mut self) -> (token: Token)
        ensures
            final(self).source() == old(self).source(),
            Ok::<TokenView, LexError>(token@) == string_at(
                old(self).source(),
                old(self).cursor(),
            ).outcome,
            final(self).cursor() == string_at(old(self).source(), old(self).cursor()).next,
    {
        let start = self.position;
        self.scan_run(CharClass::StringBody);
        let text = self.lexeme(start);
        proof {
            use_type_invariant(&*self);
        }
        if self.position < self.length {
            self.advance();
        }
        Token::String(text)
    }

    /// The next token of the source, or the reason why there is none.
    ///
    /// Blanks and comments before the token are passed over. At the end of
    /// the source the result is the end marker, `Token::EOF`, at every call.
    /// After an error the cursor stands at the text that caused it. The
    /// cursor never moves back, and every token but the end marker moves it
    /// on.
    pub fn get_next_token(&mut self) -> (result: Result<Token, LexError>)
        ensures
            final(self).source() == old(self).source(),
            outcome_view(result) == next_token(old(self).source(), old(self).cursor()).outcome,
            final(self).cursor() == next_token(old(self).source(), old(self).cursor()).next,
            old(self).cursor() <= final(self).cursor() <= final(self).source().len(),
            result is Ok && result->Ok_0@ != TokenView::EOF
                ==> old(self).cursor() < final(self).cursor(),
    {
        let ghost s = self.text@;
        let ghost start = self.position as int;
        proof {
            use_type_invariant(&*self);
            lemma_skip_trivia_bounds(s, start);
            lemma_token_at_bounds(s, skip_trivia(s, start));
            if next_token(s, start).outcome is Ok && next_token(s, start).outcome != Ok::<
                TokenView,
                LexError,
            >(TokenView::EOF) {
                lemma_token_moves_on(s, start);
            }
        }
        loop
            invariant
                s == old(self).source(),
                start == old(self).cursor(),
                self.source() == s,
                start <= self.cursor() <= s.len(),
                skip_trivia(s, self.cursor()) == skip_trivia(s, start),
                next_token(s, start).outcome is Ok && next_token(s, start).outcome != Ok::<
                    TokenView,
                    LexError,
                >(TokenView::EOF) ==> start < next_token(s, start).next,
                start <= skip_trivia(s, start),
                skip_trivia(s, start) <= token_at(s, skip_trivia(s, start)).next <= s.len(),
            decreases s.len() - self.cursor(),
        {
            let ghost here = self.position as int;
            let c = match self.current_char() {
                Some(c) => c,
                None => {
                    return Ok(Token::EOF);
                },
            };
            if is_whitespace(c) {
                proof {
                    lemma_skip_trivia_over_blanks(s, here);
                    lemma_run_end_bounds(s, here + 1, CharClass::Whitespace);
                }
                self.ignore_whitespace();
                continue ;
            }
            if is_digit(c) {
                return self.number();
            }
            if CharClass::Alphanumeric.test(c) {
                return Ok(self.id());
            }
            match c {
                '#' => {
                    proof {
                        lemma_comment_end_bounds(s, here + 1);
                    }
                    self.advance();
                    self.ignore_comment();
                    continue ;
                },
                '+' => {
                    self.advance();
                    return Ok(Token::Plus);
                },
                '-' => {
                    self.advance();
                    return Ok(Token::Minus);
                },
                '*' => {
                    self.advance();
                    return Ok(Token::Mul);
                },
                '/' => {
                    self.advance();
                    return Ok(Token::RealDiv);
                },
                '$' => {
                    self.advance();
                    return Ok(Token::IntegerDiv);
                },
                '(' => {
                    self.advance();
                    return Ok(Token::LParen);
                },
                ')' => {
                    self.advance();
                    return Ok(Token::RParen);
                },
                '"' => {
                    self.advance();
                    return Ok(self.string());
                },
                ',' => {
                    self.advance();
                    return Ok(Token::Comma);
                },
                _ => {
                    return Err(LexError::InvalidCharacter { position: self.position, found: c });
                },
            }
        }
    }
}

} // verus!
