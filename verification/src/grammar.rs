//! What the lexer reads out of a text: the grammar, as functions on
//! sequences of characters.
//!
//! A position is an index into the text, counted in characters. Every
//! function here looks at the text from a position on and never behind it.

use vstd::prelude::*;
use crate::chars::{CharClass, digit_value};
use crate::keywords::{is_keyword, keyword_table, lemma_table_holds_keywords};
use crate::token::{LexError, TokenView};

verus! {

/// Where the longest run of characters of `class` that begins at `from`
/// ends: the first position at or after `from` that holds a character
/// outside the class, or the length of the text.
pub open spec fn run_end(s: Seq<char>, from: int, class: CharClass) -> int
    decreases s.len() - from,
{
    if 0 <= from < s.len() && class.contains(s[from]) {
        run_end(s, from + 1, class)
    } else {
        from
    }
}

/// The number that a sequence of decimal digits stands for in base 10.
pub open spec fn decimal_value(digits: Seq<char>) -> nat
    decreases digits.len(),
{
    if digits.len() == 0 {
        0
    } else {
        10 * decimal_value(digits.drop_last()) + digit_value(digits.last())
    }
}

/// Where the comment ends whose body begins at `from`, the position after
/// its `#`: after the next line feed, or at the end of the text.
pub open spec fn comment_end(s: Seq<char>, from: int) -> int {
    let line_feed = run_end(s, from, CharClass::CommentBody);
    if line_feed < s.len() {
        line_feed + 1
    } else {
        line_feed
    }
}

/// The first position at or after `from` that is neither blank nor part of a
/// comment, or the length of the text. A comment begins with `#`.
///
/// The bounds that are tested before a comment is passed over always hold
/// (`lemma_comment_end_bounds`): the test is there for termination.
pub open spec fn skip_trivia(s: Seq<char>, from: int) -> int
    decreases s.len() - from,
{
    if from < 0 || from >= s.len() {
        from
    } else if CharClass::Whitespace.contains(s[from]) {
        skip_trivia(s, from + 1)
    } else if s[from] == '#' && from < comment_end(s, from + 1) <= s.len() {
        skip_trivia(s, comment_end(s, from + 1))
    } else {
        from
    }
}

/// What one step of the lexer yields: a token or an error, and the position
/// at which the next step begins.
pub struct Scan {
    pub outcome: Result<TokenView, LexError>,
    pub next: int,
}

/// The number literal that begins at `from`: digits, and if a `.` follows
/// them, the point and the digits after it. With a point the token is `Real`
/// and holds the literal's text. Without one it is `Integer`, unless the value
/// exceeds `i32::MAX`: that is an error, and the position stays at `from`.
///
/// The literal ends with its last digit, whatever follows: in `3x` the
/// letter begins a word of its own.
pub open spec fn number_at(s: Seq<char>, from: int) -> Scan {
    let whole_end = run_end(s, from, CharClass::Digit);
    if whole_end < s.len() && s[whole_end] == '.' {
        let end = run_end(s, whole_end + 1, CharClass::Digit);
        Scan { outcome: Ok(TokenView::Real(s.subrange(from, end))), next: end }
    } else {
        let value = decimal_value(s.subrange(from, whole_end));
        if value <= i32::MAX {
            Scan { outcome: Ok(TokenView::Integer(value as int)), next: whole_end }
        } else {
            Scan {
                outcome: Err(LexError::IntegerOverflow { position: from as usize }),
                next: from,
            }
        }
    }
}

/// The token that `word` is: that of the keyword table where the table holds
/// the word, letter for letter, and an `Id` with the word as its text where
/// not.
pub open spec fn word_token(word: Seq<char>) -> TokenView {
    if keyword_table().contains_key(word) {
        keyword_table()[word]@
    } else {
        TokenView::Id(word)
    }
}

/// The word that begins at `from`: the longest run of letters and numbers.
pub open spec fn word_at(s: Seq<char>, from: int) -> Scan {
    let end = run_end(s, from, CharClass::Alphanumeric);
    Scan { outcome: Ok(word_token(s.subrange(from, end))), next: end }
}

/// The string literal whose text begins at `from`, the position after its
/// opening `"`: everything up to the next `"`, which is passed over. A
/// literal that the text ends in, without a closing `"`, is no error: it
/// holds all that is left.
pub open spec fn string_at(s: Seq<char>, from: int) -> Scan {
    let end = run_end(s, from, CharClass::StringBody);
    Scan {
        outcome: Ok(TokenView::String(s.subrange(from, end))),
        next: if end < s.len() {
            end + 1
        } else {
            end
        },
    }
}

/// The token made of the single character `c`, if there is one.
pub open spec fn punctuation(c: char) -> Option<TokenView> {
    if c == '+' {
        Some(TokenView::Plus)
    } else if c == '-' {
        Some(TokenView::Minus)
    } else if c == '*' {
        Some(TokenView::Mul)
    } else if c == '/' {
        Some(TokenView::RealDiv)
    } else if c == '$' {
        Some(TokenView::IntegerDiv)
    } else if c == '(' {
        Some(TokenView::LParen)
    } else if c == ')' {
        Some(TokenView::RParen)
    } else if c == ',' {
        Some(TokenView::Comma)
    } else {
        None
    }
}

/// The token that begins at `from`, a position that holds neither a blank
/// nor a comment. At the end of the text it is the end marker. A digit begins
/// a number, any other letter or number a word, `"` a string literal; the rest
/// is punctuation, and a character that begins none of these is an error
/// that leaves the position where it is.
pub open spec fn token_at(s: Seq<char>, from: int) -> Scan {
    if from < 0 || from >= s.len() {
        Scan { outcome: Ok(TokenView::EOF), next: from }
    } else if CharClass::Digit.contains(s[from]) {
        number_at(s, from)
    } else if CharClass::Alphanumeric.contains(s[from]) {
        word_at(s, from)
    } else if s[from] == '"' {
        string_at(s, from + 1)
    } else {
        match punctuation(s[from]) {
            Some(token) => Scan { outcome: Ok(token), next: from + 1 },
            None => Scan {
                outcome: Err(
                    LexError::InvalidCharacter { position: from as usize, found: s[from] },
                ),
                next: from,
            },
        }
    }
}

/// One step of the lexer from `from`: blanks and comments are passed over,
/// and the token that follows them is read.
pub open spec fn next_token(s: Seq<char>, from: int) -> Scan {
    token_at(s, skip_trivia(s, from))
}

/// All tokens of `s` from `from` on, the end marker last; or the first error.
///
/// The test of the position before the next step is for termination only: a
/// token that is not the end marker always moves the position on (see
/// `lemma_token_moves_on`).
pub open spec fn token_stream(s: Seq<char>, from: int) -> Result<Seq<TokenView>, LexError>
    decreases s.len() - from,
{
    let scan = next_token(s, from);
    match scan.outcome {
        Err(error) => Err(error),
        Ok(token) => if token != TokenView::EOF && from < scan.next <= s.len() {
            match token_stream(s, scan.next) {
                Ok(rest) => Ok(seq![token] + rest),
                Err(error) => Err(error),
            }
        } else {
            Ok(seq![token])
        },
    }
}

/// A run lies within the text and does not end before it begins.
pub proof fn lemma_run_end_bounds(s: Seq<char>, from: int, class: CharClass)
    requires
        0 <= from <= s.len(),
    ensures
        from <= run_end(s, from, class) <= s.len(),
    decreases s.len() - from,
{
    if from < s.len() && class.contains(s[from]) {
        lemma_run_end_bounds(s, from + 1, class);
    }
}

/// What `run_end` is, without recursion: every character of the run is of
/// the class, and the run stops only at the end of the text or at a character
/// outside the class.
pub proof fn lemma_run_end_is_maximal(s: Seq<char>, from: int, class: CharClass)
    requires
        0 <= from <= s.len(),
    ensures
        forall|i: int| from <= i < run_end(s, from, class) ==> class.contains(#[trigger] s[i]),
        run_end(s, from, class) == s.len() || !class.contains(s[run_end(s, from, class)]),
    decreases s.len() - from,
{
    if from < s.len() && class.contains(s[from]) {
        lemma_run_end_is_maximal(s, from + 1, class);
    }
}

/// No other position has the two properties of `run_end`.
pub proof fn lemma_run_end_is_unique(s: Seq<char>, from: int, class: CharClass, end: int)
    requires
        0 <= from <= end <= s.len(),
        forall|i: int| from <= i < end ==> class.contains(#[trigger] s[i]),
        end == s.len() || !class.contains(s[end]),
    ensures
        run_end(s, from, class) == end,
    decreases end - from,
{
    if from < end {
        assert(class.contains(s[from]));
        lemma_run_end_is_unique(s, from + 1, class, end);
    }
}

/// A comment ends after the position at which its body begins, or there,
/// and within the text. So the bound that `skip_trivia` tests before it
/// passes over a comment always holds.
pub proof fn lemma_comment_end_bounds(s: Seq<char>, from: int)
    requires
        0 <= from <= s.len(),
    ensures
        from <= comment_end(s, from) <= s.len(),
{
    lemma_run_end_bounds(s, from, CharClass::CommentBody);
}

/// Passing over blanks and comments never moves back, nor past the end.
pub proof fn lemma_skip_trivia_bounds(s: Seq<char>, from: int)
    requires
        0 <= from <= s.len(),
    ensures
        from <= skip_trivia(s, from) <= s.len(),
    decreases s.len() - from,
{
    if from < s.len() {
        if CharClass::Whitespace.contains(s[from]) {
            lemma_skip_trivia_bounds(s, from + 1);
        } else if s[from] == '#' {
            lemma_comment_end_bounds(s, from + 1);
            lemma_skip_trivia_bounds(s, comment_end(s, from + 1));
        }
    }
}

/// A whole run of blanks is passed over at once.
pub proof fn lemma_skip_trivia_over_blanks(s: Seq<char>, from: int)
    requires
        0 <= from <= s.len(),
    ensures
        skip_trivia(s, from) == skip_trivia(s, run_end(s, from, CharClass::Whitespace)),
    decreases s.len() - from,
{
    if from < s.len() && CharClass::Whitespace.contains(s[from]) {
        lemma_skip_trivia_over_blanks(s, from + 1);
    }
}

/// The position after a token lies within the text, at or after the position
/// at which the token was looked for.
pub proof fn lemma_token_at_bounds(s: Seq<char>, from: int)
    requires
        0 <= from <= s.len(),
    ensures
        from <= token_at(s, from).next <= s.len(),
{
    if from < s.len() {
        lemma_run_end_bounds(s, from, CharClass::Digit);
        lemma_run_end_bounds(s, from, CharClass::Alphanumeric);
        lemma_run_end_bounds(s, from + 1, CharClass::StringBody);
        let whole_end = run_end(s, from, CharClass::Digit);
        if whole_end < s.len() {
            lemma_run_end_bounds(s, whole_end + 1, CharClass::Digit);
        }
    }
}

/// A run that begins at a character of its class holds that character.
pub proof fn lemma_run_end_moves_on(s: Seq<char>, from: int, class: CharClass)
    requires
        0 <= from < s.len(),
        class.contains(s[from]),
    ensures
        from < run_end(s, from, class) <= s.len(),
{
    lemma_run_end_bounds(s, from + 1, class);
}

/// Only at the end of the text is the end marker read.
pub proof fn lemma_end_marker_at_end(s: Seq<char>, from: int)
    requires
        0 <= from <= s.len(),
    ensures
        token_at(s, from).outcome == Ok::<TokenView, LexError>(TokenView::EOF) <==> from == s.len(),
{
    lemma_table_holds_keywords();
    if from < s.len() {
        let word = s.subrange(from, run_end(s, from, CharClass::Alphanumeric));
        if keyword_table().contains_key(word) {
            assert(is_keyword(keyword_table()[word]));
        }
    }
}

/// A token that is not the end marker takes up at least one character.
pub proof fn lemma_token_moves_on(s: Seq<char>, from: int)
    requires
        0 <= from <= s.len(),
        next_token(s, from).outcome is Ok,
        next_token(s, from).outcome != Ok::<TokenView, LexError>(TokenView::EOF),
    ensures
        from <= skip_trivia(s, from) < next_token(s, from).next <= s.len(),
{
    lemma_skip_trivia_bounds(s, from);
    let start = skip_trivia(s, from);
    lemma_end_marker_at_end(s, start);
    lemma_token_at_bounds(s, start);
    if CharClass::Digit.contains(s[start]) {
        lemma_run_end_moves_on(s, start, CharClass::Digit);
        let whole_end = run_end(s, start, CharClass::Digit);
        if whole_end < s.len() {
            lemma_run_end_bounds(s, whole_end + 1, CharClass::Digit);
        }
    } else if CharClass::Alphanumeric.contains(s[start]) {
        lemma_run_end_moves_on(s, start, CharClass::Alphanumeric);
    } else if s[start] == '"' {
        lemma_run_end_bounds(s, start + 1, CharClass::StringBody);
    }
}

/// Where blanks and comments have been passed over, there are none to pass
/// over.
pub proof fn lemma_skip_trivia_settles(s: Seq<char>, from: int)
    requires
        0 <= from <= s.len(),
    ensures
        skip_trivia(s, skip_trivia(s, from)) == skip_trivia(s, from),
    decreases s.len() - from,
{
    if from < s.len() {
        if CharClass::Whitespace.contains(s[from]) {
            lemma_skip_trivia_settles(s, from + 1);
        } else if s[from] == '#' {
            lemma_comment_end_bounds(s, from + 1);
            lemma_skip_trivia_settles(s, comment_end(s, from + 1));
        }
    }
}

} // verus!
