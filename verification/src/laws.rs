//! What holds of the lexer on whole inputs.
//!
//! `Lexer::get_next_token` returns `next_token` of the source and the cursor,
//! so each statement here about `next_token` and `token_stream` is one about
//! calls of the lexer.

use vstd::prelude::*;
use crate::chars::CharClass;
use crate::grammar::{
    comment_end, decimal_value, lemma_comment_end_bounds, lemma_end_marker_at_end,
    lemma_run_end_is_maximal, lemma_run_end_is_unique, lemma_skip_trivia_bounds,
    lemma_skip_trivia_settles, next_token, number_at, run_end, skip_trivia, token_stream,
    word_at, word_token, Scan,
};
use crate::keywords::{is_keyword, keyword_table, lemma_table_holds_keywords};
use crate::token::{LexError, TokenView};

verus! {

/// The step at the end of the text: the end marker, and the position stays.
pub open spec fn end_scan(s: Seq<char>) -> Scan {
    Scan { outcome: Ok(TokenView::EOF), next: s.len() as int }
}

/// Once the end marker has been returned, the cursor is at the end of the
/// source, and every later call returns the end marker again.
pub proof fn lemma_end_marker_repeats(s: Seq<char>, from: int)
    requires
        0 <= from <= s.len(),
        next_token(s, from).outcome == Ok::<TokenView, LexError>(TokenView::EOF),
    ensures
        next_token(s, from) == end_scan(s),
        next_token(s, s.len() as int) == end_scan(s),
{
    lemma_skip_trivia_bounds(s, from);
    lemma_end_marker_at_end(s, skip_trivia(s, from));
}

/// After an error the cursor stands where blanks and comments end, and every
/// later call returns the same error.
pub proof fn lemma_error_repeats(s: Seq<char>, from: int)
    requires
        0 <= from <= s.len(),
        next_token(s, from).outcome is Err,
    ensures
        next_token(s, from).next == skip_trivia(s, from),
        next_token(s, next_token(s, from).next) == next_token(s, from),
{
    lemma_skip_trivia_bounds(s, from);
    lemma_skip_trivia_settles(s, from);
}

/// Whether a comment that begins at `hash` reaches position `i`: a `#` stands
/// at `hash`, and no line feed between it and `i`.
pub open spec fn comment_reaches(s: Seq<char>, hash: int, i: int) -> bool {
    &&& 0 <= hash <= i < s.len()
    &&& s[hash] == '#'
    &&& forall|k: int| hash <= k < i ==> s[k] != '\n'
}

/// Whether the character at `i` is blank or part of a comment that begins
/// at or after `from`: it is a `#`, or a `#` stands before it on its line.
pub open spec fn is_trivia(s: Seq<char>, from: int, i: int) -> bool {
    CharClass::Whitespace.contains(s[i]) || exists|hash: int|
        from <= hash && comment_reaches(s, hash, i)
}

/// Whether `s` holds nothing but blanks and comments.
pub open spec fn is_blank_text(s: Seq<char>) -> bool {
    forall|i: int| 0 <= i < s.len() ==> #[trigger] is_trivia(s, 0, i)
}

/// From `from` on, `s` holds nothing but blanks and comments that begin at
/// or after `from`.
spec fn blank_from(s: Seq<char>, from: int) -> bool {
    forall|i: int| from <= i < s.len() ==> #[trigger] is_trivia(s, from, i)
}

proof fn lemma_blank_is_passed_over(s: Seq<char>, from: int)
    requires
        0 <= from <= s.len(),
        blank_from(s, from),
    ensures
        skip_trivia(s, from) == s.len(),
    decreases s.len() - from,
{
    if from < s.len() {
        assert(is_trivia(s, from, from));
        if CharClass::Whitespace.contains(s[from]) {
            assert forall|i: int| from + 1 <= i < s.len() implies #[trigger] is_trivia(
                s,
                from + 1,
                i,
            ) by {
                assert(is_trivia(s, from, i));
                if !CharClass::Whitespace.contains(s[i]) {
                    let hash = choose|hash: int| from <= hash && comment_reaches(s, hash, i);
                    assert(from + 1 <= hash && comment_reaches(s, hash, i));
                }
            }
            lemma_blank_is_passed_over(s, from + 1);
        } else {
            let first = choose|hash: int| from <= hash && comment_reaches(s, hash, from);
            assert(s[from] == '#');
            let line_feed = run_end(s, from + 1, CharClass::CommentBody);
            let end = comment_end(s, from + 1);
            lemma_comment_end_bounds(s, from + 1);
            lemma_run_end_is_maximal(s, from + 1, CharClass::CommentBody);
            assert forall|i: int| end <= i < s.len() implies #[trigger] is_trivia(s, end, i) by {
                assert(is_trivia(s, from, i));
                if !CharClass::Whitespace.contains(s[i]) {
                    let hash = choose|hash: int| from <= hash && comment_reaches(s, hash, i);
                    assert(s[line_feed] == '\n');
                    if hash < end {
                        assert(hash <= line_feed < i);
                    }
                    assert(end <= hash && comment_reaches(s, hash, i));
                }
            }
            lemma_blank_is_passed_over(s, end);
        }
    }
}

/// What is passed over is blank or comment, every character of it.
pub proof fn lemma_passed_over_is_trivia(s: Seq<char>, from: int)
    requires
        0 <= from <= s.len(),
    ensures
        forall|i: int| from <= i < skip_trivia(s, from) ==> #[trigger] is_trivia(s, from, i),
    decreases s.len() - from,
{
    lemma_skip_trivia_bounds(s, from);
    if from < s.len() {
        if CharClass::Whitespace.contains(s[from]) {
            lemma_passed_over_is_trivia(s, from + 1);
            assert forall|i: int| from <= i < skip_trivia(s, from) implies #[trigger] is_trivia(
                s,
                from,
                i,
            ) by {
                if i > from {
                    assert(is_trivia(s, from + 1, i));
                    if !CharClass::Whitespace.contains(s[i]) {
                        let hash = choose|hash: int|
                            from + 1 <= hash && comment_reaches(s, hash, i);
                        assert(from <= hash && comment_reaches(s, hash, i));
                    }
                }
            }
        } else if s[from] == '#' {
            let end = comment_end(s, from + 1);
            lemma_comment_end_bounds(s, from + 1);
            lemma_run_end_is_maximal(s, from + 1, CharClass::CommentBody);
            lemma_skip_trivia_bounds(s, end);
            lemma_passed_over_is_trivia(s, end);
            assert forall|i: int| from <= i < skip_trivia(s, from) implies #[trigger] is_trivia(
                s,
                from,
                i,
            ) by {
                if i < end {
                    assert(comment_reaches(s, from, i));
                } else {
                    assert(is_trivia(s, end, i));
                    if !CharClass::Whitespace.contains(s[i]) {
                        let hash = choose|hash: int| end <= hash && comment_reaches(s, hash, i);
                        assert(from <= hash && comment_reaches(s, hash, i));
                    }
                }
            }
        }
    }
}

/// A text gives the end marker at the first call if and only if it holds
/// nothing but blanks and comments. It then gives the end marker at every
/// call, and its token stream is the end marker alone.
pub proof fn lemma_blank_text_is_empty(s: Seq<char>)
    ensures
        is_blank_text(s) <==> next_token(s, 0).outcome == Ok::<TokenView, LexError>(
            TokenView::EOF,
        ),
        is_blank_text(s) ==> {
            &&& next_token(s, 0) == end_scan(s)
            &&& next_token(s, s.len() as int) == end_scan(s)
            &&& token_stream(s, 0) == Ok::<Seq<TokenView>, LexError>(seq![TokenView::EOF])
        },
{
    if is_blank_text(s) {
        assert(blank_from(s, 0));
        lemma_blank_is_passed_over(s, 0);
        lemma_end_marker_repeats(s, 0);
    }
    if next_token(s, 0).outcome == Ok::<TokenView, LexError>(TokenView::EOF) {
        lemma_end_marker_repeats(s, 0);
        lemma_skip_trivia_bounds(s, 0);
        lemma_end_marker_at_end(s, skip_trivia(s, 0));
        lemma_passed_over_is_trivia(s, 0);
    }
}

/// One or more decimal digits are an integer literal. The stream is the
/// `Integer` with their value in base 10, then the end marker; where the
/// value is more than `i32::MAX`, the stream is the error.
pub proof fn lemma_digits_are_an_integer(digits: Seq<char>)
    requires
        digits.len() > 0,
        CharClass::Digit.contains_all(digits),
    ensures
        token_stream(digits, 0) == if decimal_value(digits) <= i32::MAX {
            Ok::<Seq<TokenView>, LexError>(
                seq![TokenView::Integer(decimal_value(digits) as int), TokenView::EOF],
            )
        } else {
            Err(LexError::IntegerOverflow { position: 0 })
        },
{
    let end = digits.len() as int;
    lemma_run_end_is_unique(digits, 0, CharClass::Digit, end);
    assert(digits.subrange(0, end) =~= digits);
    assert(next_token(digits, 0) == number_at(digits, 0));
    if decimal_value(digits) <= i32::MAX {
        let literal = TokenView::Integer(decimal_value(digits) as int);
        assert(next_token(digits, end) == end_scan(digits));
        assert(token_stream(digits, end) == Ok::<Seq<TokenView>, LexError>(seq![TokenView::EOF]));
        assert(seq![literal] + seq![TokenView::EOF] =~= seq![literal, TokenView::EOF]);
    }
}

/// Digits, a point, and digits, of which there may be none, are a real
/// literal: the stream is the `Real` that holds the text as it stands, then
/// the end marker. What the text stands for is for the caller to compute.
pub proof fn lemma_digits_point_digits_are_a_real(whole: Seq<char>, fraction: Seq<char>)
    requires
        whole.len() > 0,
        CharClass::Digit.contains_all(whole),
        CharClass::Digit.contains_all(fraction),
    ensures
        token_stream(whole + seq!['.'] + fraction, 0) == Ok::<Seq<TokenView>, LexError>(
            seq![TokenView::Real(whole + seq!['.'] + fraction), TokenView::EOF],
        ),
{
    let s = whole + seq!['.'] + fraction;
    let point = whole.len() as int;
    let end = s.len() as int;
    assert forall|i: int| 0 <= i < point implies CharClass::Digit.contains(#[trigger] s[i]) by {
        assert(s[i] == whole[i]);
    }
    assert(s[point] == '.');
    lemma_run_end_is_unique(s, 0, CharClass::Digit, point);
    assert forall|i: int| point + 1 <= i < end implies CharClass::Digit.contains(
        #[trigger] s[i],
    ) by {
        assert(s[i] == fraction[i - point - 1]);
    }
    lemma_run_end_is_unique(s, point + 1, CharClass::Digit, end);
    assert(s.subrange(0, end) =~= s);
    assert(s[0] == whole[0]);
    assert(next_token(s, 0) == number_at(s, 0));
    let literal = TokenView::Real(s);
    assert(next_token(s, 0) == Scan { outcome: Ok(literal), next: end });
    assert(next_token(s, end) == end_scan(s));
    assert(token_stream(s, end) == Ok::<Seq<TokenView>, LexError>(seq![TokenView::EOF]));
    assert(seq![literal] + seq![TokenView::EOF] =~= seq![literal, TokenView::EOF]);
}

/// Whether the lexer begins a word at `c`: at a letter or a number that is
/// no decimal digit, for a digit begins a number literal.
pub open spec fn begins_word(c: char) -> bool {
    CharClass::Alphanumeric.contains(c) && !CharClass::Digit.contains(c)
}

/// Whether `c` is an ASCII letter.
pub open spec fn is_ascii_letter(c: char) -> bool {
    'a' <= c <= 'z' || 'A' <= c <= 'Z'
}

/// Whether `s` is made of ASCII letters.
pub open spec fn all_ascii_letters(s: Seq<char>) -> bool
    decreases s.len(),
{
    s.len() == 0 || (is_ascii_letter(s.last()) && all_ascii_letters(s.drop_last()))
}

/// Every ASCII letter begins a word, and may stand in one.
pub proof fn lemma_ascii_letters_make_words(s: Seq<char>)
    requires
        all_ascii_letters(s),
    ensures
        CharClass::Alphanumeric.contains_all(s),
        forall|i: int| 0 <= i < s.len() ==> begins_word(#[trigger] s[i]),
    decreases s.len(),
{
    if s.len() > 0 {
        lemma_ascii_letters_make_words(s.drop_last());
        assert forall|i: int| 0 <= i < s.len() implies begins_word(#[trigger] s[i])
            && CharClass::Alphanumeric.contains(s[i]) by {
            if i < s.len() - 1 {
                assert(s[i] == s.drop_last()[i]);
            }
        }
    }
}

/// A word alone is one token: a text of letters and numbers that begins as a
/// word does gives the token of the word, then the end marker.
pub proof fn lemma_word_alone(word: Seq<char>)
    requires
        word.len() > 0,
        begins_word(word[0]),
        CharClass::Alphanumeric.contains_all(word),
    ensures
        token_stream(word, 0) == Ok::<Seq<TokenView>, LexError>(
            seq![word_token(word), TokenView::EOF],
        ),
{
    let end = word.len() as int;
    lemma_run_end_is_unique(word, 0, CharClass::Alphanumeric, end);
    assert(word.subrange(0, end) =~= word);
    assert(next_token(word, 0) == word_at(word, 0));
    lemma_table_holds_keywords();
    if keyword_table().contains_key(word) {
        assert(is_keyword(keyword_table()[word]));
    }
    assert(word_token(word) != TokenView::EOF);
    assert(next_token(word, end) == end_scan(word));
    assert(token_stream(word, end) == Ok::<Seq<TokenView>, LexError>(seq![TokenView::EOF]));
    assert(seq![word_token(word)] + seq![TokenView::EOF] =~= seq![
        word_token(word),
        TokenView::EOF,
    ]);
}

/// Every spelling of the keyword table is made of ASCII letters, at least
/// one.
pub proof fn lemma_spellings_are_letters()
    ensures
        forall|word: Seq<char>| #[trigger]
            keyword_table().contains_key(word) ==> word.len() > 0 && all_ascii_letters(word),
{
    reveal_strlit("i");
    reveal_strlit("bims");
    reveal_strlit("vong");
    reveal_strlit("her");
    reveal_strlit("mit");
    reveal_strlit("bis");
    reveal_strlit("Funktionigkeit");
    reveal_strlit("am");
    reveal_strlit("Wahrigkeit");
    reveal_strlit("Sonstigkeit");
    reveal_strlit("solange");
    reveal_strlit("bidde");
    reveal_with_fuel(all_ascii_letters, 15);
    assert(all_ascii_letters("i"@));
    assert(all_ascii_letters("bims"@));
    assert(all_ascii_letters("vong"@));
    assert(all_ascii_letters("her"@));
    assert(all_ascii_letters("mit"@));
    assert(all_ascii_letters("bis"@));
    assert(all_ascii_letters("Funktionigkeit"@));
    assert(all_ascii_letters("am"@));
    assert(all_ascii_letters("Wahrigkeit"@));
    assert(all_ascii_letters("Sonstigkeit"@));
    assert(all_ascii_letters("solange"@));
    assert(all_ascii_letters("bidde"@));
}

/// Every reserved spelling, alone, gives its own token of the keyword table
/// and the end marker, and never an `Id`.
pub proof fn lemma_reserved_words_are_keywords(word: Seq<char>)
    requires
        keyword_table().contains_key(word),
    ensures
        token_stream(word, 0) == Ok::<Seq<TokenView>, LexError>(
            seq![keyword_table()[word]@, TokenView::EOF],
        ),
        is_keyword(keyword_table()[word]),
        !(keyword_table()[word]@ is Id),
{
    lemma_spellings_are_letters();
    lemma_table_holds_keywords();
    lemma_ascii_letters_make_words(word);
    lemma_word_alone(word);
}

/// A run of letters and numbers that the keyword table does not hold, alone,
/// gives an `Id` that carries the run, and the end marker. A run that begins
/// with a digit is left out: its digits are a number literal.
pub proof fn lemma_other_words_are_identifiers(word: Seq<char>)
    requires
        word.len() > 0,
        begins_word(word[0]),
        CharClass::Alphanumeric.contains_all(word),
        !keyword_table().contains_key(word),
    ensures
        token_stream(word, 0) == Ok::<Seq<TokenView>, LexError>(
            seq![TokenView::Id(word), TokenView::EOF],
        ),
{
    lemma_word_alone(word);
}

} // verus!
