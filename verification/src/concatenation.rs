//! Texts put together: what the tokens of `a`, a blank and `b` are, given the
//! tokens of `a` and of `b`.
//!
//! Two facts carry the proof. The lexer never looks behind its position, so
//! the tokens of `b` do not change when a text is put before it. And it looks
//! at most one character past a token, so the tokens of `a` do not change
//! when a blank follows it, unless `a` ends in the middle of something that
//! only a later character closes: a string literal or a comment.

use vstd::prelude::*;
use crate::chars::CharClass;
use crate::grammar::{
    comment_end, lemma_comment_end_bounds, lemma_end_marker_at_end, lemma_run_end_bounds,
    lemma_run_end_is_maximal, lemma_run_end_is_unique, lemma_skip_trivia_bounds,
    lemma_token_moves_on, next_token, run_end, skip_trivia, token_at, token_stream, Scan,
};
use crate::token::{LexError, TokenView};

verus! {

/// Whether the blanks and comments that are passed over from `from` end in a
/// comment that no line feed closes.
pub open spec fn trivia_ends_in_comment(s: Seq<char>, from: int) -> bool
    decreases s.len() - from,
{
    if from < 0 || from >= s.len() {
        false
    } else if CharClass::Whitespace.contains(s[from]) {
        trivia_ends_in_comment(s, from + 1)
    } else if s[from] == '#' {
        let line_feed = run_end(s, from + 1, CharClass::CommentBody);
        line_feed >= s.len() || (from < line_feed && trivia_ends_in_comment(s, line_feed + 1))
    } else {
        false
    }
}

/// Whether the text, read token by token from `from`, ends in a comment that
/// no line feed closes.
pub open spec fn ends_in_comment(s: Seq<char>, from: int) -> bool
    decreases s.len() - from,
{
    let start = skip_trivia(s, from);
    let scan = token_at(s, start);
    if start < 0 || start >= s.len() {
        trivia_ends_in_comment(s, from)
    } else if scan.outcome is Ok && from < scan.next <= s.len() {
        ends_in_comment(s, scan.next)
    } else {
        false
    }
}

/// Whether the text, read token by token from `from`, ends in a string
/// literal that no `"` closes.
pub open spec fn ends_in_string(s: Seq<char>, from: int) -> bool
    decreases s.len() - from,
{
    let start = skip_trivia(s, from);
    let scan = token_at(s, start);
    if start < 0 || start >= s.len() {
        false
    } else if s[start] == '"' && run_end(s, start + 1, CharClass::StringBody) >= s.len() {
        true
    } else if scan.outcome is Ok && from < scan.next <= s.len() {
        ends_in_string(s, scan.next)
    } else {
        false
    }
}

/// Whether `s` gives the same tokens without its first line: the line holds
/// no token, and no part of one.
pub open spec fn first_line_is_idle(s: Seq<char>) -> bool {
    token_stream(s, comment_end(s, 0)) == token_stream(s, 0)
}

/// A run in `a` is the same run in `a + y`, if it ends before `a` does or
/// `y` does not go on with it.
proof fn lemma_run_end_in_prefix(a: Seq<char>, y: Seq<char>, from: int, class: CharClass)
    requires
        0 <= from <= a.len(),
        run_end(a, from, class) < a.len() || y.len() == 0 || !class.contains(y[0]),
    ensures
        run_end(a + y, from, class) == run_end(a, from, class),
{
    let x = a + y;
    let end = run_end(a, from, class);
    lemma_run_end_bounds(a, from, class);
    lemma_run_end_is_maximal(a, from, class);
    assert forall|i: int| from <= i < end implies class.contains(#[trigger] x[i]) by {
        assert(x[i] == a[i]);
    }
    if end < a.len() {
        assert(x[end] == a[end]);
    } else if y.len() > 0 {
        assert(x[end] == y[0]);
    }
    lemma_run_end_is_unique(x, from, class, end);
}

/// A run that reaches the end of `a` goes on in `a + y` with the run at the
/// beginning of `y`.
proof fn lemma_run_end_goes_on(a: Seq<char>, y: Seq<char>, from: int, class: CharClass)
    requires
        0 <= from <= a.len(),
        run_end(a, from, class) == a.len(),
    ensures
        run_end(a + y, from, class) == a.len() + run_end(y, 0, class),
{
    let x = a + y;
    let end = run_end(y, 0, class);
    lemma_run_end_is_maximal(a, from, class);
    lemma_run_end_bounds(y, 0, class);
    lemma_run_end_is_maximal(y, 0, class);
    assert forall|i: int| from <= i < a.len() + end implies class.contains(#[trigger] x[i]) by {
        if i < a.len() {
            assert(x[i] == a[i]);
        } else {
            assert(x[i] == y[i - a.len()]);
        }
    }
    if end < y.len() {
        assert(x[a.len() + end] == y[end]);
    }
    lemma_run_end_is_unique(x, from, class, a.len() + end);
}

/// A run in `b` is the same run in `pre + b`, moved by the length of `pre`.
proof fn lemma_run_end_in_suffix(pre: Seq<char>, b: Seq<char>, at: int, class: CharClass)
    requires
        0 <= at <= b.len(),
    ensures
        run_end(pre + b, pre.len() + at, class) == pre.len() + run_end(b, at, class),
{
    let x = pre + b;
    let end = run_end(b, at, class);
    lemma_run_end_bounds(b, at, class);
    lemma_run_end_is_maximal(b, at, class);
    assert forall|i: int| pre.len() + at <= i < pre.len() + end implies class.contains(
        #[trigger] x[i],
    ) by {
        assert(x[i] == b[i - pre.len()]);
    }
    if end < b.len() {
        assert(x[pre.len() + end] == b[end]);
    }
    lemma_run_end_is_unique(x, pre.len() + at, class, pre.len() + end);
}

/// Blanks and comments in `b` are passed over in `pre + b` as in `b`.
proof fn lemma_skip_trivia_in_suffix(pre: Seq<char>, b: Seq<char>, at: int)
    requires
        0 <= at <= b.len(),
    ensures
        skip_trivia(pre + b, pre.len() + at) == pre.len() + skip_trivia(b, at),
    decreases b.len() - at,
{
    let x = pre + b;
    if at < b.len() {
        assert(x[pre.len() + at] == b[at]);
        if CharClass::Whitespace.contains(b[at]) {
            lemma_skip_trivia_in_suffix(pre, b, at + 1);
        } else if b[at] == '#' {
            lemma_run_end_in_suffix(pre, b, at + 1, CharClass::CommentBody);
            lemma_comment_end_bounds(b, at + 1);
            assert(comment_end(x, pre.len() + at + 1) == pre.len() + comment_end(b, at + 1));
            lemma_skip_trivia_in_suffix(pre, b, comment_end(b, at + 1));
        }
    }
}

/// A token of `b` is the same token in `pre + b`, and ends as much later as
/// `pre` is long.
proof fn lemma_token_at_in_suffix(pre: Seq<char>, b: Seq<char>, at: int)
    requires
        0 <= at <= b.len(),
        token_at(b, at).outcome is Ok,
    ensures
        token_at(pre + b, pre.len() + at) == (Scan {
            outcome: token_at(b, at).outcome,
            next: pre.len() + token_at(b, at).next,
        }),
{
    let x = pre + b;
    let shift = pre.len() as int;
    if at < b.len() {
        assert(x[shift + at] == b[at]);
        if CharClass::Digit.contains(b[at]) {
            let whole_end = run_end(b, at, CharClass::Digit);
            lemma_run_end_bounds(b, at, CharClass::Digit);
            lemma_run_end_in_suffix(pre, b, at, CharClass::Digit);
            if whole_end < b.len() {
                assert(x[shift + whole_end] == b[whole_end]);
                lemma_run_end_bounds(b, whole_end + 1, CharClass::Digit);
                lemma_run_end_in_suffix(pre, b, whole_end + 1, CharClass::Digit);
                let end = run_end(b, whole_end + 1, CharClass::Digit);
                assert(x.subrange(shift + at, shift + end) =~= b.subrange(at, end));
            }
            assert(x.subrange(shift + at, shift + whole_end) =~= b.subrange(at, whole_end));
        } else if CharClass::Alphanumeric.contains(b[at]) {
            let end = run_end(b, at, CharClass::Alphanumeric);
            lemma_run_end_bounds(b, at, CharClass::Alphanumeric);
            lemma_run_end_in_suffix(pre, b, at, CharClass::Alphanumeric);
            assert(x.subrange(shift + at, shift + end) =~= b.subrange(at, end));
        } else if b[at] == '"' {
            let end = run_end(b, at + 1, CharClass::StringBody);
            lemma_run_end_bounds(b, at + 1, CharClass::StringBody);
            lemma_run_end_in_suffix(pre, b, at + 1, CharClass::StringBody);
            assert(x.subrange(shift + at + 1, shift + end) =~= b.subrange(at + 1, end));
        }
    }
}

/// The lexer never looks behind its position: the tokens of `b` from `at` on
/// are the tokens of `pre + b` from the same place on, whatever `pre` is.
pub proof fn lemma_token_stream_in_suffix(pre: Seq<char>, b: Seq<char>, at: int)
    requires
        0 <= at <= b.len(),
        token_stream(b, at) is Ok,
    ensures
        token_stream(pre + b, pre.len() + at) == token_stream(b, at),
    decreases b.len() - at,
{
    let x = pre + b;
    let start = skip_trivia(b, at);
    let scan = next_token(b, at);
    lemma_skip_trivia_bounds(b, at);
    lemma_skip_trivia_in_suffix(pre, b, at);
    lemma_token_at_in_suffix(pre, b, start);
    assert(next_token(x, pre.len() + at) == Scan {
        outcome: scan.outcome,
        next: pre.len() + scan.next,
    });
    if scan.outcome != Ok::<TokenView, LexError>(TokenView::EOF) {
        lemma_token_moves_on(b, at);
        lemma_token_stream_in_suffix(pre, b, scan.next);
    }
}

/// Blanks and comments of `a` that end before `a` does are passed over in
/// `a + y` as in `a`.
proof fn lemma_skip_trivia_in_prefix(a: Seq<char>, y: Seq<char>, from: int)
    requires
        0 <= from <= a.len(),
        skip_trivia(a, from) < a.len(),
    ensures
        skip_trivia(a + y, from) == skip_trivia(a, from),
    decreases a.len() - from,
{
    let x = a + y;
    assert(from < a.len());
    assert(x[from] == a[from]);
    if CharClass::Whitespace.contains(a[from]) {
        lemma_skip_trivia_in_prefix(a, y, from + 1);
    } else if a[from] == '#' {
        lemma_comment_end_bounds(a, from + 1);
        let end = comment_end(a, from + 1);
        assert(run_end(a, from + 1, CharClass::CommentBody) < a.len()) by {
            assert(skip_trivia(a, a.len() as int) == a.len());
        }
        lemma_run_end_in_prefix(a, y, from + 1, CharClass::CommentBody);
        assert(comment_end(x, from + 1) == end);
        lemma_skip_trivia_in_prefix(a, y, end);
    }
}

/// Blanks and comments that reach the end of `a` go on over a blank that
/// follows `a`. A comment that no line feed closes in `a` is closed by the
/// blank if the blank is a line feed.
proof fn lemma_skip_trivia_to_end(a: Seq<char>, y: Seq<char>, from: int)
    requires
        0 <= from <= a.len(),
        skip_trivia(a, from) == a.len(),
        y.len() > 0,
        CharClass::Whitespace.contains(y[0]),
        y[0] == '\n' || !trivia_ends_in_comment(a, from),
    ensures
        skip_trivia(a + y, from) == skip_trivia(a + y, a.len() as int + 1),
    decreases a.len() - from,
{
    let x = a + y;
    assert(x[a.len() as int] == y[0]);
    if from < a.len() {
        assert(x[from] == a[from]);
        if CharClass::Whitespace.contains(a[from]) {
            lemma_skip_trivia_to_end(a, y, from + 1);
        } else {
            assert(a[from] == '#');
            let line_feed = run_end(a, from + 1, CharClass::CommentBody);
            lemma_run_end_bounds(a, from + 1, CharClass::CommentBody);
            lemma_run_end_in_prefix(a, y, from + 1, CharClass::CommentBody);
            if line_feed < a.len() {
                assert(comment_end(x, from + 1) == line_feed + 1);
                lemma_skip_trivia_to_end(a, y, line_feed + 1);
            } else {
                assert(comment_end(x, from + 1) == a.len() + 1);
            }
        }
    }
}

/// A comment that no line feed closes in `a` goes on in `a + y` to the end
/// of the first line of `y`.
proof fn lemma_skip_trivia_through_comment(a: Seq<char>, y: Seq<char>, from: int)
    requires
        0 <= from <= a.len(),
        skip_trivia(a, from) == a.len(),
        trivia_ends_in_comment(a, from),
    ensures
        skip_trivia(a + y, from) == skip_trivia(a + y, a.len() + comment_end(y, 0)),
    decreases a.len() - from,
{
    let x = a + y;
    assert(from < a.len());
    assert(x[from] == a[from]);
    if CharClass::Whitespace.contains(a[from]) {
        lemma_skip_trivia_through_comment(a, y, from + 1);
    } else {
        assert(a[from] == '#');
        let line_feed = run_end(a, from + 1, CharClass::CommentBody);
        lemma_run_end_bounds(a, from + 1, CharClass::CommentBody);
        if line_feed < a.len() {
            lemma_run_end_in_prefix(a, y, from + 1, CharClass::CommentBody);
            assert(comment_end(x, from + 1) == line_feed + 1);
            lemma_skip_trivia_through_comment(a, y, line_feed + 1);
        } else {
            lemma_run_end_goes_on(a, y, from + 1, CharClass::CommentBody);
            lemma_comment_end_bounds(y, 0);
            assert(comment_end(x, from + 1) == a.len() + comment_end(y, 0));
        }
    }
}

/// The lexer looks one character past a token and no further: a token of
/// `a` is the same token in `a + y`, if `y` begins with a blank and the token
/// is no string literal that `a` ends in.
proof fn lemma_token_at_in_prefix(a: Seq<char>, y: Seq<char>, at: int)
    requires
        0 <= at < a.len(),
        y.len() > 0,
        CharClass::Whitespace.contains(y[0]),
        !(a[at] == '"' && run_end(a, at + 1, CharClass::StringBody) >= a.len()),
    ensures
        token_at(a + y, at) == token_at(a, at),
{
    let x = a + y;
    assert(x[at] == a[at]);
    assert(x[a.len() as int] == y[0]);
    if CharClass::Digit.contains(a[at]) {
        let whole_end = run_end(a, at, CharClass::Digit);
        lemma_run_end_bounds(a, at, CharClass::Digit);
        lemma_run_end_in_prefix(a, y, at, CharClass::Digit);
        if whole_end < a.len() {
            assert(x[whole_end] == a[whole_end]);
            lemma_run_end_bounds(a, whole_end + 1, CharClass::Digit);
            lemma_run_end_in_prefix(a, y, whole_end + 1, CharClass::Digit);
            let end = run_end(a, whole_end + 1, CharClass::Digit);
            assert(x.subrange(at, end) =~= a.subrange(at, end));
        }
        assert(x.subrange(at, whole_end) =~= a.subrange(at, whole_end));
    } else if CharClass::Alphanumeric.contains(a[at]) {
        let end = run_end(a, at, CharClass::Alphanumeric);
        lemma_run_end_bounds(a, at, CharClass::Alphanumeric);
        lemma_run_end_in_prefix(a, y, at, CharClass::Alphanumeric);
        assert(x.subrange(at, end) =~= a.subrange(at, end));
    } else if a[at] == '"' {
        let end = run_end(a, at + 1, CharClass::StringBody);
        lemma_run_end_bounds(a, at + 1, CharClass::StringBody);
        lemma_run_end_in_prefix(a, y, at + 1, CharClass::StringBody);
        assert(x.subrange(at + 1, end) =~= a.subrange(at + 1, end));
    }
}

/// The law of `lemma_concatenation`, from any position of `a` at which a
/// step of the lexer begins.
proof fn lemma_concatenation_from(a: Seq<char>, separator: char, b: Seq<char>, from: int)
    requires
        0 <= from <= a.len(),
        CharClass::Whitespace.contains(separator),
        token_stream(a, from) is Ok,
        token_stream(b, 0) is Ok,
        !ends_in_string(a, from),
        separator == '\n' || !ends_in_comment(a, from) || first_line_is_idle(b),
    ensures
        token_stream(a + seq![separator] + b, from) == Ok::<Seq<TokenView>, LexError>(
            token_stream(a, from)->Ok_0.drop_last() + token_stream(b, 0)->Ok_0,
        ),
    decreases a.len() - from,
{
    let y = seq![separator] + b;
    let x = a + seq![separator] + b;
    let pre = a + seq![separator];
    assert(x =~= a + y);
    assert(y[0] == separator);
    let start = skip_trivia(a, from);
    let scan = token_at(a, start);
    let tokens_b = token_stream(b, 0)->Ok_0;
    lemma_skip_trivia_bounds(a, from);
    lemma_end_marker_at_end(a, start);
    if start < a.len() {
        lemma_token_moves_on(a, from);
        lemma_skip_trivia_in_prefix(a, y, from);
        lemma_token_at_in_prefix(a, y, start);
        assert(next_token(x, from) == scan);
        let token = scan.outcome->Ok_0;
        let rest = token_stream(a, scan.next)->Ok_0;
        assert(token_stream(a, from) == Ok::<Seq<TokenView>, LexError>(seq![token] + rest));
        lemma_concatenation_from(a, separator, b, scan.next);
        assert(rest.len() > 0);
        assert((seq![token] + rest).drop_last() + tokens_b =~= seq![token] + (rest.drop_last()
            + tokens_b));
    } else {
        assert(token_stream(a, from) == Ok::<Seq<TokenView>, LexError>(seq![TokenView::EOF]));
        assert(seq![TokenView::EOF].drop_last() + tokens_b =~= tokens_b);
        // Where the lexer goes on in `b` once it has passed over the end of
        // `a` and the blank.
        let closed = separator == '\n' || !trivia_ends_in_comment(a, from);
        let resume = if closed {
            0
        } else {
            comment_end(b, 0)
        };
        let after = a.len() as int + 1 + resume;
        lemma_comment_end_bounds(b, 0);
        if closed {
            lemma_skip_trivia_to_end(a, y, from);
        } else {
            lemma_skip_trivia_through_comment(a, y, from);
            lemma_run_end_in_suffix(seq![separator], b, 0, CharClass::CommentBody);
            assert(run_end(y, 0, CharClass::CommentBody) == run_end(y, 1, CharClass::CommentBody));
            assert(comment_end(y, 0) == 1 + comment_end(b, 0));
        }
        assert(next_token(x, from) == next_token(x, after));
        if next_token(x, from).outcome is Ok && next_token(x, from).outcome != Ok::<
            TokenView,
            LexError,
        >(TokenView::EOF) {
            lemma_token_moves_on(x, after);
        }
        assert(token_stream(x, from) == token_stream(x, after));
        lemma_token_stream_in_suffix(pre, b, resume);
    }
}

/// Two texts put together with a blank between them give the tokens of the
/// first, without its end marker, and then the tokens of the second.
///
/// The blank is any character of the class `Whitespace`. Two kinds of first
/// text are left out, for the law does not hold of them. One ends in a string literal that no `"`
/// closes: the literal would go on into the second text. The other ends in a
/// comment that no line feed closes: the comment would go on over the first
/// line of the second text. That does no harm if the blank is the line feed
/// that closes the comment, or if that first line holds no token anyway.
pub proof fn lemma_concatenation(a: Seq<char>, separator: char, b: Seq<char>)
    requires
        CharClass::Whitespace.contains(separator),
        token_stream(a, 0) is Ok,
        token_stream(b, 0) is Ok,
        !ends_in_string(a, 0),
        separator == '\n' || !ends_in_comment(a, 0) || first_line_is_idle(b),
    ensures
        token_stream(a + seq![separator] + b, 0) == Ok::<Seq<TokenView>, LexError>(
            token_stream(a, 0)->Ok_0.drop_last() + token_stream(b, 0)->Ok_0,
        ),
{
    lemma_concatenation_from(a, separator, b, 0);
}

} // verus!
