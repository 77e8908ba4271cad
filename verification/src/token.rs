//! Tokens, their mathematical views, and lexical errors.

use vstd::prelude::*;

verus! {

/// One classified unit of source text.
#[derive(Debug, PartialEq)]
pub enum Token {
    /// A decimal literal without a fractional part.
    Integer(i32),
    /// A decimal literal with a `.`, kept as its exact text: digits, the
    /// point, and the digits after it, of which there may be none. The lexer
    /// does not round: what the text stands for is left to the caller, and
    /// `str::parse` reads every such text.
    Real(String),
    /// The text between two `"`, taken as it stands: no character escapes
    /// another. Where the source ends before the closing `"`, the text is all
    /// that is left.
    String(String),
    /// `+`
    Plus,
    /// `-`
    Minus,
    /// `*`
    Mul,
    /// `$`
    IntegerDiv,
    /// `/`
    RealDiv,
    /// `(`
    LParen,
    /// `)`
    RParen,
    /// A word that is not reserved.
    Id(String),
    /// `,`
    Comma,
    /// The end marker: the input is used up.
    EOF,
    // The reserved words follow, one variant each. Their spellings stand in
    // the keyword table.
    IToken,
    BimsToken,
    VongToken,
    HerToken,
    MitToken,
    BisRangeToken,
    FunktionigkeitToken,
    AmElseToken,
    WahrigkeitBoolToken,
    SonstigkeitElseToken,
    SolangeWhileToken,
    BiddeFuncCallToken,
}

/// What a [`Token`] is: the same variants, with an unbounded integer and with
/// text as a sequence of characters.
pub enum TokenView {
    Integer(int),
    Real(Seq<char>),
    String(Seq<char>),
    Plus,
    Minus,
    Mul,
    IntegerDiv,
    RealDiv,
    LParen,
    RParen,
    Id(Seq<char>),
    Comma,
    EOF,
    IToken,
    BimsToken,
    VongToken,
    HerToken,
    MitToken,
    BisRangeToken,
    FunktionigkeitToken,
    AmElseToken,
    WahrigkeitBoolToken,
    SonstigkeitElseToken,
    SolangeWhileToken,
    BiddeFuncCallToken,
}

impl View for Token {
    type V = TokenView;

    open spec fn view(&self) -> TokenView {
        match self {
            Token::Integer(v) => TokenView::Integer(*v as int),
            Token::Real(s) => TokenView::Real(s@),
            Token::String(s) => TokenView::String(s@),
            Token::Plus => TokenView::Plus,
            Token::Minus => TokenView::Minus,
            Token::Mul => TokenView::Mul,
            Token::IntegerDiv => TokenView::IntegerDiv,
            Token::RealDiv => TokenView::RealDiv,
            Token::LParen => TokenView::LParen,
            Token::RParen => TokenView::RParen,
            Token::Id(s) => TokenView::Id(s@),
            Token::Comma => TokenView::Comma,
            Token::EOF => TokenView::EOF,
            Token::IToken => TokenView::IToken,
            Token::BimsToken => TokenView::BimsToken,
            Token::VongToken => TokenView::VongToken,
            Token::HerToken => TokenView::HerToken,
            Token::MitToken => TokenView::MitToken,
            Token::BisRangeToken => TokenView::BisRangeToken,
            Token::FunktionigkeitToken => TokenView::FunktionigkeitToken,
            Token::AmElseToken => TokenView::AmElseToken,
            Token::WahrigkeitBoolToken => TokenView::WahrigkeitBoolToken,
            Token::SonstigkeitElseToken => TokenView::SonstigkeitElseToken,
            Token::SolangeWhileToken => TokenView::SolangeWhileToken,
            Token::BiddeFuncCallToken => TokenView::BiddeFuncCallToken,
        }
    }
}

impl Clone for Token {
    fn clone(&self) -> (copy: Token)
        ensures
            copy@ == self@,
    {
        match self {
            Token::Integer(v) => Token::Integer(*v),
            Token::Real(s) => Token::Real(s.clone()),
            Token::String(s) => Token::String(s.clone()),
            Token::Plus => Token::Plus,
            Token::Minus => Token::Minus,
            Token::Mul => Token::Mul,
            Token::IntegerDiv => Token::IntegerDiv,
            Token::RealDiv => Token::RealDiv,
            Token::LParen => Token::LParen,
            Token::RParen => Token::RParen,
            Token::Id(s) => Token::Id(s.clone()),
            Token::Comma => Token::Comma,
            Token::EOF => Token::EOF,
            Token::IToken => Token::IToken,
            Token::BimsToken => Token::BimsToken,
            Token::VongToken => Token::VongToken,
            Token::HerToken => Token::HerToken,
            Token::MitToken => Token::MitToken,
            Token::BisRangeToken => Token::BisRangeToken,
            Token::FunktionigkeitToken => Token::FunktionigkeitToken,
            Token::AmElseToken => Token::AmElseToken,
            Token::WahrigkeitBoolToken => Token::WahrigkeitBoolToken,
            Token::SonstigkeitElseToken => Token::SonstigkeitElseToken,
            Token::SolangeWhileToken => Token::SolangeWhileToken,
            Token::BiddeFuncCallToken => Token::BiddeFuncCallToken,
        }
    }
}

/// Why no token could be produced. Both errors are final: the lexer stays
/// where the offending text begins, and every later call fails the same way.
#[derive(Debug, Clone, Copy, PartialEq, Eq)]
pub enum LexError {
    /// No token begins with the character `found`, which is the character
    /// number `position` of the source, counted from 0.
    InvalidCharacter { position: usize, found: char },
    /// The integer literal that begins at character number `position` is
    /// larger than an `i32` can hold.
    IntegerOverflow { position: usize },
}

impl LexError {
    /// A short description of the error.
    pub fn message(&self) -> (text: &'static str)
        ensures
            self is InvalidCharacter ==> text@ == "invalid character!"@,
            self is IntegerOverflow ==> text@ == "integer literal out of range"@,
    {
        match self {
            LexError::InvalidCharacter { .. } => "invalid character!",
            LexError::IntegerOverflow { .. } => "integer literal out of range",
        }
    }
}

/// The view of what a call of the lexer returned.
pub open spec fn outcome_view(result: Result<Token, LexError>) -> Result<TokenView, LexError> {
    match result {
        Ok(token) => Ok(token@),
        Err(error) => Err(error),
    }
}

} // verus!
