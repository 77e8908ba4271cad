//! The reserved words.
//!
//! This is the place to add one. A new reserved word takes a variant of
//! [`Token`], with its counterpart in the token's view, and one entry here.
//! The entry is written twice: in [`keyword_table`], which the contracts speak
//! of, and in [`fill_map`], which builds the table at run time. Verus checks
//! that the two agree, and that every spelling is a word that the lexer can
//! read.

use vstd::prelude::*;
use vstd::hash_map::StringHashMap;
use crate::token::Token;

verus! {

/// The reserved words, each spelling with its token. Spellings are matched
/// exactly, upper and lower case apart.
pub open spec fn keyword_table() -> Map<Seq<char>, Token> {
    Map::<Seq<char>, Token>::empty()
        .insert("i"@, Token::IToken)
        .insert("bims"@, Token::BimsToken)
        .insert("vong"@, Token::VongToken)
        .insert("her"@, Token::HerToken)
        .insert("mit"@, Token::MitToken)
        .insert("bis"@, Token::BisRangeToken)
        .insert("Funktionigkeit"@, Token::FunktionigkeitToken)
        .insert("am"@, Token::AmElseToken)
        .insert("Wahrigkeit"@, Token::WahrigkeitBoolToken)
        .insert("Sonstigkeit"@, Token::SonstigkeitElseToken)
        .insert("solange"@, Token::SolangeWhileToken)
        .insert("bidde"@, Token::BiddeFuncCallToken)
}

/// Whether `token` is that of a reserved word: it is no literal, no `Id`, no
/// punctuation and not the end marker.
pub open spec fn is_keyword(token: Token) -> bool {
    &&& !(token is Integer || token is Real || token is String || token is Id)
    &&& !(token is Plus || token is Minus || token is Mul || token is IntegerDiv)
    &&& !(token is RealDiv || token is LParen || token is RParen || token is Comma)
    &&& !(token is EOF)
}

/// The table holds tokens of reserved words and no others.
pub proof fn lemma_table_holds_keywords()
    ensures
        forall|word: Seq<char>| #[trigger]
            keyword_table().contains_key(word) ==> is_keyword(keyword_table()[word]),
{
}

/// Builds the keyword table.
pub(crate) fn fill_map() -> (table: StringHashMap<Token>)
    ensures
        table@ == keyword_table(),
{
    let mut table: StringHashMap<Token> = StringHashMap::new();
    table.insert("i".to_owned(), Token::IToken);
    table.insert("bims".to_owned(), Token::BimsToken);
    table.insert("vong".to_owned(), Token::VongToken);
    table.insert("her".to_owned(), Token::HerToken);
    table.insert("mit".to_owned(), Token::MitToken);
    table.insert("bis".to_owned(), Token::BisRangeToken);
    table.insert("Funktionigkeit".to_owned(), Token::FunktionigkeitToken);
    table.insert("am".to_owned(), Token::AmElseToken);
    table.insert("Wahrigkeit".to_owned(), Token::WahrigkeitBoolToken);
    table.insert("Sonstigkeit".to_owned(), Token::SonstigkeitElseToken);
    table.insert("solange".to_owned(), Token::SolangeWhileToken);
    table.insert("bidde".to_owned(), Token::BiddeFuncCallToken);
    table
}

} // verus!
