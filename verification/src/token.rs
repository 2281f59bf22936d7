//! The lexical tokens of the language, and their mathematical models.

use vstd::prelude::*;

verus! {

/// One lexical token. Identifier, operator and literal tokens carry their
/// text; numbers carry their fixed-point value in units.
#[derive(Debug, Clone)]
pub enum Token {
    Import,
    From,
    Arrow,
    Assign,
    FnStart,
    BlockEnd,
    LParen,
    RParen,
    Colon,
    Comma,
    Lt,
    Gt,
    If,
    Then,
    Otherwise,
    Run,
    Ret,
    Identifier(String),
    Operator(String),
    StringLit(String),
    NumberLit(u128),
    BoolLit(bool),
    Eof,
}

/// A token with its text as a character sequence.
pub enum TokenModel {
    Import,
    From,
    Arrow,
    Assign,
    FnStart,
    BlockEnd,
    LParen,
    RParen,
    Colon,
    Comma,
    Lt,
    Gt,
    If,
    Then,
    Otherwise,
    Run,
    Ret,
    Identifier(Seq<char>),
    Operator(Seq<char>),
    StringLit(Seq<char>),
    NumberLit(u128),
    BoolLit(bool),
    Eof,
}

impl View for Token {
    type V = TokenModel;

    open spec fn view(&self) -> TokenModel {
        match self {
            Token::Import => TokenModel::Import,
            Token::From => TokenModel::From,
            Token::Arrow => TokenModel::Arrow,
            Token::Assign => TokenModel::Assign,
            Token::FnStart => TokenModel::FnStart,
            Token::BlockEnd => TokenModel::BlockEnd,
            Token::LParen => TokenModel::LParen,
            Token::RParen => TokenModel::RParen,
            Token::Colon => TokenModel::Colon,
            Token::Comma => TokenModel::Comma,
            Token::Lt => TokenModel::Lt,
            Token::Gt => TokenModel::Gt,
            Token::If => TokenModel::If,
            Token::Then => TokenModel::Then,
            Token::Otherwise => TokenModel::Otherwise,
            Token::Run => TokenModel::Run,
            Token::Ret => TokenModel::Ret,
            Token::Identifier(s) => TokenModel::Identifier(s@),
            Token::Operator(s) => TokenModel::Operator(s@),
            Token::StringLit(s) => TokenModel::StringLit(s@),
            Token::NumberLit(u) => TokenModel::NumberLit(*u),
            Token::BoolLit(b) => TokenModel::BoolLit(*b),
            Token::Eof => TokenModel::Eof,
        }
    }
}

/// The models of a token sequence, in order.
pub open spec fn token_models(ts: Seq<Token>) -> Seq<TokenModel> {
    ts.map_values(|t: Token| t@)
}

} // verus!
