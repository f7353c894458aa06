use vstd::prelude::*;

verus! {

/// One lexical token of assembly source.
#[derive(Debug)]
pub enum Token {
    Error,
    EOF,
    NewLine,
    At,
    Minus,
    Plus,
    Not,
    And,
    Or,
    Equal,
    Semi,
    LParen,
    RParen,
    Number(u16),
    ID(String),
}

/// The meaning of a token, with an identifier as characters.
pub enum TokenModel {
    Error,
    EOF,
    NewLine,
    At,
    Minus,
    Plus,
    Not,
    And,
    Or,
    Equal,
    Semi,
    LParen,
    RParen,
    Number(u16),
    ID(Seq<char>),
}

impl View for Token {
    type V = TokenModel;

    open spec fn view(&self) -> TokenModel {
        match self {
            Token::Error => TokenModel::Error,
            Token::EOF => TokenModel::EOF,
            Token::NewLine => TokenModel::NewLine,
            Token::At => TokenModel::At,
            Token::Minus => TokenModel::Minus,
            Token::Plus => TokenModel::Plus,
            Token::Not => TokenModel::Not,
            Token::And => TokenModel::And,
            Token::Or => TokenModel::Or,
            Token::Equal => TokenModel::Equal,
            Token::Semi => TokenModel::Semi,
            Token::LParen => TokenModel::LParen,
            Token::RParen => TokenModel::RParen,
            Token::Number(n) => TokenModel::Number(*n),
            Token::ID(s) => TokenModel::ID(s@),
        }
    }
}

} // verus!
