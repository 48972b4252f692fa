use vstd::prelude::*;

verus! {

/// The kind of operator carried by an `Operator` token.
#[derive(Clone, Copy, Debug, PartialEq, Eq, Structural)]
pub enum Operator {
    Add,
    Sub,
    Mul,
    Div,
    Mod,
    Exp,
    NotEqual,
    Equal,
    And,
}

/// One lexical token.
///
/// A `Number` carries its lexeme — the run of digits and dots it was read
/// from — rather than a decimal value, so that the library holds no
/// floating-point data; a well-formed lexeme (at least one digit, at most
/// one dot) denotes exactly one such value, and callers that want it parse
/// the lexeme themselves.
#[derive(Clone, Debug, PartialEq)]
pub enum Token {
    Number(String),
    Operator(Operator),
    Identifier(String),
    Boolean(bool),
    LeftParen,
    RightParen,
    Comma,
    EndOfStream,
}

/// The mathematical model of a token: each text payload as a character
/// sequence.
pub enum TokenModel {
    Number(Seq<char>),
    Operator(Operator),
    Identifier(Seq<char>),
    Boolean(bool),
    LeftParen,
    RightParen,
    Comma,
    EndOfStream,
}

impl View for Token {
    type V = TokenModel;

    open spec fn view(&self) -> TokenModel {
        match self {
            Token::Number(s) => TokenModel::Number(s@),
            Token::Operator(k) => TokenModel::Operator(*k),
            Token::Identifier(s) => TokenModel::Identifier(s@),
            Token::Boolean(b) => TokenModel::Boolean(*b),
            Token::LeftParen => TokenModel::LeftParen,
            Token::RightParen => TokenModel::RightParen,
            Token::Comma => TokenModel::Comma,
            Token::EndOfStream => TokenModel::EndOfStream,
        }
    }
}

/// The models of a sequence of tokens, in order.
pub open spec fn token_views(ts: Seq<Token>) -> Seq<TokenModel> {
    ts.map_values(|t: Token| t@)
}

/// An explicit copy of a token, with the copy's model tied to the
/// original's.
pub fn clone_token(t: &Token) -> (r: Token)
    ensures
        r@ == t@,
{
    match t {
        Token::Number(s) => Token::Number(s.clone()),
        Token::Operator(k) => Token::Operator(*k),
        Token::Identifier(s) => Token::Identifier(s.clone()),
        Token::Boolean(b) => Token::Boolean(*b),
        Token::LeftParen => Token::LeftParen,
        Token::RightParen => Token::RightParen,
        Token::Comma => Token::Comma,
        Token::EndOfStream => Token::EndOfStream,
    }
}

} // verus!
