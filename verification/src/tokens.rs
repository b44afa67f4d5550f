//! Lexical tokens of stylesheet text.

use vstd::prelude::*;

use crate::num::Num;

verus! {

/// One lexical token of stylesheet text.
///
/// Numeric tokens carry only a magnitude: a trailing `%` yields
/// [`Token::Percentage`], a unit suffix yields [`Token::Dimension`] (the
/// unit itself is not retained), and a bare number yields [`Token::Number`].
/// Any character that starts no other token surfaces as a
/// [`Token::Delimiter`], never as a failure.
#[derive(Debug, Clone, PartialEq, Eq)]
pub enum Token {
    Identifier(String),
    Hash(String),
    Dimension(Num),
    Percentage(Num),
    Number(Num),
    Str(String),
    Whitespace,
    Delimiter(char),
}

/// The mathematical shape of a [`Token`]: its text as a sequence of
/// characters.
pub enum TokenModel {
    Identifier(Seq<char>),
    Hash(Seq<char>),
    Dimension(Num),
    Percentage(Num),
    Number(Num),
    Str(Seq<char>),
    Whitespace,
    Delimiter(char),
}

impl View for Token {
    type V = TokenModel;

    open spec fn view(&self) -> TokenModel {
        match self {
            Token::Identifier(s) => TokenModel::Identifier(s@),
            Token::Hash(s) => TokenModel::Hash(s@),
            Token::Dimension(n) => TokenModel::Dimension(*n),
            Token::Percentage(n) => TokenModel::Percentage(*n),
            Token::Number(n) => TokenModel::Number(*n),
            Token::Str(s) => TokenModel::Str(s@),
            Token::Whitespace => TokenModel::Whitespace,
            Token::Delimiter(c) => TokenModel::Delimiter(*c),
        }
    }
}

impl Token {
    /// A structural copy, equal to `self` in every contract.
    pub fn duplicate(&self) -> (r: Token)
        ensures
            r@ == self@,
    {
        match self {
            Token::Identifier(s) => Token::Identifier(s.clone()),
            Token::Hash(s) => Token::Hash(s.clone()),
            Token::Dimension(n) => Token::Dimension(*n),
            Token::Percentage(n) => Token::Percentage(*n),
            Token::Number(n) => Token::Number(*n),
            Token::Str(s) => Token::Str(s.clone()),
            Token::Whitespace => Token::Whitespace,
            Token::Delimiter(c) => Token::Delimiter(*c),
        }
    }
}

/// The models of a sequence of tokens, in order.
pub open spec fn token_models(ts: Seq<Token>) -> Seq<TokenModel> {
    ts.map_values(|t: Token| t@)
}

} // verus!
