//! Tokens.

use vstd::prelude::*;
use crate::lox_type::LoxType;
use crate::token_type::TokenType;

verus! {

/// A lexical unit: its kind, the source text it was read from, the line it
/// ends on, and the value of a literal.
#[derive(Debug)]
pub struct Token {
    pub token: TokenType,
    pub lexeme: std::string::String,
    pub line: i32,
    pub literal: Option<LoxType>,
}

impl Clone for Token {
    fn clone(&self) -> (r: Token)
        ensures
            r@ == self@,
    {
        Token {
            token: self.token,
            lexeme: self.lexeme.clone(),
            line: self.line,
            literal: match &self.literal {
                Some(v) => Some(v.clone()),
                None => None,
            },
        }
    }
}

} // verus!
