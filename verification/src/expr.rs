//! Expressions.

use vstd::prelude::*;
use std::rc::Rc;
use crate::lox_type::LoxType;
use crate::token::Token;

verus! {

/// An expression of the syntax tree.
#[derive(Debug)]
pub enum Expr {
    Binary(Rc<Expr>, Token, Rc<Expr>),
    Grouping(Rc<Expr>),
    Literal(LoxType),
    Unary(Token, Rc<Expr>),
    Variable(Token),
    Assign(Token, Rc<Expr>),
    Logical(Rc<Expr>, Token, Rc<Expr>),
    Call(Rc<Expr>, Token, Vec<Rc<Expr>>),
}

} // verus!
