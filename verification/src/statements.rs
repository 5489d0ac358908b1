//! Statements.

use vstd::prelude::*;
use std::rc::Rc;
use crate::expr::Expr;
use crate::token::Token;

verus! {

/// A statement of the syntax tree.
#[derive(Debug)]
pub enum Statement {
    Expression(Expr),
    Variable(Token, Option<Expr>),
    Block(Vec<Rc<Statement>>),
    If(Expr, Rc<Statement>, Option<Rc<Statement>>),
    While(Expr, Rc<Statement>),
    Function(Token, Vec<Token>, Rc<Statement>),
    Return(Token, Expr),
    Import(Token),
}

} // verus!
