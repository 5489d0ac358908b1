//! The mathematical form of tokens, values and syntax trees, over which the
//! contracts of this crate are stated.

use vstd::prelude::*;
use std::rc::Rc;
use crate::callable::Callable;
use crate::expr::Expr;
use crate::lox_type::LoxType;
use crate::statements::Statement;
use crate::token::Token;
use crate::token_type::TokenType;

verus! {

/// A runtime value.
pub enum Value {
    Text(Seq<char>),
    /// A number, as its IEEE-754 bit pattern.
    Number(u64),
    Nil,
    Boolean(bool),
    /// A declared function, with its declaration.
    Function(Box<StatementModel>),
    /// A native function, with its name and arity.
    Native(Seq<char>, nat),
}

/// A token.
pub struct TokenModel {
    pub kind: TokenType,
    pub lexeme: Seq<char>,
    pub line: int,
    pub literal: Option<Value>,
}

/// An expression.
pub enum ExprModel {
    Binary(Box<ExprModel>, TokenModel, Box<ExprModel>),
    Grouping(Box<ExprModel>),
    Literal(Value),
    Unary(TokenModel, Box<ExprModel>),
    Variable(TokenModel),
    Assign(TokenModel, Box<ExprModel>),
    Logical(Box<ExprModel>, TokenModel, Box<ExprModel>),
    Call(Box<ExprModel>, TokenModel, Seq<ExprModel>),
}

/// A statement.
pub enum StatementModel {
    Expression(ExprModel),
    Variable(TokenModel, Option<ExprModel>),
    Block(Seq<StatementModel>),
    If(ExprModel, Box<StatementModel>, Option<Box<StatementModel>>),
    While(ExprModel, Box<StatementModel>),
    Function(TokenModel, Seq<TokenModel>, Box<StatementModel>),
    Return(TokenModel, ExprModel),
    Import(TokenModel),
}

/// The value that `v` stands for.
pub open spec fn value_model(v: LoxType) -> Value
    decreases v,
{
    match v {
        LoxType::String(s) => Value::Text(s@),
        LoxType::Number(n) => Value::Number(n.bits),
        LoxType::Nil => Value::Nil,
        LoxType::Boolean(b) => Value::Boolean(b),
        LoxType::Callable(Callable::Function(f)) => Value::Function(
            Box::new(statement_model(*f.declaration)),
        ),
        LoxType::Callable(Callable::Native(n)) => Value::Native(n.name@, n.arity as nat),
    }
}

/// The token that `t` stands for.
pub open spec fn token_model(t: Token) -> TokenModel
    decreases t,
{
    TokenModel {
        kind: t.token,
        lexeme: t.lexeme@,
        line: t.line as int,
        literal: match t.literal {
            Some(v) => Some(value_model(v)),
            None => None,
        },
    }
}

/// The expression that `e` stands for.
pub open spec fn expr_model(e: Expr) -> ExprModel
    decreases e,
{
    match e {
        Expr::Binary(l, t, r) => ExprModel::Binary(
            Box::new(expr_model(*l)),
            token_model(t),
            Box::new(expr_model(*r)),
        ),
        Expr::Grouping(x) => ExprModel::Grouping(Box::new(expr_model(*x))),
        Expr::Literal(v) => ExprModel::Literal(value_model(v)),
        Expr::Unary(t, x) => ExprModel::Unary(token_model(t), Box::new(expr_model(*x))),
        Expr::Variable(t) => ExprModel::Variable(token_model(t)),
        Expr::Assign(t, x) => ExprModel::Assign(token_model(t), Box::new(expr_model(*x))),
        Expr::Logical(l, t, r) => ExprModel::Logical(
            Box::new(expr_model(*l)),
            token_model(t),
            Box::new(expr_model(*r)),
        ),
        Expr::Call(c, t, args) => ExprModel::Call(
            Box::new(expr_model(*c)),
            token_model(t),
            Seq::new(
                args@.len(),
                |i: int|
                    if 0 <= i < args@.len() {
                        expr_model(*args@[i])
                    } else {
                        ExprModel::Literal(Value::Nil)
                    },
            ),
        ),
    }
}

/// The statement that `s` stands for.
pub open spec fn statement_model(s: Statement) -> StatementModel
    decreases s,
{
    match s {
        Statement::Expression(e) => StatementModel::Expression(expr_model(e)),
        Statement::Variable(t, init) => StatementModel::Variable(
            token_model(t),
            match init {
                Some(e) => Some(expr_model(e)),
                None => None,
            },
        ),
        Statement::Block(items) => StatementModel::Block(
            Seq::new(
                items@.len(),
                |i: int|
                    if 0 <= i < items@.len() {
                        statement_model(*items@[i])
                    } else {
                        StatementModel::Block(Seq::empty())
                    },
            ),
        ),
        Statement::If(c, t, e) => StatementModel::If(
            expr_model(c),
            Box::new(statement_model(*t)),
            match e {
                Some(x) => Some(Box::new(statement_model(*x))),
                None => None,
            },
        ),
        Statement::While(c, b) => StatementModel::While(
            expr_model(c),
            Box::new(statement_model(*b)),
        ),
        Statement::Function(t, params, b) => StatementModel::Function(
            token_model(t),
            Seq::new(
                params@.len(),
                |i: int|
                    if 0 <= i < params@.len() {
                        token_model(params@[i])
                    } else {
                        token_model(t)
                    },
            ),
            Box::new(statement_model(*b)),
        ),
        Statement::Return(t, e) => StatementModel::Return(token_model(t), expr_model(e)),
        Statement::Import(t) => StatementModel::Import(token_model(t)),
    }
}

impl View for LoxType {
    type V = Value;

    open spec fn view(&self) -> Value {
        value_model(*self)
    }
}

impl View for Token {
    type V = TokenModel;

    open spec fn view(&self) -> TokenModel {
        token_model(*self)
    }
}

impl View for Expr {
    type V = ExprModel;

    open spec fn view(&self) -> ExprModel {
        expr_model(*self)
    }
}

impl View for Statement {
    type V = StatementModel;

    open spec fn view(&self) -> StatementModel {
        statement_model(*self)
    }
}

/// The models of a vector of shared expressions, in order.
pub open spec fn expr_models(items: Seq<Rc<Expr>>) -> Seq<ExprModel> {
    Seq::new(items.len(), |i: int| expr_model(*items[i]))
}

/// The models of a vector of shared statements, in order.
pub open spec fn statement_models(items: Seq<Rc<Statement>>) -> Seq<StatementModel> {
    Seq::new(items.len(), |i: int| statement_model(*items[i]))
}

/// The models of a vector of tokens, in order.
pub open spec fn token_models(items: Seq<Token>) -> Seq<TokenModel> {
    Seq::new(items.len(), |i: int| token_model(items[i]))
}

/// The models of a vector of values, in order.
pub open spec fn value_models(items: Seq<LoxType>) -> Seq<Value> {
    Seq::new(items.len(), |i: int| value_model(items[i]))
}

/// The model of a block is the block of its items' models.
pub proof fn lemma_block_model(items: Vec<Rc<Statement>>)
    ensures
        Statement::Block(items)@ == StatementModel::Block(statement_models(items@)),
{
    assert(Statement::Block(items)@->Block_0 =~= statement_models(items@));
}

/// The model of a call holds its arguments' models.
pub proof fn lemma_call_model(callee: Rc<Expr>, paren: Token, args: Vec<Rc<Expr>>)
    ensures
        Expr::Call(callee, paren, args)@ == ExprModel::Call(
            Box::new((*callee)@),
            paren@,
            expr_models(args@),
        ),
{
    assert(Expr::Call(callee, paren, args)@->Call_2 =~= expr_models(args@));
}

/// The model of a function declaration holds its parameters' models.
pub proof fn lemma_function_model(name: Token, params: Vec<Token>, body: Rc<Statement>)
    ensures
        Statement::Function(name, params, body)@ == StatementModel::Function(
            name@,
            token_models(params@),
            Box::new((*body)@),
        ),
{
    assert(Statement::Function(name, params, body)@->Function_1 =~= token_models(params@));
}

} // verus!
