//! The parser: from tokens to statements, by recursive descent.
//!
//! The grammar is written down once, as functions over a token sequence and
//! a position (`program`, `declaration`, `statement`, `expression` and the
//! rest); the methods of `Parser` compute exactly those.

use vstd::prelude::*;
use std::rc::Rc;
use crate::err::{ErrorModel, LoxError};
use crate::expr::Expr;
use crate::lox_type::LoxType;
use crate::model::{
    expr_models, lemma_block_model, lemma_call_model, lemma_function_model, statement_models,
    token_models, ExprModel, StatementModel, TokenModel, Value,
};
use crate::statements::Statement;
use crate::token::Token;
use crate::token_type::TokenType;

verus! {

/// Whether a declaration is a function or a method.
#[derive(Clone, Copy, Debug, PartialEq, Eq)]
pub enum FunKind {
    Function,
    Method,
}

/// The levels of binary operators, loosest first.
#[derive(Clone, Copy, Debug)]
pub enum Level {
    Or,
    And,
    Equality,
    Comparison,
    Addition,
    Multiplication,
}

/// What parsing one construct yields: the construct or an error, and the
/// position of the first token after it.
pub struct Parsed<T> {
    pub result: Result<T, ErrorModel>,
    pub next: int,
}

/// A construct parsed, with the position after it.
pub open spec fn done<T>(value: T, next: int) -> Parsed<T> {
    Parsed { result: Ok(value), next }
}

/// A failure with a message and a line, at a position.
pub open spec fn failed<T>(message: Seq<char>, line: int, next: int) -> Parsed<T> {
    Parsed { result: Err(ErrorModel { message, line }), next }
}

/// A failure at a position.
pub open spec fn failed_with<T>(error: ErrorModel, next: int) -> Parsed<T> {
    Parsed { result: Err(error), next }
}

/// A token sequence that the parser accepts: it ends with the end-of-input
/// token.
pub open spec fn terminated(ts: Seq<TokenModel>) -> bool {
    ts.len() > 0 && ts.last().kind == TokenType::EOF
}

/// A position inside a terminated token sequence.
pub open spec fn valid(ts: Seq<TokenModel>, pos: int) -> bool {
    terminated(ts) && 0 <= pos < ts.len()
}

/// Whether the token at `pos` is the end of input.
pub open spec fn at_end(ts: Seq<TokenModel>, pos: int) -> bool {
    ts[pos].kind == TokenType::EOF
}

/// Whether the token at `pos` is of the given kind and not the end of input.
pub open spec fn check(ts: Seq<TokenModel>, pos: int, kind: TokenType) -> bool {
    !at_end(ts, pos) && ts[pos].kind == kind
}

/// Whether the token at `pos` is of one of the given kinds and not the end
/// of input.
pub open spec fn check_any(ts: Seq<TokenModel>, pos: int, kinds: Seq<TokenType>) -> bool {
    !at_end(ts, pos) && kinds.contains(ts[pos].kind)
}

/// `next`, which the grammar never lets fall behind `from`.
pub open spec fn onward(ts: Seq<TokenModel>, next: int, from: int) -> int {
    if from <= next < ts.len() {
        next
    } else {
        from
    }
}

/// The token at `pos` if it is of the given kind, else an error with
/// `message` at that token's line.
pub open spec fn consume(ts: Seq<TokenModel>, pos: int, kind: TokenType, message: Seq<char>) -> Parsed<
    TokenModel,
> {
    if check(ts, pos, kind) {
        done(ts[pos], pos + 1)
    } else {
        failed(message, ts[pos].line, pos)
    }
}

/// The operators of a level.
pub open spec fn operators(level: Level) -> Seq<TokenType> {
    match level {
        Level::Or => seq![TokenType::Or],
        Level::And => seq![TokenType::And],
        Level::Equality => seq![TokenType::BangEqual, TokenType::EqualEqual],
        Level::Comparison => seq![
            TokenType::Greater,
            TokenType::GreaterEqual,
            TokenType::Less,
            TokenType::LessEqual,
        ],
        Level::Addition => seq![TokenType::Minus, TokenType::Plus],
        Level::Multiplication => seq![TokenType::Slash, TokenType::Star],
    }
}

/// How loosely a level binds: the loosest has the highest rank.
pub open spec fn rank(level: Level) -> int {
    match level {
        Level::Or => 6,
        Level::And => 5,
        Level::Equality => 4,
        Level::Comparison => 3,
        Level::Addition => 2,
        Level::Multiplication => 1,
    }
}

/// The node that joins two operands of a level.
pub open spec fn node(level: Level, left: ExprModel, op: TokenModel, right: ExprModel) -> ExprModel {
    match level {
        Level::Or | Level::And => ExprModel::Logical(Box::new(left), op, Box::new(right)),
        _ => ExprModel::Binary(Box::new(left), op, Box::new(right)),
    }
}

/// expression → assignment
pub open spec fn expression(ts: Seq<TokenModel>, pos: int) -> Parsed<ExprModel>
    decreases ts.len() - pos, 30int,
    when valid(ts, pos)
{
    assignment(ts, pos)
}

/// assignment → or ( "=" assignment )?
///
/// Right-associative. The target must be a bare variable; anything else is
/// an error at the line of the `=`.
pub open spec fn assignment(ts: Seq<TokenModel>, pos: int) -> Parsed<ExprModel>
    decreases ts.len() - pos, 29int,
    when valid(ts, pos)
{
    let left = binary(ts, pos, Level::Or);
    match left.result {
        Err(_) => left,
        Ok(target) => {
            let at = onward(ts, left.next, pos);
            if check(ts, at, TokenType::Equal) {
                let value = assignment(ts, at + 1);
                match value.result {
                    Err(_) => value,
                    Ok(v) => match target {
                        ExprModel::Variable(name) => done(
                            ExprModel::Assign(name, Box::new(v)),
                            value.next,
                        ),
                        _ => failed("Invalid assignment target"@, ts[at].line, value.next),
                    },
                }
            } else {
                done(target, at)
            }
        },
    }
}

/// An operand of a level: an expression of the next tighter level, or a
/// unary expression under the tightest.
pub open spec fn operand(ts: Seq<TokenModel>, pos: int, level: Level) -> Parsed<ExprModel>
    decreases ts.len() - pos, 10 + 2 * rank(level),
    when valid(ts, pos)
{
    match level {
        Level::Or => binary(ts, pos, Level::And),
        Level::And => binary(ts, pos, Level::Equality),
        Level::Equality => binary(ts, pos, Level::Comparison),
        Level::Comparison => binary(ts, pos, Level::Addition),
        Level::Addition => binary(ts, pos, Level::Multiplication),
        Level::Multiplication => unary(ts, pos),
    }
}

/// level → operand ( operator operand )*
///
/// Left-associative.
pub open spec fn binary(ts: Seq<TokenModel>, pos: int, level: Level) -> Parsed<ExprModel>
    decreases ts.len() - pos, 11 + 2 * rank(level),
    when valid(ts, pos)
{
    let first = operand(ts, pos, level);
    match first.result {
        Err(_) => first,
        Ok(left) => binary_rest(ts, onward(ts, first.next, pos), level, left),
    }
}

/// The rest of a level after its first operands, which make up `left`.
pub open spec fn binary_rest(ts: Seq<TokenModel>, pos: int, level: Level, left: ExprModel) -> Parsed<
    ExprModel,
>
    decreases ts.len() - pos, 9 + 2 * rank(level),
    when valid(ts, pos)
{
    if check_any(ts, pos, operators(level)) {
        let right = operand(ts, pos + 1, level);
        match right.result {
            Err(_) => right,
            Ok(r) => binary_rest(
                ts,
                onward(ts, right.next, pos + 1),
                level,
                node(level, left, ts[pos], r),
            ),
        }
    } else {
        done(left, pos)
    }
}

/// unary → ( "!" | "-" ) unary | call
pub open spec fn unary(ts: Seq<TokenModel>, pos: int) -> Parsed<ExprModel>
    decreases ts.len() - pos, 9int,
    when valid(ts, pos)
{
    if check_any(ts, pos, seq![TokenType::Bang, TokenType::Minus]) {
        let right = unary(ts, pos + 1);
        match right.result {
            Err(_) => right,
            Ok(r) => done(ExprModel::Unary(ts[pos], Box::new(r)), right.next),
        }
    } else {
        call(ts, pos)
    }
}

/// call → primary ( "(" arguments? ")" )?
pub open spec fn call(ts: Seq<TokenModel>, pos: int) -> Parsed<ExprModel>
    decreases ts.len() - pos, 8int,
    when valid(ts, pos)
{
    let callee = primary(ts, pos);
    match callee.result {
        Err(_) => callee,
        Ok(c) => {
            let at = onward(ts, callee.next, pos);
            if check(ts, at, TokenType::LeftParenthesis) {
                finish_call(ts, at + 1, c)
            } else {
                done(c, at)
            }
        },
    }
}

/// arguments → expression ( "," expression )*, then the closing parenthesis.
pub open spec fn finish_call(ts: Seq<TokenModel>, pos: int, callee: ExprModel) -> Parsed<ExprModel>
    decreases ts.len() - pos, 32int,
    when valid(ts, pos)
{
    if !check(ts, pos, TokenType::RightParenthesis) {
        let first = expression(ts, pos);
        match first.result {
            Err(_) => first,
            Ok(a) => arguments_rest(ts, onward(ts, first.next, pos), callee, seq![a]),
        }
    } else {
        close_call(ts, pos, callee, Seq::empty())
    }
}

/// The arguments after the first ones, which are `args`.
pub open spec fn arguments_rest(
    ts: Seq<TokenModel>,
    pos: int,
    callee: ExprModel,
    args: Seq<ExprModel>,
) -> Parsed<ExprModel>
    decreases ts.len() - pos, 31int,
    when valid(ts, pos)
{
    if check(ts, pos, TokenType::Comma) {
        let more = expression(ts, pos + 1);
        match more.result {
            Err(_) => more,
            Ok(a) => arguments_rest(ts, onward(ts, more.next, pos + 1), callee, args.push(a)),
        }
    } else {
        close_call(ts, pos, callee, args)
    }
}

/// The closing parenthesis of a call.
pub open spec fn close_call(
    ts: Seq<TokenModel>,
    pos: int,
    callee: ExprModel,
    args: Seq<ExprModel>,
) -> Parsed<ExprModel> {
    let paren = consume(ts, pos, TokenType::RightParenthesis, "Expected ')' after arguments"@);
    match paren.result {
        Err(e) => failed_with(e, paren.next),
        Ok(p) => done(ExprModel::Call(Box::new(callee), p, args), paren.next),
    }
}

/// primary → "false" | "true" | "nil" | NUMBER | STRING | IDENTIFIER
///         | "(" expression ")"
///
/// A number or string token that carries no literal is an error.
pub open spec fn primary(ts: Seq<TokenModel>, pos: int) -> Parsed<ExprModel>
    decreases ts.len() - pos, 7int,
    when valid(ts, pos)
{
    if check(ts, pos, TokenType::False) {
        done(ExprModel::Literal(Value::Boolean(false)), pos + 1)
    } else if check(ts, pos, TokenType::True) {
        done(ExprModel::Literal(Value::Boolean(true)), pos + 1)
    } else if check(ts, pos, TokenType::Nil) {
        done(ExprModel::Literal(Value::Nil), pos + 1)
    } else if check_any(ts, pos, seq![TokenType::Number, TokenType::String]) {
        match ts[pos].literal {
            Some(v) => done(ExprModel::Literal(v), pos + 1),
            None => failed("Literal without a value"@, ts[pos].line, pos + 1),
        }
    } else if check(ts, pos, TokenType::Identifier) {
        done(ExprModel::Variable(ts[pos]), pos + 1)
    } else if check(ts, pos, TokenType::LeftParenthesis) {
        let inner = expression(ts, pos + 1);
        match inner.result {
            Err(_) => inner,
            Ok(e) => {
                let at = onward(ts, inner.next, pos + 1);
                let paren = consume(
                    ts,
                    at,
                    TokenType::RightParenthesis,
                    "Expected ')' after expression"@,
                );
                match paren.result {
                    Err(x) => failed_with(x, paren.next),
                    Ok(_) => done(ExprModel::Grouping(Box::new(e)), paren.next),
                }
            },
        }
    } else {
        failed("Expected expression"@, ts[pos].line, pos)
    }
}

/// Whether a declaration or statement may begin with a token of this kind.
pub open spec fn begins_declaration(kind: TokenType) -> bool {
    kind == TokenType::Class || kind == TokenType::Fun || kind == TokenType::Var || kind
        == TokenType::For || kind == TokenType::If || kind == TokenType::While || kind
        == TokenType::Import || kind == TokenType::Return
}

/// Where the search for a place to resume ends, from `pos` on: at the end of
/// input, behind a semicolon, or before a token that begins a declaration.
pub open spec fn resume_point(ts: Seq<TokenModel>, pos: int) -> int
    decreases ts.len() - pos,
{
    if !(0 < pos < ts.len()) || at_end(ts, pos) {
        pos
    } else if ts[pos - 1].kind == TokenType::Semicolon {
        pos
    } else if begins_declaration(ts[pos].kind) {
        pos
    } else {
        resume_point(ts, pos + 1)
    }
}

/// Where parsing resumes after an error met at `pos`: one token is given
/// up, then tokens are discarded up to the resume point.
pub open spec fn sync(ts: Seq<TokenModel>, pos: int) -> int {
    if at_end(ts, pos) {
        pos
    } else {
        resume_point(ts, pos + 1)
    }
}

/// declaration → "var" var_statement | statement
///
/// After an error the position is the one where parsing would resume.
pub open spec fn declaration(ts: Seq<TokenModel>, pos: int) -> Parsed<StatementModel>
    decreases ts.len() - pos, 50int,
    when valid(ts, pos)
{
    let r = if check(ts, pos, TokenType::Var) {
        var_statement(ts, pos + 1)
    } else {
        statement(ts, pos)
    };
    match r.result {
        Ok(_) => r,
        Err(e) => failed_with(e, sync(ts, onward(ts, r.next, pos))),
    }
}

/// var_statement → IDENTIFIER ( "=" expression )? ";"
pub open spec fn var_statement(ts: Seq<TokenModel>, pos: int) -> Parsed<StatementModel>
    decreases ts.len() - pos, 45int,
    when valid(ts, pos)
{
    let name = consume(ts, pos, TokenType::Identifier, "Expected variable name"@);
    match name.result {
        Err(e) => failed_with(e, name.next),
        Ok(n) => {
            if check(ts, pos + 1, TokenType::Equal) {
                let init = expression(ts, pos + 2);
                match init.result {
                    Err(e) => failed_with(e, init.next),
                    Ok(v) => finish_var(ts, onward(ts, init.next, pos + 2), n, Some(v)),
                }
            } else {
                finish_var(ts, pos + 1, n, None)
            }
        },
    }
}

/// The semicolon that ends a variable declaration.
pub open spec fn finish_var(
    ts: Seq<TokenModel>,
    pos: int,
    name: TokenModel,
    init: Option<ExprModel>,
) -> Parsed<StatementModel> {
    let semi = consume(
        ts,
        pos,
        TokenType::Semicolon,
        "Expected ';' after variable declaration"@,
    );
    match semi.result {
        Err(e) => failed_with(e, semi.next),
        Ok(_) => done(StatementModel::Variable(name, init), semi.next),
    }
}

/// statement → block | if | while | for | function | return | import
///           | expression statement
pub open spec fn statement(ts: Seq<TokenModel>, pos: int) -> Parsed<StatementModel>
    decreases ts.len() - pos, 49int,
    when valid(ts, pos)
{
    if check(ts, pos, TokenType::LeftBrace) {
        block_statement(ts, pos + 1)
    } else if check(ts, pos, TokenType::If) {
        if_statement(ts, pos + 1)
    } else if check(ts, pos, TokenType::While) {
        while_statement(ts, pos + 1)
    } else if check(ts, pos, TokenType::For) {
        for_statement(ts, pos + 1)
    } else if check(ts, pos, TokenType::Fun) {
        function(ts, pos + 1)
    } else if check(ts, pos, TokenType::Return) {
        return_statement(ts, pos + 1, ts[pos])
    } else if check(ts, pos, TokenType::Import) {
        import_statement(ts, pos + 1)
    } else {
        expr_statement(ts, pos)
    }
}

/// import → STRING ";"
pub open spec fn import_statement(ts: Seq<TokenModel>, pos: int) -> Parsed<StatementModel> {
    let file = consume(ts, pos, TokenType::String, "Expected 'string' after 'import'"@);
    match file.result {
        Err(e) => failed_with(e, file.next),
        Ok(f) => {
            let semi = consume(
                ts,
                pos + 1,
                TokenType::Semicolon,
                "Expected ';' after import statement"@,
            );
            match semi.result {
                Err(e) => failed_with(e, semi.next),
                Ok(_) => done(StatementModel::Import(f), semi.next),
            }
        },
    }
}

/// The parameters after the first ones, which are `params`.
pub open spec fn parameters_rest(ts: Seq<TokenModel>, pos: int, params: Seq<TokenModel>) -> Parsed<
    Seq<TokenModel>,
>
    decreases ts.len() - pos,
    when valid(ts, pos)
{
    if check(ts, pos, TokenType::Comma) {
        let name = consume(ts, pos + 1, TokenType::Identifier, "Expected parameter name"@);
        match name.result {
            Err(e) => failed_with(e, name.next),
            Ok(n) => parameters_rest(ts, pos + 2, params.push(n)),
        }
    } else {
        done(params, pos)
    }
}

/// parameters → ( IDENTIFIER ( "," IDENTIFIER )* )?
pub open spec fn parameters(ts: Seq<TokenModel>, pos: int) -> Parsed<Seq<TokenModel>> {
    if !check(ts, pos, TokenType::RightParenthesis) {
        let first = consume(ts, pos, TokenType::Identifier, "Expected parameter name"@);
        match first.result {
            Err(e) => failed_with(e, first.next),
            Ok(n) => parameters_rest(ts, pos + 1, seq![n]),
        }
    } else {
        done(Seq::empty(), pos)
    }
}

/// function → IDENTIFIER "(" parameters ")" "{" block
pub open spec fn function(ts: Seq<TokenModel>, pos: int) -> Parsed<StatementModel>
    decreases ts.len() - pos, 45int,
    when valid(ts, pos)
{
    let name = consume(ts, pos, TokenType::Identifier, "Expected function/method name."@);
    match name.result {
        Err(e) => failed_with(e, name.next),
        Ok(n) => {
            let open = consume(
                ts,
                pos + 1,
                TokenType::LeftParenthesis,
                "Expected '(' after fun name declaration"@,
            );
            match open.result {
                Err(e) => failed_with(e, open.next),
                Ok(_) => {
                    let params = parameters(ts, pos + 2);
                    match params.result {
                        Err(e) => failed_with(e, params.next),
                        Ok(ps) => {
                            let at = onward(ts, params.next, pos + 2);
                            let close = consume(
                                ts,
                                at,
                                TokenType::RightParenthesis,
                                "Expected ')' after parameters."@,
                            );
                            match close.result {
                                Err(e) => failed_with(e, close.next),
                                Ok(_) => {
                                    let brace = consume(
                                        ts,
                                        at + 1,
                                        TokenType::LeftBrace,
                                        "Expected '{' before function/method body"@,
                                    );
                                    match brace.result {
                                        Err(e) => failed_with(e, brace.next),
                                        Ok(_) => {
                                            let body = block_statement(ts, at + 2);
                                            match body.result {
                                                Err(e) => failed_with(e, body.next),
                                                Ok(b) => done(
                                                    StatementModel::Function(n, ps, Box::new(b)),
                                                    body.next,
                                                ),
                                            }
                                        },
                                    }
                                },
                            }
                        },
                    }
                },
            }
        },
    }
}

/// return → expression? ";", the keyword taken. Without an expression the
/// value is nil.
pub open spec fn return_statement(ts: Seq<TokenModel>, pos: int, keyword: TokenModel) -> Parsed<
    StatementModel,
>
    decreases ts.len() - pos, 45int,
    when valid(ts, pos)
{
    let value = if !check(ts, pos, TokenType::Semicolon) {
        expression(ts, pos)
    } else {
        done(ExprModel::Literal(Value::Nil), pos)
    };
    match value.result {
        Err(e) => failed_with(e, value.next),
        Ok(v) => {
            let semi = consume(
                ts,
                onward(ts, value.next, pos),
                TokenType::Semicolon,
                "Expected ';' after return value"@,
            );
            match semi.result {
                Err(e) => failed_with(e, semi.next),
                Ok(_) => done(StatementModel::Return(keyword, v), semi.next),
            }
        },
    }
}

/// The first clause of a `for`: nothing, a variable declaration or an
/// expression statement.
pub open spec fn for_initializer(ts: Seq<TokenModel>, pos: int) -> Parsed<Option<StatementModel>>
    decreases ts.len() - pos, 47int,
    when valid(ts, pos)
{
    if check(ts, pos, TokenType::Semicolon) {
        done(None, pos + 1)
    } else {
        let init = if check(ts, pos, TokenType::Var) {
            var_statement(ts, pos + 1)
        } else {
            expr_statement(ts, pos)
        };
        match init.result {
            Err(e) => failed_with(e, init.next),
            Ok(s) => done(Some(s), init.next),
        }
    }
}

/// The loop that a `for` stands for: the body with the increment behind it,
/// under a `while`, with the initializer before it.
pub open spec fn desugared(
    init: Option<StatementModel>,
    cond: ExprModel,
    increment: Option<ExprModel>,
    body: StatementModel,
) -> StatementModel {
    let inner = match increment {
        Some(i) => StatementModel::Block(seq![body, StatementModel::Expression(i)]),
        None => body,
    };
    let looped = StatementModel::While(cond, Box::new(inner));
    match init {
        Some(s) => StatementModel::Block(seq![s, looped]),
        None => looped,
    }
}

/// for → "(" initializer condition? ";" increment? ")" statement
///
/// Without a condition the loop runs while `true`.
pub open spec fn for_statement(ts: Seq<TokenModel>, pos: int) -> Parsed<StatementModel>
    decreases ts.len() - pos, 48int,
    when valid(ts, pos)
{
    let open = consume(ts, pos, TokenType::LeftParenthesis, "Expected '(' after 'for'"@);
    match open.result {
        Err(e) => failed_with(e, open.next),
        Ok(_) => {
            let init = for_initializer(ts, pos + 1);
            match init.result {
                Err(e) => failed_with(e, init.next),
                Ok(i) => {
                    let here = onward(ts, init.next, pos + 1);
                    let cond = if !check(ts, here, TokenType::Semicolon) {
                        expression(ts, here)
                    } else {
                        done(ExprModel::Literal(Value::Boolean(true)), here)
                    };
                    match cond.result {
                        Err(e) => failed_with(e, cond.next),
                        Ok(c) => {
                            let there = onward(ts, cond.next, here);
                            let semi = consume(
                                ts,
                                there,
                                TokenType::Semicolon,
                                "Expected ';' after loop condition"@,
                            );
                            match semi.result {
                                Err(e) => failed_with(e, semi.next),
                                Ok(_) => for_tail(ts, there + 1, i, c),
                            }
                        },
                    }
                },
            }
        },
    }
}

/// The increment, the closing parenthesis and the body of a `for`.
pub open spec fn for_tail(
    ts: Seq<TokenModel>,
    pos: int,
    init: Option<StatementModel>,
    cond: ExprModel,
) -> Parsed<StatementModel>
    decreases ts.len() - pos, 47int,
    when valid(ts, pos)
{
    let increment = if !check(ts, pos, TokenType::RightParenthesis) {
        let e = expression(ts, pos);
        match e.result {
            Err(x) => failed_with(x, e.next),
            Ok(v) => done(Some(v), e.next),
        }
    } else {
        done(None, pos)
    };
    match increment.result {
        Err(e) => failed_with(e, increment.next),
        Ok(inc) => {
            let here = onward(ts, increment.next, pos);
            let close = consume(
                ts,
                here,
                TokenType::RightParenthesis,
                "Expected ')' after for clauses"@,
            );
            match close.result {
                Err(e) => failed_with(e, close.next),
                Ok(_) => {
                    let body = statement(ts, here + 1);
                    match body.result {
                        Err(e) => failed_with(e, body.next),
                        Ok(b) => done(desugared(init, cond, inc, b), body.next),
                    }
                },
            }
        },
    }
}

/// while → "(" expression ")" statement
pub open spec fn while_statement(ts: Seq<TokenModel>, pos: int) -> Parsed<StatementModel>
    decreases ts.len() - pos, 48int,
    when valid(ts, pos)
{
    let open = consume(ts, pos, TokenType::LeftParenthesis, "Expected '(' after while"@);
    match open.result {
        Err(e) => failed_with(e, open.next),
        Ok(_) => {
            let cond = expression(ts, pos + 1);
            match cond.result {
                Err(e) => failed_with(e, cond.next),
                Ok(c) => {
                    let here = onward(ts, cond.next, pos + 1);
                    let close = consume(
                        ts,
                        here,
                        TokenType::RightParenthesis,
                        "Expected ')' after while"@,
                    );
                    match close.result {
                        Err(e) => failed_with(e, close.next),
                        Ok(_) => {
                            let body = statement(ts, here + 1);
                            match body.result {
                                Err(e) => failed_with(e, body.next),
                                Ok(b) => done(StatementModel::While(c, Box::new(b)), body.next),
                            }
                        },
                    }
                },
            }
        },
    }
}

/// if → "(" expression ")" statement ( "else" statement )?
pub open spec fn if_statement(ts: Seq<TokenModel>, pos: int) -> Parsed<StatementModel>
    decreases ts.len() - pos, 48int,
    when valid(ts, pos)
{
    let open = consume(ts, pos, TokenType::LeftParenthesis, "Expected '(' after 'if'"@);
    match open.result {
        Err(e) => failed_with(e, open.next),
        Ok(_) => {
            let cond = expression(ts, pos + 1);
            match cond.result {
                Err(e) => failed_with(e, cond.next),
                Ok(c) => {
                    let here = onward(ts, cond.next, pos + 1);
                    let close = consume(
                        ts,
                        here,
                        TokenType::RightParenthesis,
                        "Expected ')' after 'if' condition"@,
                    );
                    match close.result {
                        Err(e) => failed_with(e, close.next),
                        Ok(_) => {
                            let then = statement(ts, here + 1);
                            match then.result {
                                Err(e) => failed_with(e, then.next),
                                Ok(t) => {
                                    let there = onward(ts, then.next, here + 1);
                                    if check(ts, there, TokenType::Else) {
                                        let other = statement(ts, there + 1);
                                        match other.result {
                                            Err(e) => failed_with(e, other.next),
                                            Ok(o) => done(
                                                StatementModel::If(
                                                    c,
                                                    Box::new(t),
                                                    Some(Box::new(o)),
                                                ),
                                                other.next,
                                            ),
                                        }
                                    } else {
                                        done(StatementModel::If(c, Box::new(t), None), there)
                                    }
                                },
                            }
                        },
                    }
                },
            }
        },
    }
}

/// block → declaration* "}", the opening brace taken.
pub open spec fn block_statement(ts: Seq<TokenModel>, pos: int) -> Parsed<StatementModel>
    decreases ts.len() - pos, 52int,
    when valid(ts, pos)
{
    block_items(ts, pos, Seq::empty())
}

/// The rest of a block after its first declarations, which are `items`.
pub open spec fn block_items(ts: Seq<TokenModel>, pos: int, items: Seq<StatementModel>) -> Parsed<
    StatementModel,
>
    decreases ts.len() - pos, 51int,
    when valid(ts, pos)
{
    if !check(ts, pos, TokenType::RightBrace) && !at_end(ts, pos) {
        let item = declaration(ts, pos);
        match item.result {
            Err(e) => failed_with(e, item.next),
            Ok(s) => block_items(ts, onward(ts, item.next, pos + 1), items.push(s)),
        }
    } else {
        let close = consume(ts, pos, TokenType::RightBrace, "Expected '}' after block"@);
        match close.result {
            Err(e) => failed_with(e, close.next),
            Ok(_) => done(StatementModel::Block(items), close.next),
        }
    }
}

/// expression statement → expression ";"
pub open spec fn expr_statement(ts: Seq<TokenModel>, pos: int) -> Parsed<StatementModel>
    decreases ts.len() - pos, 46int,
    when valid(ts, pos)
{
    let e = expression(ts, pos);
    match e.result {
        Err(x) => failed_with(x, e.next),
        Ok(v) => {
            let semi = consume(
                ts,
                onward(ts, e.next, pos),
                TokenType::Semicolon,
                "Expected a ';' after expression"@,
            );
            match semi.result {
                Err(x) => failed_with(x, semi.next),
                Ok(_) => done(StatementModel::Expression(v), semi.next),
            }
        },
    }
}

/// program → declaration* EOF
///
/// The first declaration that fails ends the parse with its error.
pub open spec fn program(ts: Seq<TokenModel>, pos: int, items: Seq<StatementModel>) -> Parsed<
    Seq<StatementModel>,
>
    decreases ts.len() - pos, 53int,
    when valid(ts, pos)
{
    if !at_end(ts, pos) {
        let item = declaration(ts, pos);
        match item.result {
            Err(e) => failed_with(e, item.next),
            Ok(s) => program(ts, onward(ts, item.next, pos + 1), items.push(s)),
        }
    } else {
        done(items, pos)
    }
}

/// A program that parses is parsed to its end: the position after it is
/// that of the end-of-input token.
pub proof fn lemma_program_ends_at_end_of_input(
    ts: Seq<TokenModel>,
    pos: int,
    items: Seq<StatementModel>,
)
    requires
        valid(ts, pos),
    ensures
        program(ts, pos, items).result is Ok ==> valid(ts, program(ts, pos, items).next) && at_end(
            ts,
            program(ts, pos, items).next,
        ),
    decreases ts.len() - pos,
{
    if !at_end(ts, pos) {
        let item = declaration(ts, pos);
        match item.result {
            Ok(s) => {
                lemma_program_ends_at_end_of_input(
                    ts,
                    onward(ts, item.next, pos + 1),
                    items.push(s),
                );
            },
            Err(_) => {},
        }
    }
}

/// A program that parses has one statement for every declaration parsed,
/// in order, after the statements it started with.
pub proof fn lemma_program_keeps_items(ts: Seq<TokenModel>, pos: int, items: Seq<StatementModel>)
    requires
        valid(ts, pos),
    ensures
        program(ts, pos, items).result matches Ok(all) ==> all.len() >= items.len()
            && all.subrange(0, items.len() as int) == items,
    decreases ts.len() - pos,
{
    if !at_end(ts, pos) {
        let item = declaration(ts, pos);
        match item.result {
            Ok(s) => {
                lemma_program_keeps_items(ts, onward(ts, item.next, pos + 1), items.push(s));
                match program(ts, pos, items).result {
                    Ok(all) => {
                        assert(all.subrange(0, items.len() as int) == all.subrange(
                            0,
                            items.len() as int + 1,
                        ).subrange(0, items.len() as int));
                    },
                    Err(_) => {},
                }
            },
            Err(_) => {},
        }
    }
}

/// Whether an outcome and a cursor are what the grammar gives.
pub open spec fn expr_is(r: Result<Expr, LoxError>, at: int, p: Parsed<ExprModel>) -> bool {
    &&& at == p.next
    &&& match r {
        Ok(e) => p.result == Ok::<ExprModel, ErrorModel>(e@),
        Err(x) => p.result == Err::<ExprModel, ErrorModel>(x@),
    }
}

/// Whether an outcome and a cursor are what the grammar gives.
pub open spec fn statement_is(r: Result<Statement, LoxError>, at: int, p: Parsed<StatementModel>) -> bool {
    &&& at == p.next
    &&& match r {
        Ok(s) => p.result == Ok::<StatementModel, ErrorModel>(s@),
        Err(x) => p.result == Err::<StatementModel, ErrorModel>(x@),
    }
}

/// Whether an outcome and a cursor are what the grammar gives.
pub open spec fn token_is(r: Result<Token, LoxError>, at: int, p: Parsed<TokenModel>) -> bool {
    &&& at == p.next
    &&& match r {
        Ok(t) => p.result == Ok::<TokenModel, ErrorModel>(t@),
        Err(x) => p.result == Err::<TokenModel, ErrorModel>(x@),
    }
}

/// Whether an outcome and a cursor are what the grammar gives.
pub open spec fn program_is(
    r: Result<Vec<Rc<Statement>>, LoxError>,
    at: int,
    p: Parsed<Seq<StatementModel>>,
) -> bool {
    &&& at == p.next
    &&& match r {
        Ok(items) => p.result == Ok::<Seq<StatementModel>, ErrorModel>(statement_models(items@)),
        Err(x) => p.result == Err::<Seq<StatementModel>, ErrorModel>(x@),
    }
}

/// Whether `tokens` ends with the end-of-input token.
pub fn ends_with_end_of_input(tokens: &Vec<Token>) -> (r: bool)
    ensures
        r == terminated(token_models(tokens@)),
{
    if tokens.len() == 0 {
        false
    } else {
        tokens[tokens.len() - 1].token == TokenType::EOF
    }
}

fn level_operators(level: Level) -> (r: Vec<TokenType>)
    ensures
        r@ == operators(level),
{
    match level {
        Level::Or => vec![TokenType::Or],
        Level::And => vec![TokenType::And],
        Level::Equality => vec![TokenType::BangEqual, TokenType::EqualEqual],
        Level::Comparison => vec![
            TokenType::Greater,
            TokenType::GreaterEqual,
            TokenType::Less,
            TokenType::LessEqual,
        ],
        Level::Addition => vec![TokenType::Minus, TokenType::Plus],
        Level::Multiplication => vec![TokenType::Slash, TokenType::Star],
    }
}

fn make_node(level: Level, left: Expr, op: Token, right: Expr) -> (r: Expr)
    ensures
        r@ == node(level, left@, op@, right@),
{
    match level {
        Level::Or => Expr::Logical(Rc::new(left), op, Rc::new(right)),
        Level::And => Expr::Logical(Rc::new(left), op, Rc::new(right)),
        _ => Expr::Binary(Rc::new(left), op, Rc::new(right)),
    }
}

fn constant(v: LoxType) -> (r: Expr)
    ensures
        r@ == ExprModel::Literal(v@),
{
    Expr::Literal(v)
}

fn truth(b: bool) -> (r: Expr)
    ensures
        r@ == ExprModel::Literal(Value::Boolean(b)),
{
    let v = LoxType::Boolean(b);
    assert(v@ == Value::Boolean(b));
    constant(v)
}

fn nothing() -> (r: Expr)
    ensures
        r@ == ExprModel::Literal(Value::Nil),
{
    let v = LoxType::Nil;
    assert(v@ == Value::Nil);
    constant(v)
}

fn make_call(callee: Expr, paren: Token, args: Vec<Rc<Expr>>) -> (r: Expr)
    ensures
        r@ == ExprModel::Call(Box::new(callee@), paren@, expr_models(args@)),
{
    let callee = Rc::new(callee);
    proof {
        lemma_call_model(callee, paren, args);
    }
    Expr::Call(callee, paren, args)
}

fn make_block(items: Vec<Rc<Statement>>) -> (r: Statement)
    ensures
        r@ == StatementModel::Block(statement_models(items@)),
{
    proof {
        lemma_block_model(items);
    }
    Statement::Block(items)
}

fn make_pair(first: Statement, second: Statement) -> (r: Statement)
    ensures
        r@ == StatementModel::Block(seq![first@, second@]),
{
    let mut items: Vec<Rc<Statement>> = Vec::new();
    items.push(Rc::new(first));
    items.push(Rc::new(second));
    assert(statement_models(items@) == seq![first@, second@]);
    make_block(items)
}

fn make_function(name: Token, params: Vec<Token>, body: Statement) -> (r: Statement)
    ensures
        r@ == StatementModel::Function(name@, token_models(params@), Box::new(body@)),
{
    let body = Rc::new(body);
    proof {
        lemma_function_model(name, params, body);
    }
    Statement::Function(name, params, body)
}

fn make_loop(init: Option<Statement>, cond: Expr, increment: Option<Expr>, body: Statement) -> (r:
    Statement)
    ensures
        r@ == desugared(
            match init {
                Some(s) => Some(s@),
                None => None,
            },
            cond@,
            match increment {
                Some(e) => Some(e@),
                None => None,
            },
            body@,
        ),
{
    let inner = match increment {
        Some(i) => make_pair(body, Statement::Expression(i)),
        None => body,
    };
    let looped = Statement::While(cond, Rc::new(inner));
    match init {
        Some(s) => make_pair(s, looped),
        None => looped,
    }
}

/// A parser over one token sequence.
pub struct Parser {
    current: usize,
    tokens: Vec<Token>,
}

impl Parser {
    /// The tokens.
    pub closed spec fn input(&self) -> Seq<TokenModel> {
        token_models(self.tokens@)
    }

    /// The position of the next token to read.
    pub closed spec fn cursor(&self) -> int {
        self.current as int
    }

    /// The tokens end with the end-of-input token and the cursor is on one.
    pub closed spec fn wf(&self) -> bool {
        &&& valid(token_models(self.tokens@), self.current as int)
        &&& self.current < self.tokens.len()
    }

    /// `self` is `before` with the cursor where it was or further.
    spec fn moved(&self, before: &Parser) -> bool {
        &&& self.tokens == before.tokens
        &&& self.wf()
        &&& self.current >= before.current
    }

    /// How many tokens are left, the one at the cursor counted.
    spec fn left(&self) -> int {
        self.tokens.len() - self.current
    }

    /// A parser at the first of `tokens`.
    pub fn new(tokens: Vec<Token>) -> (r: Parser)
        requires
            terminated(token_models(tokens@)),
        ensures
            r.wf(),
            r.input() == token_models(tokens@),
            r.cursor() == 0,
    {
        Parser { current: 0, tokens }
    }

    /// Parses declarations up to the end of input, or up to the first that
    /// fails: then its error comes back, and the cursor is left where
    /// parsing would resume.
    pub fn parse(&mut self) -> (r: Result<Vec<Rc<Statement>>, LoxError>)
        requires
            old(self).wf(),
        ensures
            final(self).wf(),
            final(self).input() == old(self).input(),
            program_is(
                r,
                final(self).cursor(),
                program(old(self).input(), old(self).cursor(), Seq::empty()),
            ),
    {
        let ghost ts = self.input();
        let ghost from = self.current as int;
        let mut statements: Vec<Rc<Statement>> = Vec::new();
        assert(statement_models(statements@) == Seq::<StatementModel>::empty());
        loop
            invariant
                self.moved(old(self)),
                ts == self.input(),
                valid(ts, from),
                from == old(self).current,
                program(ts, from, Seq::empty()) == program(
                    ts,
                    self.current as int,
                    statement_models(statements@),
                ),
            ensures
                at_end(ts, self.current as int),
            decreases self.left(),
        {
            if self.is_end() {
                break;
            }
            let ghost before = statement_models(statements@);
            match self.declaration() {
                Ok(s) => {
                    let item = Rc::new(s);
                    statements.push(item);
                    assert(statement_models(statements@) == before.push(s@));
                },
                Err(e) => {
                    return Err(e);
                },
            }
        }
        Ok(statements)
    }

    /// Discards tokens up to a place where a declaration may begin.
    fn sync(&mut self)
        requires
            old(self).wf(),
        ensures
            final(self).moved(old(self)),
            final(self).current == sync(old(self).input(), old(self).current as int),
    {
        let ghost ts = self.input();
        if self.is_end() {
            return ;
        }
        self.advance();
        loop
            invariant
                self.moved(old(self)),
                ts == self.input(),
                self.current >= 1,
                resume_point(ts, self.current as int) == resume_point(
                    ts,
                    old(self).current + 1,
                ),
            ensures
                self.current == resume_point(ts, old(self).current + 1),
            decreases self.left(),
        {
            if self.is_end() {
                break;
            }
            if self.previous().token == TokenType::Semicolon {
                break;
            }
            match self.peek().token {
                TokenType::Class => {
                    break;
                },
                TokenType::Fun => {
                    break;
                },
                TokenType::Var => {
                    break;
                },
                TokenType::For => {
                    break;
                },
                TokenType::If => {
                    break;
                },
                TokenType::While => {
                    break;
                },
                TokenType::Import => {
                    break;
                },
                TokenType::Return => {
                    break;
                },
                _ => {},
            }
            self.advance();
        }
    }

    /// Takes the token at the cursor if it is of one of the given kinds.
    fn match_t(&mut self, types: Vec<TokenType>) -> (r: bool)
        requires
            old(self).wf(),
        ensures
            final(self).moved(old(self)),
            r == check_any(old(self).input(), old(self).current as int, types@),
            final(self).current == if r {
                old(self).current + 1
            } else {
                old(self).current as int
            },
    {
        let mut i: usize = 0;
        while i < types.len()
            invariant
                *self == *old(self),
                self.wf(),
                i <= types.len(),
                forall|j: int| 0 <= j < i ==> types@[j] != self.input()[self.current as int].kind,
            decreases types.len() - i,
        {
            if self.check(types[i]) {
                self.advance();
                return true;
            }
            if self.is_end() {
                return false;
            }
            i += 1;
        }
        false
    }

    /// Takes the token at the cursor if it is of the given kind.
    fn match_one(&mut self, t: TokenType) -> (r: bool)
        requires
            old(self).wf(),
        ensures
            final(self).moved(old(self)),
            r == check(old(self).input(), old(self).current as int, t),
            final(self).current == if r {
                old(self).current + 1
            } else {
                old(self).current as int
            },
    {
        if self.check(t) {
            self.advance();
            return true;
        }
        false
    }

    /// Takes the token at the cursor if it is of the given kind; fails with
    /// `msg` at that token's line if it is not.
    fn consume(&mut self, t: TokenType, msg: &str) -> (r: Result<Token, LoxError>)
        requires
            old(self).wf(),
        ensures
            final(self).moved(old(self)),
            token_is(
                r,
                final(self).current as int,
                consume(old(self).input(), old(self).current as int, t, msg@),
            ),
    {
        if self.check(t) {
            let token = self.peek().clone();
            self.advance();
            Ok(token)
        } else {
            Err(LoxError::new(msg.to_owned(), self.peek().line))
        }
    }

    /// Whether the token at the cursor is of the given kind.
    fn check(&self, t: TokenType) -> (r: bool)
        requires
            self.wf(),
        ensures
            r == check(self.input(), self.current as int, t),
    {
        if self.is_end() {
            return false;
        }
        self.peek().token == t
    }

    /// Moves the cursor on by one token, unless it is at the end of input.
    fn advance(&mut self)
        requires
            old(self).wf(),
        ensures
            final(self).moved(old(self)),
            final(self).current == if at_end(old(self).input(), old(self).current as int) {
                old(self).current as int
            } else {
                old(self).current + 1
            },
    {
        if !self.is_end() {
            self.current += 1;
        }
    }

    /// The token at the cursor.
    fn peek(&self) -> (r: &Token)
        requires
            self.wf(),
        ensures
            *r == self.tokens@[self.current as int],
            r@ == self.input()[self.current as int],
    {
        &self.tokens[self.current]
    }

    /// The token before the cursor.
    fn previous(&self) -> (r: &Token)
        requires
            self.wf(),
            self.current >= 1,
        ensures
            *r == self.tokens@[self.current - 1],
            r@ == self.input()[self.current - 1],
    {
        &self.tokens[self.current - 1]
    }

    /// Whether the cursor is at the end of input.
    fn is_end(&self) -> (r: bool)
        requires
            self.wf(),
        ensures
            r == at_end(self.input(), self.current as int),
    {
        self.peek().token == TokenType::EOF
    }

    fn declaration(&mut self) -> (r: Result<Statement, LoxError>)
        requires
            old(self).wf(),
        ensures
            final(self).moved(old(self)),
            statement_is(
                r,
                final(self).current as int,
                declaration(old(self).input(), old(self).current as int),
            ),
            r is Ok ==> final(self).current > old(self).current,
        decreases old(self).left(), 50int,
    {
        let r = if self.match_one(TokenType::Var) {
            self.var_statement()
        } else {
            self.statement()
        };
        match r {
            Ok(s) => Ok(s),
            Err(e) => {
                self.sync();
                Err(e)
            },
        }
    }

    fn var_statement(&mut self) -> (r: Result<Statement, LoxError>)
        requires
            old(self).wf(),
        ensures
            final(self).moved(old(self)),
            statement_is(
                r,
                final(self).current as int,
                var_statement(old(self).input(), old(self).current as int),
            ),
            r is Ok ==> final(self).current > old(self).current,
        decreases old(self).left(), 45int,
    {
        let name = match self.consume(TokenType::Identifier, "Expected variable name") {
            Ok(t) => t,
            Err(e) => {
                return Err(e);
            },
        };
        let mut initializer: Option<Expr> = None;
        if self.match_one(TokenType::Equal) {
            match self.expression() {
                Ok(e) => {
                    initializer = Some(e);
                },
                Err(e) => {
                    return Err(e);
                },
            }
        }
        match self.consume(TokenType::Semicolon, "Expected ';' after variable declaration") {
            Ok(_) => Ok(Statement::Variable(name, initializer)),
            Err(e) => Err(e),
        }
    }

    fn statement(&mut self) -> (r: Result<Statement, LoxError>)
        requires
            old(self).wf(),
        ensures
            final(self).moved(old(self)),
            statement_is(
                r,
                final(self).current as int,
                statement(old(self).input(), old(self).current as int),
            ),
            r is Ok ==> final(self).current > old(self).current,
        decreases old(self).left(), 49int,
    {
        if self.match_one(TokenType::LeftBrace) {
            self.block_statement()
        } else if self.match_one(TokenType::If) {
            self.if_statement()
        } else if self.match_one(TokenType::While) {
            self.while_statement()
        } else if self.match_one(TokenType::For) {
            self.for_statement()
        } else if self.match_one(TokenType::Fun) {
            self.function(FunKind::Function)
        } else if self.match_one(TokenType::Return) {
            self.return_statement()
        } else if self.match_one(TokenType::Import) {
            self.import_statement()
        } else {
            self.expr_statement()
        }
    }

    fn import_statement(&mut self) -> (r: Result<Statement, LoxError>)
        requires
            old(self).wf(),
        ensures
            final(self).moved(old(self)),
            statement_is(
                r,
                final(self).current as int,
                import_statement(old(self).input(), old(self).current as int),
            ),
    {
        let file = match self.consume(TokenType::String, "Expected 'string' after 'import'") {
            Ok(t) => t,
            Err(e) => {
                return Err(e);
            },
        };
        match self.consume(TokenType::Semicolon, "Expected ';' after import statement") {
            Ok(_) => Ok(Statement::Import(file)),
            Err(e) => Err(e),
        }
    }

    fn parameters(&mut self) -> (r: Result<Vec<Token>, LoxError>)
        requires
            old(self).wf(),
        ensures
            final(self).moved(old(self)),
            final(self).current == parameters(old(self).input(), old(self).current as int).next,
            match r {
                Ok(ps) => parameters(old(self).input(), old(self).current as int).result == Ok::<
                    Seq<TokenModel>,
                    ErrorModel,
                >(token_models(ps@)),
                Err(e) => parameters(old(self).input(), old(self).current as int).result == Err::<
                    Seq<TokenModel>,
                    ErrorModel,
                >(e@),
            },
    {
        let ghost ts = self.input();
        let ghost from = self.current as int;
        let mut names: Vec<Token> = Vec::new();
        if !self.check(TokenType::RightParenthesis) {
            match self.consume(TokenType::Identifier, "Expected parameter name") {
                Ok(t) => {
                    names.push(t);
                    assert(token_models(names@) == seq![t@]);
                },
                Err(e) => {
                    return Err(e);
                },
            }
            loop
                invariant
                    self.moved(old(self)),
                    ts == self.input(),
                    valid(ts, from),
                from == old(self).current,
                    parameters(ts, from) == parameters_rest(
                        ts,
                        self.current as int,
                        token_models(names@),
                    ),
                ensures
                    parameters(ts, from) == done(token_models(names@), self.current as int),
                decreases self.left(),
            {
                if !self.match_one(TokenType::Comma) {
                    break;
                }
                let ghost before = token_models(names@);
                match self.consume(TokenType::Identifier, "Expected parameter name") {
                    Ok(t) => {
                        names.push(t);
                        assert(token_models(names@) == before.push(t@));
                    },
                    Err(e) => {
                        return Err(e);
                    },
                }
            }
        } else {
            assert(token_models(names@) == Seq::<TokenModel>::empty());
        }
        Ok(names)
    }

    fn function(&mut self, kind: FunKind) -> (r: Result<Statement, LoxError>)
        requires
            old(self).wf(),
        ensures
            final(self).moved(old(self)),
            statement_is(
                r,
                final(self).current as int,
                function(old(self).input(), old(self).current as int),
            ),
            r is Ok ==> final(self).current > old(self).current,
        decreases old(self).left(), 45int,
    {
        let name = match self.consume(TokenType::Identifier, "Expected function/method name.") {
            Ok(t) => t,
            Err(e) => {
                return Err(e);
            },
        };
        match self.consume(TokenType::LeftParenthesis, "Expected '(' after fun name declaration") {
            Ok(_) => {},
            Err(e) => {
                return Err(e);
            },
        }
        let parameters = match self.parameters() {
            Ok(ps) => ps,
            Err(e) => {
                return Err(e);
            },
        };
        match self.consume(TokenType::RightParenthesis, "Expected ')' after parameters.") {
            Ok(_) => {},
            Err(e) => {
                return Err(e);
            },
        }
        match self.consume(TokenType::LeftBrace, "Expected '{' before function/method body") {
            Ok(_) => {},
            Err(e) => {
                return Err(e);
            },
        }
        match self.block_statement() {
            Ok(body) => Ok(make_function(name, parameters, body)),
            Err(e) => Err(e),
        }
    }

    fn return_statement(&mut self) -> (r: Result<Statement, LoxError>)
        requires
            old(self).wf(),
            old(self).current >= 1,
        ensures
            final(self).moved(old(self)),
            statement_is(
                r,
                final(self).current as int,
                return_statement(
                    old(self).input(),
                    old(self).current as int,
                    old(self).input()[old(self).current - 1],
                ),
            ),
            r is Ok ==> final(self).current > old(self).current,
        decreases old(self).left(), 45int,
    {
        let t = self.previous().clone();
        let v = if !self.check(TokenType::Semicolon) {
            match self.expression() {
                Ok(e) => e,
                Err(e) => {
                    return Err(e);
                },
            }
        } else {
            nothing()
        };
        match self.consume(TokenType::Semicolon, "Expected ';' after return value") {
            Ok(_) => Ok(Statement::Return(t, v)),
            Err(e) => Err(e),
        }
    }

    fn for_initializer(&mut self) -> (r: Result<Option<Statement>, LoxError>)
        requires
            old(self).wf(),
        ensures
            final(self).moved(old(self)),
            final(self).current == for_initializer(
                old(self).input(),
                old(self).current as int,
            ).next,
            match r {
                Ok(Some(s)) => for_initializer(old(self).input(), old(self).current as int).result
                    == Ok::<Option<StatementModel>, ErrorModel>(Some(s@)),
                Ok(None) => for_initializer(old(self).input(), old(self).current as int).result
                    == Ok::<Option<StatementModel>, ErrorModel>(None),
                Err(e) => for_initializer(old(self).input(), old(self).current as int).result
                    == Err::<Option<StatementModel>, ErrorModel>(e@),
            },
        decreases old(self).left(), 47int,
    {
        if self.match_one(TokenType::Semicolon) {
            Ok(None)
        } else if self.match_one(TokenType::Var) {
            match self.var_statement() {
                Ok(s) => Ok(Some(s)),
                Err(e) => Err(e),
            }
        } else {
            match self.expr_statement() {
                Ok(s) => Ok(Some(s)),
                Err(e) => Err(e),
            }
        }
    }

    fn for_statement(&mut self) -> (r: Result<Statement, LoxError>)
        requires
            old(self).wf(),
        ensures
            final(self).moved(old(self)),
            statement_is(
                r,
                final(self).current as int,
                for_statement(old(self).input(), old(self).current as int),
            ),
            r is Ok ==> final(self).current > old(self).current,
        decreases old(self).left(), 48int,
    {
        match self.consume(TokenType::LeftParenthesis, "Expected '(' after 'for'") {
            Ok(_) => {},
            Err(e) => {
                return Err(e);
            },
        }
        let initializer = match self.for_initializer() {
            Ok(i) => i,
            Err(e) => {
                return Err(e);
            },
        };
        let cond = if !self.check(TokenType::Semicolon) {
            match self.expression() {
                Ok(e) => e,
                Err(e) => {
                    return Err(e);
                },
            }
        } else {
            truth(true)
        };
        match self.consume(TokenType::Semicolon, "Expected ';' after loop condition") {
            Ok(_) => {},
            Err(e) => {
                return Err(e);
            },
        }
        let increment = if !self.check(TokenType::RightParenthesis) {
            match self.expression() {
                Ok(e) => Some(e),
                Err(e) => {
                    return Err(e);
                },
            }
        } else {
            None
        };
        match self.consume(TokenType::RightParenthesis, "Expected ')' after for clauses") {
            Ok(_) => {},
            Err(e) => {
                return Err(e);
            },
        }
        match self.statement() {
            Ok(body) => Ok(make_loop(initializer, cond, increment, body)),
            Err(e) => Err(e),
        }
    }

    fn while_statement(&mut self) -> (r: Result<Statement, LoxError>)
        requires
            old(self).wf(),
        ensures
            final(self).moved(old(self)),
            statement_is(
                r,
                final(self).current as int,
                while_statement(old(self).input(), old(self).current as int),
            ),
            r is Ok ==> final(self).current > old(self).current,
        decreases old(self).left(), 48int,
    {
        match self.consume(TokenType::LeftParenthesis, "Expected '(' after while") {
            Ok(_) => {},
            Err(e) => {
                return Err(e);
            },
        }
        let e = match self.expression() {
            Ok(e) => e,
            Err(e) => {
                return Err(e);
            },
        };
        match self.consume(TokenType::RightParenthesis, "Expected ')' after while") {
            Ok(_) => {},
            Err(e) => {
                return Err(e);
            },
        }
        match self.statement() {
            Ok(body) => Ok(Statement::While(e, Rc::new(body))),
            Err(e) => Err(e),
        }
    }

    fn if_statement(&mut self) -> (r: Result<Statement, LoxError>)
        requires
            old(self).wf(),
        ensures
            final(self).moved(old(self)),
            statement_is(
                r,
                final(self).current as int,
                if_statement(old(self).input(), old(self).current as int),
            ),
            r is Ok ==> final(self).current > old(self).current,
        decreases old(self).left(), 48int,
    {
        match self.consume(TokenType::LeftParenthesis, "Expected '(' after 'if'") {
            Ok(_) => {},
            Err(e) => {
                return Err(e);
            },
        }
        let cond = match self.expression() {
            Ok(e) => e,
            Err(e) => {
                return Err(e);
            },
        };
        match self.consume(TokenType::RightParenthesis, "Expected ')' after 'if' condition") {
            Ok(_) => {},
            Err(e) => {
                return Err(e);
            },
        }
        let then = match self.statement() {
            Ok(s) => Rc::new(s),
            Err(e) => {
                return Err(e);
            },
        };
        let or = if self.match_one(TokenType::Else) {
            match self.statement() {
                Ok(s) => Some(Rc::new(s)),
                Err(e) => {
                    return Err(e);
                },
            }
        } else {
            None
        };
        Ok(Statement::If(cond, then, or))
    }

    fn block_statement(&mut self) -> (r: Result<Statement, LoxError>)
        requires
            old(self).wf(),
        ensures
            final(self).moved(old(self)),
            statement_is(
                r,
                final(self).current as int,
                block_statement(old(self).input(), old(self).current as int),
            ),
            r is Ok ==> final(self).current > old(self).current,
        decreases old(self).left(), 52int,
    {
        let ghost ts = self.input();
        let ghost from = self.current as int;
        let mut statements: Vec<Rc<Statement>> = Vec::new();
        assert(statement_models(statements@) == Seq::<StatementModel>::empty());
        loop
            invariant
                self.moved(old(self)),
                ts == self.input(),
                valid(ts, from),
                from == old(self).current,
                block_statement(ts, from) == block_items(
                    ts,
                    self.current as int,
                    statement_models(statements@),
                ),
            ensures
                check(ts, self.current as int, TokenType::RightBrace) || at_end(
                    ts,
                    self.current as int,
                ),
            decreases self.left(),
        {
            if self.check(TokenType::RightBrace) || self.is_end() {
                break;
            }
            let ghost before = statement_models(statements@);
            match self.declaration() {
                Ok(s) => {
                    let item = Rc::new(s);
                    statements.push(item);
                    assert(statement_models(statements@) == before.push(s@));
                },
                Err(e) => {
                    return Err(e);
                },
            }
        }
        match self.consume(TokenType::RightBrace, "Expected '}' after block") {
            Ok(_) => Ok(make_block(statements)),
            Err(e) => Err(e),
        }
    }

    fn expr_statement(&mut self) -> (r: Result<Statement, LoxError>)
        requires
            old(self).wf(),
        ensures
            final(self).moved(old(self)),
            statement_is(
                r,
                final(self).current as int,
                expr_statement(old(self).input(), old(self).current as int),
            ),
            r is Ok ==> final(self).current > old(self).current,
        decreases old(self).left(), 46int,
    {
        let e = match self.expression() {
            Ok(e) => e,
            Err(e) => {
                return Err(e);
            },
        };
        match self.consume(TokenType::Semicolon, "Expected a ';' after expression") {
            Ok(_) => Ok(Statement::Expression(e)),
            Err(e) => Err(e),
        }
    }

    fn expression(&mut self) -> (r: Result<Expr, LoxError>)
        requires
            old(self).wf(),
        ensures
            final(self).moved(old(self)),
            expr_is(
                r,
                final(self).current as int,
                expression(old(self).input(), old(self).current as int),
            ),
            r is Ok ==> final(self).current > old(self).current,
        decreases old(self).left(), 30int,
    {
        self.assignment()
    }

    fn assignment(&mut self) -> (r: Result<Expr, LoxError>)
        requires
            old(self).wf(),
        ensures
            final(self).moved(old(self)),
            expr_is(
                r,
                final(self).current as int,
                assignment(old(self).input(), old(self).current as int),
            ),
            r is Ok ==> final(self).current > old(self).current,
        decreases old(self).left(), 29int,
    {
        let e = match self.binary(Level::Or) {
            Ok(e) => e,
            Err(x) => {
                return Err(x);
            },
        };
        if self.match_one(TokenType::Equal) {
            let line = self.previous().line;
            let value = match self.assignment() {
                Ok(v) => v,
                Err(x) => {
                    return Err(x);
                },
            };
            if let Expr::Variable(name) = e {
                return Ok(Expr::Assign(name, Rc::new(value)));
            }
            return Err(LoxError::new("Invalid assignment target".to_owned(), line));
        }
        Ok(e)
    }

    fn operand(&mut self, level: Level) -> (r: Result<Expr, LoxError>)
        requires
            old(self).wf(),
        ensures
            final(self).moved(old(self)),
            expr_is(
                r,
                final(self).current as int,
                operand(old(self).input(), old(self).current as int, level),
            ),
            r is Ok ==> final(self).current > old(self).current,
        decreases old(self).left(), 10 + 2 * rank(level),
    {
        match level {
            Level::Or => self.binary(Level::And),
            Level::And => self.binary(Level::Equality),
            Level::Equality => self.binary(Level::Comparison),
            Level::Comparison => self.binary(Level::Addition),
            Level::Addition => self.binary(Level::Multiplication),
            Level::Multiplication => self.unary(),
        }
    }

    /// Parses one level of binary operators, which takes the place of one
    /// method per level.
    fn binary(&mut self, level: Level) -> (r: Result<Expr, LoxError>)
        requires
            old(self).wf(),
        ensures
            final(self).moved(old(self)),
            expr_is(
                r,
                final(self).current as int,
                binary(old(self).input(), old(self).current as int, level),
            ),
            r is Ok ==> final(self).current > old(self).current,
        decreases old(self).left(), 11 + 2 * rank(level),
    {
        let ghost ts = self.input();
        let ghost from = self.current as int;
        let mut e = match self.operand(level) {
            Ok(e) => e,
            Err(x) => {
                return Err(x);
            },
        };
        loop
            invariant
                self.moved(old(self)),
                self.current > old(self).current,
                ts == self.input(),
                valid(ts, from),
                from == old(self).current,
                binary(ts, from, level) == binary_rest(ts, self.current as int, level, e@),
            ensures
                binary(ts, from, level) == done(e@, self.current as int),
            decreases self.left(),
        {
            if !self.match_t(level_operators(level)) {
                break;
            }
            let op = self.previous().clone();
            let right = match self.operand(level) {
                Ok(r) => r,
                Err(x) => {
                    return Err(x);
                },
            };
            e = make_node(level, e, op, right);
        }
        Ok(e)
    }

    fn unary(&mut self) -> (r: Result<Expr, LoxError>)
        requires
            old(self).wf(),
        ensures
            final(self).moved(old(self)),
            expr_is(
                r,
                final(self).current as int,
                unary(old(self).input(), old(self).current as int),
            ),
            r is Ok ==> final(self).current > old(self).current,
        decreases old(self).left(), 9int,
    {
        if self.match_t(vec![TokenType::Bang, TokenType::Minus]) {
            let op = self.previous().clone();
            return match self.unary() {
                Ok(right) => Ok(Expr::Unary(op, Rc::new(right))),
                Err(x) => Err(x),
            };
        }
        self.call()
    }

    fn call(&mut self) -> (r: Result<Expr, LoxError>)
        requires
            old(self).wf(),
        ensures
            final(self).moved(old(self)),
            expr_is(
                r,
                final(self).current as int,
                call(old(self).input(), old(self).current as int),
            ),
            r is Ok ==> final(self).current > old(self).current,
        decreases old(self).left(), 8int,
    {
        let e = match self.primary() {
            Ok(e) => e,
            Err(x) => {
                return Err(x);
            },
        };
        if self.match_one(TokenType::LeftParenthesis) {
            return self.finish_call(e);
        }
        Ok(e)
    }

    fn finish_call(&mut self, expr: Expr) -> (r: Result<Expr, LoxError>)
        requires
            old(self).wf(),
        ensures
            final(self).moved(old(self)),
            expr_is(
                r,
                final(self).current as int,
                finish_call(old(self).input(), old(self).current as int, expr@),
            ),
            r is Ok ==> final(self).current > old(self).current,
        decreases old(self).left(), 32int,
    {
        let ghost ts = self.input();
        let ghost from = self.current as int;
        let mut arguments: Vec<Rc<Expr>> = Vec::new();
        if !self.check(TokenType::RightParenthesis) {
            match self.expression() {
                Ok(a) => {
                    arguments.push(Rc::new(a));
                    assert(expr_models(arguments@) == seq![a@]);
                },
                Err(x) => {
                    return Err(x);
                },
            }
            loop
                invariant
                    self.moved(old(self)),
                    ts == self.input(),
                    valid(ts, from),
                from == old(self).current,
                    finish_call(ts, from, expr@) == arguments_rest(
                        ts,
                        self.current as int,
                        expr@,
                        expr_models(arguments@),
                    ),
                ensures
                    finish_call(ts, from, expr@) == close_call(
                        ts,
                        self.current as int,
                        expr@,
                        expr_models(arguments@),
                    ),
                decreases self.left(),
            {
                if !self.match_one(TokenType::Comma) {
                    break;
                }
                let ghost before = expr_models(arguments@);
                match self.expression() {
                    Ok(a) => {
                        arguments.push(Rc::new(a));
                        assert(expr_models(arguments@) == before.push(a@));
                    },
                    Err(x) => {
                        return Err(x);
                    },
                }
            }
        } else {
            assert(expr_models(arguments@) == Seq::<ExprModel>::empty());
        }
        match self.consume(TokenType::RightParenthesis, "Expected ')' after arguments") {
            Ok(paren) => Ok(make_call(expr, paren, arguments)),
            Err(x) => Err(x),
        }
    }

    fn primary(&mut self) -> (r: Result<Expr, LoxError>)
        requires
            old(self).wf(),
        ensures
            final(self).moved(old(self)),
            expr_is(
                r,
                final(self).current as int,
                primary(old(self).input(), old(self).current as int),
            ),
            r is Ok ==> final(self).current > old(self).current,
        decreases old(self).left(), 7int,
    {
        if self.match_one(TokenType::False) {
            return Ok(truth(false));
        }
        if self.match_one(TokenType::True) {
            return Ok(truth(true));
        }
        if self.match_one(TokenType::Nil) {
            return Ok(nothing());
        }
        if self.match_t(vec![TokenType::Number, TokenType::String]) {
            let token = self.previous();
            return match &token.literal {
                Some(v) => Ok(constant(v.clone())),
                None => Err(LoxError::new("Literal without a value".to_owned(), token.line)),
            };
        }
        if self.match_one(TokenType::Identifier) {
            return Ok(Expr::Variable(self.previous().clone()));
        }
        if self.match_one(TokenType::LeftParenthesis) {
            let e = match self.expression() {
                Ok(e) => e,
                Err(x) => {
                    return Err(x);
                },
            };
            return match self.consume(TokenType::RightParenthesis, "Expected ')' after expression") {
                Ok(_) => Ok(Expr::Grouping(Rc::new(e))),
                Err(x) => Err(x),
            };
        }
        Err(LoxError::new("Expected expression".to_owned(), self.peek().line))
    }
}

} // verus!
