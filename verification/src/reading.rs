//! What is written parses back: a token sequence that spells an expression
//! or a statement as `render` writes it is parsed to that expression or
//! statement.
//!
//! `spells` follows the written form construct by construct: operators
//! between their operands, a unary operator before its operand, arguments
//! between parentheses and commas, and no parentheses but those of a
//! grouping, which asks of every operand that it holds together tightly
//! enough for its place. `states` does the same for statements.

use vstd::prelude::*;
use crate::model::{ExprModel, StatementModel, TokenModel, Value};
use crate::parser::{
    arguments_rest, assignment, at_end, binary, binary_rest, block_items, block_statement, call,
    check, check_any, close_call, declaration, done, expr_statement, expression,
    finish_call, finish_var, function, if_statement, import_statement, node, onward, operand,
    operators, parameters, parameters_rest, primary, program, return_statement, statement,
    terminated, unary, valid, var_statement, while_statement, Level, Parsed,
};
use crate::render::tightness;
use crate::token_type::TokenType;

verus! {

/// The level of binary operators of a tightness from 1 to 6.
pub open spec fn level_of(k: int) -> Level {
    if k <= 1 {
        Level::Or
    } else if k == 2 {
        Level::And
    } else if k == 3 {
        Level::Equality
    } else if k == 4 {
        Level::Comparison
    } else if k == 5 {
        Level::Addition
    } else {
        Level::Multiplication
    }
}

/// What the parser makes of the tokens from `pos` on when it asks for an
/// expression of a tightness of at least `k`.
pub open spec fn parse_at(ts: Seq<TokenModel>, pos: int, k: int) -> Parsed<ExprModel> {
    if k <= 0 {
        expression(ts, pos)
    } else if k <= 6 {
        binary(ts, pos, level_of(k))
    } else if k == 7 {
        unary(ts, pos)
    } else if k == 8 {
        call(ts, pos)
    } else {
        primary(ts, pos)
    }
}

/// Whether a token of this kind is an operator of the level.
pub open spec fn is_operator(level: Level, kind: TokenType) -> bool {
    match level {
        Level::Or => kind == TokenType::Or,
        Level::And => kind == TokenType::And,
        Level::Equality => kind == TokenType::BangEqual || kind == TokenType::EqualEqual,
        Level::Comparison => kind == TokenType::Greater || kind == TokenType::GreaterEqual || kind
            == TokenType::Less || kind == TokenType::LessEqual,
        Level::Addition => kind == TokenType::Minus || kind == TokenType::Plus,
        Level::Multiplication => kind == TokenType::Slash || kind == TokenType::Star,
    }
}

/// Whether the parser, done with an expression at tightness `k`, goes on
/// when a token of this kind follows.
pub open spec fn goes_on(kind: TokenType, k: int) -> bool {
    if k == 0 {
        kind == TokenType::Equal
    } else if 1 <= k <= 6 {
        is_operator(level_of(k), kind)
    } else if k == 8 {
        kind == TokenType::LeftParenthesis
    } else {
        false
    }
}

/// Whether a token of this kind ends every expression of a tightness of
/// at least `k`.
pub open spec fn ends(kind: TokenType, k: int) -> bool {
    forall|j: int| k <= j <= 8 ==> !goes_on(kind, j)
}

/// The token of a literal: its kind says which literal it is, and a
/// number or a text is its literal value.
pub open spec fn names_literal(t: TokenModel, v: Value) -> bool {
    match v {
        Value::Number(_) => t.kind == TokenType::Number && t.literal == Some(v),
        Value::Text(_) => t.kind == TokenType::String && t.literal == Some(v),
        Value::Boolean(b) => t.kind == if b {
            TokenType::True
        } else {
            TokenType::False
        },
        Value::Nil => t.kind == TokenType::Nil,
        _ => false,
    }
}

/// How many tokens spell the expression.
pub open spec fn size(e: ExprModel) -> nat
    decreases e, 1int,
{
    match e {
        ExprModel::Literal(_) => 1,
        ExprModel::Variable(_) => 1,
        ExprModel::Grouping(x) => 2 + size(*x),
        ExprModel::Unary(_, x) => 1 + size(*x),
        ExprModel::Binary(l, _, r) => size(*l) + 1 + size(*r),
        ExprModel::Logical(l, _, r) => size(*l) + 1 + size(*r),
        ExprModel::Assign(_, x) => 2 + size(*x),
        ExprModel::Call(c, _, args) => size(*c) + 2 + size_of_arguments(e, args.len()),
    }
}

/// How many tokens spell the first `n` arguments of the call `e`, the
/// commas between them counted.
pub open spec fn size_of_arguments(e: ExprModel, n: nat) -> nat
    decreases e, 0int, n,
{
    match e {
        ExprModel::Call(_, _, args) => if n == 0 || n > args.len() {
            0
        } else if n == 1 {
            size(args[0])
        } else {
            size_of_arguments(e, (n - 1) as nat) + 1 + size(args[n - 1])
        },
        _ => 0,
    }
}

/// Whether the tokens from `pos` on spell the expression `e` as it is
/// written, and `e` needs no parentheses of its own: every operator is one
/// of its level, and every operand holds together tightly enough for its
/// place.
pub open spec fn spells(ts: Seq<TokenModel>, pos: int, e: ExprModel) -> bool
    decreases e, 1int,
{
    &&& 0 <= pos
    &&& pos + size(e) < ts.len()
    &&& match e {
        ExprModel::Literal(v) => names_literal(ts[pos], v),
        ExprModel::Variable(t) => ts[pos] == t && t.kind == TokenType::Identifier,
        ExprModel::Grouping(x) => ts[pos].kind == TokenType::LeftParenthesis && spells(
            ts,
            pos + 1,
            *x,
        ) && ts[pos + 1 + size(*x)].kind == TokenType::RightParenthesis,
        ExprModel::Unary(op, x) => ts[pos] == op && (op.kind == TokenType::Bang || op.kind
            == TokenType::Minus) && tightness(*x) >= 7 && spells(ts, pos + 1, *x),
        ExprModel::Binary(l, op, r) => 3 <= tightness(e) <= 6 && tightness(*l) >= tightness(e)
            && tightness(*r) > tightness(e) && spells(ts, pos, *l) && ts[pos + size(*l)] == op
            && spells(ts, pos + size(*l) + 1, *r),
        ExprModel::Logical(l, op, r) => (op.kind == TokenType::Or || op.kind == TokenType::And)
            && tightness(*l) >= tightness(e) && tightness(*r) > tightness(e) && spells(
            ts,
            pos,
            *l,
        ) && ts[pos + size(*l)] == op && spells(ts, pos + size(*l) + 1, *r),
        ExprModel::Assign(name, x) => ts[pos] == name && name.kind == TokenType::Identifier
            && ts[pos + 1].kind == TokenType::Equal && spells(ts, pos + 2, *x),
        ExprModel::Call(c, paren, args) => tightness(*c) == 9 && spells(ts, pos, *c) && ts[pos
            + size(*c)].kind == TokenType::LeftParenthesis && spells_arguments(
            ts,
            pos + size(*c) + 1,
            e,
            args.len(),
        ) && ts[pos + size(e) - 1] == paren && paren.kind == TokenType::RightParenthesis,
    }
}

/// Whether the tokens from `pos` on spell the first `n` arguments of the
/// call `e`, with a comma between one and the next.
pub open spec fn spells_arguments(ts: Seq<TokenModel>, pos: int, e: ExprModel, n: nat) -> bool
    decreases e, 0int, n,
{
    match e {
        ExprModel::Call(_, _, args) => if n == 0 || n > args.len() {
            true
        } else if n == 1 {
            spells(ts, pos, args[0])
        } else {
            let before = size_of_arguments(e, (n - 1) as nat);
            &&& spells_arguments(ts, pos, e, (n - 1) as nat)
            &&& 0 <= pos + before < ts.len()
            &&& ts[pos + before].kind == TokenType::Comma
            &&& spells(ts, pos + before + 1, args[n - 1])
        },
        _ => true,
    }
}

/// The operators of a level are the kinds that `is_operator` names.
pub proof fn lemma_operators(level: Level, kind: TokenType)
    ensures
        operators(level).contains(kind) <==> is_operator(level, kind),
{
    let s = operators(level);
    if is_operator(level, kind) {
        match level {
            Level::Or => {
                assert(s[0] == kind);
            },
            Level::And => {
                assert(s[0] == kind);
            },
            Level::Equality => {
                assert(s[0] == kind || s[1] == kind);
            },
            Level::Comparison => {
                assert(s[0] == kind || s[1] == kind || s[2] == kind || s[3] == kind);
            },
            Level::Addition => {
                assert(s[0] == kind || s[1] == kind);
            },
            Level::Multiplication => {
                assert(s[0] == kind || s[1] == kind);
            },
        }
    }
}

/// Whether the level's loop goes on at `pos`.
proof fn lemma_check_operators(ts: Seq<TokenModel>, pos: int, level: Level)
    ensures
        check_any(ts, pos, operators(level)) == (!at_end(ts, pos) && is_operator(
            level,
            ts[pos].kind,
        )),
{
    lemma_operators(level, ts[pos].kind);
}

/// Whether an expression can begin with a token of this kind.
pub open spec fn begins(kind: TokenType) -> bool {
    kind == TokenType::Number || kind == TokenType::String || kind == TokenType::True || kind
        == TokenType::False || kind == TokenType::Nil || kind == TokenType::Identifier || kind
        == TokenType::LeftParenthesis || kind == TokenType::Bang || kind == TokenType::Minus
}

/// An expression begins with a token that an expression can begin with.
pub proof fn lemma_begins(ts: Seq<TokenModel>, pos: int, e: ExprModel)
    requires
        spells(ts, pos, e),
    ensures
        begins(ts[pos].kind),
    decreases e,
{
    match e {
        ExprModel::Binary(l, _, _) => {
            lemma_begins(ts, pos, *l);
        },
        ExprModel::Logical(l, _, _) => {
            lemma_begins(ts, pos, *l);
        },
        ExprModel::Call(c, _, _) => {
            lemma_begins(ts, pos, *c);
        },
        _ => {},
    }
}

/// An expression begins with a token that is neither the end of input nor
/// a closing parenthesis; one that is tighter than a unary operator begins
/// with neither `!` nor `-`.
pub proof fn lemma_first_token(ts: Seq<TokenModel>, pos: int, e: ExprModel)
    requires
        spells(ts, pos, e),
    ensures
        ts[pos].kind != TokenType::EOF,
        ts[pos].kind != TokenType::RightParenthesis,
        tightness(e) >= 8 ==> ts[pos].kind != TokenType::Bang && ts[pos].kind != TokenType::Minus,
    decreases e,
{
    match e {
        ExprModel::Binary(l, _, _) => {
            lemma_first_token(ts, pos, *l);
        },
        ExprModel::Logical(l, _, _) => {
            lemma_first_token(ts, pos, *l);
        },
        ExprModel::Call(c, _, _) => {
            lemma_first_token(ts, pos, *c);
        },
        _ => {},
    }
}

/// The size of an argument is less than the size of its call.
proof fn lemma_argument_is_smaller(e: ExprModel, n: nat, i: int)
    requires
        e is Call,
        0 <= i < n <= e->Call_2.len(),
    ensures
        size(e->Call_2[i]) <= size_of_arguments(e, n),
        size_of_arguments(e, n) < size(e),
    decreases e->Call_2.len() - n,
{
    lemma_arguments_grow(e, n, i);
    if n < e->Call_2.len() {
        lemma_argument_is_smaller(e, n + 1, i);
        lemma_arguments_grow(e, n + 1, n as int);
    }
}

proof fn lemma_arguments_grow(e: ExprModel, n: nat, i: int)
    requires
        e is Call,
        0 <= i < n <= e->Call_2.len(),
    ensures
        size(e->Call_2[i]) <= size_of_arguments(e, n),
        n >= 2 ==> size_of_arguments(e, (n - 1) as nat) < size_of_arguments(e, n),
    decreases n,
{
    if n >= 2 && i < n - 1 {
        lemma_arguments_grow(e, (n - 1) as nat, i);
    }
}

/// What the spelling of all arguments says of the first `n`.
proof fn lemma_spells_first(ts: Seq<TokenModel>, pos: int, e: ExprModel, m: nat, n: nat)
    requires
        e is Call,
        1 <= n <= m <= e->Call_2.len(),
        spells_arguments(ts, pos, e, m),
    ensures
        spells_arguments(ts, pos, e, n),
    decreases m - n,
{
    if n < m {
        lemma_spells_first(ts, pos, e, (m - 1) as nat, n);
    }
}

/// The parser reads the arguments of a call, from the point behind the
/// first `n` of them, to the end of the call.
proof fn lemma_arguments(ts: Seq<TokenModel>, at: int, e: ExprModel, n: nat)
    requires
        terminated(ts),
        e is Call,
        1 <= n <= e->Call_2.len(),
        0 <= at,
        at + size_of_arguments(e, e->Call_2.len()) < ts.len(),
        spells_arguments(ts, at, e, e->Call_2.len()),
        ts[at + size_of_arguments(e, e->Call_2.len())] == e->Call_1,
        e->Call_1.kind == TokenType::RightParenthesis,
    ensures
        arguments_rest(
            ts,
            at + size_of_arguments(e, n),
            *e->Call_0,
            e->Call_2.take(n as int),
        ) == done(e, at + size_of_arguments(e, e->Call_2.len()) + 1),
    decreases size(e), 0int, e->Call_2.len() - n,
{
    let args = e->Call_2;
    let callee = *e->Call_0;
    let paren = e->Call_1;
    let p = at + size_of_arguments(e, n);
    lemma_arguments_grow(e, args.len(), 0);
    if n < args.len() {
        lemma_argument_is_smaller(e, args.len(), n as int);
        lemma_arguments_grow(e, args.len(), n as int);
        lemma_spells_first(ts, at, e, args.len(), n + 1);
        lemma_arguments_within(e, n + 1);
        assert(ts[p].kind == TokenType::Comma);
        assert(spells(ts, p + 1, args[n as int]));
        let next = p + 1 + size(args[n as int]);
        assert(next == at + size_of_arguments(e, n + 1));
        if n + 1 < args.len() {
            lemma_spells_first(ts, at, e, args.len(), n + 2);
            lemma_arguments_within(e, n + 2);
            assert(ts[next].kind == TokenType::Comma);
        } else {
            assert(ts[next] == paren);
        }
        assert(ends(ts[next].kind, 0));
        lemma_done(ts, p + 1, args[n as int], 0);
        assert(valid(ts, p));
        assert(valid(ts, p + 1));
        assert(expression(ts, p + 1) == done(args[n as int], next));
        assert(onward(ts, next, p + 1) == next);
        lemma_arguments(ts, at, e, n + 1);
        assert(args.take(n as int).push(args[n as int]) == args.take(n as int + 1));
        assert(arguments_rest(ts, p, callee, args.take(n as int)) == arguments_rest(
            ts,
            next,
            callee,
            args.take(n as int + 1),
        ));
    } else {
        assert(args.take(n as int) == args);
        assert(valid(ts, p));
        assert(ts[p] == paren);
        assert(!check(ts, p, TokenType::Comma));
        assert(check(ts, p, TokenType::RightParenthesis));
        assert(close_call(ts, p, callee, args) == done(
            ExprModel::Call(Box::new(callee), paren, args),
            p + 1,
        ));
        assert(arguments_rest(ts, p, callee, args) == close_call(ts, p, callee, args));
    }
}

/// The first `n` arguments take no more room than all of them.
proof fn lemma_arguments_within(e: ExprModel, n: nat)
    requires
        e is Call,
        1 <= n <= e->Call_2.len(),
    ensures
        size_of_arguments(e, n) <= size_of_arguments(e, e->Call_2.len()),
    decreases e->Call_2.len() - n,
{
    if n < e->Call_2.len() {
        lemma_arguments_within(e, n + 1);
        lemma_arguments_grow(e, n + 1, 0);
    }
}

/// With the tokens of `e` read at the level of tightness `k`, the loop of
/// that level is where it is with `e` for its left operand.
pub proof fn lemma_rest(ts: Seq<TokenModel>, pos: int, e: ExprModel, k: int)
    requires
        terminated(ts),
        spells(ts, pos, e),
        1 <= k <= 6,
        k <= tightness(e),
        ends(ts[pos + size(e)].kind, k + 1),
    ensures
        binary(ts, pos, level_of(k)) == binary_rest(ts, pos + size(e), level_of(k), e),
    decreases size(e), 2 * (9 - k), 0int,
{
    let lv = level_of(k);
    let q = pos + size(e);
    assert(valid(ts, pos));
    assert(operand(ts, pos, lv) == parse_at(ts, pos, k + 1));
    if tightness(e) > k {
        lemma_done(ts, pos, e, k + 1);
        assert(onward(ts, q, pos) == q);
    } else {
        match e {
            ExprModel::Binary(l, op, r) => {
                lemma_rest_of_node(ts, pos, e, *l, op, *r, k);
            },
            ExprModel::Logical(l, op, r) => {
                lemma_rest_of_node(ts, pos, e, *l, op, *r, k);
            },
            _ => {},
        }
    }
}

/// The case of `lemma_rest` in which `e` is an operator of the level with
/// its operands.
proof fn lemma_rest_of_node(
    ts: Seq<TokenModel>,
    pos: int,
    e: ExprModel,
    l: ExprModel,
    op: TokenModel,
    r: ExprModel,
    k: int,
)
    requires
        terminated(ts),
        spells(ts, pos, e),
        1 <= k <= 6,
        k == tightness(e),
        ends(ts[pos + size(e)].kind, k + 1),
        e == ExprModel::Binary(Box::new(l), op, Box::new(r)) || e == ExprModel::Logical(
            Box::new(l),
            op,
            Box::new(r),
        ),
    ensures
        binary(ts, pos, level_of(k)) == binary_rest(ts, pos + size(e), level_of(k), e),
    decreases size(e), 2 * (9 - k) - 1, 0int,
{
    let lv = level_of(k);
    let p = pos + size(l);
    let q = pos + size(e);
    assert(size(e) == size(l) + 1 + size(r));
    assert(spells(ts, pos, l));
    assert(spells(ts, p + 1, r));
    assert(ts[p] == op);
    assert(is_operator(lv, op.kind));
    assert(ends(op.kind, k + 1));
    lemma_rest(ts, pos, l, k);
    lemma_check_operators(ts, p, lv);
    assert(valid(ts, p));
    assert(valid(ts, p + 1));
    assert(operand(ts, p + 1, lv) == parse_at(ts, p + 1, k + 1));
    lemma_done(ts, p + 1, r, k + 1);
    assert(onward(ts, q, p + 1) == q);
    assert(node(lv, l, op, r) == e);
    assert(binary_rest(ts, p, lv, l) == binary_rest(ts, q, lv, e));
}

proof fn lemma_done_binary(ts: Seq<TokenModel>, pos: int, e: ExprModel, k: int)
    requires
        terminated(ts),
        spells(ts, pos, e),
        0 <= k <= tightness(e),
        ends(ts[pos + size(e)].kind, k),
        1 <= k <= 6,
    ensures
        parse_at(ts, pos, k) == done(e, pos + size(e)),
    decreases size(e), 2 * (9 - k) + 1, 1int,
{
    let q = pos + size(e);
    let f = ts[q].kind;
    assert(valid(ts, pos));
    assert(valid(ts, q));
    lemma_rest(ts, pos, e, k);
    lemma_check_operators(ts, q, level_of(k));
    assert(!goes_on(f, k));
}

proof fn lemma_done_assignment(ts: Seq<TokenModel>, pos: int, e: ExprModel, k: int)
    requires
        terminated(ts),
        spells(ts, pos, e),
        0 <= k <= tightness(e),
        ends(ts[pos + size(e)].kind, k),
        k == 0,
    ensures
        parse_at(ts, pos, k) == done(e, pos + size(e)),
    decreases size(e), 2 * (9 - k) + 1, 1int,
{
    let q = pos + size(e);
    let f = ts[q].kind;
    assert(valid(ts, pos));
    assert(valid(ts, q));
    assert(expression(ts, pos) == assignment(ts, pos));
    match e {
        ExprModel::Assign(name, x) => {
            let v = ExprModel::Variable(name);
            assert(spells(ts, pos, v));
            assert(ends(ts[pos + 1].kind, 1));
            lemma_done(ts, pos, v, 1);
            assert(binary(ts, pos, Level::Or) == done(v, pos + 1));
            assert(onward(ts, pos + 1, pos) == pos + 1);
            assert(check(ts, pos + 1, TokenType::Equal));
            assert(spells(ts, pos + 2, *x));
            lemma_done(ts, pos + 2, *x, 0);
            assert(valid(ts, pos + 2));
            assert(expression(ts, pos + 2) == assignment(ts, pos + 2));
        },
        _ => {
            lemma_done(ts, pos, e, 1);
            assert(binary(ts, pos, Level::Or) == done(e, q));
            assert(onward(ts, q, pos) == q);
            assert(!goes_on(f, 0));
            assert(!check(ts, q, TokenType::Equal));
        },
    }
}

proof fn lemma_done_unary(ts: Seq<TokenModel>, pos: int, e: ExprModel, k: int)
    requires
        terminated(ts),
        spells(ts, pos, e),
        0 <= k <= tightness(e),
        ends(ts[pos + size(e)].kind, k),
        k == 7,
    ensures
        parse_at(ts, pos, k) == done(e, pos + size(e)),
    decreases size(e), 2 * (9 - k) + 1, 1int,
{
    let q = pos + size(e);
    let f = ts[q].kind;
    assert(valid(ts, pos));
    assert(valid(ts, q));
    let both = seq![TokenType::Bang, TokenType::Minus];
    match e {
        ExprModel::Unary(op, x) => {
            assert(both[0] == TokenType::Bang && both[1] == TokenType::Minus);
            assert(both.contains(ts[pos].kind));
            assert(check_any(ts, pos, both));
            assert(valid(ts, pos + 1));
            lemma_done(ts, pos + 1, *x, 7);
        },
        _ => {
            lemma_first_token(ts, pos, e);
            assert(!both.contains(ts[pos].kind));
            lemma_done(ts, pos, e, 8);
        },
    }
}

/// The membership of a kind in a list of two kinds.
proof fn lemma_one_of_two(a: TokenType, b: TokenType, kind: TokenType)
    ensures
        seq![a, b].contains(kind) <==> (kind == a || kind == b),
{
    let s = seq![a, b];
    if kind == a {
        assert(s[0] == kind);
    }
    if kind == b {
        assert(s[1] == kind);
    }
}

proof fn lemma_call_plain(ts: Seq<TokenModel>, pos: int, e: ExprModel, q: int)
    requires
        valid(ts, pos),
        valid(ts, q),
        pos <= q,
        primary(ts, pos) == done(e, q),
        ts[q].kind != TokenType::LeftParenthesis,
    ensures
        call(ts, pos) == done(e, q),
{
    assert(onward(ts, q, pos) == q);
    assert(!check(ts, q, TokenType::LeftParenthesis));
}

proof fn lemma_call_open(
    ts: Seq<TokenModel>,
    pos: int,
    c: ExprModel,
    at: int,
    result: Parsed<ExprModel>,
)
    requires
        valid(ts, pos),
        valid(ts, at),
        valid(ts, at + 1),
        pos <= at,
        primary(ts, pos) == done(c, at),
        ts[at].kind == TokenType::LeftParenthesis,
        finish_call(ts, at + 1, c) == result,
    ensures
        call(ts, pos) == result,
{
    assert(onward(ts, at, pos) == at);
    assert(check(ts, at, TokenType::LeftParenthesis));
}

proof fn lemma_finish_empty(ts: Seq<TokenModel>, p: int, c: ExprModel, paren: TokenModel)
    requires
        valid(ts, p),
        ts[p] == paren,
        paren.kind == TokenType::RightParenthesis,
    ensures
        finish_call(ts, p, c) == done(
            ExprModel::Call(Box::new(c), paren, Seq::empty()),
            p + 1,
        ),
{
    assert(check(ts, p, TokenType::RightParenthesis));
    assert(close_call(ts, p, c, Seq::empty()) == done(
        ExprModel::Call(Box::new(c), paren, Seq::empty()),
        p + 1,
    ));
}

proof fn lemma_finish_first(ts: Seq<TokenModel>, p: int, c: ExprModel, first: ExprModel, next: int)
    requires
        valid(ts, p),
        valid(ts, next),
        p <= next,
        ts[p].kind != TokenType::RightParenthesis,
        expression(ts, p) == done(first, next),
    ensures
        finish_call(ts, p, c) == arguments_rest(ts, next, c, seq![first]),
{
    assert(!check(ts, p, TokenType::RightParenthesis));
    assert(onward(ts, next, p) == next);
}

/// What the spelling of a call says.
proof fn lemma_spells_call(ts: Seq<TokenModel>, pos: int, e: ExprModel)
    requires
        spells(ts, pos, e),
        e is Call,
    ensures
        tightness(*e->Call_0) == 9,
        spells(ts, pos, *e->Call_0),
        size(e) == size(*e->Call_0) + 2 + size_of_arguments(e, e->Call_2.len()),
        ts[pos + size(*e->Call_0)].kind == TokenType::LeftParenthesis,
        spells_arguments(ts, pos + size(*e->Call_0) + 1, e, e->Call_2.len()),
        ts[pos + size(e) - 1] == e->Call_1,
        e->Call_1.kind == TokenType::RightParenthesis,
        0 <= pos,
        pos + size(e) < ts.len(),
        size(*e->Call_0) >= 1,
{
}

proof fn lemma_done_call_without_arguments(ts: Seq<TokenModel>, pos: int, e: ExprModel)
    requires
        terminated(ts),
        spells(ts, pos, e),
        e is Call,
        e->Call_2.len() == 0,
    ensures
        call(ts, pos) == done(e, pos + size(e)),
    decreases size(e), 3int, 0int,
{
    let c = *e->Call_0;
    let paren = e->Call_1;
    let at = pos + size(c);
    lemma_spells_call(ts, pos, e);
    assert(size_of_arguments(e, 0) == 0);
    assert(ends(ts[at].kind, 9));
    lemma_done(ts, pos, c, 9);
    lemma_finish_empty(ts, at + 1, c, paren);
    assert(e->Call_2 == Seq::<ExprModel>::empty());
    assert(e == ExprModel::Call(Box::new(c), paren, Seq::empty()));
    lemma_call_open(ts, pos, c, at, done(e, at + 2));
}

/// What the spelling of the arguments says of the first of them.
proof fn lemma_first_argument(ts: Seq<TokenModel>, at: int, e: ExprModel)
    requires
        e is Call,
        e->Call_2.len() > 0,
        0 <= at,
        at + size_of_arguments(e, e->Call_2.len()) < ts.len(),
        spells_arguments(ts, at, e, e->Call_2.len()),
        ts[at + size_of_arguments(e, e->Call_2.len())].kind == TokenType::RightParenthesis,
    ensures
        spells(ts, at, e->Call_2[0]),
        size(e->Call_2[0]) < size(e),
        size_of_arguments(e, 1) == size(e->Call_2[0]),
        at + size(e->Call_2[0]) < ts.len(),
        ends(ts[at + size(e->Call_2[0])].kind, 0),
{
    lemma_argument_is_smaller(e, e->Call_2.len(), 0);
    lemma_spells_first(ts, at, e, e->Call_2.len(), 1);
    lemma_follows_argument(ts, at, e, 1);
}

proof fn lemma_call_assemble(
    ts: Seq<TokenModel>,
    pos: int,
    c: ExprModel,
    first: ExprModel,
    at: int,
    next: int,
    result: Parsed<ExprModel>,
)
    requires
        valid(ts, pos),
        valid(ts, at),
        valid(ts, at + 1),
        valid(ts, next),
        pos <= at,
        at + 1 <= next,
        primary(ts, pos) == done(c, at),
        ts[at].kind == TokenType::LeftParenthesis,
        ts[at + 1].kind != TokenType::RightParenthesis,
        expression(ts, at + 1) == done(first, next),
        arguments_rest(ts, next, c, seq![first]) == result,
    ensures
        call(ts, pos) == result,
{
    lemma_finish_first(ts, at + 1, c, first, next);
    lemma_call_open(ts, pos, c, at, result);
}

/// The parser reads the arguments behind the first to the end of the
/// call.
proof fn lemma_arguments_behind_first(ts: Seq<TokenModel>, at: int, e: ExprModel)
    requires
        terminated(ts),
        e is Call,
        1 <= e->Call_2.len(),
        0 <= at,
        at + size_of_arguments(e, e->Call_2.len()) < ts.len(),
        spells_arguments(ts, at, e, e->Call_2.len()),
        ts[at + size_of_arguments(e, e->Call_2.len())] == e->Call_1,
        e->Call_1.kind == TokenType::RightParenthesis,
    ensures
        arguments_rest(ts, at + size(e->Call_2[0]), *e->Call_0, seq![e->Call_2[0]]) == done(
            e,
            at + size_of_arguments(e, e->Call_2.len()) + 1,
        ),
    decreases size(e), 0int, e->Call_2.len(),
{
    lemma_arguments(ts, at, e, 1);
    assert(e->Call_2.take(1) == seq![e->Call_2[0]]);
    assert(size_of_arguments(e, 1) == size(e->Call_2[0]));
}

proof fn lemma_done_call_with_arguments(ts: Seq<TokenModel>, pos: int, e: ExprModel)
    requires
        terminated(ts),
        spells(ts, pos, e),
        e is Call,
        e->Call_2.len() > 0,
    ensures
        call(ts, pos) == done(e, pos + size(e)),
    decreases size(e), 3int, 0int,
{
    let c = *e->Call_0;
    let first = e->Call_2[0];
    let at = pos + size(c);
    let next = at + 1 + size(first);
    lemma_spells_call(ts, pos, e);
    lemma_done(ts, pos, c, 9);
    lemma_first_argument(ts, at + 1, e);
    lemma_first_token(ts, at + 1, first);
    lemma_done(ts, at + 1, first, 0);
    lemma_arguments_behind_first(ts, at + 1, e);
    lemma_call_assemble(ts, pos, c, first, at, next, done(e, pos + size(e)));
}

/// Behind the first `n` arguments stands a comma or the closing
/// parenthesis, which no expression goes on with.
proof fn lemma_follows_argument(ts: Seq<TokenModel>, at: int, e: ExprModel, n: nat)
    requires
        e is Call,
        1 <= n <= e->Call_2.len(),
        0 <= at,
        at + size_of_arguments(e, e->Call_2.len()) < ts.len(),
        spells_arguments(ts, at, e, e->Call_2.len()),
        ts[at + size_of_arguments(e, e->Call_2.len())].kind == TokenType::RightParenthesis,
    ensures
        ends(ts[at + size_of_arguments(e, n)].kind, 0),
        n < e->Call_2.len() ==> ts[at + size_of_arguments(e, n)].kind == TokenType::Comma,
        at + size_of_arguments(e, n) < ts.len(),
{
    lemma_arguments_within(e, n);
    if n < e->Call_2.len() {
        lemma_spells_first(ts, at, e, e->Call_2.len(), n + 1);
        assert(ts[at + size_of_arguments(e, n)].kind == TokenType::Comma);
    }
}

proof fn lemma_done_call(ts: Seq<TokenModel>, pos: int, e: ExprModel, k: int)
    requires
        terminated(ts),
        spells(ts, pos, e),
        0 <= k <= tightness(e),
        ends(ts[pos + size(e)].kind, k),
        k == 8,
    ensures
        parse_at(ts, pos, k) == done(e, pos + size(e)),
    decreases size(e), 2 * (9 - k) + 1, 1int,
{
    let q = pos + size(e);
    if e is Call {
        if e->Call_2.len() == 0 {
            lemma_done_call_without_arguments(ts, pos, e);
        } else {
            lemma_done_call_with_arguments(ts, pos, e);
        }
    } else {
        lemma_done(ts, pos, e, 9);
        assert(!goes_on(ts[q].kind, 8));
        lemma_call_plain(ts, pos, e, q);
    }
}

proof fn lemma_primary_literal(ts: Seq<TokenModel>, pos: int, v: Value)
    requires
        valid(ts, pos),
        names_literal(ts[pos], v),
    ensures
        primary(ts, pos) == done(ExprModel::Literal(v), pos + 1),
{
    lemma_one_of_two(TokenType::Number, TokenType::String, ts[pos].kind);
}

proof fn lemma_primary_variable(ts: Seq<TokenModel>, pos: int)
    requires
        valid(ts, pos),
        ts[pos].kind == TokenType::Identifier,
    ensures
        primary(ts, pos) == done(ExprModel::Variable(ts[pos]), pos + 1),
{
    lemma_one_of_two(TokenType::Number, TokenType::String, ts[pos].kind);
}

proof fn lemma_primary_grouping(ts: Seq<TokenModel>, pos: int, x: ExprModel, close: int)
    requires
        valid(ts, pos),
        valid(ts, close),
        pos < close,
        ts[pos].kind == TokenType::LeftParenthesis,
        expression(ts, pos + 1) == done(x, close),
        ts[close].kind == TokenType::RightParenthesis,
    ensures
        primary(ts, pos) == done(ExprModel::Grouping(Box::new(x)), close + 1),
{
    lemma_one_of_two(TokenType::Number, TokenType::String, ts[pos].kind);
    assert(onward(ts, close, pos + 1) == close);
    assert(check(ts, close, TokenType::RightParenthesis));
}

proof fn lemma_done_primary(ts: Seq<TokenModel>, pos: int, e: ExprModel, k: int)
    requires
        terminated(ts),
        spells(ts, pos, e),
        0 <= k <= tightness(e),
        ends(ts[pos + size(e)].kind, k),
        k == 9,
    ensures
        parse_at(ts, pos, k) == done(e, pos + size(e)),
    decreases size(e), 2 * (9 - k) + 1, 1int,
{
    assert(valid(ts, pos));
    match e {
        ExprModel::Literal(v) => {
            lemma_primary_literal(ts, pos, v);
        },
        ExprModel::Variable(t) => {
            lemma_primary_variable(ts, pos);
        },
        ExprModel::Grouping(x) => {
            let close = pos + 1 + size(*x);
            assert(valid(ts, pos + 1));
            assert(ends(TokenType::RightParenthesis, 0));
            lemma_done(ts, pos + 1, *x, 0);
            assert(valid(ts, close));
            lemma_primary_grouping(ts, pos, *x, close);
        },
        _ => {},
    }
}

/// A token sequence that spells an expression is parsed to it.
///
/// Where the tokens from `pos` on spell `e`, and the token behind them
/// ends every expression of a tightness of at least `k`, the parser, asked
/// at `pos` for an expression of that tightness, gives `e` and stops
/// behind its tokens.
pub proof fn lemma_done(ts: Seq<TokenModel>, pos: int, e: ExprModel, k: int)
    requires
        terminated(ts),
        spells(ts, pos, e),
        0 <= k <= tightness(e),
        ends(ts[pos + size(e)].kind, k),
    ensures
        parse_at(ts, pos, k) == done(e, pos + size(e)),
    decreases size(e), 2 * (9 - k) + 1, 2int,
{
    if 1 <= k <= 6 {
        lemma_done_binary(ts, pos, e, k);
    } else if k == 0 {
        lemma_done_assignment(ts, pos, e, k);
    } else if k == 7 {
        lemma_done_unary(ts, pos, e, k);
    } else if k == 8 {
        lemma_done_call(ts, pos, e, k);
    } else {
        lemma_done_primary(ts, pos, e, k);
    }
}

/// What is written as an expression statement's expression parses back:
/// tokens that spell `e`, with a token behind them that no expression goes
/// on with (a semicolon, a closing parenthesis, a comma), are parsed as an
/// expression to `e`, all of them and no more.
pub proof fn lemma_expression_parses_back(ts: Seq<TokenModel>, pos: int, e: ExprModel)
    requires
        terminated(ts),
        spells(ts, pos, e),
        ends(ts[pos + size(e)].kind, 0),
    ensures
        expression(ts, pos) == done(e, pos + size(e)),
{
    lemma_done(ts, pos, e, 0);
}

/// Whether a statement can stand as a branch or a body: everything but a
/// variable declaration.
pub open spec fn plain(s: StatementModel) -> bool {
    !(s is Variable)
}

/// Whether a statement is closed to an `else` that follows it: an `if`
/// without `else` is not, nor is a statement that ends with one.
pub open spec fn closed(s: StatementModel) -> bool
    decreases s,
{
    match s {
        StatementModel::If(_, _, other) => match other {
            Some(x) => closed(*x),
            None => false,
        },
        StatementModel::While(_, body) => closed(*body),
        _ => true,
    }
}

/// How many tokens spell the parameters of a function, the commas
/// counted.
pub open spec fn span_of_parameters(count: nat) -> nat {
    if count == 0 {
        0
    } else {
        (2 * count - 1) as nat
    }
}

/// How many tokens spell the statement.
pub open spec fn span(s: StatementModel) -> nat
    decreases s, 1int,
{
    match s {
        StatementModel::Expression(e) => size(e) + 1,
        StatementModel::Variable(_, init) => match init {
            Some(e) => size(e) + 4,
            None => 3,
        },
        StatementModel::Block(items) => 2 + span_of_items(s, items.len()),
        StatementModel::If(c, t, other) => 3 + size(c) + span(*t) + match other {
            Some(x) => 1 + span(*x),
            None => 0,
        },
        StatementModel::While(c, body) => 3 + size(c) + span(*body),
        StatementModel::Function(_, params, body) => 4 + span_of_parameters(params.len()) + span(
            *body,
        ),
        StatementModel::Return(_, e) => size(e) + 2,
        StatementModel::Import(_) => 3,
    }
}

/// How many tokens spell the first `n` items of the block `s`.
pub open spec fn span_of_items(s: StatementModel, n: nat) -> nat
    decreases s, 0int, n,
{
    match s {
        StatementModel::Block(items) => if n == 0 || n > items.len() {
            0
        } else {
            span_of_items(s, (n - 1) as nat) + span(items[n - 1])
        },
        _ => 0,
    }
}

/// Whether the tokens from `pos` on spell the first `n` parameters, with
/// a comma between one and the next.
pub open spec fn states_parameters(
    ts: Seq<TokenModel>,
    pos: int,
    params: Seq<TokenModel>,
    n: nat,
) -> bool
    decreases n,
{
    if n == 0 || n > params.len() {
        true
    } else {
        &&& states_parameters(ts, pos, params, (n - 1) as nat)
        &&& 0 <= pos + 2 * (n - 1) < ts.len()
        &&& ts[pos + 2 * (n - 1)] == params[n - 1]
        &&& params[n - 1].kind == TokenType::Identifier
        &&& (n > 1 ==> ts[pos + 2 * (n - 1) - 1].kind == TokenType::Comma)
    }
}

/// Whether the tokens from `pos` on spell the statement `s` as it is
/// written.
pub open spec fn states(ts: Seq<TokenModel>, pos: int, s: StatementModel) -> bool
    decreases s, 1int,
{
    &&& 0 <= pos
    &&& pos + span(s) < ts.len()
    &&& match s {
        StatementModel::Expression(e) => spells(ts, pos, e) && ts[pos + size(e)].kind
            == TokenType::Semicolon,
        StatementModel::Variable(name, init) => ts[pos].kind == TokenType::Var && ts[pos + 1]
            == name && name.kind == TokenType::Identifier && match init {
            Some(e) => ts[pos + 2].kind == TokenType::Equal && spells(ts, pos + 3, e) && ts[pos
                + 3 + size(e)].kind == TokenType::Semicolon,
            None => ts[pos + 2].kind == TokenType::Semicolon,
        },
        StatementModel::Block(items) => ts[pos].kind == TokenType::LeftBrace && states_items(
            ts,
            pos + 1,
            s,
            items.len(),
        ) && ts[pos + 1 + span_of_items(s, items.len())].kind == TokenType::RightBrace,
        StatementModel::If(c, t, other) => {
            let then_at = pos + 3 + size(c);
            &&& ts[pos].kind == TokenType::If
            &&& ts[pos + 1].kind == TokenType::LeftParenthesis
            &&& spells(ts, pos + 2, c)
            &&& ts[pos + 2 + size(c)].kind == TokenType::RightParenthesis
            &&& plain(*t)
            &&& states(ts, then_at, *t)
            &&& match other {
                Some(x) => closed(*t) && ts[then_at + span(*t)].kind == TokenType::Else && plain(
                    *x,
                ) && states(ts, then_at + span(*t) + 1, *x),
                None => true,
            }
        },
        StatementModel::While(c, body) => ts[pos].kind == TokenType::While && ts[pos + 1].kind
            == TokenType::LeftParenthesis && spells(ts, pos + 2, c) && ts[pos + 2 + size(c)].kind
            == TokenType::RightParenthesis && plain(*body) && states(
            ts,
            pos + 3 + size(c),
            *body,
        ),
        StatementModel::Function(name, params, body) => ts[pos].kind == TokenType::Fun && ts[pos
            + 1] == name && name.kind == TokenType::Identifier && ts[pos + 2].kind
            == TokenType::LeftParenthesis && states_parameters(
            ts,
            pos + 3,
            params,
            params.len(),
        ) && ts[pos + 3
            + span_of_parameters(params.len())].kind == TokenType::RightParenthesis && *body
            is Block && states(ts, pos + 4 + span_of_parameters(params.len()), *body),
        StatementModel::Return(keyword, e) => ts[pos] == keyword && keyword.kind
            == TokenType::Return && spells(ts, pos + 1, e) && ts[pos + 1 + size(e)].kind
            == TokenType::Semicolon,
        StatementModel::Import(file) => ts[pos].kind == TokenType::Import && ts[pos + 1] == file
            && file.kind == TokenType::String && ts[pos + 2].kind == TokenType::Semicolon,
    }
}

/// Whether the tokens from `pos` on spell the first `n` items of the
/// block `s`, one after the other; none of them is open to an `else`.
pub open spec fn states_items(ts: Seq<TokenModel>, pos: int, s: StatementModel, n: nat) -> bool
    decreases s, 0int, n,
{
    match s {
        StatementModel::Block(items) => if n == 0 || n > items.len() {
            true
        } else {
            &&& states_items(ts, pos, s, (n - 1) as nat)
            &&& states(ts, pos + span_of_items(s, (n - 1) as nat), items[n - 1])
            &&& (closed(items[n - 1]) || ts[pos + span_of_items(s, n)].kind != TokenType::Else)
        },
        _ => true,
    }
}

proof fn lemma_expr_statement(ts: Seq<TokenModel>, pos: int, e: ExprModel, q: int)
    requires
        valid(ts, pos),
        valid(ts, q),
        pos <= q,
        expression(ts, pos) == done(e, q),
        ts[q].kind == TokenType::Semicolon,
    ensures
        expr_statement(ts, pos) == done(StatementModel::Expression(e), q + 1),
{
    assert(onward(ts, q, pos) == q);
    assert(check(ts, q, TokenType::Semicolon));
}

proof fn lemma_statement_is_expression(ts: Seq<TokenModel>, pos: int)
    requires
        valid(ts, pos),
        begins(ts[pos].kind),
    ensures
        statement(ts, pos) == expr_statement(ts, pos),
        !check(ts, pos, TokenType::Var),
{
}

proof fn lemma_declaration_of_variable(
    ts: Seq<TokenModel>,
    pos: int,
    s: StatementModel,
    q: int,
)
    requires
        valid(ts, pos),
        ts[pos].kind == TokenType::Var,
        var_statement(ts, pos + 1) == done(s, q),
    ensures
        declaration(ts, pos) == done(s, q),
{
    assert(check(ts, pos, TokenType::Var));
}

proof fn lemma_declaration_of_statement(
    ts: Seq<TokenModel>,
    pos: int,
    s: StatementModel,
    q: int,
)
    requires
        valid(ts, pos),
        ts[pos].kind != TokenType::Var,
        statement(ts, pos) == done(s, q),
    ensures
        declaration(ts, pos) == done(s, q),
{
    assert(!check(ts, pos, TokenType::Var));
}

proof fn lemma_var_without_initializer(ts: Seq<TokenModel>, pos: int, name: TokenModel)
    requires
        valid(ts, pos),
        valid(ts, pos + 1),
        ts[pos] == name,
        name.kind == TokenType::Identifier,
        ts[pos + 1].kind == TokenType::Semicolon,
    ensures
        var_statement(ts, pos) == done(StatementModel::Variable(name, None), pos + 2),
{
    assert(check(ts, pos, TokenType::Identifier));
    assert(!check(ts, pos + 1, TokenType::Equal));
    assert(check(ts, pos + 1, TokenType::Semicolon));
    assert(finish_var(ts, pos + 1, name, None) == done(
        StatementModel::Variable(name, None),
        pos + 2,
    ));
}

proof fn lemma_var_with_initializer(
    ts: Seq<TokenModel>,
    pos: int,
    name: TokenModel,
    e: ExprModel,
    q: int,
)
    requires
        valid(ts, pos),
        valid(ts, pos + 1),
        valid(ts, pos + 2),
        valid(ts, q),
        pos + 2 <= q,
        ts[pos] == name,
        name.kind == TokenType::Identifier,
        ts[pos + 1].kind == TokenType::Equal,
        expression(ts, pos + 2) == done(e, q),
        ts[q].kind == TokenType::Semicolon,
    ensures
        var_statement(ts, pos) == done(StatementModel::Variable(name, Some(e)), q + 1),
{
    assert(check(ts, pos, TokenType::Identifier));
    assert(check(ts, pos + 1, TokenType::Equal));
    assert(onward(ts, q, pos + 2) == q);
    assert(check(ts, q, TokenType::Semicolon));
    assert(finish_var(ts, q, name, Some(e)) == done(
        StatementModel::Variable(name, Some(e)),
        q + 1,
    ));
}

proof fn lemma_if_without_else(
    ts: Seq<TokenModel>,
    pos: int,
    c: ExprModel,
    close: int,
    t: StatementModel,
    after: int,
)
    requires
        valid(ts, pos),
        valid(ts, pos + 1),
        valid(ts, close),
        valid(ts, close + 1),
        valid(ts, after),
        pos + 1 <= close,
        close + 1 <= after,
        ts[pos].kind == TokenType::LeftParenthesis,
        expression(ts, pos + 1) == done(c, close),
        ts[close].kind == TokenType::RightParenthesis,
        statement(ts, close + 1) == done(t, after),
        ts[after].kind != TokenType::Else,
    ensures
        if_statement(ts, pos) == done(StatementModel::If(c, Box::new(t), None), after),
{
    assert(check(ts, pos, TokenType::LeftParenthesis));
    assert(onward(ts, close, pos + 1) == close);
    assert(check(ts, close, TokenType::RightParenthesis));
    assert(onward(ts, after, close + 1) == after);
    assert(!check(ts, after, TokenType::Else));
}

proof fn lemma_if_with_else(
    ts: Seq<TokenModel>,
    pos: int,
    c: ExprModel,
    close: int,
    t: StatementModel,
    after: int,
    x: StatementModel,
    end: int,
)
    requires
        valid(ts, pos),
        valid(ts, pos + 1),
        valid(ts, close),
        valid(ts, close + 1),
        valid(ts, after),
        valid(ts, after + 1),
        pos + 1 <= close,
        close + 1 <= after,
        ts[pos].kind == TokenType::LeftParenthesis,
        expression(ts, pos + 1) == done(c, close),
        ts[close].kind == TokenType::RightParenthesis,
        statement(ts, close + 1) == done(t, after),
        ts[after].kind == TokenType::Else,
        statement(ts, after + 1) == done(x, end),
    ensures
        if_statement(ts, pos) == done(
            StatementModel::If(c, Box::new(t), Some(Box::new(x))),
            end,
        ),
{
    assert(check(ts, pos, TokenType::LeftParenthesis));
    assert(onward(ts, close, pos + 1) == close);
    assert(check(ts, close, TokenType::RightParenthesis));
    assert(onward(ts, after, close + 1) == after);
    assert(check(ts, after, TokenType::Else));
}

proof fn lemma_while(
    ts: Seq<TokenModel>,
    pos: int,
    c: ExprModel,
    close: int,
    body: StatementModel,
    end: int,
)
    requires
        valid(ts, pos),
        valid(ts, pos + 1),
        valid(ts, close),
        valid(ts, close + 1),
        pos + 1 <= close,
        ts[pos].kind == TokenType::LeftParenthesis,
        expression(ts, pos + 1) == done(c, close),
        ts[close].kind == TokenType::RightParenthesis,
        statement(ts, close + 1) == done(body, end),
    ensures
        while_statement(ts, pos) == done(StatementModel::While(c, Box::new(body)), end),
{
    assert(check(ts, pos, TokenType::LeftParenthesis));
    assert(onward(ts, close, pos + 1) == close);
    assert(check(ts, close, TokenType::RightParenthesis));
}

proof fn lemma_return(ts: Seq<TokenModel>, pos: int, keyword: TokenModel, e: ExprModel, q: int)
    requires
        valid(ts, pos),
        valid(ts, q),
        pos <= q,
        ts[pos].kind != TokenType::Semicolon,
        expression(ts, pos) == done(e, q),
        ts[q].kind == TokenType::Semicolon,
    ensures
        return_statement(ts, pos, keyword) == done(StatementModel::Return(keyword, e), q + 1),
{
    assert(!check(ts, pos, TokenType::Semicolon));
    assert(onward(ts, q, pos) == q);
    assert(check(ts, q, TokenType::Semicolon));
}

proof fn lemma_import(ts: Seq<TokenModel>, pos: int, file: TokenModel)
    requires
        valid(ts, pos),
        valid(ts, pos + 1),
        ts[pos] == file,
        file.kind == TokenType::String,
        ts[pos + 1].kind == TokenType::Semicolon,
    ensures
        import_statement(ts, pos) == done(StatementModel::Import(file), pos + 2),
{
    assert(check(ts, pos, TokenType::String));
    assert(check(ts, pos + 1, TokenType::Semicolon));
}

proof fn lemma_function(
    ts: Seq<TokenModel>,
    pos: int,
    name: TokenModel,
    params: Seq<TokenModel>,
    close: int,
    body: StatementModel,
    end: int,
)
    requires
        valid(ts, pos),
        valid(ts, pos + 1),
        valid(ts, pos + 2),
        valid(ts, close),
        valid(ts, close + 1),
        valid(ts, close + 2),
        pos + 2 <= close,
        ts[pos] == name,
        name.kind == TokenType::Identifier,
        ts[pos + 1].kind == TokenType::LeftParenthesis,
        parameters(ts, pos + 2) == done(params, close),
        ts[close].kind == TokenType::RightParenthesis,
        ts[close + 1].kind == TokenType::LeftBrace,
        block_statement(ts, close + 2) == done(body, end),
    ensures
        function(ts, pos) == done(StatementModel::Function(name, params, Box::new(body)), end),
{
    assert(check(ts, pos, TokenType::Identifier));
    assert(check(ts, pos + 1, TokenType::LeftParenthesis));
    assert(onward(ts, close, pos + 2) == close);
    assert(check(ts, close, TokenType::RightParenthesis));
    assert(check(ts, close + 1, TokenType::LeftBrace));
}

/// What the spelling of all parameters says of the first `n`.
proof fn lemma_states_first_parameters(
    ts: Seq<TokenModel>,
    pos: int,
    params: Seq<TokenModel>,
    m: nat,
    n: nat,
)
    requires
        1 <= n <= m <= params.len(),
        states_parameters(ts, pos, params, m),
    ensures
        states_parameters(ts, pos, params, n),
    decreases m - n,
{
    if n < m {
        lemma_states_first_parameters(ts, pos, params, (m - 1) as nat, n);
    }
}

/// The parser reads the parameters from the point behind the first `n` of
/// them to their end.
proof fn lemma_parameters_rest(ts: Seq<TokenModel>, base: int, params: Seq<TokenModel>, n: nat)
    requires
        terminated(ts),
        1 <= n <= params.len(),
        0 <= base,
        base + 2 * params.len() - 1 < ts.len(),
        states_parameters(ts, base, params, params.len()),
        ts[base + 2 * params.len() - 1].kind == TokenType::RightParenthesis,
    ensures
        parameters_rest(ts, base + 2 * n - 1, params.take(n as int)) == done(
            params,
            base + 2 * params.len() - 1,
        ),
    decreases params.len() - n,
{
    let p = base + 2 * n - 1;
    assert(valid(ts, p));
    if n < params.len() {
        lemma_states_first_parameters(ts, base, params, params.len(), n + 1);
        assert(ts[p].kind == TokenType::Comma);
        assert(ts[p + 1] == params[n as int]);
        assert(check(ts, p, TokenType::Comma));
        assert(valid(ts, p + 1));
        assert(check(ts, p + 1, TokenType::Identifier));
        lemma_parameters_rest(ts, base, params, n + 1);
        assert(params.take(n as int).push(params[n as int]) == params.take(n as int + 1));
        assert(valid(ts, p + 2));
    } else {
        assert(params.take(n as int) == params);
        assert(!check(ts, p, TokenType::Comma));
    }
}

/// The parser reads parameters as they are spelled.
proof fn lemma_parameters(ts: Seq<TokenModel>, base: int, params: Seq<TokenModel>)
    requires
        terminated(ts),
        0 <= base,
        base + span_of_parameters(params.len()) < ts.len(),
        states_parameters(ts, base, params, params.len()),
        ts[base + span_of_parameters(params.len())].kind == TokenType::RightParenthesis,
    ensures
        parameters(ts, base) == done(params, base + span_of_parameters(params.len())),
{
    assert(valid(ts, base));
    if params.len() == 0 {
        assert(check(ts, base, TokenType::RightParenthesis));
        assert(params == Seq::<TokenModel>::empty());
    } else {
        lemma_states_first_parameters(ts, base, params, params.len(), 1);
        assert(ts[base] == params[0]);
        assert(!check(ts, base, TokenType::RightParenthesis));
        assert(check(ts, base, TokenType::Identifier));
        lemma_parameters_rest(ts, base, params, 1);
        assert(params.take(1) == seq![params[0]]);
        assert(valid(ts, base + 1));
    }
}

proof fn lemma_statement_by_keyword(ts: Seq<TokenModel>, pos: int)
    requires
        valid(ts, pos),
    ensures
        ts[pos].kind == TokenType::LeftBrace ==> statement(ts, pos) == block_statement(
            ts,
            pos + 1,
        ),
        ts[pos].kind == TokenType::If ==> statement(ts, pos) == if_statement(ts, pos + 1),
        ts[pos].kind == TokenType::While ==> statement(ts, pos) == while_statement(ts, pos + 1),
        ts[pos].kind == TokenType::Fun ==> statement(ts, pos) == function(ts, pos + 1),
        ts[pos].kind == TokenType::Return ==> statement(ts, pos) == return_statement(
            ts,
            pos + 1,
            ts[pos],
        ),
        ts[pos].kind == TokenType::Import ==> statement(ts, pos) == import_statement(
            ts,
            pos + 1,
        ),
{
}

/// A statement takes at least one token, and begins with a token that is
/// neither the end of input nor a closing brace; one that is no variable
/// declaration does not begin with `var`.
pub proof fn lemma_statement_begins(ts: Seq<TokenModel>, pos: int, s: StatementModel)
    requires
        states(ts, pos, s),
    ensures
        span(s) >= 1,
        ts[pos].kind != TokenType::EOF,
        ts[pos].kind != TokenType::RightBrace,
        plain(s) ==> ts[pos].kind != TokenType::Var,
{
    match s {
        StatementModel::Expression(e) => {
            lemma_begins(ts, pos, e);
        },
        _ => {},
    }
}

/// What the spelling of all items says of the first `n`.
proof fn lemma_states_first_items(ts: Seq<TokenModel>, pos: int, s: StatementModel, m: nat, n: nat)
    requires
        s is Block,
        1 <= n <= m <= s->Block_0.len(),
        states_items(ts, pos, s, m),
    ensures
        states_items(ts, pos, s, n),
        span_of_items(s, n) <= span_of_items(s, m),
    decreases m - n,
{
    if n < m {
        lemma_states_first_items(ts, pos, s, (m - 1) as nat, n);
    }
}

/// Where item `n` of a block stands, and what stands behind it.
proof fn lemma_item(ts: Seq<TokenModel>, base: int, s: StatementModel, n: nat)
    requires
        s is Block,
        n < s->Block_0.len(),
        states_items(ts, base, s, s->Block_0.len()),
    ensures
        states(ts, base + span_of_items(s, n), s->Block_0[n as int]),
        span_of_items(s, n + 1) == span_of_items(s, n) + span(s->Block_0[n as int]),
        span_of_items(s, n + 1) <= span_of_items(s, s->Block_0.len()),
        closed(s->Block_0[n as int]) || ts[base + span_of_items(s, n + 1)].kind
            != TokenType::Else,
{
    lemma_states_first_items(ts, base, s, s->Block_0.len(), n + 1);
}

/// The parser reads the items of a block, from the point behind the first
/// `n` of them, to the closing brace.
proof fn lemma_items(ts: Seq<TokenModel>, base: int, s: StatementModel, n: nat)
    requires
        terminated(ts),
        s is Block,
        n <= s->Block_0.len(),
        0 <= base,
        base + span_of_items(s, s->Block_0.len()) < ts.len(),
        states_items(ts, base, s, s->Block_0.len()),
        ts[base + span_of_items(s, s->Block_0.len())].kind == TokenType::RightBrace,
    ensures
        block_items(ts, base + span_of_items(s, n), s->Block_0.take(n as int)) == done(
            s,
            base + span_of_items(s, s->Block_0.len()) + 1,
        ),
    decreases s, 1int, s->Block_0.len() - n,
{
    let items = s->Block_0;
    let p = base + span_of_items(s, n);
    if n < items.len() {
        let item = items[n as int];
        lemma_item(ts, base, s, n);
        lemma_statement_begins(ts, p, item);
        assert(valid(ts, p));
        assert(!check(ts, p, TokenType::RightBrace));
        assert(!at_end(ts, p));
        lemma_declaration(ts, p, item);
        let next = p + span(item);
        assert(onward(ts, next, p + 1) == next);
        lemma_items(ts, base, s, n + 1);
        assert(items.take(n as int).push(item) == items.take(n as int + 1));
    } else {
        assert(items.take(n as int) == items);
        assert(valid(ts, p));
        assert(check(ts, p, TokenType::RightBrace));
        assert(s == StatementModel::Block(items));
    }
}

/// The parser reads a block as it is spelled, the opening brace taken.
proof fn lemma_block(ts: Seq<TokenModel>, pos: int, s: StatementModel)
    requires
        terminated(ts),
        s is Block,
        states(ts, pos, s),
    ensures
        block_statement(ts, pos + 1) == done(s, pos + span(s)),
    decreases s, 2int, 0int,
{
    assert(valid(ts, pos + 1));
    assert(span_of_items(s, 0) == 0);
    lemma_items(ts, pos + 1, s, 0);
    assert(s->Block_0.take(0) == Seq::<StatementModel>::empty());
}

proof fn lemma_statement_of_expression(ts: Seq<TokenModel>, pos: int, s: StatementModel)
    requires
        terminated(ts),
        states(ts, pos, s),
        s is Expression,
        closed(s) || ts[pos + span(s)].kind != TokenType::Else,
    ensures
        statement(ts, pos) == done(s, pos + span(s)),
    decreases s, 3int, 0int,
{
    assert(valid(ts, pos));
    lemma_statement_by_keyword(ts, pos);
    let e = s->Expression_0;
        let q = pos + size(e);
    lemma_begins(ts, pos, e);
    lemma_statement_is_expression(ts, pos);
    assert(ends(TokenType::Semicolon, 0));
    lemma_done(ts, pos, e, 0);
    assert(valid(ts, q));
    lemma_expr_statement(ts, pos, e, q);
}

/// What the spelling of an `if` says.
proof fn lemma_states_if(
    ts: Seq<TokenModel>,
    pos: int,
    c: ExprModel,
    t: StatementModel,
    other: Option<Box<StatementModel>>,
)
    requires
        states(ts, pos, StatementModel::If(c, Box::new(t), other)),
    ensures
        ts[pos].kind == TokenType::If,
        ts[pos + 1].kind == TokenType::LeftParenthesis,
        spells(ts, pos + 2, c),
        ts[pos + 2 + size(c)].kind == TokenType::RightParenthesis,
        plain(t),
        states(ts, pos + 3 + size(c), t),
        0 <= pos,
        pos + span(StatementModel::If(c, Box::new(t), other)) < ts.len(),
        span(StatementModel::If(c, Box::new(t), other)) == 3 + size(c) + span(t) + match other {
            Some(x) => 1 + span(*x),
            None => 0,
        },
        other matches Some(x) ==> closed(t) && ts[pos + 3 + size(c) + span(t)].kind
            == TokenType::Else && plain(*x) && states(ts, pos + 4 + size(c) + span(t), *x),
        closed(StatementModel::If(c, Box::new(t), other)) == match other {
            Some(x) => closed(*x),
            None => false,
        },
{
}

/// What the spelling of a `while` says.
proof fn lemma_states_while(ts: Seq<TokenModel>, pos: int, c: ExprModel, body: StatementModel)
    requires
        states(ts, pos, StatementModel::While(c, Box::new(body))),
    ensures
        ts[pos].kind == TokenType::While,
        ts[pos + 1].kind == TokenType::LeftParenthesis,
        spells(ts, pos + 2, c),
        ts[pos + 2 + size(c)].kind == TokenType::RightParenthesis,
        plain(body),
        states(ts, pos + 3 + size(c), body),
        0 <= pos,
        pos + span(StatementModel::While(c, Box::new(body))) < ts.len(),
        span(StatementModel::While(c, Box::new(body))) == 3 + size(c) + span(body),
        closed(StatementModel::While(c, Box::new(body))) == closed(body),
{
}

/// The parser reads the condition of an `if` or a `while`.
proof fn lemma_condition(ts: Seq<TokenModel>, pos: int, c: ExprModel)
    requires
        terminated(ts),
        spells(ts, pos, c),
        ts[pos + size(c)].kind == TokenType::RightParenthesis,
    ensures
        expression(ts, pos) == done(c, pos + size(c)),
        valid(ts, pos),
        valid(ts, pos + size(c)),
        size(c) >= 1,
{
    assert(ends(TokenType::RightParenthesis, 0));
    lemma_done(ts, pos, c, 0);
}

proof fn lemma_statement_of_if_alone(ts: Seq<TokenModel>, pos: int, s: StatementModel)
    requires
        terminated(ts),
        states(ts, pos, s),
        s is If,
        s->If_2 is None,
        ts[pos + span(s)].kind != TokenType::Else,
    ensures
        statement(ts, pos) == done(s, pos + span(s)),
    decreases s, 3int, 0int,
{
    match s {
        StatementModel::If(c, t, other) => {
            let close = pos + 2 + size(c);
            let after = close + 1 + span(*t);
            lemma_states_if(ts, pos, c, *t, other);
            lemma_condition(ts, pos + 2, c);
            lemma_statement_begins(ts, close + 1, *t);
            assert(after == pos + span(s));
            lemma_statement(ts, close + 1, *t);
            lemma_if_without_else(ts, pos + 1, c, close, *t, after);
            lemma_statement_by_keyword(ts, pos);
        },
        _ => {},
    }
}

proof fn lemma_statement_of_if_else(ts: Seq<TokenModel>, pos: int, s: StatementModel)
    requires
        terminated(ts),
        states(ts, pos, s),
        s is If,
        s->If_2 is Some,
        closed(s) || ts[pos + span(s)].kind != TokenType::Else,
    ensures
        statement(ts, pos) == done(s, pos + span(s)),
    decreases s, 3int, 0int,
{
    match s {
        StatementModel::If(c, t, Some(x)) => {
            let close = pos + 2 + size(c);
            let after = close + 1 + span(*t);
            let end = after + 1 + span(*x);
            lemma_states_if(ts, pos, c, *t, Some(x));
            lemma_condition(ts, pos + 2, c);
            lemma_statement_begins(ts, close + 1, *t);
            lemma_statement(ts, close + 1, *t);
            lemma_statement_begins(ts, after + 1, *x);
            assert(end == pos + span(s));
            lemma_statement(ts, after + 1, *x);
            lemma_if_with_else(ts, pos + 1, c, close, *t, after, *x, end);
            lemma_statement_by_keyword(ts, pos);
        },
        _ => {},
    }
}

proof fn lemma_statement_of_if(ts: Seq<TokenModel>, pos: int, s: StatementModel)
    requires
        terminated(ts),
        states(ts, pos, s),
        s is If,
        closed(s) || ts[pos + span(s)].kind != TokenType::Else,
    ensures
        statement(ts, pos) == done(s, pos + span(s)),
    decreases s, 3int, 1int,
{
    if s->If_2 is None {
        lemma_statement_of_if_alone(ts, pos, s);
    } else {
        lemma_statement_of_if_else(ts, pos, s);
    }
}

proof fn lemma_statement_of_while(ts: Seq<TokenModel>, pos: int, s: StatementModel)
    requires
        terminated(ts),
        states(ts, pos, s),
        s is While,
        closed(s) || ts[pos + span(s)].kind != TokenType::Else,
    ensures
        statement(ts, pos) == done(s, pos + span(s)),
    decreases s, 3int, 0int,
{
    match s {
        StatementModel::While(c, body) => {
            let close = pos + 2 + size(c);
            lemma_states_while(ts, pos, c, *body);
            lemma_condition(ts, pos + 2, c);
            lemma_statement_begins(ts, close + 1, *body);
            lemma_statement(ts, close + 1, *body);
            lemma_while(ts, pos + 1, c, close, *body, close + 1 + span(*body));
            lemma_statement_by_keyword(ts, pos);
        },
        _ => {},
    }
}

proof fn lemma_statement_of_function(ts: Seq<TokenModel>, pos: int, s: StatementModel)
    requires
        terminated(ts),
        states(ts, pos, s),
        s is Function,
        closed(s) || ts[pos + span(s)].kind != TokenType::Else,
    ensures
        statement(ts, pos) == done(s, pos + span(s)),
    decreases s, 3int, 0int,
{
    assert(valid(ts, pos));
    lemma_statement_by_keyword(ts, pos);
    let name = s->Function_0;
    let params = s->Function_1;
    let body = s->Function_2;
        let close = pos + 3 + span_of_parameters(params.len());
    assert(valid(ts, pos + 1));
    assert(valid(ts, pos + 2));
    assert(valid(ts, pos + 3));
    lemma_parameters(ts, pos + 3, params);
    assert(valid(ts, close));
    assert(valid(ts, close + 1));
    assert(states(ts, close + 1, *body));
    assert(ts[close + 1].kind == TokenType::LeftBrace);
    assert(valid(ts, close + 2));
    lemma_block(ts, close + 1, *body);
    lemma_function(
        ts,
        pos + 1,
        name,
        params,
        close,
        *body,
        close + 1 + span(*body),
    );
}

proof fn lemma_statement_of_return(ts: Seq<TokenModel>, pos: int, s: StatementModel)
    requires
        terminated(ts),
        states(ts, pos, s),
        s is Return,
        closed(s) || ts[pos + span(s)].kind != TokenType::Else,
    ensures
        statement(ts, pos) == done(s, pos + span(s)),
    decreases s, 3int, 0int,
{
    assert(valid(ts, pos));
    lemma_statement_by_keyword(ts, pos);
    let keyword = s->Return_0;
    let e = s->Return_1;
        let q = pos + 1 + size(e);
    assert(valid(ts, pos + 1));
    lemma_begins(ts, pos + 1, e);
    assert(ends(TokenType::Semicolon, 0));
    lemma_done(ts, pos + 1, e, 0);
    assert(valid(ts, q));
    lemma_return(ts, pos + 1, keyword, e, q);
}

proof fn lemma_statement_of_import(ts: Seq<TokenModel>, pos: int, s: StatementModel)
    requires
        terminated(ts),
        states(ts, pos, s),
        s is Import,
        closed(s) || ts[pos + span(s)].kind != TokenType::Else,
    ensures
        statement(ts, pos) == done(s, pos + span(s)),
    decreases s, 3int, 0int,
{
    assert(valid(ts, pos));
    lemma_statement_by_keyword(ts, pos);
    let file = s->Import_0;
        assert(valid(ts, pos + 1));
    assert(valid(ts, pos + 2));
    lemma_import(ts, pos + 1, file);
}

/// A token sequence that spells a statement is parsed to it.
///
/// Where the tokens from `pos` on spell `s`, which is no variable
/// declaration, and no `else` follows that `s` is open to, the parser,
/// asked at `pos` for a statement, gives `s` and stops behind its tokens.
pub proof fn lemma_statement(ts: Seq<TokenModel>, pos: int, s: StatementModel)
    requires
        terminated(ts),
        states(ts, pos, s),
        plain(s),
        closed(s) || ts[pos + span(s)].kind != TokenType::Else,
    ensures
        statement(ts, pos) == done(s, pos + span(s)),
    decreases s, 3int, 2int,
{
    match s {
        StatementModel::Expression(_) => {
            lemma_statement_of_expression(ts, pos, s);
        },
        StatementModel::Variable(_, _) => {},
        StatementModel::Block(_) => {
            assert(valid(ts, pos));
            lemma_statement_by_keyword(ts, pos);
            lemma_block(ts, pos, s);
        },
        StatementModel::If(_, _, _) => {
            lemma_statement_of_if(ts, pos, s);
        },
        StatementModel::While(_, _) => {
            lemma_statement_of_while(ts, pos, s);
        },
        StatementModel::Function(_, _, _) => {
            lemma_statement_of_function(ts, pos, s);
        },
        StatementModel::Return(_, _) => {
            lemma_statement_of_return(ts, pos, s);
        },
        StatementModel::Import(_) => {
            lemma_statement_of_import(ts, pos, s);
        },
    }
}

/// A token sequence that spells a declaration or statement is parsed to
/// it.
pub proof fn lemma_declaration(ts: Seq<TokenModel>, pos: int, s: StatementModel)
    requires
        terminated(ts),
        states(ts, pos, s),
        closed(s) || ts[pos + span(s)].kind != TokenType::Else,
    ensures
        declaration(ts, pos) == done(s, pos + span(s)),
    decreases s, 4int, 0int,
{
    assert(valid(ts, pos));
    match s {
        StatementModel::Variable(name, init) => {
            assert(valid(ts, pos + 1));
            assert(valid(ts, pos + 2));
            match init {
                Some(e) => {
                    let q = pos + 3 + size(e);
                    assert(valid(ts, pos + 3));
                    assert(ends(TokenType::Semicolon, 0));
                    lemma_done(ts, pos + 3, e, 0);
                    assert(valid(ts, q));
                    lemma_var_with_initializer(ts, pos + 1, name, e, q);
                },
                None => {
                    lemma_var_without_initializer(ts, pos + 1, name);
                },
            }
            lemma_declaration_of_variable(ts, pos, s, pos + span(s));
        },
        _ => {
            lemma_statement_begins(ts, pos, s);
            lemma_statement(ts, pos, s);
            lemma_declaration_of_statement(ts, pos, s, pos + span(s));
        },
    }
}

/// The parser reads a program from the point behind its first `n`
/// statements to the end of input.
proof fn lemma_program_rest(ts: Seq<TokenModel>, s: StatementModel, n: nat)
    requires
        terminated(ts),
        s is Block,
        n <= s->Block_0.len(),
        span_of_items(s, s->Block_0.len()) < ts.len(),
        states_items(ts, 0, s, s->Block_0.len()),
        ts[span_of_items(s, s->Block_0.len()) as int].kind == TokenType::EOF,
    ensures
        program(ts, span_of_items(s, n) as int, s->Block_0.take(n as int)) == done(
            s->Block_0,
            span_of_items(s, s->Block_0.len()) as int,
        ),
    decreases s->Block_0.len() - n,
{
    let items = s->Block_0;
    let p = span_of_items(s, n) as int;
    if n < items.len() {
        let item = items[n as int];
        lemma_item(ts, 0, s, n);
        lemma_statement_begins(ts, p, item);
        assert(valid(ts, p));
        assert(!at_end(ts, p));
        lemma_declaration(ts, p, item);
        let next = p + span(item);
        assert(onward(ts, next, p + 1) == next);
        lemma_program_rest(ts, s, n + 1);
        assert(items.take(n as int).push(item) == items.take(n as int + 1));
    } else {
        assert(items.take(n as int) == items);
        assert(valid(ts, p));
        assert(at_end(ts, p));
    }
}

/// What is written parses back.
///
/// A token sequence that spells the statements `items` one after the
/// other, as they are written, and then ends, is parsed to `items`: the
/// same statements, tokens and all. This holds of every tree that needs no
/// more parentheses than its groupings give and in which no `if` without
/// `else` stands where an `else` follows.
pub proof fn lemma_program_parses_back(ts: Seq<TokenModel>, items: Seq<StatementModel>)
    requires
        terminated(ts),
        span_of_items(StatementModel::Block(items), items.len()) < ts.len(),
        states_items(ts, 0, StatementModel::Block(items), items.len()),
        ts[span_of_items(StatementModel::Block(items), items.len()) as int].kind
            == TokenType::EOF,
    ensures
        program(ts, 0, Seq::empty()) == done(
            items,
            span_of_items(StatementModel::Block(items), items.len()) as int,
        ),
{
    let s = StatementModel::Block(items);
    lemma_program_rest(ts, s, 0);
    assert(span_of_items(s, 0) == 0);
    assert(items.take(0) == Seq::<StatementModel>::empty());
}

} // verus!
