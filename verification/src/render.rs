//! The written form of values, expressions and statements.
//!
//! Expressions and statements are written as source text: what is written
//! can be scanned and parsed again. A written form is a sequence of pieces,
//! to be read one after the other: stretches of text, and numbers. How a
//! number is written in decimal is left to whoever prints the pieces.

use vstd::prelude::*;
use crate::expr::Expr;
use crate::lox_type::LoxType;
use crate::model::{
    lemma_block_model, lemma_call_model, lemma_function_model, token_models, ExprModel,
    StatementModel, TokenModel, Value,
};
use crate::token::Token;
use crate::token_type::TokenType;
use crate::number::Number;
use crate::statements::Statement;

verus! {

/// One piece of a written form.
#[derive(Debug)]
pub enum Piece {
    Text(std::string::String),
    Number(Number),
}

/// One piece of a written form.
pub enum PieceModel {
    Text(Seq<char>),
    /// A number, as its IEEE-754 bit pattern.
    Number(u64),
}

impl View for Piece {
    type V = PieceModel;

    open spec fn view(&self) -> PieceModel {
        match *self {
            Piece::Text(s) => PieceModel::Text(s@),
            Piece::Number(n) => PieceModel::Number(n.bits),
        }
    }
}

/// The models of a vector of pieces, in order.
pub open spec fn piece_models(items: Seq<Piece>) -> Seq<PieceModel> {
    Seq::new(items.len(), |i: int| items[i]@)
}

/// A text as one piece.
pub open spec fn text(s: Seq<char>) -> Seq<PieceModel> {
    seq![PieceModel::Text(s)]
}

/// The first `n` of `parts`, one after the other.
pub open spec fn joined(parts: Seq<Seq<PieceModel>>, n: nat) -> Seq<PieceModel>
    decreases n,
{
    if n == 0 {
        Seq::empty()
    } else {
        joined(parts, (n - 1) as nat) + parts[n - 1]
    }
}

/// A value as printed: a text is itself, a callable is nothing.
pub open spec fn value_text(v: Value) -> Seq<PieceModel> {
    match v {
        Value::Text(s) => text(s),
        Value::Number(n) => seq![PieceModel::Number(n)],
        Value::Boolean(b) => if b {
            text("true"@)
        } else {
            text("false"@)
        },
        Value::Nil => text("nil"@),
        _ => Seq::empty(),
    }
}

/// A value as a literal of the source: a text stands in double quotes.
pub open spec fn literal_text(v: Value) -> Seq<PieceModel> {
    match v {
        Value::Text(s) => text("\""@) + text(s) + text("\""@),
        _ => value_text(v),
    }
}

/// How tightly an expression holds together, by the rule of the grammar
/// that makes it: an assignment least, then `or`, `and`, equality,
/// comparison, addition, multiplication, unary operators, calls; literals,
/// variables and groupings most.
pub open spec fn tightness(e: ExprModel) -> int {
    match e {
        ExprModel::Assign(_, _) => 0,
        ExprModel::Logical(_, op, _) => if op.kind == TokenType::Or {
            1
        } else {
            2
        },
        ExprModel::Binary(_, op, _) => match op.kind {
            TokenType::BangEqual | TokenType::EqualEqual => 3,
            TokenType::Greater | TokenType::GreaterEqual | TokenType::Less
            | TokenType::LessEqual => 4,
            TokenType::Minus | TokenType::Plus => 5,
            TokenType::Slash | TokenType::Star => 6,
            _ => 0,
        },
        ExprModel::Unary(_, _) => 7,
        ExprModel::Call(_, _, _) => 8,
        _ => 9,
    }
}

/// An expression as written.
///
/// Operators stand between their operands, with a space on either side; a
/// unary operator stands before its operand. An operand that holds together
/// less tightly than its place asks for is put in parentheses: so the
/// parser reads the written form as the tree that was written.
pub open spec fn expr_text(e: ExprModel) -> Seq<PieceModel>
    decreases e, 1int,
{
    match e {
        ExprModel::Binary(l, op, r) => operand_text(*l, tightness(e)) + text(" "@) + text(
            op.lexeme,
        ) + text(" "@) + operand_text(*r, tightness(e) + 1),
        ExprModel::Logical(l, op, r) => operand_text(*l, tightness(e)) + text(" "@) + text(
            op.lexeme,
        ) + text(" "@) + operand_text(*r, tightness(e) + 1),
        ExprModel::Grouping(x) => text("("@) + expr_text(*x) + text(")"@),
        ExprModel::Literal(v) => literal_text(v),
        ExprModel::Unary(op, x) => text(op.lexeme) + operand_text(*x, 7),
        ExprModel::Variable(t) => text(t.lexeme),
        ExprModel::Assign(t, x) => text(t.lexeme) + text(" = "@) + expr_text(*x),
        ExprModel::Call(c, _, args) => operand_text(*c, 9) + text("("@) + joined(
            argument_texts(e),
            args.len(),
        ) + text(")"@),
    }
}

/// An expression as written in a place that asks for a tightness of at
/// least `least`.
pub open spec fn operand_text(e: ExprModel, least: int) -> Seq<PieceModel>
    decreases e, 2int,
{
    if tightness(e) < least {
        text("("@) + expr_text(e) + text(")"@)
    } else {
        expr_text(e)
    }
}

/// The arguments of a call as written, a comma before each but the first.
pub open spec fn argument_texts(e: ExprModel) -> Seq<Seq<PieceModel>>
    decreases e, 0int,
{
    match e {
        ExprModel::Call(_, _, args) => Seq::new(
            args.len(),
            |i: int|
                if 0 <= i < args.len() {
                    separator(i) + expr_text(args[i])
                } else {
                    Seq::empty()
                },
        ),
        _ => Seq::empty(),
    }
}

/// What stands before item `i` of a list: nothing before the first, a
/// comma before the others.
pub open spec fn separator(i: int) -> Seq<PieceModel> {
    if i == 0 {
        Seq::empty()
    } else {
        text(", "@)
    }
}

/// The parameters of a function as written, a comma before each but the
/// first.
pub open spec fn parameter_texts(params: Seq<TokenModel>) -> Seq<Seq<PieceModel>> {
    Seq::new(params.len(), |i: int| separator(i) + text(params[i].lexeme))
}

/// A statement as written.
///
/// Every statement is written as the grammar has it; the items of a block
/// stand on lines of their own. An import is written with the lexeme of
/// its path, which holds the quotes.
pub open spec fn statement_text(s: StatementModel) -> Seq<PieceModel>
    decreases s, 1int,
{
    match s {
        StatementModel::Expression(e) => expr_text(e) + text(";"@),
        StatementModel::Variable(t, init) => match init {
            Some(e) => text("var "@) + text(t.lexeme) + text(" = "@) + expr_text(e) + text(";"@),
            None => text("var "@) + text(t.lexeme) + text(";"@),
        },
        StatementModel::Block(items) => text("{\n"@) + joined(item_texts(s), items.len()) + text(
            "}"@,
        ),
        StatementModel::If(c, t, e) => text("if ("@) + expr_text(c) + text(") "@) + statement_text(
            *t,
        ) + match e {
            Some(x) => text(" else "@) + statement_text(*x),
            None => Seq::empty(),
        },
        StatementModel::While(c, b) => text("while ("@) + expr_text(c) + text(") "@)
            + statement_text(*b),
        StatementModel::Function(t, params, body) => text("fun "@) + text(t.lexeme) + text("("@)
            + joined(parameter_texts(params), params.len()) + text(") "@) + statement_text(*body),
        StatementModel::Return(_, e) => text("return "@) + expr_text(e) + text(";"@),
        StatementModel::Import(t) => text("import "@) + text(t.lexeme) + text(";"@),
    }
}

/// The items of a block as written, each with the line feed that follows
/// it.
pub open spec fn item_texts(s: StatementModel) -> Seq<Seq<PieceModel>>
    decreases s, 0int,
{
    match s {
        StatementModel::Block(items) => Seq::new(
            items.len(),
            |i: int|
                if 0 <= i < items.len() {
                    statement_text(items[i]) + text("\n"@)
                } else {
                    Seq::empty()
                },
        ),
        _ => Seq::empty(),
    }
}

/// Appends `s` as one piece.
pub fn push_pieces(out: &mut Vec<Piece>, s: &str)
    ensures
        piece_models(final(out)@) == piece_models(old(out)@) + text(s@),
{
    out.push(Piece::Text(s.to_owned()));
    assert(piece_models(out@) =~= piece_models(old(out)@) + text(s@));
}

/// Appends what stands before item `i` of a list.
fn push_separator(out: &mut Vec<Piece>, i: usize)
    ensures
        piece_models(final(out)@) == piece_models(old(out)@) + separator(i as int),
{
    if i != 0 {
        push_pieces(out, ", ");
    } else {
        assert(piece_models(out@) =~= piece_models(old(out)@) + separator(0));
    }
}

/// Appends the parameters of a function.
fn push_parameters(out: &mut Vec<Piece>, params: &Vec<Token>)
    ensures
        piece_models(final(out)@) == piece_models(old(out)@) + joined(
            parameter_texts(token_models(params@)),
            params@.len(),
        ),
{
    let ghost head = piece_models(out@);
    let ghost parts = parameter_texts(token_models(params@));
    let mut i: usize = 0;
    assert(piece_models(out@) =~= head + joined(parts, 0));
    while i < params.len()
        invariant
            i <= params.len(),
            parts == parameter_texts(token_models(params@)),
            piece_models(out@) == head + joined(parts, i as nat),
        decreases params.len() - i,
    {
        assert(token_models(params@)[i as int].lexeme == params@[i as int].lexeme@);
        push_separator(out, i);
        push_pieces(out, params[i].lexeme.as_str());
        i += 1;
        assert(piece_models(out@) =~= head + joined(parts, i as nat));
    }
}

impl LoxType {
    /// Appends this value as printed.
    pub fn write(&self, out: &mut Vec<Piece>)
        ensures
            piece_models(final(out)@) == piece_models(old(out)@) + value_text(self@),
    {
        match self {
            LoxType::String(s) => {
                push_pieces(out, s.as_str());
            },
            LoxType::Number(n) => {
                out.push(Piece::Number(*n));
                assert(piece_models(out@) =~= piece_models(old(out)@) + seq![
                    PieceModel::Number(n.bits),
                ]);
            },
            LoxType::Boolean(b) => {
                if *b {
                    push_pieces(out, "true");
                } else {
                    push_pieces(out, "false");
                }
            },
            LoxType::Nil => {
                push_pieces(out, "nil");
            },
            _ => {
                assert(piece_models(out@) =~= piece_models(old(out)@) + Seq::<PieceModel>::empty());
            },
        }
    }

    /// This value as printed.
    pub fn pieces(&self) -> (r: Vec<Piece>)
        ensures
            piece_models(r@) == value_text(self@),
    {
        let mut out: Vec<Piece> = Vec::new();
        self.write(&mut out);
        assert(piece_models(out@) =~= value_text(self@));
        out
    }

    /// Appends this value as a literal of the source.
    pub fn write_literal(&self, out: &mut Vec<Piece>)
        ensures
            piece_models(final(out)@) == piece_models(old(out)@) + literal_text(self@),
    {
        match self {
            LoxType::String(s) => {
                push_pieces(out, "\"");
                push_pieces(out, s.as_str());
                push_pieces(out, "\"");
                assert(piece_models(out@) =~= piece_models(old(out)@) + literal_text(self@));
            },
            _ => {
                self.write(out);
            },
        }
    }
}

impl Expr {
    /// How tightly this expression holds together.
    pub fn tightness(&self) -> (r: u8)
        ensures
            r == tightness(self@),
    {
        match self {
            Expr::Assign(_, _) => 0,
            Expr::Logical(_, op, _) => {
                assert(op@.kind == op.token);
                if op.token == TokenType::Or {
                    1
                } else {
                    2
                }
            },
            Expr::Binary(_, op, _) => {
                assert(op@.kind == op.token);
                match op.token {
                    TokenType::BangEqual | TokenType::EqualEqual => 3,
                    TokenType::Greater | TokenType::GreaterEqual | TokenType::Less
                    | TokenType::LessEqual => 4,
                    TokenType::Minus | TokenType::Plus => 5,
                    TokenType::Slash | TokenType::Star => 6,
                    _ => 0,
                }
            },
            Expr::Unary(_, _) => 7,
            Expr::Call(_, _, _) => 8,
            _ => 9,
        }
    }

    /// Appends this expression as written in a place that asks for a
    /// tightness of at least `least`.
    pub fn write_operand(&self, out: &mut Vec<Piece>, least: u8)
        ensures
            piece_models(final(out)@) == piece_models(old(out)@) + operand_text(
                self@,
                least as int,
            ),
        decreases self, 2int,
    {
        if self.tightness() < least {
            push_pieces(out, "(");
            self.write(out);
            push_pieces(out, ")");
            assert(piece_models(out@) =~= piece_models(old(out)@) + operand_text(
                self@,
                least as int,
            ));
        } else {
            self.write(out);
        }
    }

    /// Appends this expression as written.
    pub fn write(&self, out: &mut Vec<Piece>)
        ensures
            piece_models(final(out)@) == piece_models(old(out)@) + expr_text(self@),
        decreases self, 1int,
    {
        let own = self.tightness();
        match self {
            Expr::Binary(l, op, r) => {
                assert(op@.lexeme == op.lexeme@);
                l.write_operand(out, own);
                push_pieces(out, " ");
                push_pieces(out, op.lexeme.as_str());
                push_pieces(out, " ");
                r.write_operand(out, own + 1);
                assert(piece_models(out@) =~= piece_models(old(out)@) + expr_text(self@));
            },
            Expr::Logical(l, op, r) => {
                assert(op@.lexeme == op.lexeme@);
                l.write_operand(out, own);
                push_pieces(out, " ");
                push_pieces(out, op.lexeme.as_str());
                push_pieces(out, " ");
                r.write_operand(out, own + 1);
                assert(piece_models(out@) =~= piece_models(old(out)@) + expr_text(self@));
            },
            Expr::Grouping(x) => {
                push_pieces(out, "(");
                x.write(out);
                push_pieces(out, ")");
                assert(piece_models(out@) =~= piece_models(old(out)@) + expr_text(self@));
            },
            Expr::Literal(v) => {
                v.write_literal(out);
            },
            Expr::Unary(op, x) => {
                assert(op@.lexeme == op.lexeme@);
                push_pieces(out, op.lexeme.as_str());
                x.write_operand(out, 7);
                assert(piece_models(out@) =~= piece_models(old(out)@) + expr_text(self@));
            },
            Expr::Variable(t) => {
                assert(t@.lexeme == t.lexeme@);
                push_pieces(out, t.lexeme.as_str());
            },
            Expr::Assign(t, x) => {
                assert(t@.lexeme == t.lexeme@);
                push_pieces(out, t.lexeme.as_str());
                push_pieces(out, " = ");
                x.write(out);
                assert(piece_models(out@) =~= piece_models(old(out)@) + expr_text(self@));
            },
            Expr::Call(c, paren, args) => {
                proof {
                    lemma_call_model(*c, *paren, *args);
                }
                let ghost parts = argument_texts(self@);
                assert(parts.len() == args@.len());
                assert forall|j: int| 0 <= j < args@.len() implies parts[j] == separator(j)
                    + expr_text((*args@[j])@) by {
                    assert(self@->Call_2[j] == (*args@[j])@);
                }
                c.write_operand(out, 9);
                push_pieces(out, "(");
                let ghost head = piece_models(out@);
                let mut i: usize = 0;
                assert(piece_models(out@) =~= head + joined(parts, 0));
                while i < args.len()
                    invariant
                        self is Call,
                        self->Call_2 == *args,
                        i <= args.len(),
                        parts.len() == args@.len(),
                        forall|j: int|
                            0 <= j < args@.len() ==> parts[j] == separator(j) + expr_text(
                                (*args@[j])@,
                            ),
                        piece_models(out@) == head + joined(parts, i as nat),
                    decreases args.len() - i,
                {
                    push_separator(out, i);
                    args[i].write(out);
                    i += 1;
                    assert(piece_models(out@) =~= head + joined(parts, i as nat));
                }
                push_pieces(out, ")");
                assert(piece_models(out@) =~= piece_models(old(out)@) + expr_text(self@));
            },
        }
    }

    /// This expression as written.
    pub fn pieces(&self) -> (r: Vec<Piece>)
        ensures
            piece_models(r@) == expr_text(self@),
    {
        let mut out: Vec<Piece> = Vec::new();
        self.write(&mut out);
        assert(piece_models(out@) =~= expr_text(self@));
        out
    }
}

impl Statement {
    /// Appends this statement as written.
    pub fn write(&self, out: &mut Vec<Piece>)
        ensures
            piece_models(final(out)@) == piece_models(old(out)@) + statement_text(self@),
        decreases self,
    {
        match self {
            Statement::Expression(e) => {
                e.write(out);
                push_pieces(out, ";");
                assert(piece_models(out@) =~= piece_models(old(out)@) + statement_text(self@));
            },
            Statement::Variable(t, init) => {
                assert(t@.lexeme == t.lexeme@);
                push_pieces(out, "var ");
                push_pieces(out, t.lexeme.as_str());
                match init {
                    Some(e) => {
                        push_pieces(out, " = ");
                        e.write(out);
                    },
                    None => {},
                }
                push_pieces(out, ";");
                assert(piece_models(out@) =~= piece_models(old(out)@) + statement_text(self@));
            },
            Statement::Block(items) => {
                proof {
                    lemma_block_model(*items);
                }
                let ghost parts = item_texts(self@);
                assert(parts.len() == items@.len());
                assert forall|j: int| 0 <= j < items@.len() implies parts[j] == statement_text(
                    (*items@[j])@,
                ) + text("\n"@) by {
                    assert(self@->Block_0[j] == (*items@[j])@);
                }
                push_pieces(out, "{\n");
                let ghost head = piece_models(out@);
                let mut i: usize = 0;
                assert(piece_models(out@) =~= head + joined(parts, 0));
                while i < items.len()
                    invariant
                        self is Block,
                        self->Block_0 == *items,
                        i <= items.len(),
                        parts.len() == items@.len(),
                        forall|j: int|
                            0 <= j < items@.len() ==> parts[j] == statement_text((*items@[j])@)
                                + text("\n"@),
                        piece_models(out@) == head + joined(parts, i as nat),
                    decreases items.len() - i,
                {
                    items[i].write(out);
                    push_pieces(out, "\n");
                    i += 1;
                    assert(piece_models(out@) =~= head + joined(parts, i as nat));
                }
                push_pieces(out, "}");
                assert(piece_models(out@) =~= piece_models(old(out)@) + statement_text(self@));
            },
            Statement::If(c, t, e) => {
                push_pieces(out, "if (");
                c.write(out);
                push_pieces(out, ") ");
                t.write(out);
                match e {
                    Some(x) => {
                        push_pieces(out, " else ");
                        x.write(out);
                    },
                    None => {},
                }
                assert(piece_models(out@) =~= piece_models(old(out)@) + statement_text(self@));
            },
            Statement::While(c, b) => {
                push_pieces(out, "while (");
                c.write(out);
                push_pieces(out, ") ");
                b.write(out);
                assert(piece_models(out@) =~= piece_models(old(out)@) + statement_text(self@));
            },
            Statement::Function(t, params, body) => {
                proof {
                    lemma_function_model(*t, *params, *body);
                }
                assert(t@.lexeme == t.lexeme@);
                push_pieces(out, "fun ");
                push_pieces(out, t.lexeme.as_str());
                push_pieces(out, "(");
                push_parameters(out, params);
                push_pieces(out, ") ");
                body.write(out);
                assert(piece_models(out@) =~= piece_models(old(out)@) + statement_text(self@));
            },
            Statement::Return(_, e) => {
                push_pieces(out, "return ");
                e.write(out);
                push_pieces(out, ";");
                assert(piece_models(out@) =~= piece_models(old(out)@) + statement_text(self@));
            },
            Statement::Import(t) => {
                assert(t@.lexeme == t.lexeme@);
                push_pieces(out, "import ");
                push_pieces(out, t.lexeme.as_str());
                push_pieces(out, ";");
                assert(piece_models(out@) =~= piece_models(old(out)@) + statement_text(self@));
            },
        }
    }

    /// This statement as written.
    pub fn pieces(&self) -> (r: Vec<Piece>)
        ensures
            piece_models(r@) == statement_text(self@),
    {
        let mut out: Vec<Piece> = Vec::new();
        self.write(&mut out);
        assert(piece_models(out@) =~= statement_text(self@));
        out
    }
}

} // verus!
