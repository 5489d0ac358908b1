//! The evaluator: an `Interpreter` is a machine (see `crate::machine`) that
//! the embedding program drives.
//!
//! `interpret` runs statements as far as the interpreter goes by itself and
//! returns an action. As long as the action is not `Action::Finished`, the
//! embedding program does what it says, reports the outcome with `resume`
//! or `resume_import`, and goes on with `run` (or, step by step, with
//! `step`), which return the next action.

use vstd::prelude::*;
use std::rc::Rc;
use crate::callable::{Callable, Native};
use crate::environment::{defined, extended, lookup, Environment, Scope};
use crate::err::{error_models, ErrorModel, LoxError};
use crate::expr::Expr;
use crate::fun::LoxFun;
use crate::lox_type::{truthy, value_order, values_equal, LoxType, Order};
use crate::machine::{
    apply, arithmetic, arity_message, bound, call, callable, compared, continued, entered,
    evaluate, execute, import, invoke, loaded, loaded_block, negate, perform, popped, raise, resume,
    resume_import, run, step, surfaced, unbounded, unwind, ActionModel, Failure, FrameModel, Machine, Operator, Signal,
};
use crate::model::{
    expr_models, lemma_block_model, lemma_call_model, lemma_function_model, statement_models,
    token_models, value_models, StatementModel, Value,
};
use crate::number::{number_neg, Number};
use crate::parser::{ends_with_end_of_input, program, Parser};
use crate::shared::share;
use crate::statements::Statement;
use crate::text::{push_decimal, push_text};
use crate::token::Token;
use crate::token_type::TokenType;

verus! {

/// Why a run ended without a value.
#[derive(Debug)]
pub enum InterpreterError {
    /// A runtime or syntax error.
    LoxError(LoxError),
    /// The lexical errors of an imported file.
    LoxErrors(Vec<LoxError>),
    /// A `return` that no call caught.
    Return(LoxType),
}

impl View for InterpreterError {
    type V = Failure;

    open spec fn view(&self) -> Failure {
        match *self {
            InterpreterError::LoxError(e) => Failure::Error(e@),
            InterpreterError::LoxErrors(v) => Failure::Errors(error_models(v@)),
            InterpreterError::Return(v) => Failure::Return(v@),
        }
    }
}

impl From<LoxError> for InterpreterError {
    fn from(v: LoxError) -> (r: InterpreterError) {
        InterpreterError::LoxError(v)
    }
}

impl vstd::std_specs::convert::FromSpecImpl<LoxError> for InterpreterError {
    open spec fn obeys_from_spec() -> bool {
        true
    }

    open spec fn from_spec(v: LoxError) -> InterpreterError {
        InterpreterError::LoxError(v)
    }
}

impl From<Vec<LoxError>> for InterpreterError {
    fn from(v: Vec<LoxError>) -> (r: InterpreterError) {
        InterpreterError::LoxErrors(v)
    }
}

impl vstd::std_specs::convert::FromSpecImpl<Vec<LoxError>> for InterpreterError {
    open spec fn obeys_from_spec() -> bool {
        true
    }

    open spec fn from_spec(v: Vec<LoxError>) -> InterpreterError {
        InterpreterError::LoxErrors(v)
    }
}

/// What the interpreter asks of the embedding program.
#[derive(Debug)]
pub enum Action {
    /// Nothing: take the next step.
    Continue,
    /// Compute on the two numbers and resume with the result.
    Arithmetic(Operator, Number, Number),
    /// Call the native of this name with these arguments and resume with
    /// what it returns.
    Call(std::string::String, Vec<LoxType>),
    /// Read and scan the file of this path and resume the import with its
    /// tokens; the line is that of the import statement.
    Import(std::string::String, i32),
    /// The run is over, with the value evaluated last or with a failure.
    Finished(Result<LoxType, InterpreterError>),
}

impl View for Action {
    type V = ActionModel;

    open spec fn view(&self) -> ActionModel {
        match *self {
            Action::Continue => ActionModel::Continue,
            Action::Arithmetic(op, a, b) => ActionModel::Arithmetic(op, a.bits, b.bits),
            Action::Call(name, args) => ActionModel::Call(name@, value_models(args@)),
            Action::Import(path, line) => ActionModel::Import(path@, line as int),
            Action::Finished(r) => ActionModel::Finished(
                match r {
                    Ok(v) => Ok(v@),
                    Err(e) => Err(e@),
                },
            ),
        }
    }
}

/// What is left to do.
#[derive(Debug)]
pub enum Frame {
    Exec(Rc<Statement>),
    Sequence(Rc<Statement>, usize),
    Leave,
    Eval(Rc<Expr>),
    Define(Rc<Statement>),
    Branch(Rc<Statement>),
    Loop(Rc<Statement>),
    Return(Token),
    Assign(Token),
    Logical(Token, Rc<Expr>),
    Unary(Token),
    Right(Token, Rc<Expr>),
    Apply(Token, LoxType),
    Callee(Token, Vec<Rc<Expr>>),
    Argument(Callable, Token, Vec<Rc<Expr>>, Vec<LoxType>),
    Returned,
    Imported(Box<Environment>),
}

impl View for Frame {
    type V = FrameModel;

    open spec fn view(&self) -> FrameModel {
        match *self {
            Frame::Exec(s) => FrameModel::Exec((*s)@),
            Frame::Sequence(s, i) => FrameModel::Sequence((*s)@, i as nat),
            Frame::Leave => FrameModel::Leave,
            Frame::Eval(e) => FrameModel::Eval((*e)@),
            Frame::Define(s) => FrameModel::Define((*s)@),
            Frame::Branch(s) => FrameModel::Branch((*s)@),
            Frame::Loop(s) => FrameModel::Loop((*s)@),
            Frame::Return(t) => FrameModel::Return(t@),
            Frame::Assign(t) => FrameModel::Assign(t@),
            Frame::Logical(t, e) => FrameModel::Logical(t@, (*e)@),
            Frame::Unary(t) => FrameModel::Unary(t@),
            Frame::Right(t, e) => FrameModel::Right(t@, (*e)@),
            Frame::Apply(t, v) => FrameModel::Apply(t@, v@),
            Frame::Callee(t, args) => FrameModel::Callee(t@, expr_models(args@)),
            Frame::Argument(c, t, args, done) => FrameModel::Argument(
                LoxType::Callable(c)@,
                t@,
                expr_models(args@),
                value_models(done@),
            ),
            Frame::Returned => FrameModel::Returned,
            Frame::Imported(e) => FrameModel::Imported(e.chain()),
        }
    }
}

/// The models of a stack of frames, in order.
pub open spec fn frame_models(frames: Seq<Frame>) -> Seq<FrameModel> {
    Seq::new(frames.len(), |i: int| frames[i]@)
}

/// A frame that saves an environment saves a well-formed one.
pub open spec fn sound(f: Frame) -> bool {
    match f {
        Frame::Imported(e) => e.wf(),
        _ => true,
    }
}

/// What unwinds the stack.
enum Unwinding {
    Failure(InterpreterError),
    Return(LoxType, i32),
}

impl View for Unwinding {
    type V = Signal;

    closed spec fn view(&self) -> Signal {
        match *self {
            Unwinding::Failure(e) => Signal::Failure(e@),
            Unwinding::Return(v, line) => Signal::Return(v@, line as int),
        }
    }
}

impl Unwinding {
    /// Whether the signal is a `return`.
    fn is_return(&self) -> (r: bool)
        ensures
            r == self@ is Return,
    {
        match self {
            Unwinding::Return(_, _) => true,
            Unwinding::Failure(_) => false,
        }
    }
}

/// Shares every expression of `items`.
fn share_all(items: &Vec<Rc<Expr>>) -> (r: Vec<Rc<Expr>>)
    ensures
        expr_models(r@) == expr_models(items@),
{
    let mut out: Vec<Rc<Expr>> = Vec::new();
    let mut i: usize = 0;
    while i < items.len()
        invariant
            i <= items.len(),
            out.len() == i,
            forall|j: int| 0 <= j < i ==> *out@[j] == *items@[j],
        decreases items.len() - i,
    {
        out.push(share(&items[i]));
        i += 1;
    }
    assert(expr_models(out@) =~= expr_models(items@));
    out
}

/// Shares every statement of `items`.
fn share_statements(items: &Vec<Rc<Statement>>) -> (r: Vec<Rc<Statement>>)
    ensures
        statement_models(r@) == statement_models(items@),
{
    let mut out: Vec<Rc<Statement>> = Vec::new();
    let mut i: usize = 0;
    while i < items.len()
        invariant
            i <= items.len(),
            out.len() == i,
            forall|j: int| 0 <= j < i ==> *out@[j] == *items@[j],
        decreases items.len() - i,
    {
        out.push(share(&items[i]));
        i += 1;
    }
    assert(statement_models(out@) =~= statement_models(items@));
    out
}

/// The block of `items`, shared.
fn block_of(items: Vec<Rc<Statement>>) -> (r: Rc<Statement>)
    ensures
        (*r)@ == StatementModel::Block(statement_models(items@)),
{
    proof {
        lemma_block_model(items);
    }
    Rc::new(Statement::Block(items))
}

/// The error of an arity mismatch.
fn arity_error(expected: usize, got: usize, line: i32) -> (e: LoxError)
    ensures
        e@ == (ErrorModel { message: arity_message(expected as nat, got as nat), line: line as int }),
{
    let mut message = "Expected ".to_owned();
    push_decimal(&mut message, expected as u64);
    push_text(&mut message, " arguments but got ");
    push_decimal(&mut message, got as u64);
    LoxError::new(message, line)
}

/// What a signal becomes when it leaves the interpreter.
fn surface(signal: Unwinding) -> (r: InterpreterError)
    ensures
        r@ == surfaced(signal@),
        signal matches Unwinding::Failure(e) ==> r == e,
{
    match signal {
        Unwinding::Failure(e) => e,
        Unwinding::Return(_, line) => InterpreterError::LoxError(
            LoxError::new("Return outside of a function".to_owned(), line),
        ),
    }
}

/// The arithmetic operator that a token kind stands for.
fn operator_of(kind: TokenType) -> (r: Option<Operator>)
    ensures
        r == arithmetic(kind),
{
    match kind {
        TokenType::Plus => Some(Operator::Add),
        TokenType::Minus => Some(Operator::Subtract),
        TokenType::Star => Some(Operator::Multiply),
        TokenType::Slash => Some(Operator::Divide),
        _ => None,
    }
}

/// What a comparison operator makes of an order.
fn compare(kind: TokenType, order: Option<Order>) -> (r: bool)
    ensures
        r == compared(kind, order),
{
    match kind {
        TokenType::Greater => match order {
            Some(Order::Greater) => true,
            _ => false,
        },
        TokenType::GreaterEqual => match order {
            Some(Order::Greater) => true,
            Some(Order::Equal) => true,
            _ => false,
        },
        TokenType::Less => match order {
            Some(Order::Less) => true,
            _ => false,
        },
        TokenType::LessEqual => match order {
            Some(Order::Less) => true,
            Some(Order::Equal) => true,
            _ => false,
        },
        _ => false,
    }
}

/// An interpreter: a scope chain, a stack of frames and the value
/// evaluated last.
pub struct Interpreter {
    pub env: Box<Environment>,
    control: Vec<Frame>,
    value: LoxType,
}

impl View for Interpreter {
    type V = Machine;

    closed spec fn view(&self) -> Machine {
        Machine {
            scopes: self.env.chain(),
            control: frame_models(self.control@),
            value: self.value@,
        }
    }
}

impl Interpreter {
    /// Every environment that the interpreter holds is well-formed.
    pub closed spec fn wf(&self) -> bool {
        &&& self.env.wf()
        &&& forall|i: int| 0 <= i < self.control@.len() ==> sound(#[trigger] self.control@[i])
    }

    /// Whether `self` and an action are what a transition gives.
    pub open spec fn did(&self, action: Action, to: (Machine, ActionModel)) -> bool {
        self@ == to.0 && action@ == to.1
    }

    /// An interpreter with one empty scope and nothing to do.
    pub fn new() -> (r: Interpreter)
        ensures
            r.wf(),
            r@ == (Machine {
                scopes: seq![Scope::empty()],
                control: Seq::empty(),
                value: Value::Nil,
            }),
    {
        let r = Interpreter {
            env: Box::new(Environment::new()),
            control: Vec::new(),
            value: LoxType::Nil,
        };
        assert(frame_models(r.control@) =~= Seq::empty());
        assert(r.value@ == Value::Nil);
        r
    }

    /// Binds `name` to `value` in the innermost scope: the way to provide
    /// natives before a run.
    pub fn define(&mut self, name: &str, value: LoxType)
        requires
            old(self).wf(),
        ensures
            final(self).wf(),
            final(self)@ == old(self)@.with_scopes(defined(old(self)@.scopes, name@, value@)),
    {
        self.env.define(name, value);
    }

    /// The value of `name` in the innermost scope that binds it.
    pub fn get(&self, name: &str) -> (r: Option<LoxType>)
        requires
            self.wf(),
        ensures
            match r {
                Some(v) => lookup(self@.scopes, name@) == Some(v@),
                None => lookup(self@.scopes, name@) is None,
            },
    {
        self.env.get(name)
    }

    /// The environment: its chain is the scope chain of the machine, and it
    /// is well-formed.
    pub fn environment(&self) -> (r: &Environment)
        requires
            self.wf(),
        ensures
            r.wf(),
            r.chain() == self@.scopes,
    {
        &*self.env
    }

    fn push(&mut self, f: Frame)
        requires
            old(self).wf(),
            sound(f),
        ensures
            final(self).wf(),
            final(self)@ == old(self)@.push(f@),
    {
        self.control.push(f);
        assert(frame_models(self.control@) =~= frame_models(old(self).control@).push(f@));
    }

    fn take(&mut self) -> (r: Option<Frame>)
        requires
            old(self).wf(),
        ensures
            final(self).wf(),
            match r {
                Some(f) => old(self)@.control.len() > 0 && f@ == old(self)@.control.last()
                    && sound(f) && final(self)@ == old(self)@.with_control(
                    old(self)@.control.drop_last(),
                ),
                None => old(self)@.control.len() == 0 && final(self)@ == old(self)@,
            },
    {
        let r = self.control.pop();
        proof {
            if r is Some {
                assert(old(self).control@.last() == r->0);
                assert(sound(old(self).control@[old(self).control@.len() - 1]));
                assert(frame_models(self.control@) =~= frame_models(
                    old(self).control@,
                ).drop_last());
            }
        }
        r
    }

    fn set(&mut self, v: LoxType)
        requires
            old(self).wf(),
        ensures
            final(self).wf(),
            final(self)@ == old(self)@.with_value(v@),
    {
        self.value = v;
    }

    fn enter(&mut self)
        requires
            old(self).wf(),
        ensures
            final(self).wf(),
            final(self)@ == old(self)@.with_scopes(entered(old(self)@.scopes, Scope::empty())),
    {
        let mut taken = Box::new(Environment::new());
        std::mem::swap(&mut self.env, &mut taken);
        self.env = Box::new(Environment::with_enclosing(taken));
    }

    fn leave(&mut self)
        requires
            old(self).wf(),
        ensures
            final(self).wf(),
            final(self)@ == old(self)@.with_scopes(popped(old(self)@.scopes)),
    {
        let mut taken = Box::new(Environment::new());
        std::mem::swap(&mut self.env, &mut taken);
        self.env = Box::new((*taken).leave());
    }

    /// Ends an import: the scopes of the importer come back, and what the
    /// imported program bound in its outermost scope is merged into them.
    fn merge(&mut self, saved: Box<Environment>)
        requires
            old(self).wf(),
            saved.wf(),
        ensures
            final(self).wf(),
            final(self)@ == old(self)@.with_scopes(extended(saved.chain(), old(self)@.scopes[0])),
    {
        let mut imported = saved;
        std::mem::swap(&mut self.env, &mut imported);
        proof {
            imported.lemma_chain();
        }
        self.env.extend(imported);
    }

    /// Unwinds the stack under a signal.
    fn unwind(&mut self, signal: Unwinding) -> (r: Action)
        requires
            old(self).wf(),
        ensures
            final(self).wf(),
            final(self).did(r, unwind(old(self)@, signal@)),
            r matches Action::Finished(Err(f)) ==> (signal matches Unwinding::Failure(g) ==> f
                == g),
    {
        loop
            invariant
                self.wf(),
                unwind(self@, signal@) == unwind(old(self)@, signal@),
            decreases self.control.len(),
        {
            let ghost before = self@;
            match self.take() {
                None => {
                    return Action::Finished(Err(surface(signal)));
                },
                Some(Frame::Leave) => {
                    self.leave();
                },
                Some(Frame::Returned) => {
                    self.leave();
                    if signal.is_return() {
                        match signal {
                            Unwinding::Return(v, _) => {
                                self.set(v);
                            },
                            Unwinding::Failure(_) => {},
                        }
                        return Action::Continue;
                    }
                },
                Some(Frame::Imported(saved)) => {
                    self.merge(saved);
                    return Action::Continue;
                },
                Some(_) => {},
            }
        }
    }

    /// Fails with a runtime error.
    fn raise(&mut self, message: &str, line: i32) -> (r: Action)
        requires
            old(self).wf(),
        ensures
            final(self).wf(),
            final(self).did(r, raise(old(self)@, message@, line as int)),
    {
        self.unwind(
            Unwinding::Failure(InterpreterError::LoxError(LoxError::new(message.to_owned(), line))),
        )
    }

    /// Loads statements: they are run, in the current scope, before what
    /// was loaded earlier.
    pub fn load(&mut self, statements: &Vec<Rc<Statement>>)
        requires
            old(self).wf(),
        ensures
            final(self).wf(),
            final(self)@ == loaded(old(self)@, statement_models(statements@)),
    {
        let block = block_of(share_statements(statements));
        self.push(Frame::Sequence(block, 0));
    }

    /// Loads statements to run in a scope of their own, which is left when
    /// they are done. With an environment given, the scope chain of the
    /// interpreter is replaced by it first.
    pub fn load_block(&mut self, statements: &Vec<Rc<Statement>>, environment: Option<Environment>)
        requires
            old(self).wf(),
            environment matches Some(e) ==> e.wf(),
        ensures
            final(self).wf(),
            final(self)@ == loaded_block(
                old(self)@,
                statement_models(statements@),
                match environment {
                    Some(e) => Some(e.chain()),
                    None => None,
                },
            ),
    {
        match environment {
            Some(e) => {
                self.env = Box::new(e);
            },
            None => {},
        }
        self.enter();
        self.push(Frame::Leave);
        let block = block_of(share_statements(statements));
        self.push(Frame::Sequence(block, 0));
    }

    /// Runs statements in the current scope, as far as the interpreter
    /// goes by itself: to the end of the run, or to the first thing asked
    /// of the embedding program.
    pub fn interpret(&mut self, statements: &Vec<Rc<Statement>>) -> (r: Action)
        requires
            old(self).wf(),
        ensures
            final(self).wf(),
            final(self).did(
                r,
                run(loaded(old(self)@, statement_models(statements@)), unbounded()),
            ),
    {
        self.load(statements);
        self.run(u64::MAX)
    }

    /// Runs statements in a scope of their own, as far as the interpreter
    /// goes by itself. With an environment given, the scope chain of the
    /// interpreter is replaced by it first.
    pub fn interpret_block(
        &mut self,
        statements: &Vec<Rc<Statement>>,
        environment: Option<Environment>,
    ) -> (r: Action)
        requires
            old(self).wf(),
            environment matches Some(e) ==> e.wf(),
        ensures
            final(self).wf(),
            final(self).did(
                r,
                run(
                    loaded_block(
                        old(self)@,
                        statement_models(statements@),
                        match environment {
                            Some(e) => Some(e.chain()),
                            None => None,
                        },
                    ),
                    unbounded(),
                ),
            ),
    {
        self.load_block(statements, environment);
        self.run(u64::MAX)
    }

    /// Evaluates `e`, as far as the interpreter goes by itself.
    pub fn evaluate(&mut self, e: &Expr) -> (r: Action)
        requires
            old(self).wf(),
        ensures
            final(self).wf(),
            final(self).did(r, continued(evaluate(old(self)@, e@))),
    {
        let first = self.eval(e);
        match first {
            Action::Continue => self.run(u64::MAX),
            _ => first,
        }
    }

    /// Starts the import that the string token `file` names.
    pub fn import(&mut self, file: Token) -> (r: Action)
        requires
            old(self).wf(),
        ensures
            final(self).wf(),
            final(self).did(r, import(old(self)@, file@)),
    {
        match file.literal {
            Some(LoxType::String(path)) => Action::Import(path, file.line),
            _ => self.raise("Import without a path", file.line),
        }
    }

    /// Takes one step of the evaluation of `e`.
    pub fn eval(&mut self, e: &Expr) -> (r: Action)
        requires
            old(self).wf(),
        ensures
            final(self).wf(),
            final(self).did(r, evaluate(old(self)@, e@)),
    {
        match e {
            Expr::Literal(_) => self.literal(e),
            Expr::Grouping(_) => self.grouping(e),
            Expr::Variable(_) => self.variable(e),
            Expr::Assign(_, _) => self.assignment(e),
            Expr::Logical(_, _, _) => self.logical(e),
            Expr::Unary(_, _) => self.unary(e),
            Expr::Binary(_, _, _) => self.binary(e),
            Expr::Call(_, _, _) => self.callee(e),
        }
    }

    fn literal(&mut self, e: &Expr) -> (r: Action)
        requires
            old(self).wf(),
            e is Literal,
        ensures
            final(self).wf(),
            final(self).did(r, evaluate(old(self)@, e@)),
    {
        match e {
            Expr::Literal(v) => {
                self.set(v.clone());
            },
            _ => {},
        }
        Action::Continue
    }

    fn grouping(&mut self, e: &Expr) -> (r: Action)
        requires
            old(self).wf(),
            e is Grouping,
        ensures
            final(self).wf(),
            final(self).did(r, evaluate(old(self)@, e@)),
    {
        match e {
            Expr::Grouping(inner) => {
                self.push(Frame::Eval(share(inner)));
            },
            _ => {},
        }
        Action::Continue
    }

    fn variable(&mut self, e: &Expr) -> (r: Action)
        requires
            old(self).wf(),
            e is Variable,
        ensures
            final(self).wf(),
            final(self).did(r, evaluate(old(self)@, e@)),
    {
        match e {
            Expr::Variable(name) => {
                assert(name@.lexeme == name.lexeme@ && name@.line == name.line);
                match self.env.get(name.lexeme.as_str()) {
                    Some(v) => {
                        self.set(v);
                        Action::Continue
                    },
                    None => self.raise("Variable not found", name.line),
                }
            },
            _ => Action::Continue,
        }
    }

    fn assignment(&mut self, e: &Expr) -> (r: Action)
        requires
            old(self).wf(),
            e is Assign,
        ensures
            final(self).wf(),
            final(self).did(r, evaluate(old(self)@, e@)),
    {
        match e {
            Expr::Assign(name, value) => {
                self.push(Frame::Assign(name.clone()));
                self.push(Frame::Eval(share(value)));
            },
            _ => {},
        }
        Action::Continue
    }

    fn logical(&mut self, e: &Expr) -> (r: Action)
        requires
            old(self).wf(),
            e is Logical,
        ensures
            final(self).wf(),
            final(self).did(r, evaluate(old(self)@, e@)),
    {
        match e {
            Expr::Logical(left, op, right) => {
                self.push(Frame::Logical(op.clone(), share(right)));
                self.push(Frame::Eval(share(left)));
            },
            _ => {},
        }
        Action::Continue
    }

    fn unary(&mut self, e: &Expr) -> (r: Action)
        requires
            old(self).wf(),
            e is Unary,
        ensures
            final(self).wf(),
            final(self).did(r, evaluate(old(self)@, e@)),
    {
        match e {
            Expr::Unary(op, operand) => {
                self.push(Frame::Unary(op.clone()));
                self.push(Frame::Eval(share(operand)));
            },
            _ => {},
        }
        Action::Continue
    }

    fn binary(&mut self, e: &Expr) -> (r: Action)
        requires
            old(self).wf(),
            e is Binary,
        ensures
            final(self).wf(),
            final(self).did(r, evaluate(old(self)@, e@)),
    {
        match e {
            Expr::Binary(left, op, right) => {
                self.push(Frame::Right(op.clone(), share(right)));
                self.push(Frame::Eval(share(left)));
            },
            _ => {},
        }
        Action::Continue
    }

    fn callee(&mut self, e: &Expr) -> (r: Action)
        requires
            old(self).wf(),
            e is Call,
        ensures
            final(self).wf(),
            final(self).did(r, evaluate(old(self)@, e@)),
    {
        match e {
            Expr::Call(callee, paren, args) => {
                proof {
                    lemma_call_model(*callee, *paren, *args);
                }
                self.push(Frame::Callee(paren.clone(), share_all(args)));
                self.push(Frame::Eval(share(callee)));
            },
            _ => {},
        }
        Action::Continue
    }

    /// Takes one step of the execution of `s`.
    pub fn execute(&mut self, s: &Rc<Statement>) -> (r: Action)
        requires
            old(self).wf(),
        ensures
            final(self).wf(),
            final(self).did(r, execute(old(self)@, (**s)@)),
    {
        match &**s {
            Statement::Expression(e) => self.eval(e),
            Statement::Variable(_, _) => self.declare(s),
            Statement::Block(_) => self.block(s),
            Statement::If(_, _, _) => self.test(s),
            Statement::While(_, _) => self.test(s),
            Statement::Function(_, _, _) => self.function(s),
            Statement::Return(_, _) => self.leave_function(s),
            Statement::Import(file) => self.import(file.clone()),
        }
    }

    fn declare(&mut self, s: &Rc<Statement>) -> (r: Action)
        requires
            old(self).wf(),
            **s is Variable,
        ensures
            final(self).wf(),
            final(self).did(r, execute(old(self)@, (**s)@)),
    {
        match &**s {
            Statement::Variable(name, init) => {
                assert(name@.lexeme == name.lexeme@);
                match init {
                    Some(e) => {
                        self.push(Frame::Define(share(s)));
                        self.eval(e)
                    },
                    None => {
                        let nil = LoxType::Nil;
                        assert(nil@ == Value::Nil);
                        self.define(name.lexeme.as_str(), nil);
                        Action::Continue
                    },
                }
            },
            _ => Action::Continue,
        }
    }

    fn block(&mut self, s: &Rc<Statement>) -> (r: Action)
        requires
            old(self).wf(),
            **s is Block,
        ensures
            final(self).wf(),
            final(self).did(r, execute(old(self)@, (**s)@)),
    {
        self.enter();
        self.push(Frame::Leave);
        self.push(Frame::Sequence(share(s), 0));
        Action::Continue
    }

    /// Starts an `if` or a `while`: the condition is evaluated first.
    fn test(&mut self, s: &Rc<Statement>) -> (r: Action)
        requires
            old(self).wf(),
            **s is If || **s is While,
        ensures
            final(self).wf(),
            final(self).did(r, execute(old(self)@, (**s)@)),
    {
        match &**s {
            Statement::If(cond, _, _) => {
                self.push(Frame::Branch(share(s)));
                self.eval(cond)
            },
            Statement::While(cond, _) => {
                self.push(Frame::Loop(share(s)));
                self.eval(cond)
            },
            _ => Action::Continue,
        }
    }

    fn function(&mut self, s: &Rc<Statement>) -> (r: Action)
        requires
            old(self).wf(),
            **s is Function,
        ensures
            final(self).wf(),
            final(self).did(r, execute(old(self)@, (**s)@)),
    {
        match &**s {
            Statement::Function(name, _, _) => {
                assert(name@.lexeme == name.lexeme@);
                let function = LoxType::Callable(Callable::Function(LoxFun::new(share(s))));
                assert(function@ == Value::Function(Box::new((**s)@)));
                self.define(name.lexeme.as_str(), function);
            },
            _ => {},
        }
        Action::Continue
    }

    fn leave_function(&mut self, s: &Rc<Statement>) -> (r: Action)
        requires
            old(self).wf(),
            **s is Return,
        ensures
            final(self).wf(),
            final(self).did(r, execute(old(self)@, (**s)@)),
    {
        match &**s {
            Statement::Return(keyword, e) => {
                self.push(Frame::Return(keyword.clone()));
                self.eval(e)
            },
            _ => Action::Continue,
        }
    }

    /// Applies a binary operator to two values.
    fn apply(&mut self, op: &Token, left: LoxType, right: LoxType) -> (r: Action)
        requires
            old(self).wf(),
        ensures
            final(self).wf(),
            final(self).did(r, apply(old(self)@, op@, left@, right@)),
    {
        match op.token {
            TokenType::Minus | TokenType::Slash | TokenType::Star => match (left, right) {
                (LoxType::Number(a), LoxType::Number(b)) => match operator_of(op.token) {
                    Some(operator) => Action::Arithmetic(operator, a, b),
                    None => Action::Continue,
                },
                _ => self.raise("Failed to cast LoxType into f64", op.line),
            },
            TokenType::Plus => match (left, right) {
                (LoxType::Number(a), LoxType::Number(b)) => Action::Arithmetic(
                    Operator::Add,
                    a,
                    b,
                ),
                (LoxType::String(a), LoxType::String(b)) => {
                    let mut joined = a;
                    push_text(&mut joined, b.as_str());
                    let v = LoxType::String(joined);
                    assert(v@ == Value::Text(a@ + b@));
                    self.set(v);
                    Action::Continue
                },
                _ => self.raise("Can't add two different types", op.line),
            },
            TokenType::Greater | TokenType::GreaterEqual | TokenType::Less | TokenType::LessEqual => {
                let v = LoxType::Boolean(compare(op.token, left.order(&right)));
                assert(v@ == Value::Boolean(compared(op@.kind, value_order(left@, right@))));
                self.set(v);
                Action::Continue
            },
            TokenType::BangEqual => {
                let v = LoxType::Boolean(!left.equals(&right));
                assert(v@ == Value::Boolean(!values_equal(left@, right@)));
                self.set(v);
                Action::Continue
            },
            TokenType::EqualEqual => {
                let v = LoxType::Boolean(left.equals(&right));
                assert(v@ == Value::Boolean(values_equal(left@, right@)));
                self.set(v);
                Action::Continue
            },
            _ => self.raise("Invalid binary operator", op.line),
        }
    }

    /// Applies a unary operator to the value.
    fn negate(&mut self, op: &Token) -> (r: Action)
        requires
            old(self).wf(),
        ensures
            final(self).wf(),
            final(self).did(r, negate(old(self)@, op@)),
    {
        match op.token {
            TokenType::Minus => match &self.value {
                LoxType::Number(n) => {
                    let v = LoxType::Number(n.negated());
                    assert(v@ == Value::Number(number_neg(n.bits)));
                    self.set(v);
                    Action::Continue
                },
                _ => self.raise("Failed to cast LoxType into f64", op.line),
            },
            TokenType::Bang => {
                let v = LoxType::Boolean(!self.value.truthy());
                assert(v@ == Value::Boolean(!truthy(self.value@)));
                self.set(v);
                Action::Continue
            },
            _ => self.raise("Invalid unary operator", op.line),
        }
    }

    /// Enters the scope of the parameters of a call.
    fn bind(&mut self, params: &Vec<Token>, args: &Vec<LoxType>)
        requires
            old(self).wf(),
        ensures
            final(self).wf(),
            final(self)@ == old(self)@.with_scopes(
                entered(
                    old(self)@.scopes,
                    bound(
                        token_models(params@),
                        value_models(args@),
                        if params@.len() <= args@.len() {
                            params@.len()
                        } else {
                            args@.len()
                        },
                    ),
                ),
            ),
    {
        self.enter();
        let ghost outer = old(self)@.scopes;
        let ghost names = token_models(params@);
        let ghost values = value_models(args@);
        let mut i: usize = 0;
        while i < params.len() && i < args.len()
            invariant
                self.wf(),
                i <= params@.len(),
                i <= args@.len(),
                names == token_models(params@),
                values == value_models(args@),
                outer == old(self)@.scopes,
                self@ == old(self)@.with_scopes(entered(outer, bound(names, values, i as nat))),
            decreases params@.len() - i,
        {
            let ghost so_far = bound(names, values, i as nat);
            self.define(params[i].lexeme.as_str(), args[i].clone());
            i += 1;
            proof {
                assert(names[i - 1].lexeme == params@[i - 1].lexeme@);
                assert(values[i - 1] == args@[i - 1]@);
                assert(defined(entered(outer, so_far), names[i - 1].lexeme, values[i - 1])
                    =~= entered(outer, bound(names, values, i as nat)));
            }
        }
    }

    /// Calls `callee` with `args`, all evaluated.
    fn invoke(&mut self, callee: Callable, paren: &Token, args: Vec<LoxType>) -> (r: Action)
        requires
            old(self).wf(),
        ensures
            final(self).wf(),
            final(self).did(
                r,
                invoke(old(self)@, LoxType::Callable(callee)@, paren@, value_models(args@)),
            ),
    {
        let arity = callee.arity();
        if args.len() != arity {
            return self.unwind(
                Unwinding::Failure(
                    InterpreterError::LoxError(arity_error(arity, args.len(), paren.line)),
                ),
            );
        }
        match callee {
            Callable::Function(function) => self.call(&function, args),
            Callable::Native(native) => Action::Call(native.name, args),
        }
    }

    /// Enters a declared function: the scope of its parameters encloses
    /// the scopes current at the call, and its body is what is done next.
    pub fn call(&mut self, function: &LoxFun, args: Vec<LoxType>) -> (r: Action)
        requires
            old(self).wf(),
        ensures
            final(self).wf(),
            final(self).did(r, call(old(self)@, (*function.declaration)@, value_models(args@))),
    {
        let ghost declaration = (*function.declaration)@;
        assert(LoxType::Callable(Callable::Function(*function))@ == Value::Function(
            Box::new(declaration),
        ));
        match &*function.declaration {
            Statement::Function(name, params, body) => {
                proof {
                    lemma_function_model(*name, *params, *body);
                }
                self.bind(params, &args);
                self.push(Frame::Returned);
                self.push(Frame::Exec(share(body)));
                Action::Continue
            },
            _ => {
                let nil = LoxType::Nil;
                assert(nil@ == Value::Nil);
                self.set(nil);
                Action::Continue
            },
        }
    }

    fn sequence(&mut self, s: Rc<Statement>, i: usize) -> (r: Action)
        requires
            old(self).wf(),
        ensures
            final(self).wf(),
            final(self).did(r, perform(old(self)@, FrameModel::Sequence((*s)@, i as nat))),
    {
        match &*s {
            Statement::Block(items) => {
                proof {
                    lemma_block_model(*items);
                }
                if i < items.len() {
                    let item = share(&items[i]);
                    self.push(Frame::Sequence(share(&s), i + 1));
                    self.push(Frame::Exec(item));
                }
            },
            _ => {},
        }
        Action::Continue
    }

    fn bind_variable(&mut self, s: Rc<Statement>) -> (r: Action)
        requires
            old(self).wf(),
        ensures
            final(self).wf(),
            final(self).did(r, perform(old(self)@, FrameModel::Define((*s)@))),
    {
        match &*s {
            Statement::Variable(name, _) => {
                assert(name@.lexeme == name.lexeme@);
                let v = self.value.clone();
                self.define(name.lexeme.as_str(), v);
            },
            _ => {},
        }
        Action::Continue
    }

    fn branch(&mut self, s: Rc<Statement>) -> (r: Action)
        requires
            old(self).wf(),
        ensures
            final(self).wf(),
            final(self).did(r, perform(old(self)@, FrameModel::Branch((*s)@))),
    {
        match &*s {
            Statement::If(_, then, other) => {
                if self.value.truthy() {
                    self.push(Frame::Exec(share(then)));
                } else {
                    match other {
                        Some(o) => {
                            self.push(Frame::Exec(share(o)));
                        },
                        None => {},
                    }
                }
            },
            _ => {},
        }
        Action::Continue
    }

    fn repeat(&mut self, s: Rc<Statement>) -> (r: Action)
        requires
            old(self).wf(),
        ensures
            final(self).wf(),
            final(self).did(r, perform(old(self)@, FrameModel::Loop((*s)@))),
    {
        match &*s {
            Statement::While(_, body) => {
                if self.value.truthy() {
                    let again = share(&s);
                    self.push(Frame::Exec(again));
                    self.push(Frame::Exec(share(body)));
                }
            },
            _ => {},
        }
        Action::Continue
    }

    fn store(&mut self, name: Token) -> (r: Action)
        requires
            old(self).wf(),
        ensures
            final(self).wf(),
            final(self).did(r, perform(old(self)@, FrameModel::Assign(name@))),
    {
        assert(name@.lexeme == name.lexeme@ && name@.line == name.line);
        if self.env.contains(name.lexeme.as_str()) {
            let v = self.value.clone();
            self.env.assign(name.lexeme.as_str(), v);
            let nil = LoxType::Nil;
            assert(nil@ == Value::Nil);
            self.set(nil);
            Action::Continue
        } else {
            self.raise("Undefined variable", name.line)
        }
    }

    fn decide(&mut self, op: Token, right: Rc<Expr>) -> (r: Action)
        requires
            old(self).wf(),
        ensures
            final(self).wf(),
            final(self).did(r, perform(old(self)@, FrameModel::Logical(op@, (*right)@))),
    {
        assert(op@.kind == op.token);
        let decided = if op.token == TokenType::Or {
            self.value.truthy()
        } else {
            !self.value.truthy()
        };
        if !decided {
            self.push(Frame::Eval(right));
        }
        Action::Continue
    }

    fn called(&mut self, paren: Token, args: Vec<Rc<Expr>>) -> (r: Action)
        requires
            old(self).wf(),
        ensures
            final(self).wf(),
            final(self).did(
                r,
                perform(old(self)@, FrameModel::Callee(paren@, expr_models(args@))),
            ),
    {
        assert(paren@.line == paren.line);
        match self.value.clone() {
            LoxType::Callable(callee) => {
                assert(callable(self.value@));
                let none: Vec<LoxType> = Vec::new();
                assert(value_models(none@) =~= Seq::<Value>::empty());
                if args.len() == 0 {
                    self.invoke(callee, &paren, none)
                } else {
                    let first = share(&args[0]);
                    self.push(Frame::Argument(callee, paren, args, none));
                    self.push(Frame::Eval(first));
                    Action::Continue
                }
            },
            _ => {
                assert(!callable(self.value@));
                self.raise("Expected callable object but got normal type", paren.line)
            },
        }
    }

    fn argument(
        &mut self,
        callee: Callable,
        paren: Token,
        args: Vec<Rc<Expr>>,
        done: Vec<LoxType>,
    ) -> (r: Action)
        requires
            old(self).wf(),
        ensures
            final(self).wf(),
            final(self).did(
                r,
                perform(
                    old(self)@,
                    FrameModel::Argument(
                        LoxType::Callable(callee)@,
                        paren@,
                        expr_models(args@),
                        value_models(done@),
                    ),
                ),
            ),
    {
        let mut so_far = done;
        let ghost before = value_models(so_far@);
        so_far.push(self.value.clone());
        assert(value_models(so_far@) =~= before.push(self.value@));
        if so_far.len() < args.len() {
            let next = share(&args[so_far.len()]);
            self.push(Frame::Argument(callee, paren, args, so_far));
            self.push(Frame::Eval(next));
            Action::Continue
        } else {
            self.invoke(callee, &paren, so_far)
        }
    }

    /// Does what a frame asks for.
    fn perform(&mut self, f: Frame) -> (r: Action)
        requires
            old(self).wf(),
            sound(f),
        ensures
            final(self).wf(),
            final(self).did(r, perform(old(self)@, f@)),
    {
        match f {
            Frame::Exec(s) => self.execute(&s),
            Frame::Sequence(s, i) => self.sequence(s, i),
            Frame::Leave => {
                self.leave();
                Action::Continue
            },
            Frame::Eval(e) => self.eval(&*e),
            Frame::Define(s) => self.bind_variable(s),
            Frame::Branch(s) => self.branch(s),
            Frame::Loop(s) => self.repeat(s),
            Frame::Return(keyword) => {
                assert(keyword@.line == keyword.line);
                let v = self.value.clone();
                self.unwind(Unwinding::Return(v, keyword.line))
            },
            Frame::Assign(name) => self.store(name),
            Frame::Logical(op, right) => self.decide(op, right),
            Frame::Unary(op) => self.negate(&op),
            Frame::Right(op, right) => {
                let left = self.value.clone();
                self.push(Frame::Apply(op, left));
                self.push(Frame::Eval(right));
                Action::Continue
            },
            Frame::Apply(op, left) => {
                let right = self.value.clone();
                self.apply(&op, left, right)
            },
            Frame::Callee(paren, args) => self.called(paren, args),
            Frame::Argument(callee, paren, args, done) => self.argument(callee, paren, args, done),
            Frame::Returned => {
                self.leave();
                let nil = LoxType::Nil;
                assert(nil@ == Value::Nil);
                self.set(nil);
                Action::Continue
            },
            Frame::Imported(saved) => {
                self.merge(saved);
                Action::Continue
            },
        }
    }

    /// Takes one step: the frame on top of the stack is taken and done.
    /// With nothing left to do the run is over.
    pub fn step(&mut self) -> (r: Action)
        requires
            old(self).wf(),
        ensures
            final(self).wf(),
            final(self).did(r, step(old(self)@)),
    {
        match self.take() {
            Some(f) => self.perform(f),
            None => Action::Finished(Ok(self.value.clone())),
        }
    }

    /// Takes up to `budget` steps, and stops short at the first that asks
    /// something of the embedding program or ends the run. `Continue`
    /// comes back when the budget is spent.
    pub fn run(&mut self, budget: u64) -> (r: Action)
        requires
            old(self).wf(),
        ensures
            final(self).wf(),
            final(self).did(r, run(old(self)@, budget as nat)),
    {
        let mut left: u64 = budget;
        while left > 0
            invariant
                self.wf(),
                run(self@, left as nat) == run(old(self)@, budget as nat),
            decreases left,
        {
            let action = self.step();
            match action {
                Action::Continue => {},
                _ => {
                    return action;
                },
            }
            left -= 1;
        }
        Action::Continue
    }

    /// Fails the import under way because its file could not be read: the
    /// error is raised at `line`, the line of the import statement, and the
    /// I/O failure `e` is its cause. If the error ends the run, the error
    /// that comes back is this one, cause included.
    pub fn import_failed(&mut self, line: i32, e: std::io::Error) -> (r: Action)
        requires
            old(self).wf(),
        ensures
            final(self).wf(),
            final(self).did(r, raise(old(self)@, "Imported file couldn't be opened"@, line as int)),
            r matches Action::Finished(Err(f)) ==> f matches InterpreterError::LoxError(error)
                && error.lower() == Some(e),
    {
        let error = LoxError::with_lower("Imported file couldn't be opened".to_owned(), line, e);
        self.unwind(Unwinding::Failure(InterpreterError::LoxError(error)))
    }

    /// Takes the outcome of an arithmetic or of a native call. An error
    /// that ends the run comes back as it was given, cause included.
    pub fn resume(&mut self, reply: Result<LoxType, LoxError>) -> (r: Action)
        requires
            old(self).wf(),
        ensures
            final(self).wf(),
            final(self).did(
                r,
                resume(
                    old(self)@,
                    match reply {
                        Ok(v) => Ok(v@),
                        Err(e) => Err(e@),
                    },
                ),
            ),
            reply matches Err(e) ==> (r matches Action::Finished(Err(f)) ==> f
                == InterpreterError::LoxError(e)),
    {
        match reply {
            Ok(v) => {
                self.set(v);
                Action::Continue
            },
            Err(e) => self.unwind(Unwinding::Failure(InterpreterError::LoxError(e))),
        }
    }

    /// Takes the outcome of an import: the tokens of the file, or why there
    /// are none.
    pub fn resume_import(&mut self, reply: Result<Vec<Token>, InterpreterError>) -> (r: Action)
        requires
            old(self).wf(),
        ensures
            final(self).wf(),
            final(self).did(
                r,
                resume_import(
                    old(self)@,
                    match reply {
                        Ok(tokens) => Ok(token_models(tokens@)),
                        Err(e) => Err(e@),
                    },
                ),
            ),
            reply matches Err(e) ==> !(e is Return) ==> (r matches Action::Finished(Err(f)) ==> f
                == e),
    {
        match reply {
            Err(InterpreterError::Return(v)) => self.unwind(Unwinding::Return(v, 0)),
            Err(e) => self.unwind(Unwinding::Failure(e)),
            Ok(tokens) => {
                if !ends_with_end_of_input(&tokens) {
                    return self.raise("Imported file has no end", 0);
                }
                let mut parser = Parser::new(tokens);
                match parser.parse() {
                    Err(e) => self.unwind(Unwinding::Failure(InterpreterError::LoxError(e))),
                    Ok(items) => {
                        let mut fresh = Box::new(Environment::new());
                        std::mem::swap(&mut self.env, &mut fresh);
                        self.push(Frame::Imported(fresh));
                        self.push(Frame::Sequence(block_of(items), 0));
                        Action::Continue
                    },
                }
            },
        }
    }
}

} // verus!
