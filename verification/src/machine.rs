//! The evaluator as an abstract machine.
//!
//! A machine is a scope chain, a stack of frames that say what is left to
//! do, and the value of the expression evaluated last. `step` is the one
//! transition: it takes the frame on top of the stack and does what it
//! asks. What the machine cannot do itself (arithmetic on doubles, a native
//! function, reading a file to import) it hands out as an action, and it is
//! told the outcome through `resume` or `resume_import`.
//!
//! Scoping is dynamic: the scope of a function's parameters encloses the
//! scope chain of the caller at the time of the call, not the one that was
//! current at the declaration.

use vstd::prelude::*;
use crate::environment::{assigned, defined, extended, lookup, Scope};
use crate::err::ErrorModel;
use crate::lox_type::{truthy, value_order, values_equal, Order};
use crate::model::{ExprModel, StatementModel, TokenModel, Value};
use crate::number::number_neg;
use crate::parser::{program, terminated};
use crate::text::decimal;
use crate::token_type::TokenType;

verus! {

/// The arithmetic that the embedding program does on doubles.
#[derive(Clone, Copy, Debug, PartialEq, Eq, Structural)]
pub enum Operator {
    Add,
    Subtract,
    Multiply,
    Divide,
}

/// Why a run ended without a value, or what made an import impossible.
pub enum Failure {
    /// A runtime or syntax error.
    Error(ErrorModel),
    /// The lexical errors of an imported file.
    Errors(Seq<ErrorModel>),
    /// A `return` that no call caught.
    Return(Value),
}

/// What is left to do.
pub enum FrameModel {
    /// Execute a statement.
    Exec(StatementModel),
    /// Execute the items of a block from the given one on.
    Sequence(StatementModel, nat),
    /// Leave the innermost scope.
    Leave,
    /// Evaluate an expression.
    Eval(ExprModel),
    /// Bind the variable that the declaration names to the value.
    Define(StatementModel),
    /// Take the branch of the `if` that the value selects.
    Branch(StatementModel),
    /// Run the body of the `while` and test again, if the value is true.
    Loop(StatementModel),
    /// Return the value from the innermost call; the token is the keyword.
    Return(TokenModel),
    /// Assign the value to the variable that the token names.
    Assign(TokenModel),
    /// Decide by the value, the left operand of a logical operator, whether
    /// the right operand is evaluated.
    Logical(TokenModel, ExprModel),
    /// Apply a unary operator to the value.
    Unary(TokenModel),
    /// The value is the left operand of a binary operator: evaluate the
    /// right one.
    Right(TokenModel, ExprModel),
    /// The value is the right operand of a binary operator: apply it.
    Apply(TokenModel, Value),
    /// The value is the callee of a call with these arguments.
    Callee(TokenModel, Seq<ExprModel>),
    /// The value is the next argument of a call: the callee, the closing
    /// parenthesis, the argument expressions, the arguments so far.
    Argument(Value, TokenModel, Seq<ExprModel>, Seq<Value>),
    /// The body of a called function is done.
    Returned,
    /// An imported program is done; the scopes are those of the importer.
    Imported(Seq<Scope>),
}

/// What the machine asks of the embedding program.
pub enum ActionModel {
    /// Nothing: take the next step.
    Continue,
    /// Compute on the two doubles and resume with the result.
    Arithmetic(Operator, u64, u64),
    /// Call the native of this name with these arguments and resume with
    /// what it returns.
    Call(Seq<char>, Seq<Value>),
    /// Read and scan the file of this path and resume the import with its
    /// tokens; the line is that of the import statement.
    Import(Seq<char>, int),
    /// The run is over, with the value evaluated last or with a failure.
    Finished(Result<Value, Failure>),
}

/// What unwinds the stack.
pub enum Signal {
    Failure(Failure),
    /// A `return` with its value and the line of its keyword.
    Return(Value, int),
}

/// The state of a run.
pub struct Machine {
    /// The scope chain, innermost first.
    pub scopes: Seq<Scope>,
    /// What is left to do, the next frame last.
    pub control: Seq<FrameModel>,
    /// The value of the expression evaluated last.
    pub value: Value,
}

impl Machine {
    /// The machine with one more frame to do, before all others.
    pub open spec fn push(self, f: FrameModel) -> Machine {
        Machine { control: self.control.push(f), ..self }
    }

    /// The machine with another value.
    pub open spec fn with_value(self, v: Value) -> Machine {
        Machine { value: v, ..self }
    }

    /// The machine with another scope chain.
    pub open spec fn with_scopes(self, scopes: Seq<Scope>) -> Machine {
        Machine { scopes, ..self }
    }

    /// The machine with another stack.
    pub open spec fn with_control(self, control: Seq<FrameModel>) -> Machine {
        Machine { control, ..self }
    }
}

/// The chain without its innermost scope. The outermost scope stays.
pub open spec fn popped(scopes: Seq<Scope>) -> Seq<Scope> {
    if scopes.len() > 1 {
        scopes.drop_first()
    } else {
        scopes
    }
}

/// The chain under a new innermost scope.
pub open spec fn entered(scopes: Seq<Scope>, scope: Scope) -> Seq<Scope> {
    seq![scope] + scopes
}

/// The items of a block; any other statement has none.
pub open spec fn items_of(s: StatementModel) -> Seq<StatementModel> {
    match s {
        StatementModel::Block(items) => items,
        _ => Seq::empty(),
    }
}

/// The number of arguments that a callable takes. A function value whose
/// declaration declares no function takes none.
pub open spec fn arity_of(callee: Value) -> nat {
    match callee {
        Value::Function(decl) => match *decl {
            StatementModel::Function(_, params, _) => params.len(),
            _ => 0,
        },
        Value::Native(_, arity) => arity,
        _ => 0,
    }
}

/// The scope that binds the first `n` parameters to their arguments, in
/// order: of two parameters of one name the later wins.
pub open spec fn bound(params: Seq<TokenModel>, args: Seq<Value>, n: nat) -> Scope
    decreases n,
{
    if n == 0 {
        Map::empty()
    } else {
        bound(params, args, (n - 1) as nat).insert(params[n - 1].lexeme, args[n - 1])
    }
}

/// The message of an arity mismatch.
pub open spec fn arity_message(expected: nat, got: nat) -> Seq<char> {
    "Expected "@ + decimal(expected) + " arguments but got "@ + decimal(got)
}

/// What a signal becomes when it leaves the machine: a `return` outside of
/// any call is an error at the line of its keyword.
pub open spec fn surfaced(signal: Signal) -> Failure {
    match signal {
        Signal::Failure(f) => f,
        Signal::Return(_, line) => Failure::Error(
            ErrorModel { message: "Return outside of a function"@, line },
        ),
    }
}

/// The signal that a failure given to the machine raises.
pub open spec fn raised(f: Failure) -> Signal {
    match f {
        Failure::Return(v) => Signal::Return(v, 0),
        _ => Signal::Failure(f),
    }
}

/// Unwinds the stack under a signal.
///
/// Every frame is dropped; a scope that a dropped frame would have left is
/// left. A call catches a `return`, whose value becomes the value of the
/// call, and nothing else. The end of an import catches everything: what
/// the imported program bound up to there is merged, and the importer goes
/// on. A signal that nothing catches ends the run.
pub open spec fn unwind(m: Machine, signal: Signal) -> (Machine, ActionModel)
    decreases m.control.len(),
{
    if m.control.len() == 0 {
        (m, ActionModel::Finished(Err(surfaced(signal))))
    } else {
        let rest = m.with_control(m.control.drop_last());
        match m.control.last() {
            FrameModel::Leave => unwind(rest.with_scopes(popped(m.scopes)), signal),
            FrameModel::Returned => match signal {
                Signal::Return(v, _) => (
                    rest.with_scopes(popped(m.scopes)).with_value(v),
                    ActionModel::Continue,
                ),
                _ => unwind(rest.with_scopes(popped(m.scopes)), signal),
            },
            FrameModel::Imported(saved) => (
                rest.with_scopes(extended(saved, m.scopes[0])),
                ActionModel::Continue,
            ),
            _ => unwind(rest, signal),
        }
    }
}

/// Fails with an error.
pub open spec fn fail(m: Machine, error: ErrorModel) -> (Machine, ActionModel) {
    unwind(m, Signal::Failure(Failure::Error(error)))
}

/// Fails with a runtime error.
pub open spec fn raise(m: Machine, message: Seq<char>, line: int) -> (Machine, ActionModel) {
    fail(m, ErrorModel { message, line })
}

/// Goes on with `m`.
pub open spec fn proceed(m: Machine) -> (Machine, ActionModel) {
    (m, ActionModel::Continue)
}

/// One step of the evaluation of an expression.
pub open spec fn evaluate(m: Machine, e: ExprModel) -> (Machine, ActionModel) {
    match e {
        ExprModel::Literal(v) => proceed(m.with_value(v)),
        ExprModel::Grouping(inner) => proceed(m.push(FrameModel::Eval(*inner))),
        ExprModel::Variable(name) => match lookup(m.scopes, name.lexeme) {
            Some(v) => proceed(m.with_value(v)),
            None => raise(m, "Variable not found"@, name.line),
        },
        ExprModel::Assign(name, value) => proceed(
            m.push(FrameModel::Assign(name)).push(FrameModel::Eval(*value)),
        ),
        ExprModel::Logical(left, op, right) => proceed(
            m.push(FrameModel::Logical(op, *right)).push(FrameModel::Eval(*left)),
        ),
        ExprModel::Unary(op, operand) => proceed(
            m.push(FrameModel::Unary(op)).push(FrameModel::Eval(*operand)),
        ),
        ExprModel::Binary(left, op, right) => proceed(
            m.push(FrameModel::Right(op, *right)).push(FrameModel::Eval(*left)),
        ),
        ExprModel::Call(callee, paren, args) => proceed(
            m.push(FrameModel::Callee(paren, args)).push(FrameModel::Eval(*callee)),
        ),
    }
}

/// One step of the execution of a statement.
pub open spec fn execute(m: Machine, s: StatementModel) -> (Machine, ActionModel) {
    match s {
        StatementModel::Expression(e) => evaluate(m, e),
        StatementModel::Variable(name, init) => match init {
            Some(e) => evaluate(m.push(FrameModel::Define(s)), e),
            None => proceed(m.with_scopes(defined(m.scopes, name.lexeme, Value::Nil))),
        },
        StatementModel::Block(_) => proceed(
            m.with_scopes(entered(m.scopes, Map::empty())).push(FrameModel::Leave).push(
                FrameModel::Sequence(s, 0),
            ),
        ),
        StatementModel::If(cond, _, _) => evaluate(m.push(FrameModel::Branch(s)), cond),
        StatementModel::While(cond, _) => evaluate(m.push(FrameModel::Loop(s)), cond),
        StatementModel::Function(name, _, _) => proceed(
            m.with_scopes(defined(m.scopes, name.lexeme, Value::Function(Box::new(s)))),
        ),
        StatementModel::Return(keyword, e) => evaluate(m.push(FrameModel::Return(keyword)), e),
        StatementModel::Import(file) => import(m, file),
    }
}

/// The import that a string token names: its literal is the path.
pub open spec fn import(m: Machine, file: TokenModel) -> (Machine, ActionModel) {
    match file.literal {
        Some(Value::Text(path)) => (m, ActionModel::Import(path, file.line)),
        _ => raise(m, "Import without a path"@, file.line),
    }
}

/// The arithmetic operator that a token kind stands for.
pub open spec fn arithmetic(kind: TokenType) -> Option<Operator> {
    match kind {
        TokenType::Plus => Some(Operator::Add),
        TokenType::Minus => Some(Operator::Subtract),
        TokenType::Star => Some(Operator::Multiply),
        TokenType::Slash => Some(Operator::Divide),
        _ => None,
    }
}

/// What a comparison operator makes of an order.
pub open spec fn compared(kind: TokenType, order: Option<Order>) -> bool {
    match kind {
        TokenType::Greater => order == Some(Order::Greater),
        TokenType::GreaterEqual => order == Some(Order::Greater) || order == Some(Order::Equal),
        TokenType::Less => order == Some(Order::Less),
        TokenType::LessEqual => order == Some(Order::Less) || order == Some(Order::Equal),
        _ => false,
    }
}

/// What a binary operator makes of two values.
pub enum Applied {
    /// A value.
    Value(Value),
    /// An arithmetic on two numbers, which is the embedding program's to
    /// compute.
    Arithmetic(Operator, u64, u64),
    /// A failure.
    Error(ErrorModel),
}

/// An error at the line of an operator.
pub open spec fn misuse(op: TokenModel, message: Seq<char>) -> ErrorModel {
    ErrorModel { message, line: op.line }
}

/// A binary operator applied to two values.
///
/// `-`, `*` and `/` take two numbers; `+` takes two numbers or two texts,
/// which it joins. The comparisons hold only between ordered values. `==`
/// and `!=` go by the equality of values.
pub open spec fn applied(op: TokenModel, left: Value, right: Value) -> Applied {
    match op.kind {
        TokenType::Minus | TokenType::Slash | TokenType::Star => match (left, right) {
            (Value::Number(a), Value::Number(b)) => Applied::Arithmetic(
                arithmetic(op.kind)->0,
                a,
                b,
            ),
            _ => Applied::Error(misuse(op, "Failed to cast LoxType into f64"@)),
        },
        TokenType::Plus => match (left, right) {
            (Value::Number(a), Value::Number(b)) => Applied::Arithmetic(Operator::Add, a, b),
            (Value::Text(a), Value::Text(b)) => Applied::Value(Value::Text(a + b)),
            _ => Applied::Error(misuse(op, "Can't add two different types"@)),
        },
        TokenType::Greater | TokenType::GreaterEqual | TokenType::Less | TokenType::LessEqual => {
            Applied::Value(Value::Boolean(compared(op.kind, value_order(left, right))))
        },
        TokenType::BangEqual => Applied::Value(Value::Boolean(!values_equal(left, right))),
        TokenType::EqualEqual => Applied::Value(Value::Boolean(values_equal(left, right))),
        _ => Applied::Error(misuse(op, "Invalid binary operator"@)),
    }
}

/// The step that applies a binary operator.
pub open spec fn apply(m: Machine, op: TokenModel, left: Value, right: Value) -> (
    Machine,
    ActionModel,
) {
    match applied(op, left, right) {
        Applied::Value(v) => proceed(m.with_value(v)),
        Applied::Arithmetic(operator, a, b) => (m, ActionModel::Arithmetic(operator, a, b)),
        Applied::Error(e) => fail(m, e),
    }
}

/// A unary operator applied to a value: `-` negates a number, `!` negates
/// the truth of any value.
pub open spec fn negated(op: TokenModel, v: Value) -> Result<Value, ErrorModel> {
    match op.kind {
        TokenType::Minus => match v {
            Value::Number(n) => Ok(Value::Number(number_neg(n))),
            _ => Err(misuse(op, "Failed to cast LoxType into f64"@)),
        },
        TokenType::Bang => Ok(Value::Boolean(!truthy(v))),
        _ => Err(misuse(op, "Invalid unary operator"@)),
    }
}

/// The step that applies a unary operator to the value.
pub open spec fn negate(m: Machine, op: TokenModel) -> (Machine, ActionModel) {
    match negated(op, m.value) {
        Ok(v) => proceed(m.with_value(v)),
        Err(e) => fail(m, e),
    }
}

/// The entry into the function that `declaration` declares.
///
/// The parameters are bound to the arguments in a new scope, which encloses
/// the scopes of the caller; where the counts differ, the parameters and
/// arguments that have no partner are left out. Then the body is run. A
/// statement that declares no function yields nil.
pub open spec fn call(m: Machine, declaration: StatementModel, args: Seq<Value>) -> (
    Machine,
    ActionModel,
) {
    match declaration {
        StatementModel::Function(_, params, body) => proceed(
            m.with_scopes(
                entered(
                    m.scopes,
                    bound(
                        params,
                        args,
                        if params.len() <= args.len() {
                            params.len()
                        } else {
                            args.len()
                        },
                    ),
                ),
            ).push(FrameModel::Returned).push(FrameModel::Exec(*body)),
        ),
        _ => proceed(m.with_value(Value::Nil)),
    }
}

/// A call of `callee` with `args`, all evaluated.
///
/// The count of the arguments must be the arity. A declared function gets a
/// scope of its parameters, which encloses the scopes of the caller, and
/// its body is run; a native is the embedding program's to call.
pub open spec fn invoke(m: Machine, callee: Value, paren: TokenModel, args: Seq<Value>) -> (
    Machine,
    ActionModel,
) {
    if arity_of(callee) != args.len() {
        raise(m, arity_message(arity_of(callee), args.len()), paren.line)
    } else {
        match callee {
            Value::Function(decl) => call(m, *decl, args),
            Value::Native(name, _) => (m, ActionModel::Call(name, args)),
            _ => raise(m, "Expected callable object but got normal type"@, paren.line),
        }
    }
}

/// Whether a value can be called.
pub open spec fn callable(v: Value) -> bool {
    v is Function || v is Native
}

/// What the frame `f`, taken from the stack of `m`, asks for.
pub open spec fn perform(m: Machine, f: FrameModel) -> (Machine, ActionModel) {
    match f {
        FrameModel::Exec(s) => execute(m, s),
        FrameModel::Sequence(s, i) => {
            if i < items_of(s).len() {
                proceed(
                    m.push(FrameModel::Sequence(s, i + 1)).push(
                        FrameModel::Exec(items_of(s)[i as int]),
                    ),
                )
            } else {
                proceed(m)
            }
        },
        FrameModel::Leave => proceed(m.with_scopes(popped(m.scopes))),
        FrameModel::Eval(e) => evaluate(m, e),
        FrameModel::Define(s) => match s {
            StatementModel::Variable(name, _) => proceed(
                m.with_scopes(defined(m.scopes, name.lexeme, m.value)),
            ),
            _ => proceed(m),
        },
        FrameModel::Branch(s) => match s {
            StatementModel::If(_, then, other) => {
                if truthy(m.value) {
                    proceed(m.push(FrameModel::Exec(*then)))
                } else {
                    match other {
                        Some(o) => proceed(m.push(FrameModel::Exec(*o))),
                        None => proceed(m),
                    }
                }
            },
            _ => proceed(m),
        },
        FrameModel::Loop(s) => match s {
            StatementModel::While(_, body) => {
                if truthy(m.value) {
                    proceed(m.push(FrameModel::Exec(s)).push(FrameModel::Exec(*body)))
                } else {
                    proceed(m)
                }
            },
            _ => proceed(m),
        },
        FrameModel::Return(keyword) => unwind(m, Signal::Return(m.value, keyword.line)),
        FrameModel::Assign(name) => {
            if lookup(m.scopes, name.lexeme) is Some {
                proceed(
                    m.with_scopes(assigned(m.scopes, name.lexeme, m.value)).with_value(Value::Nil),
                )
            } else {
                raise(m, "Undefined variable"@, name.line)
            }
        },
        FrameModel::Logical(op, right) => {
            if op.kind == TokenType::Or {
                if truthy(m.value) {
                    proceed(m)
                } else {
                    proceed(m.push(FrameModel::Eval(right)))
                }
            } else {
                if !truthy(m.value) {
                    proceed(m)
                } else {
                    proceed(m.push(FrameModel::Eval(right)))
                }
            }
        },
        FrameModel::Unary(op) => negate(m, op),
        FrameModel::Right(op, right) => proceed(
            m.push(FrameModel::Apply(op, m.value)).push(FrameModel::Eval(right)),
        ),
        FrameModel::Apply(op, left) => apply(m, op, left, m.value),
        FrameModel::Callee(paren, args) => {
            if !callable(m.value) {
                raise(m, "Expected callable object but got normal type"@, paren.line)
            } else if args.len() == 0 {
                invoke(m, m.value, paren, Seq::empty())
            } else {
                proceed(
                    m.push(FrameModel::Argument(m.value, paren, args, Seq::empty())).push(
                        FrameModel::Eval(args[0]),
                    ),
                )
            }
        },
        FrameModel::Argument(callee, paren, args, done) => {
            let so_far = done.push(m.value);
            if so_far.len() < args.len() {
                proceed(
                    m.push(FrameModel::Argument(callee, paren, args, so_far)).push(
                        FrameModel::Eval(args[so_far.len() as int]),
                    ),
                )
            } else {
                invoke(m, callee, paren, so_far)
            }
        },
        FrameModel::Returned => proceed(m.with_scopes(popped(m.scopes)).with_value(Value::Nil)),
        FrameModel::Imported(saved) => proceed(m.with_scopes(extended(saved, m.scopes[0]))),
    }
}

/// One transition: the frame on top of the stack is taken and done. With an
/// empty stack the run is over, and its value is the value evaluated last.
pub open spec fn step(m: Machine) -> (Machine, ActionModel) {
    if m.control.len() == 0 {
        (m, ActionModel::Finished(Ok(m.value)))
    } else {
        perform(m.with_control(m.control.drop_last()), m.control.last())
    }
}

/// Up to `budget` transitions, which stop short at the first that asks
/// something of the embedding program or ends the run.
pub open spec fn run(m: Machine, budget: nat) -> (Machine, ActionModel)
    decreases budget,
{
    if budget == 0 {
        proceed(m)
    } else {
        let next = step(m);
        if next.1 is Continue {
            run(next.0, (budget - 1) as nat)
        } else {
            next
        }
    }
}

/// The largest budget.
pub open spec fn unbounded() -> nat {
    u64::MAX as nat
}

/// What comes of a transition when the machine is run on after it, as far
/// as it goes by itself.
pub open spec fn continued(next: (Machine, ActionModel)) -> (Machine, ActionModel) {
    if next.1 is Continue {
        run(next.0, unbounded())
    } else {
        next
    }
}

/// The machine with statements to run next, in the current scope.
pub open spec fn loaded(m: Machine, items: Seq<StatementModel>) -> Machine {
    m.push(FrameModel::Sequence(StatementModel::Block(items), 0))
}

/// The machine with statements to run next in a scope of their own, which
/// is left when they are done; `scopes`, if given, take the place of the
/// scope chain first.
pub open spec fn loaded_block(
    m: Machine,
    items: Seq<StatementModel>,
    scopes: Option<Seq<Scope>>,
) -> Machine {
    m.with_scopes(
        entered(
            match scopes {
                Some(s) => s,
                None => m.scopes,
            },
            Map::empty(),
        ),
    ).push(FrameModel::Leave).push(FrameModel::Sequence(StatementModel::Block(items), 0))
}

/// The machine after the embedding program answered an arithmetic or a
/// native call: the result is the value, or the error is raised.
pub open spec fn resume(m: Machine, reply: Result<Value, ErrorModel>) -> (Machine, ActionModel) {
    match reply {
        Ok(v) => proceed(m.with_value(v)),
        Err(e) => fail(m, e),
    }
}

/// The machine after the embedding program answered an import.
///
/// The tokens are parsed, and the program is run in a scope chain of its
/// own, which starts empty; when it is done, in whatever way, what its
/// outermost scope binds is merged into the innermost scope of the
/// importer. A failure to read, scan or parse the file is raised in the
/// importer.
pub open spec fn resume_import(m: Machine, reply: Result<Seq<TokenModel>, Failure>) -> (
    Machine,
    ActionModel,
) {
    match reply {
        Err(f) => unwind(m, raised(f)),
        Ok(ts) => {
            if !terminated(ts) {
                raise(m, "Imported file has no end"@, 0)
            } else {
                match program(ts, 0, Seq::empty()).result {
                    Err(e) => fail(m, e),
                    Ok(items) => proceed(
                        m.push(FrameModel::Imported(m.scopes)).with_scopes(
                            seq![Map::empty()],
                        ).push(FrameModel::Sequence(StatementModel::Block(items), 0)),
                    ),
                }
            }
        },
    }
}

} // verus!
