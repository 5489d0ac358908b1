//! What expressions and statements mean, and that the machine computes it.
//!
//! The meaning is given for what the machine does by itself and in one go:
//! for expressions that compute on no numbers and whose calls fail before
//! the callee is entered, and for statements made of them that neither
//! loop, return nor import.

use vstd::prelude::*;
use crate::environment::{assigned, defined, lookup, Scope};
use crate::err::ErrorModel;
use crate::laws::lemma_run_in_parts;
use crate::lox_type::truthy;
use crate::machine::{
    applied, apply, arity_message, arity_of, callable, entered, evaluate, execute, fail, items_of,
    negated, perform, popped, proceed, run, step, unwind, ActionModel, Applied, Failure,
    FrameModel, Machine, Signal,
};
use crate::model::{ExprModel, StatementModel, TokenModel, Value};
use crate::token_type::TokenType;

verus! {

/// What evaluation works on: the scope chain and the value evaluated last.
pub struct Store {
    pub scopes: Seq<Scope>,
    pub value: Value,
}

/// Where an evaluation or execution ends: with a store, and with an error
/// if it failed.
pub struct Outcome {
    pub store: Store,
    pub error: Option<ErrorModel>,
}

/// A success with value `v`.
pub open spec fn yields(scopes: Seq<Scope>, v: Value) -> Outcome {
    Outcome { store: Store { scopes, value: v }, error: None }
}

/// A failure in `store`.
pub open spec fn fails(store: Store, error: ErrorModel) -> Outcome {
    Outcome { store, error: Some(error) }
}

/// Whether the left operand of a logical operator decides the outcome:
/// a true one for `or`, a false one for `and`.
pub open spec fn decides(op: TokenModel, left: Value) -> bool {
    if op.kind == TokenType::Or {
        truthy(left)
    } else {
        !truthy(left)
    }
}

/// What a unary operator makes of an operand evaluated in `store`.
pub open spec fn after_unary(op: TokenModel, store: Store) -> Outcome {
    match negated(op, store.value) {
        Ok(v) => yields(store.scopes, v),
        Err(e) => fails(store, e),
    }
}

/// What a binary operator makes of `left` and of a right operand
/// evaluated in `store`, if the machine does it by itself.
pub open spec fn after_binary(op: TokenModel, left: Value, store: Store) -> Option<Outcome> {
    match applied(op, left, store.value) {
        Applied::Value(v) => Some(yields(store.scopes, v)),
        Applied::Error(e) => Some(fails(store, e)),
        Applied::Arithmetic(_, _, _) => None,
    }
}

/// What an assignment makes of a value evaluated in `store`: the name must
/// be bound somewhere, and the value of the assignment is nil.
pub open spec fn after_assign(name: TokenModel, store: Store) -> Outcome {
    if lookup(store.scopes, name.lexeme) is Some {
        yields(assigned(store.scopes, name.lexeme, store.value), Value::Nil)
    } else {
        fails(store, ErrorModel { message: "Undefined variable"@, line: name.line })
    }
}

/// What the evaluation of an expression comes to.
///
/// A literal is its value and a grouping is what it groups. A variable is
/// what the innermost scope that binds it binds it to. A logical operator
/// is its left operand if that decides, else its right operand, which is
/// looked at in no other case. Operands are evaluated from left to right,
/// each in the store that the one before left, and the first failure is
/// the failure of the whole.
///
/// A call evaluates its callee, which must be callable, then its
/// arguments from left to right, and fails if their number is not the
/// arity of the callee.
///
/// Calls that go through and arithmetic on numbers have no meaning here.
pub open spec fn meaning(store: Store, e: ExprModel) -> Option<Outcome>
    decreases e, 1int,
{
    match e {
        ExprModel::Literal(v) => Some(yields(store.scopes, v)),
        ExprModel::Grouping(inner) => meaning(store, *inner),
        ExprModel::Variable(name) => Some(
            match lookup(store.scopes, name.lexeme) {
                Some(v) => yields(store.scopes, v),
                None => fails(
                    store,
                    ErrorModel { message: "Variable not found"@, line: name.line },
                ),
            },
        ),
        ExprModel::Assign(name, value) => match meaning(store, *value) {
            Some(o) => if o.error is None {
                Some(after_assign(name, o.store))
            } else {
                Some(o)
            },
            None => None,
        },
        ExprModel::Logical(left, op, right) => match meaning(store, *left) {
            Some(o) => if o.error is None && !decides(op, o.store.value) {
                meaning(o.store, *right)
            } else {
                Some(o)
            },
            None => None,
        },
        ExprModel::Unary(op, operand) => match meaning(store, *operand) {
            Some(o) => if o.error is None {
                Some(after_unary(op, o.store))
            } else {
                Some(o)
            },
            None => None,
        },
        ExprModel::Binary(left, op, right) => match meaning(store, *left) {
            Some(a) => if a.error is None {
                match meaning(a.store, *right) {
                    Some(b) => if b.error is None {
                        after_binary(op, a.store.value, b.store)
                    } else {
                        Some(b)
                    },
                    None => None,
                }
            } else {
                Some(a)
            },
            None => None,
        },
        ExprModel::Call(callee, paren, args) => match meaning(store, *callee) {
            Some(c) => if c.error is None {
                if !callable(c.store.value) {
                    Some(
                        fails(
                            c.store,
                            ErrorModel {
                                message: "Expected callable object but got normal type"@,
                                line: paren.line,
                            },
                        ),
                    )
                } else {
                    match arguments(c.store, e, 0) {
                        Some(a) => if a.error is None {
                            if arity_of(c.store.value) != args.len() {
                                Some(fails(a.store, mismatch(c.store.value, paren, args.len())))
                            } else {
                                None
                            }
                        } else {
                            Some(a)
                        },
                        None => None,
                    }
                }
            } else {
                Some(c)
            },
            None => None,
        },
    }
}

/// The error of a call with `count` arguments where the arity is another
/// number: it names the arity and the count, at the line of the closing
/// parenthesis.
pub open spec fn mismatch(callee: Value, paren: TokenModel, count: nat) -> ErrorModel {
    ErrorModel { message: arity_message(arity_of(callee), count), line: paren.line }
}

/// What the evaluation of the arguments of the call `e` from argument
/// `from` on comes to: they are evaluated in order, each in the store that
/// the one before left, up to the first that fails.
pub open spec fn arguments(store: Store, e: ExprModel, from: nat) -> Option<Outcome>
    decreases e, 0int, count_of(e) - from,
{
    match e {
        ExprModel::Call(_, _, args) => if from < args.len() {
            match meaning(store, args[from as int]) {
                Some(o) => if o.error is None {
                    arguments(o.store, e, from + 1)
                } else {
                    Some(o)
                },
                None => None,
            }
        } else {
            Some(Outcome { store, error: None })
        },
        _ => None,
    }
}

/// The number of arguments of a call.
pub open spec fn count_of(e: ExprModel) -> nat {
    match e {
        ExprModel::Call(_, _, args) => args.len(),
        _ => 0,
    }
}

/// How many steps the machine takes for the arguments of the call `e` from
/// argument `from` on, the step that applies the callee counted.
pub open spec fn effort_of_arguments(store: Store, e: ExprModel, from: nat) -> nat
    decreases e, 0int, count_of(e) - from,
{
    match e {
        ExprModel::Call(_, _, args) => if from < args.len() {
            effort(store, args[from as int]) + match meaning(store, args[from as int]) {
                Some(o) => if o.error is None {
                    1 + effort_of_arguments(o.store, e, from + 1)
                } else {
                    0
                },
                None => 0,
            }
        } else {
            0
        },
        _ => 0,
    }
}

/// How many steps the machine takes to evaluate an expression that has a
/// meaning: up to the step that yields the value, or up to the step that
/// fails.
pub open spec fn effort(store: Store, e: ExprModel) -> nat
    decreases e, 1int,
{
    match e {
        ExprModel::Literal(_) => 1,
        ExprModel::Variable(_) => 1,
        ExprModel::Grouping(inner) => 1 + effort(store, *inner),
        ExprModel::Assign(_, value) => 1 + effort(store, *value) + match meaning(store, *value) {
            Some(o) => if o.error is None {
                1nat
            } else {
                0nat
            },
            None => 0nat,
        },
        ExprModel::Logical(left, op, right) => 1 + effort(store, *left) + match meaning(
            store,
            *left,
        ) {
            Some(o) => if o.error is None {
                1 + if decides(op, o.store.value) {
                    0
                } else {
                    effort(o.store, *right)
                }
            } else {
                0
            },
            None => 0,
        },
        ExprModel::Unary(_, operand) => 1 + effort(store, *operand) + match meaning(
            store,
            *operand,
        ) {
            Some(o) => if o.error is None {
                1nat
            } else {
                0nat
            },
            None => 0nat,
        },
        ExprModel::Binary(left, _, right) => 1 + effort(store, *left) + match meaning(
            store,
            *left,
        ) {
            Some(a) => if a.error is None {
                1 + effort(a.store, *right) + match meaning(a.store, *right) {
                    Some(b) => if b.error is None {
                        1nat
                    } else {
                        0nat
                    },
                    None => 0nat,
                }
            } else {
                0
            },
            None => 0,
        },
        ExprModel::Call(callee, _, _) => 1 + effort(store, *callee) + match meaning(
            store,
            *callee,
        ) {
            Some(c) => if c.error is None {
                1 + if callable(c.store.value) {
                    effort_of_arguments(c.store, e, 0)
                } else {
                    0
                }
            } else {
                0
            },
            None => 0,
        },
    }
}

/// The store of a machine.
pub open spec fn store_of(m: Machine) -> Store {
    Store { scopes: m.scopes, value: m.value }
}

/// The machine with another store.
pub open spec fn with_store(m: Machine, store: Store) -> Machine {
    m.with_scopes(store.scopes).with_value(store.value)
}

/// Where the machine is after an evaluation or execution on top of `m`:
/// it is `m` with the store of the outcome, and if the outcome is a
/// failure, it is where the failure takes that machine.
pub open spec fn arrived(m: Machine, outcome: Outcome) -> (Machine, ActionModel) {
    match outcome.error {
        None => proceed(with_store(m, outcome.store)),
        Some(e) => fail(with_store(m, outcome.store), e),
    }
}

/// One step of a machine with the frame `f` on top does what `f` asks.
pub proof fn lemma_step_of_pushed(m: Machine, f: FrameModel)
    ensures
        step(m.push(f)) == perform(m, f),
{
    let pushed = m.push(f);
    assert(pushed.control.drop_last() == m.control);
    assert(pushed.with_control(pushed.control.drop_last()) == m);
}

/// A budget of one is one step.
pub proof fn lemma_run_once(m: Machine)
    ensures
        run(m, 1) == step(m),
{
    assert(run(step(m).0, 0) == proceed(step(m).0));
}

/// A budget of one more than `rest` is one step, and then `rest` if the
/// step asked nothing.
pub proof fn lemma_run_one_more(m: Machine, rest: nat)
    ensures
        run(m, 1 + rest) == if step(m).1 is Continue {
            run(step(m).0, rest)
        } else {
            step(m)
        },
{
}

/// A failure does not change the value evaluated last.
pub proof fn lemma_failure_keeps_value(m: Machine, f: Failure)
    ensures
        unwind(m, Signal::Failure(f)).0.value == m.value,
    decreases m.control.len(),
{
    if m.control.len() > 0 {
        let rest = m.with_control(m.control.drop_last());
        match m.control.last() {
            FrameModel::Leave => {
                lemma_failure_keeps_value(rest.with_scopes(popped(m.scopes)), f);
            },
            FrameModel::Returned => {
                lemma_failure_keeps_value(rest.with_scopes(popped(m.scopes)), f);
            },
            FrameModel::Imported(_) => {},
            _ => {
                lemma_failure_keeps_value(rest, f);
            },
        }
    }
}

/// A failure drops a frame that leaves no scope without any effect.
pub proof fn lemma_fail_under(m: Machine, f: FrameModel, e: ErrorModel)
    requires
        !(f is Leave),
        !(f is Returned),
        !(f is Imported),
    ensures
        fail(m.push(f), e) == fail(m, e),
{
    let pushed = m.push(f);
    assert(pushed.control.drop_last() == m.control);
    assert(pushed.with_control(pushed.control.drop_last()) == m);
}

/// A failure under the end of a block leaves the scope of the block.
pub proof fn lemma_fail_in_block(m: Machine, e: ErrorModel)
    ensures
        fail(m.push(FrameModel::Leave), e) == fail(m.with_scopes(popped(m.scopes)), e),
{
    let pushed = m.push(FrameModel::Leave);
    assert(pushed.control.drop_last() == m.control);
    assert(pushed.with_control(pushed.control.drop_last()).with_scopes(popped(m.scopes))
        == m.with_scopes(popped(m.scopes)));
}

/// When an evaluation on top of `under`, which is `m` under the frame `f`,
/// has failed, the machine is where the failure takes `m`.
proof fn lemma_failed_under(m: Machine, f: FrameModel, o: Outcome)
    requires
        o.error is Some,
        !(f is Leave),
        !(f is Returned),
        !(f is Imported),
    ensures
        arrived(m.push(f), o) == arrived(m, o),
{
    assert(with_store(m.push(f), o.store) == with_store(m, o.store).push(f));
    lemma_fail_under(with_store(m, o.store), f, o.error->0);
}

/// The machine computes the meaning of an expression.
///
/// From any machine with the expression to evaluate on top, `effort` steps
/// lead to the machine below with the store that the evaluation leaves;
/// or, where the expression fails, to where the failure takes that
/// machine.
pub proof fn lemma_machine_computes_meaning(m: Machine, e: ExprModel)
    requires
        meaning(store_of(m), e) is Some,
    ensures
        run(m.push(FrameModel::Eval(e)), effort(store_of(m), e)) == arrived(
            m,
            meaning(store_of(m), e)->0,
        ),
    decreases e, 1int,
{
    let start = m.push(FrameModel::Eval(e));
    let store = store_of(m);
    lemma_step_of_pushed(m, FrameModel::Eval(e));
    assert(step(start) == evaluate(m, e));
    assert(with_store(m, store) == m);
    match e {
        ExprModel::Literal(v) => {
            lemma_run_once(start);
        },
        ExprModel::Variable(name) => {
            lemma_run_once(start);
        },
        ExprModel::Grouping(inner) => {
            lemma_run_one_more(start, effort(store, *inner));
            lemma_machine_computes_meaning(m, *inner);
        },
        ExprModel::Assign(name, value) => {
            let f = FrameModel::Assign(name);
            let under = m.push(f);
            let first = effort(store, *value);
            lemma_run_one_more(start, (effort(store, e) - 1) as nat);
            lemma_machine_computes_meaning(under, *value);
            let o = meaning(store, *value)->0;
            if o.error is None {
                lemma_run_in_parts(under.push(FrameModel::Eval(*value)), first, 1);
                let below = with_store(m, o.store);
                assert(with_store(under, o.store) == below.push(f));
                lemma_run_once(below.push(f));
                lemma_step_of_pushed(below, f);
                let after = after_assign(name, o.store);
                if after.error is None {
                    assert(with_store(m, after.store) == below.with_scopes(
                        assigned(below.scopes, name.lexeme, below.value),
                    ).with_value(Value::Nil));
                } else {
                    assert(with_store(m, after.store) == below);
                }
            } else {
                lemma_failed_under(m, f, o);
            }
        },
        ExprModel::Unary(op, operand) => {
            let f = FrameModel::Unary(op);
            let under = m.push(f);
            let first = effort(store, *operand);
            lemma_run_one_more(start, (effort(store, e) - 1) as nat);
            lemma_machine_computes_meaning(under, *operand);
            let o = meaning(store, *operand)->0;
            if o.error is None {
                lemma_run_in_parts(under.push(FrameModel::Eval(*operand)), first, 1);
                let below = with_store(m, o.store);
                assert(with_store(under, o.store) == below.push(f));
                lemma_run_once(below.push(f));
                lemma_step_of_pushed(below, f);
                let after = after_unary(op, o.store);
                if after.error is None {
                    assert(with_store(m, after.store) == below.with_value(after.store.value));
                } else {
                    assert(with_store(m, after.store) == below);
                }
            } else {
                lemma_failed_under(m, f, o);
            }
        },
        ExprModel::Logical(left, op, right) => {
            let f = FrameModel::Logical(op, *right);
            let under = m.push(f);
            let first = effort(store, *left);
            lemma_run_one_more(start, (effort(store, e) - 1) as nat);
            lemma_machine_computes_meaning(under, *left);
            let o = meaning(store, *left)->0;
            if o.error is None {
                let rest = (effort(store, e) - 1 - first) as nat;
                lemma_run_in_parts(under.push(FrameModel::Eval(*left)), first, rest);
                let below = with_store(m, o.store);
                assert(with_store(under, o.store) == below.push(f));
                lemma_step_of_pushed(below, f);
                assert(store_of(below) == o.store);
                if decides(op, o.store.value) {
                    lemma_run_once(below.push(f));
                } else {
                    lemma_run_one_more(below.push(f), effort(o.store, *right));
                    lemma_machine_computes_meaning(below, *right);
                    let last = meaning(o.store, *right)->0;
                    assert(with_store(below, last.store) == with_store(m, last.store));
                }
            } else {
                lemma_failed_under(m, f, o);
            }
        },
        ExprModel::Binary(left, op, right) => {
            let f = FrameModel::Right(op, *right);
            let under = m.push(f);
            let first = effort(store, *left);
            lemma_run_one_more(start, (effort(store, e) - 1) as nat);
            lemma_machine_computes_meaning(under, *left);
            let a = meaning(store, *left)->0;
            if a.error is None {
                let rest = (effort(store, e) - 1 - first) as nat;
                lemma_run_in_parts(under.push(FrameModel::Eval(*left)), first, rest);
                let below = with_store(m, a.store);
                assert(with_store(under, a.store) == below.push(f));
                lemma_step_of_pushed(below, f);
                assert(store_of(below) == a.store);
                let g = FrameModel::Apply(op, a.store.value);
                let holding = below.push(g);
                assert(store_of(holding) == a.store);
                let second = effort(a.store, *right);
                lemma_run_one_more(below.push(f), (rest - 1) as nat);
                lemma_machine_computes_meaning(holding, *right);
                let b = meaning(a.store, *right)->0;
                if b.error is None {
                    lemma_run_in_parts(holding.push(FrameModel::Eval(*right)), second, 1);
                    let over = with_store(m, b.store);
                    assert(with_store(holding, b.store) == over.push(g));
                    lemma_run_once(over.push(g));
                    lemma_step_of_pushed(over, g);
                    assert(perform(over, g) == apply(over, op, a.store.value, b.store.value));
                    match applied(op, a.store.value, b.store.value) {
                        Applied::Value(v) => {
                            assert(with_store(m, yields(b.store.scopes, v).store)
                                == over.with_value(v));
                        },
                        Applied::Error(x) => {
                            assert(with_store(m, b.store) == over);
                        },
                        Applied::Arithmetic(_, _, _) => {},
                    }
                } else {
                    assert(with_store(holding, b.store) == with_store(m, b.store).push(g));
                    lemma_fail_under(with_store(m, b.store), g, b.error->0);
                }
            } else {
                lemma_failed_under(m, f, a);
            }
        },
        ExprModel::Call(callee, paren, args) => {
            let f = FrameModel::Callee(paren, args);
            let under = m.push(f);
            let first = effort(store, *callee);
            lemma_run_one_more(start, (effort(store, e) - 1) as nat);
            lemma_machine_computes_meaning(under, *callee);
            let c = meaning(store, *callee)->0;
            if c.error is None {
                let rest = (effort(store, e) - 1 - first) as nat;
                lemma_run_in_parts(under.push(FrameModel::Eval(*callee)), first, rest);
                let below = with_store(m, c.store);
                assert(with_store(under, c.store) == below.push(f));
                assert(store_of(below) == c.store);
                lemma_step_of_pushed(below, f);
                let v = c.store.value;
                if !callable(v) {
                    lemma_run_once(below.push(f));
                } else if args.len() == 0 {
                    lemma_run_once(below.push(f));
                } else {
                    let g = FrameModel::Argument(v, paren, args, Seq::empty());
                    lemma_run_one_more(below.push(f), effort_of_arguments(c.store, e, 0));
                    lemma_machine_collects(below, e, v, 0, Seq::empty());
                    let a = arguments(c.store, e, 0)->0;
                    let last = if a.error is None {
                        fails(a.store, mismatch(v, paren, args.len()))
                    } else {
                        a
                    };
                    assert(with_store(below, last.store) == with_store(m, last.store));
                }
            } else {
                lemma_failed_under(m, f, c);
            }
        },
    }
}

/// The machine evaluates the arguments of a call as they mean, and checks
/// their number against the arity.
///
/// `below` is the machine under the call, `callee` the value called, and
/// `done` the arguments before `from`, all evaluated.
pub proof fn lemma_machine_collects(
    below: Machine,
    e: ExprModel,
    callee: Value,
    from: nat,
    done: Seq<Value>,
)
    requires
        e is Call,
        from < count_of(e),
        done.len() == from,
        callable(callee),
        arguments(store_of(below), e, from) matches Some(a) && (a.error is Some || arity_of(callee)
            != count_of(e)),
    ensures
        ({
            let a = arguments(store_of(below), e, from)->0;
            let last = if a.error is None {
                fails(a.store, mismatch(callee, e->Call_1, count_of(e)))
            } else {
                a
            };
            run(
                below.push(FrameModel::Argument(callee, e->Call_1, e->Call_2, done)).push(
                    FrameModel::Eval(e->Call_2[from as int]),
                ),
                effort_of_arguments(store_of(below), e, from),
            ) == arrived(below, last)
        }),
    decreases e, 0int, count_of(e) - from,
{
    let paren = e->Call_1;
    let args = e->Call_2;
    let store = store_of(below);
    let g = FrameModel::Argument(callee, paren, args, done);
    let under = below.push(g);
    let item = args[from as int];
    let first = effort(store, item);
    assert(store_of(under) == store);
    lemma_machine_computes_meaning(under, item);
    let o = meaning(store, item)->0;
    if o.error is None {
        let rest = (effort_of_arguments(store, e, from) - first) as nat;
        lemma_run_in_parts(under.push(FrameModel::Eval(item)), first, rest);
        let lower = with_store(below, o.store);
        assert(with_store(under, o.store) == lower.push(g));
        assert(store_of(lower) == o.store);
        lemma_step_of_pushed(lower, g);
        let so_far = done.push(o.store.value);
        if from + 1 < args.len() {
            lemma_run_one_more(lower.push(g), effort_of_arguments(o.store, e, from + 1));
            lemma_machine_collects(lower, e, callee, from + 1, so_far);
            let a = arguments(o.store, e, from + 1)->0;
            let last = if a.error is None {
                fails(a.store, mismatch(callee, paren, args.len()))
            } else {
                a
            };
            assert(with_store(lower, last.store) == with_store(below, last.store));
        } else {
            lemma_run_once(lower.push(g));
            assert(so_far.len() == args.len());
            assert(with_store(below, o.store) == lower);
        }
    } else {
        lemma_failed_under(below, g, o);
    }
}

/// A call whose callee and arguments evaluate, with a number of arguments
/// that is not the arity of the callee, fails with the error that names
/// the arity and the number, at the line of the closing parenthesis; the
/// callee is not entered.
pub proof fn lemma_call_checks_arity(
    store: Store,
    callee: ExprModel,
    paren: TokenModel,
    args: Seq<ExprModel>,
)
    requires
        meaning(store, callee) matches Some(c) && c.error is None && callable(c.store.value)
            && arity_of(c.store.value) != args.len() && (arguments(
            c.store,
            ExprModel::Call(Box::new(callee), paren, args),
            0,
        ) matches Some(a) && a.error is None),
    ensures
        ({
            let c = meaning(store, callee)->0;
            let e = ExprModel::Call(Box::new(callee), paren, args);
            meaning(store, e) == Some(
                fails(arguments(c.store, e, 0)->0.store, mismatch(c.store.value, paren, args.len())),
            )
        }),
{
}

/// What the execution of a statement comes to.
///
/// An expression statement is its expression. A variable declaration binds
/// the name, in the innermost scope, to the value of its initializer, or to
/// nil. A function declaration binds the name to the function. A block
/// executes its items in a scope of its own, which is left when the items
/// are done and also when one of them fails. An `if` executes the branch
/// that the truth of its condition selects, if there is one.
///
/// Loops, returns and imports have no meaning here.
pub open spec fn execution(store: Store, s: StatementModel) -> Option<Outcome>
    decreases s, 1int,
{
    match s {
        StatementModel::Expression(e) => meaning(store, e),
        StatementModel::Variable(name, init) => match init {
            Some(e) => match meaning(store, e) {
                Some(o) => if o.error is None {
                    Some(
                        Outcome {
                            store: Store {
                                scopes: defined(o.store.scopes, name.lexeme, o.store.value),
                                value: o.store.value,
                            },
                            error: None,
                        },
                    )
                } else {
                    Some(o)
                },
                None => None,
            },
            None => Some(yields(defined(store.scopes, name.lexeme, Value::Nil), store.value)),
        },
        StatementModel::Function(name, _, _) => Some(
            yields(defined(store.scopes, name.lexeme, Value::Function(Box::new(s))), store.value),
        ),
        StatementModel::Block(items) => match sequence(
            Store { scopes: entered(store.scopes, Map::empty()), value: store.value },
            s,
            0,
        ) {
            Some(o) => Some(
                Outcome {
                    store: Store { scopes: popped(o.store.scopes), value: o.store.value },
                    error: o.error,
                },
            ),
            None => None,
        },
        StatementModel::If(cond, then, other) => match meaning(store, cond) {
            Some(o) => if o.error is None {
                if truthy(o.store.value) {
                    execution(o.store, *then)
                } else {
                    match other {
                        Some(x) => execution(o.store, *x),
                        None => Some(o),
                    }
                }
            } else {
                Some(o)
            },
            None => None,
        },
        StatementModel::While(_, _) => None,
        StatementModel::Return(_, _) => None,
        StatementModel::Import(_) => None,
    }
}

/// What the execution of the items of the block `s` from item `from` on
/// comes to: they are executed in order, each in the store that the one
/// before left, up to the first that fails.
pub open spec fn sequence(store: Store, s: StatementModel, from: nat) -> Option<Outcome>
    decreases s, 0int, items_of(s).len() - from,
{
    if s is Block && from < items_of(s).len() {
        match execution(store, items_of(s)[from as int]) {
            Some(o) => if o.error is None {
                sequence(o.store, s, from + 1)
            } else {
                Some(o)
            },
            None => None,
        }
    } else {
        Some(Outcome { store, error: None })
    }
}

/// How many steps the machine takes to execute a statement that has a
/// meaning: up to the step that ends it, or up to the step that fails.
pub open spec fn work(store: Store, s: StatementModel) -> nat
    decreases s, 1int,
{
    match s {
        StatementModel::Expression(e) => effort(store, e),
        StatementModel::Variable(_, init) => match init {
            Some(e) => effort(store, e) + match meaning(store, e) {
                Some(o) => if o.error is None {
                    1nat
                } else {
                    0nat
                },
                None => 0nat,
            },
            None => 1,
        },
        StatementModel::Function(_, _, _) => 1,
        StatementModel::Block(_) => {
            let inner = Store { scopes: entered(store.scopes, Map::empty()), value: store.value };
            1 + work_of_items(inner, s, 0) + match sequence(inner, s, 0) {
                Some(o) => if o.error is None {
                    1nat
                } else {
                    0nat
                },
                None => 0nat,
            }
        },
        StatementModel::If(cond, then, other) => effort(store, cond) + match meaning(store, cond) {
            Some(o) => if o.error is None {
                1 + if truthy(o.store.value) {
                    work(o.store, *then)
                } else {
                    match other {
                        Some(x) => work(o.store, *x),
                        None => 0,
                    }
                }
            } else {
                0
            },
            None => 0,
        },
        _ => 0,
    }
}

/// How many steps the machine takes for the items of the block `s` from
/// item `from` on.
pub open spec fn work_of_items(store: Store, s: StatementModel, from: nat) -> nat
    decreases s, 0int, items_of(s).len() - from,
{
    if s is Block && from < items_of(s).len() {
        1 + work(store, items_of(s)[from as int]) + match execution(
            store,
            items_of(s)[from as int],
        ) {
            Some(o) => if o.error is None {
                work_of_items(o.store, s, from + 1)
            } else {
                0
            },
            None => 0,
        }
    } else {
        1
    }
}

/// Machines that take the same first step go the same way.
pub proof fn lemma_same_first_step(x: Machine, y: Machine, budget: nat)
    requires
        step(x) == step(y),
        budget >= 1,
    ensures
        run(x, budget) == run(y, budget),
{
    lemma_run_one_more(x, (budget - 1) as nat);
    lemma_run_one_more(y, (budget - 1) as nat);
}

/// An expression that has a meaning takes at least one step.
pub proof fn lemma_effort_is_positive(store: Store, e: ExprModel)
    requires
        meaning(store, e) is Some,
    ensures
        effort(store, e) >= 1,
{
}

/// The machine executes the items of a block as they mean.
///
/// `base` is the machine under the block's sequence frame.
pub proof fn lemma_machine_executes_items(base: Machine, s: StatementModel, from: nat)
    requires
        sequence(store_of(base), s, from) is Some,
        s is Block,
    ensures
        run(
            base.push(FrameModel::Sequence(s, from)),
            work_of_items(store_of(base), s, from),
        ) == arrived(base, sequence(store_of(base), s, from)->0),
    decreases s, 0int, items_of(s).len() - from,
{
    let store = store_of(base);
    let f = FrameModel::Sequence(s, from);
    let start = base.push(f);
    lemma_step_of_pushed(base, f);
    assert(with_store(base, store) == base);
    if from < items_of(s).len() {
        let item = items_of(s)[from as int];
        let g = FrameModel::Sequence(s, from + 1);
        let under = base.push(g);
        let o = execution(store, item)->0;
        let first = work(store, item);
        lemma_run_one_more(start, (work_of_items(store, s, from) - 1) as nat);
        assert(store_of(under) == store);
        lemma_machine_executes(under, item);
        if o.error is None {
            let rest = work_of_items(o.store, s, from + 1);
            lemma_run_in_parts(under.push(FrameModel::Exec(item)), first, rest);
            let below = with_store(base, o.store);
            assert(with_store(under, o.store) == below.push(g));
            assert(store_of(below) == o.store);
            lemma_machine_executes_items(below, s, from + 1);
            let last = sequence(o.store, s, from + 1)->0;
            assert(with_store(below, last.store) == with_store(base, last.store));
        } else {
            lemma_failed_under(base, g, o);
        }
    } else {
        lemma_run_once(start);
    }
}

/// The machine executes a statement as it means.
///
/// From any machine with the statement to execute on top, `work` steps
/// lead to the machine below with the store that the execution leaves; or,
/// where the statement fails, to where the failure takes that machine. In
/// both cases every scope that the statement entered has been left.
pub proof fn lemma_machine_executes(m: Machine, s: StatementModel)
    requires
        execution(store_of(m), s) is Some,
    ensures
        run(m.push(FrameModel::Exec(s)), work(store_of(m), s)) == arrived(
            m,
            execution(store_of(m), s)->0,
        ),
    decreases s, 1int,
{
    let start = m.push(FrameModel::Exec(s));
    let store = store_of(m);
    lemma_step_of_pushed(m, FrameModel::Exec(s));
    assert(step(start) == execute(m, s));
    assert(with_store(m, store) == m);
    match s {
        StatementModel::Expression(e) => {
            lemma_step_of_pushed(m, FrameModel::Eval(e));
            lemma_effort_is_positive(store, e);
            lemma_same_first_step(start, m.push(FrameModel::Eval(e)), effort(store, e));
            lemma_machine_computes_meaning(m, e);
        },
        StatementModel::Variable(name, init) => {
            match init {
                Some(e) => {
                    let f = FrameModel::Define(s);
                    let under = m.push(f);
                    let first = effort(store, e);
                    lemma_step_of_pushed(under, FrameModel::Eval(e));
                    lemma_effort_is_positive(store, e);
                    lemma_same_first_step(start, under.push(FrameModel::Eval(e)), work(store, s));
                    assert(store_of(under) == store);
                    lemma_machine_computes_meaning(under, e);
                    let o = meaning(store, e)->0;
                    if o.error is None {
                        lemma_run_in_parts(under.push(FrameModel::Eval(e)), first, 1);
                        let below = with_store(m, o.store);
                        assert(with_store(under, o.store) == below.push(f));
                        lemma_run_once(below.push(f));
                        lemma_step_of_pushed(below, f);
                        assert(with_store(m, execution(store, s)->0.store) == below.with_scopes(
                            defined(below.scopes, name.lexeme, below.value),
                        ));
                    } else {
                        lemma_failed_under(m, f, o);
                    }
                },
                None => {
                    lemma_run_once(start);
                    assert(with_store(m, execution(store, s)->0.store) == m.with_scopes(
                        defined(m.scopes, name.lexeme, Value::Nil),
                    ));
                },
            }
        },
        StatementModel::Function(name, _, _) => {
            lemma_run_once(start);
            assert(with_store(m, execution(store, s)->0.store) == m.with_scopes(
                defined(m.scopes, name.lexeme, Value::Function(Box::new(s))),
            ));
        },
        StatementModel::Block(items) => {
            let inner = Store { scopes: entered(store.scopes, Map::empty()), value: store.value };
            let entered_m = m.with_scopes(inner.scopes);
            let base = entered_m.push(FrameModel::Leave);
            let o = sequence(inner, s, 0)->0;
            let middle = work_of_items(inner, s, 0);
            lemma_run_one_more(start, (work(store, s) - 1) as nat);
            assert(store_of(base) == inner);
            lemma_machine_executes_items(base, s, 0);
            let seq_start = base.push(FrameModel::Sequence(s, 0));
            if o.error is None {
                lemma_run_in_parts(seq_start, middle, 1);
                let below = with_store(entered_m, o.store);
                assert(with_store(base, o.store) == below.push(FrameModel::Leave));
                lemma_run_once(below.push(FrameModel::Leave));
                lemma_step_of_pushed(below, FrameModel::Leave);
                assert(with_store(m, execution(store, s)->0.store) == below.with_scopes(
                    popped(below.scopes),
                ));
            } else {
                let below = with_store(entered_m, o.store);
                assert(with_store(base, o.store) == below.push(FrameModel::Leave));
                lemma_fail_in_block(below, o.error->0);
                assert(with_store(m, execution(store, s)->0.store) == below.with_scopes(
                    popped(below.scopes),
                ));
            }
        },
        StatementModel::If(cond, then, other) => {
            let f = FrameModel::Branch(s);
            let under = m.push(f);
            let first = effort(store, cond);
            lemma_step_of_pushed(under, FrameModel::Eval(cond));
            lemma_effort_is_positive(store, cond);
            lemma_same_first_step(start, under.push(FrameModel::Eval(cond)), work(store, s));
            assert(store_of(under) == store);
            lemma_machine_computes_meaning(under, cond);
            let o = meaning(store, cond)->0;
            if o.error is None {
                let rest = (work(store, s) - first) as nat;
                lemma_run_in_parts(under.push(FrameModel::Eval(cond)), first, rest);
                let below = with_store(m, o.store);
                assert(with_store(under, o.store) == below.push(f));
                assert(store_of(below) == o.store);
                lemma_step_of_pushed(below, f);
                if truthy(o.store.value) {
                    lemma_run_one_more(below.push(f), work(o.store, *then));
                    lemma_machine_executes(below, *then);
                    let last = execution(o.store, *then)->0;
                    assert(with_store(below, last.store) == with_store(m, last.store));
                } else {
                    match other {
                        Some(x) => {
                            lemma_run_one_more(below.push(f), work(o.store, *x));
                            lemma_machine_executes(below, *x);
                            let last = execution(o.store, *x)->0;
                            assert(with_store(below, last.store) == with_store(m, last.store));
                        },
                        None => {
                            lemma_run_once(below.push(f));
                        },
                    }
                }
            } else {
                lemma_failed_under(m, f, o);
            }
        },
        StatementModel::While(_, _) => {},
        StatementModel::Return(_, _) => {},
        StatementModel::Import(_) => {},
    }
}

/// A block that declares one variable, with an initializer that succeeds
/// and changes no scope, leaves the scope chain as it found it: what the
/// block declared is gone with its scope, and a binding of the same name
/// outside of the block is what it was.
pub proof fn lemma_declaration_in_a_block_is_gone(
    store: Store,
    name: TokenModel,
    init: ExprModel,
)
    requires
        store.scopes.len() > 0,
        meaning(
            Store { scopes: entered(store.scopes, Map::empty()), value: store.value },
            init,
        ) matches Some(o) && o.error is None && o.store.scopes == entered(
            store.scopes,
            Map::empty(),
        ),
    ensures
        execution(
            store,
            StatementModel::Block(seq![StatementModel::Variable(name, Some(init))]),
        ) matches Some(o) && o.error is None && o.store.scopes == store.scopes,
{
    let item = StatementModel::Variable(name, Some(init));
    let s = StatementModel::Block(seq![item]);
    let inner = Store { scopes: entered(store.scopes, Map::empty()), value: store.value };
    let o = meaning(inner, init)->0;
    assert(items_of(s)[0] == item);
    let declared = execution(inner, item)->0;
    assert(declared.store.scopes == defined(inner.scopes, name.lexeme, o.store.value));
    assert(sequence(declared.store, s, 1) == Some(Outcome { store: declared.store, error: None }));
    assert(sequence(inner, s, 0) == Some(Outcome { store: declared.store, error: None }));
    assert(popped(declared.store.scopes) == store.scopes);
}

} // verus!
