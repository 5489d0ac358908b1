//! What holds of every run of the machine, of every scope chain and of
//! every pair of values.

use vstd::prelude::*;
use crate::environment::{assigned, defined, lookup, Scope};
use crate::err::ErrorModel;
use crate::lox_type::{text_order_from, value_order, values_equal, Order};
use crate::machine::{
    applied, negated, Applied, apply, arity_message, arity_of, bound, call, entered, evaluate, execute, invoke, items_of,
    negate, perform, popped, raise, resume, run, step, unwind, Failure, FrameModel, Machine, Signal,
};
use crate::model::{ExprModel, StatementModel, TokenModel, Value};

verus! {

/// Whether a frame leaves a scope when it is done or dropped.
pub open spec fn leaves(f: FrameModel) -> bool {
    f is Leave || f is Returned
}

/// How many scopes the frames of a stack leave.
pub open spec fn owed(control: Seq<FrameModel>) -> nat
    decreases control.len(),
{
    if control.len() == 0 {
        0
    } else {
        owed(control.drop_last()) + if leaves(control.last()) {
            1nat
        } else {
            0nat
        }
    }
}

/// No import is under way.
pub open spec fn import_free(control: Seq<FrameModel>) -> bool {
    forall|i: int| 0 <= i < control.len() ==> !(#[trigger] control[i] is Imported)
}

/// A machine outside of any import that has every scope that its frames
/// leave, and one more.
pub open spec fn balanced(m: Machine) -> bool {
    import_free(m.control) && m.scopes.len() > owed(m.control)
}

/// The number of scopes that are left once every frame is done or dropped.
pub open spec fn depth(m: Machine) -> int {
    m.scopes.len() - owed(m.control)
}

/// `to` is balanced and as deep as `from`.
pub open spec fn kept(from: Machine, to: Machine) -> bool {
    balanced(to) && depth(to) == depth(from)
}

proof fn lemma_push(m: Machine, f: FrameModel)
    requires
        !(f is Imported),
    ensures
        owed(m.push(f).control) == owed(m.control) + if leaves(f) {
            1nat
        } else {
            0nat
        },
        import_free(m.control) ==> import_free(m.push(f).control),
{
    assert(m.push(f).control.drop_last() == m.control);
}

proof fn lemma_pop(m: Machine)
    requires
        m.control.len() > 0,
    ensures
        owed(m.control) == owed(m.control.drop_last()) + if leaves(m.control.last()) {
            1nat
        } else {
            0nat
        },
        import_free(m.control) ==> import_free(m.control.drop_last()) && !(m.control.last()
            is Imported),
{
    if import_free(m.control) {
        assert(!(m.control[m.control.len() - 1] is Imported));
        assert forall|i: int| 0 <= i < m.control.drop_last().len() implies !(
        #[trigger] m.control.drop_last()[i] is Imported) by {
            assert(m.control.drop_last()[i] == m.control[i]);
        }
    }
}

/// Unwinding keeps the depth: every scope that a dropped frame would have
/// left is left. If it ends the run, no frame and no scope of a block or a
/// call is left over.
pub proof fn lemma_unwind_keeps_depth(m: Machine, signal: Signal)
    requires
        balanced(m),
    ensures
        kept(m, unwind(m, signal).0),
        unwind(m, signal).1 is Finished ==> unwind(m, signal).0.control.len() == 0 && unwind(
            m,
            signal,
        ).0.scopes.len() == depth(m),
        !(unwind(m, signal).1 is Finished) ==> unwind(m, signal).1 is Continue,
    decreases m.control.len(),
{
    if m.control.len() > 0 {
        lemma_pop(m);
        let rest = m.with_control(m.control.drop_last());
        match m.control.last() {
            FrameModel::Leave => {
                lemma_unwind_keeps_depth(rest.with_scopes(popped(m.scopes)), signal);
            },
            FrameModel::Returned => {
                match signal {
                    Signal::Return(v, _) => {},
                    _ => {
                        lemma_unwind_keeps_depth(rest.with_scopes(popped(m.scopes)), signal);
                    },
                }
            },
            FrameModel::Imported(_) => {},
            _ => {
                lemma_unwind_keeps_depth(rest, signal);
            },
        }
    }
}

proof fn lemma_evaluate_keeps_depth(m: Machine, e: ExprModel)
    requires
        balanced(m),
    ensures
        kept(m, evaluate(m, e).0),
{
    match e {
        ExprModel::Literal(v) => {},
        ExprModel::Grouping(inner) => {
            lemma_push(m, FrameModel::Eval(*inner));
        },
        ExprModel::Variable(name) => {
            lemma_unwind_keeps_depth(
                m,
                Signal::Failure(
                    Failure::Error(
                        ErrorModel { message: "Variable not found"@, line: name.line },
                    ),
                ),
            );
        },
        ExprModel::Assign(name, value) => {
            lemma_push(m, FrameModel::Assign(name));
            lemma_push(m.push(FrameModel::Assign(name)), FrameModel::Eval(*value));
        },
        ExprModel::Logical(left, op, right) => {
            lemma_push(m, FrameModel::Logical(op, *right));
            lemma_push(m.push(FrameModel::Logical(op, *right)), FrameModel::Eval(*left));
        },
        ExprModel::Unary(op, operand) => {
            lemma_push(m, FrameModel::Unary(op));
            lemma_push(m.push(FrameModel::Unary(op)), FrameModel::Eval(*operand));
        },
        ExprModel::Binary(left, op, right) => {
            lemma_push(m, FrameModel::Right(op, *right));
            lemma_push(m.push(FrameModel::Right(op, *right)), FrameModel::Eval(*left));
        },
        ExprModel::Call(callee, paren, args) => {
            lemma_push(m, FrameModel::Callee(paren, args));
            lemma_push(m.push(FrameModel::Callee(paren, args)), FrameModel::Eval(*callee));
        },
    }
}

proof fn lemma_raise_keeps_depth(m: Machine, message: Seq<char>, line: int)
    requires
        balanced(m),
    ensures
        kept(m, raise(m, message, line).0),
{
    lemma_unwind_keeps_depth(
        m,
        Signal::Failure(Failure::Error(ErrorModel { message, line })),
    );
}

proof fn lemma_execute_keeps_depth(m: Machine, s: StatementModel)
    requires
        balanced(m),
    ensures
        kept(m, execute(m, s).0),
{
    match s {
        StatementModel::Expression(e) => {
            lemma_evaluate_keeps_depth(m, e);
        },
        StatementModel::Variable(name, init) => {
            match init {
                Some(e) => {
                    lemma_push(m, FrameModel::Define(s));
                    lemma_evaluate_keeps_depth(m.push(FrameModel::Define(s)), e);
                },
                None => {},
            }
        },
        StatementModel::Block(_) => {
            let inner = m.with_scopes(entered(m.scopes, Map::empty()));
            lemma_push(inner, FrameModel::Leave);
            lemma_push(inner.push(FrameModel::Leave), FrameModel::Sequence(s, 0));
        },
        StatementModel::If(cond, _, _) => {
            lemma_push(m, FrameModel::Branch(s));
            lemma_evaluate_keeps_depth(m.push(FrameModel::Branch(s)), cond);
        },
        StatementModel::While(cond, _) => {
            lemma_push(m, FrameModel::Loop(s));
            lemma_evaluate_keeps_depth(m.push(FrameModel::Loop(s)), cond);
        },
        StatementModel::Function(name, _, _) => {},
        StatementModel::Return(keyword, e) => {
            lemma_push(m, FrameModel::Return(keyword));
            lemma_evaluate_keeps_depth(m.push(FrameModel::Return(keyword)), e);
        },
        StatementModel::Import(file) => {
            lemma_raise_keeps_depth(m, "Import without a path"@, file.line);
        },
    }
}

proof fn lemma_call_keeps_depth(m: Machine, declaration: StatementModel, args: Seq<Value>)
    requires
        balanced(m),
    ensures
        kept(m, call(m, declaration, args).0),
{
    match declaration {
        StatementModel::Function(_, params, body) => {
            let n = if params.len() <= args.len() {
                params.len()
            } else {
                args.len()
            };
            let inner = m.with_scopes(
                entered(m.scopes, bound(params, args, n)),
            );
            lemma_push(inner, FrameModel::Returned);
            lemma_push(inner.push(FrameModel::Returned), FrameModel::Exec(*body));
        },
        _ => {},
    }
}

proof fn lemma_invoke_keeps_depth(m: Machine, callee: Value, paren: TokenModel, args: Seq<Value>)
    requires
        balanced(m),
    ensures
        kept(m, invoke(m, callee, paren, args).0),
{
    lemma_raise_keeps_depth(
        m,
        arity_message(arity_of(callee), args.len()),
        paren.line,
    );
    lemma_raise_keeps_depth(m, "Expected callable object but got normal type"@, paren.line);
    match callee {
        Value::Function(decl) => {
            lemma_call_keeps_depth(m, *decl, args);
        },
        _ => {},
    }
}

proof fn lemma_apply_keeps_depth(m: Machine, op: TokenModel, left: Value, right: Value)
    requires
        balanced(m),
    ensures
        kept(m, apply(m, op, left, right).0),
{
    match applied(op, left, right) {
        Applied::Error(e) => {
            lemma_unwind_keeps_depth(m, Signal::Failure(Failure::Error(e)));
        },
        _ => {},
    }
}

proof fn lemma_negate_keeps_depth(m: Machine, op: TokenModel)
    requires
        balanced(m),
    ensures
        kept(m, negate(m, op).0),
{
    match negated(op, m.value) {
        Err(e) => {
            lemma_unwind_keeps_depth(m, Signal::Failure(Failure::Error(e)));
        },
        Ok(_) => {},
    }
}

proof fn lemma_perform_keeps_depth(m: Machine, f: FrameModel)
    requires
        import_free(m.control),
        !(f is Imported),
        m.scopes.len() > owed(m.control) + if leaves(f) {
            1nat
        } else {
            0nat
        },
    ensures
        balanced(perform(m, f).0),
        depth(perform(m, f).0) == depth(m) - if leaves(f) {
            1int
        } else {
            0int
        },
{
    match f {
        FrameModel::Exec(s) => {
            lemma_execute_keeps_depth(m, s);
        },
        FrameModel::Sequence(s, i) => {
            if i < items_of(s).len() {
                let item = FrameModel::Exec(items_of(s)[i as int]);
                lemma_push(m, FrameModel::Sequence(s, i + 1));
                lemma_push(m.push(FrameModel::Sequence(s, i + 1)), item);
            }
        },
        FrameModel::Leave => {},
        FrameModel::Eval(e) => {
            lemma_evaluate_keeps_depth(m, e);
        },
        FrameModel::Define(s) => {},
        FrameModel::Branch(s) => {
            match s {
                StatementModel::If(_, then, other) => {
                    lemma_push(m, FrameModel::Exec(*then));
                    match other {
                        Some(o) => {
                            lemma_push(m, FrameModel::Exec(*o));
                        },
                        None => {},
                    }
                },
                _ => {},
            }
        },
        FrameModel::Loop(s) => {
            match s {
                StatementModel::While(_, body) => {
                    lemma_push(m, FrameModel::Exec(s));
                    lemma_push(m.push(FrameModel::Exec(s)), FrameModel::Exec(*body));
                },
                _ => {},
            }
        },
        FrameModel::Return(keyword) => {
            lemma_unwind_keeps_depth(m, Signal::Return(m.value, keyword.line));
        },
        FrameModel::Assign(name) => {
            lemma_raise_keeps_depth(m, "Undefined variable"@, name.line);
            lemma_assigned_keeps_length(m.scopes, name.lexeme, m.value);
        },
        FrameModel::Logical(op, right) => {
            lemma_push(m, FrameModel::Eval(right));
        },
        FrameModel::Unary(op) => {
            lemma_negate_keeps_depth(m, op);
        },
        FrameModel::Right(op, right) => {
            lemma_push(m, FrameModel::Apply(op, m.value));
            lemma_push(m.push(FrameModel::Apply(op, m.value)), FrameModel::Eval(right));
        },
        FrameModel::Apply(op, left) => {
            lemma_apply_keeps_depth(m, op, left, m.value);
        },
        FrameModel::Callee(paren, args) => {
            lemma_raise_keeps_depth(
                m,
                "Expected callable object but got normal type"@,
                paren.line,
            );
            lemma_invoke_keeps_depth(m, m.value, paren, Seq::empty());
            if args.len() > 0 {
                let next = FrameModel::Argument(m.value, paren, args, Seq::empty());
                lemma_push(m, next);
                lemma_push(m.push(next), FrameModel::Eval(args[0]));
            }
        },
        FrameModel::Argument(callee, paren, args, done) => {
            let so_far = done.push(m.value);
            lemma_invoke_keeps_depth(m, callee, paren, so_far);
            if so_far.len() < args.len() {
                let next = FrameModel::Argument(callee, paren, args, so_far);
                lemma_push(m, next);
                lemma_push(m.push(next), FrameModel::Eval(args[so_far.len() as int]));
            }
        },
        FrameModel::Returned => {},
        FrameModel::Imported(saved) => {},
    }
}

/// An assignment changes no scope into more or fewer scopes.
pub proof fn lemma_assigned_keeps_length(chain: Seq<Scope>, name: Seq<char>, value: Value)
    ensures
        assigned(chain, name, value).len() == chain.len(),
    decreases chain.len(),
{
    if chain.len() > 0 && !chain[0].contains_key(name) {
        lemma_assigned_keeps_length(chain.drop_first(), name, value);
    }
}

/// Outside of an import no step leaks a scope: whatever the step does
/// (enter or leave a block, call a function, return from one, fail), the
/// machine stays balanced and as deep as it was. So a block or a call that
/// is done, in whatever way, has left the scope chain as deep as it found
/// it.
pub proof fn lemma_step_keeps_depth(m: Machine)
    requires
        balanced(m),
    ensures
        kept(m, step(m).0),
{
    if m.control.len() > 0 {
        lemma_pop(m);
        lemma_perform_keeps_depth(m.with_control(m.control.drop_last()), m.control.last());
    }
}

/// No number of steps leaks a scope.
pub proof fn lemma_run_keeps_depth(m: Machine, budget: nat)
    requires
        balanced(m),
    ensures
        kept(m, run(m, budget).0),
    decreases budget,
{
    if budget > 0 {
        lemma_step_keeps_depth(m);
        if step(m).1 is Continue {
            lemma_run_keeps_depth(step(m).0, (budget - 1) as nat);
        }
    }
}

/// A budget spent in two parts is a budget spent at once.
pub proof fn lemma_run_in_parts(m: Machine, first: nat, second: nat)
    ensures
        run(m, first).1 is Continue ==> run(m, first + second) == run(run(m, first).0, second),
        !(run(m, first).1 is Continue) ==> run(m, first + second) == run(m, first),
    decreases first,
{
    if first > 0 {
        if step(m).1 is Continue {
            lemma_run_in_parts(step(m).0, (first - 1) as nat, second);
            assert(run(m, first + second) == run(step(m).0, (first + second - 1) as nat));
        }
    }
}

/// What the embedding program answers to an arithmetic or a native call
/// leaks no scope either.
pub proof fn lemma_resume_keeps_depth(m: Machine, reply: Result<Value, ErrorModel>)
    requires
        balanced(m),
    ensures
        kept(m, resume(m, reply).0),
{
    match reply {
        Ok(_) => {},
        Err(e) => {
            lemma_unwind_keeps_depth(m, Signal::Failure(Failure::Error(e)));
        },
    }
}

/// A run that ends with a failure ends with as many scopes as it would
/// have ended with otherwise: every block and every call that the failure
/// cut short has left its scope.
pub proof fn lemma_failure_leaves_every_scope(m: Machine, message: Seq<char>, line: int)
    requires
        balanced(m),
        raise(m, message, line).1 is Finished,
    ensures
        raise(m, message, line).0.scopes.len() == depth(m),
        raise(m, message, line).0.control.len() == 0,
{
    lemma_unwind_keeps_depth(
        m,
        Signal::Failure(Failure::Error(ErrorModel { message, line })),
    );
}

/// The scope of a call binds exactly the names of the parameters.
pub proof fn lemma_parameters_are_bound(
    params: Seq<TokenModel>,
    args: Seq<Value>,
    n: nat,
    name: Seq<char>,
)
    requires
        n <= params.len(),
    ensures
        bound(params, args, n).contains_key(name) <==> exists|i: int|
            0 <= i < n && #[trigger] params[i].lexeme == name,
    decreases n,
{
    if n > 0 {
        lemma_parameters_are_bound(params, args, (n - 1) as nat, name);
        if params[n - 1].lexeme == name {
            assert(0 <= n - 1 < n && params[n - 1].lexeme == name);
        } else if bound(params, args, n).contains_key(name) {
            let i = choose|i: int| 0 <= i < n - 1 && #[trigger] params[i].lexeme == name;
            assert(0 <= i < n && params[i].lexeme == name);
        } else {
            assert forall|i: int| 0 <= i < n implies #[trigger] params[i].lexeme != name by {
                if i < n - 1 {
                    assert(!bound(params, args, (n - 1) as nat).contains_key(name));
                }
            }
        }
    }
}

/// A parameter is bound to its argument, unless a later parameter has its
/// name.
pub proof fn lemma_parameter_has_its_argument(
    params: Seq<TokenModel>,
    args: Seq<Value>,
    n: nat,
    i: int,
)
    requires
        0 <= i < n <= params.len(),
        forall|j: int| i < j < n ==> params[j].lexeme != params[i].lexeme,
    ensures
        bound(params, args, n).contains_key(params[i].lexeme),
        bound(params, args, n)[params[i].lexeme] == args[i],
    decreases n,
{
    if i < n - 1 {
        lemma_parameter_has_its_argument(params, args, (n - 1) as nat, i);
    }
}

/// Inside a function, a name that is no parameter means what it means for
/// the caller at the time of the call: the scope chain that the body sees
/// is the chain of the caller under the scope of the parameters, not the
/// chain that was current when the function was declared.
pub proof fn lemma_free_variable_is_the_callers(
    m: Machine,
    params: Seq<TokenModel>,
    body: StatementModel,
    name: TokenModel,
    args: Seq<Value>,
    free: Seq<char>,
)
    requires
        params.len() == args.len(),
        forall|i: int| 0 <= i < params.len() ==> params[i].lexeme != free,
    ensures
        lookup(
            call(m, StatementModel::Function(name, params, Box::new(body)), args).0.scopes,
            free,
        ) == lookup(m.scopes, free),
{
    lemma_parameters_are_bound(params, args, params.len(), free);
    let inner = entered(m.scopes, bound(params, args, params.len()));
    assert(inner.drop_first() == m.scopes);
}

/// A call with a number of arguments that is not the arity fails, with a
/// message that names both numbers, at the line of the closing parenthesis.
pub proof fn lemma_arity_is_checked(m: Machine, callee: Value, paren: TokenModel, args: Seq<Value>)
    requires
        arity_of(callee) != args.len(),
    ensures
        invoke(m, callee, paren, args) == raise(
            m,
            arity_message(arity_of(callee), args.len()),
            paren.line,
        ),
{
}

/// What was defined is found.
pub proof fn lemma_defined_is_found(chain: Seq<Scope>, name: Seq<char>, value: Value)
    requires
        chain.len() > 0,
    ensures
        lookup(defined(chain, name, value), name) == Some(value),
{
}

/// A definition changes the value of no other name.
pub proof fn lemma_defined_keeps_others(
    chain: Seq<Scope>,
    name: Seq<char>,
    value: Value,
    other: Seq<char>,
)
    requires
        chain.len() > 0,
        other != name,
    ensures
        lookup(defined(chain, name, value), other) == lookup(chain, other),
{
    assert(defined(chain, name, value).drop_first() == chain.drop_first());
}

/// A definition touches the innermost scope only: what the enclosing
/// scopes bind stays, so the name is shadowed, not overwritten.
pub proof fn lemma_defined_shadows(chain: Seq<Scope>, name: Seq<char>, value: Value)
    requires
        chain.len() > 0,
    ensures
        defined(chain, name, value).drop_first() == chain.drop_first(),
        defined(chain, name, value).len() == chain.len(),
{
}

/// An assignment to a name that no scope binds changes nothing.
pub proof fn lemma_assigned_unbound(chain: Seq<Scope>, name: Seq<char>, value: Value)
    requires
        lookup(chain, name) is None,
    ensures
        assigned(chain, name, value) == chain,
    decreases chain.len(),
{
    if chain.len() > 0 {
        lemma_assigned_unbound(chain.drop_first(), name, value);
        assert(seq![chain[0]] + chain.drop_first() == chain);
    }
}

/// After an assignment to a name that some scope binds, the name has the
/// value assigned.
pub proof fn lemma_assigned_is_found(chain: Seq<Scope>, name: Seq<char>, value: Value)
    requires
        lookup(chain, name) is Some,
    ensures
        lookup(assigned(chain, name, value), name) == Some(value),
    decreases chain.len(),
{
    if chain.len() > 0 && !chain[0].contains_key(name) {
        lemma_assigned_is_found(chain.drop_first(), name, value);
        let after = seq![chain[0]] + assigned(chain.drop_first(), name, value);
        assert(after.drop_first() == assigned(chain.drop_first(), name, value));
    }
}

/// An assignment changes the value of no other name.
pub proof fn lemma_assigned_keeps_others(
    chain: Seq<Scope>,
    name: Seq<char>,
    value: Value,
    other: Seq<char>,
)
    requires
        other != name,
    ensures
        lookup(assigned(chain, name, value), other) == lookup(chain, other),
    decreases chain.len(),
{
    if chain.len() > 0 {
        if chain[0].contains_key(name) {
            assert(assigned(chain, name, value).drop_first() == chain.drop_first());
        } else {
            lemma_assigned_keeps_others(chain.drop_first(), name, value, other);
            let after = seq![chain[0]] + assigned(chain.drop_first(), name, value);
            assert(after.drop_first() == assigned(chain.drop_first(), name, value));
        }
    }
}

/// Values of different kinds are never equal, and a callable is equal to
/// nothing, itself included.
pub proof fn lemma_equality_is_within_one_kind(a: Value, b: Value)
    ensures
        values_equal(a, b) ==> (a is Text && b is Text) || (a is Number && b is Number) || (a
            is Nil && b is Nil) || (a is Boolean && b is Boolean),
        a is Function || a is Native ==> !values_equal(a, a),
{
}

/// Values of different kinds stand in no order, and callables never.
pub proof fn lemma_order_is_within_one_kind(a: Value, b: Value)
    ensures
        value_order(a, b) is Some ==> (a is Text && b is Text) || (a is Number && b is Number)
            || (a is Nil && b is Nil) || (a is Boolean && b is Boolean),
{
}

proof fn lemma_text_order_equal(a: Seq<char>, b: Seq<char>, i: int)
    requires
        0 <= i <= a.len(),
        i <= b.len(),
        a.take(i) == b.take(i),
    ensures
        text_order_from(a, b, i) == Order::Equal <==> a == b,
    decreases a.len() - i,
{
    if i >= a.len() && i >= b.len() {
        assert(a.take(i) == a);
        assert(b.take(i) == b);
    } else if i >= a.len() {
        assert(a.len() != b.len());
    } else if i >= b.len() {
        assert(a.len() != b.len());
    } else if a[i] != b[i] {
    } else {
        assert(a.take(i + 1) == a.take(i).push(a[i]));
        assert(b.take(i + 1) == b.take(i).push(b[i]));
        lemma_text_order_equal(a, b, i + 1);
    }
}

/// Two values are equal exactly when they are ordered and neither comes
/// first.
pub proof fn lemma_equal_is_ordered_equal(a: Value, b: Value)
    ensures
        values_equal(a, b) <==> value_order(a, b) == Some(Order::Equal),
{
    match (a, b) {
        (Value::Text(x), Value::Text(y)) => {
            assert(x.take(0) == y.take(0));
            lemma_text_order_equal(x, y, 0);
        },
        _ => {},
    }
}

} // verus!
