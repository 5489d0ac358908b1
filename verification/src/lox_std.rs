//! The natives that a program expects: a clock, an output sink and a line
//! reader. Here they are names and arities; what they do is the embedding
//! program's part. For the clock, the embedding program reads the seconds
//! and `Clock` makes the number of them.

use vstd::prelude::*;
use crate::callable::{Callable, Native};
use crate::environment::defined;
use crate::interpreter::{Action, Interpreter};
use crate::lox_type::LoxType;
use crate::machine::resume;
use crate::model::Value;
use crate::number::{integer_bits, Number};

verus! {

/// The native `clock`: takes nothing, gives the seconds since the epoch.
#[derive(Clone, Copy, Debug)]
pub struct Clock;

/// The native `print`: takes one value and writes it out, gives nil.
#[derive(Clone, Copy, Debug)]
pub struct Print;

/// The native `readline`: takes nothing, gives one line of input.
#[derive(Clone, Copy, Debug)]
pub struct Readline;

/// The value that stands for a native.
pub fn native(name: &str, arity: usize) -> (r: LoxType)
    ensures
        r@ == Value::Native(name@, arity as nat),
{
    LoxType::Callable(Callable::Native(Native { name: name.to_owned(), arity }))
}

impl Clock {
    /// The number of arguments.
    pub fn arity(&self) -> (r: usize)
        ensures
            r == 0,
    {
        0
    }

    /// The number that the clock gives at `seconds` since the epoch.
    pub fn at(seconds: i64) -> (r: LoxType)
        ensures
            r@ == Value::Number(integer_bits(seconds)),
    {
        LoxType::Number(Number::from_integer(seconds))
    }

    /// Answers a call of the clock in `interpreter` with the time that the
    /// embedding program read: the value of the call is the number of
    /// `seconds`.
    pub fn call(&self, interpreter: &mut Interpreter, seconds: i64) -> (r: Action)
        requires
            old(interpreter).wf(),
        ensures
            final(interpreter).wf(),
            final(interpreter).did(
                r,
                resume(old(interpreter)@, Ok(Value::Number(integer_bits(seconds)))),
            ),
    {
        interpreter.resume(Ok(Clock::at(seconds)))
    }

    /// The value to bind under the name `clock`.
    pub fn value(&self) -> (r: LoxType)
        ensures
            r@ == Value::Native("clock"@, 0),
    {
        native("clock", 0)
    }
}

impl Print {
    /// The number of arguments.
    pub fn arity(&self) -> (r: usize)
        ensures
            r == 1,
    {
        1
    }

    /// The value to bind under the name `print`.
    pub fn value(&self) -> (r: LoxType)
        ensures
            r@ == Value::Native("print"@, 1),
    {
        native("print", 1)
    }
}

impl Readline {
    /// The number of arguments.
    pub fn arity(&self) -> (r: usize)
        ensures
            r == 0,
    {
        0
    }

    /// The value to bind under the name `readline`.
    pub fn value(&self) -> (r: LoxType)
        ensures
            r@ == Value::Native("readline"@, 0),
    {
        native("readline", 0)
    }
}

/// Binds the three natives in the innermost scope of `interpreter`, each
/// under its name.
pub fn provide(interpreter: &mut Interpreter)
    requires
        old(interpreter).wf(),
    ensures
        final(interpreter).wf(),
        final(interpreter)@ == old(interpreter)@.with_scopes(
            defined(
                defined(
                    defined(old(interpreter)@.scopes, "clock"@, Value::Native("clock"@, 0)),
                    "print"@,
                    Value::Native("print"@, 1),
                ),
                "readline"@,
                Value::Native("readline"@, 0),
            ),
        ),
{
    interpreter.define("clock", Clock.value());
    interpreter.define("print", Print.value());
    interpreter.define("readline", Readline.value());
}

} // verus!
