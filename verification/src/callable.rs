//! What can be called: functions declared in a program, and natives that the
//! embedding program provides.

use vstd::prelude::*;
use crate::fun::LoxFun;

verus! {

/// A native function: a name by which the embedding program finds it, and
/// the number of arguments it takes.
#[derive(Debug)]
pub struct Native {
    pub name: std::string::String,
    pub arity: usize,
}

/// A callable value.
#[derive(Debug)]
pub enum Callable {
    /// A function declared in a program.
    Function(LoxFun),
    /// A function of the embedding program.
    Native(Native),
}

impl Callable {
    /// The number of arguments that the callable takes.
    pub fn arity(&self) -> (r: usize)
        ensures
            r == crate::machine::arity_of(
                crate::model::value_model(crate::lox_type::LoxType::Callable(*self)),
            ),
    {
        match self {
            Callable::Function(f) => f.arity(),
            Callable::Native(n) => n.arity,
        }
    }
}

impl Clone for Native {
    fn clone(&self) -> (r: Native)
        ensures
            r.name@ == self.name@,
            r.arity == self.arity,
    {
        Native { name: self.name.clone(), arity: self.arity }
    }
}

impl Clone for Callable {
    fn clone(&self) -> (r: Callable)
        ensures
            crate::model::value_model(crate::lox_type::LoxType::Callable(r))
                == crate::model::value_model(crate::lox_type::LoxType::Callable(*self)),
    {
        match self {
            Callable::Function(f) => Callable::Function(f.clone()),
            Callable::Native(n) => Callable::Native(n.clone()),
        }
    }
}

} // verus!
