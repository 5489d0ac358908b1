//! Functions declared in a program.

use vstd::prelude::*;
use std::rc::Rc;
use crate::interpreter::{Action, Interpreter};
use crate::lox_type::LoxType;
use crate::machine::call;
use crate::model::value_models;
use crate::shared::share;
use crate::statements::Statement;

verus! {

/// A function value: it shares the declaration it was made from.
#[derive(Debug)]
pub struct LoxFun {
    pub declaration: Rc<Statement>,
}

impl LoxFun {
    /// The function that `declaration` declares.
    pub fn new(declaration: Rc<Statement>) -> (r: LoxFun)
        ensures
            r.declaration == declaration,
    {
        LoxFun { declaration }
    }

    /// The number of parameters. A value made from a statement that
    /// declares no function has none.
    pub fn arity(&self) -> (r: usize)
        ensures
            r == match *self.declaration {
                Statement::Function(_, params, _) => params@.len(),
                _ => 0,
            },
            r == match (*self.declaration)@ {
                crate::model::StatementModel::Function(_, params, _) => params.len(),
                _ => 0,
            },
    {
        match &*self.declaration {
            Statement::Function(_, args, _) => args.len(),
            _ => 0,
        }
    }
}

impl LoxFun {
    /// Enters the function in `i`: the scope of the parameters encloses the
    /// scopes that are current in `i` now, and the body is what `i` does
    /// next. The value of the call is the value of `i` once the body is
    /// done.
    pub fn call(&self, i: &mut Interpreter, arguments: Vec<LoxType>) -> (r: Action)
        requires
            old(i).wf(),
        ensures
            final(i).wf(),
            final(i).did(r, call(old(i)@, (*self.declaration)@, value_models(arguments@))),
    {
        i.call(self, arguments)
    }
}

impl Clone for LoxFun {
    fn clone(&self) -> (r: LoxFun)
        ensures
            *r.declaration == *self.declaration,
    {
        LoxFun { declaration: share(&self.declaration) }
    }
}

} // verus!
