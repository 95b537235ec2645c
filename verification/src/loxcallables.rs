//! What can be called: native functions and functions of the program.
use vstd::prelude::*;
use std::rc::Rc;
use crate::env::{frame_models, lemma_frame_models_push, Environment};
use crate::semantics::this_frame;
use crate::expr::{share, value_seq, Value, ValueModel};
use crate::interpreter::{Action, Interpreter};
use crate::semantics;
use crate::semantics::{ActionModel, Machine};
use crate::stmt::Stmt;

verus! {

/// Something that takes arguments.
pub trait LoxCallable {
    /// How many arguments it takes.
    spec fn parameters(&self) -> nat;

    fn arity(&self) -> (r: usize)
        ensures
            r == self.parameters(),
    ;

    /// What a call with `args` does to the machine and asks of the host.
    spec fn called(&self, m: Machine, args: Seq<ValueModel>) -> (Machine, ActionModel);

    /// Calls with `args`: schedules the work, or asks the host. The result
    /// of the call is pushed when that work is done.
    fn call(&self, interpreter: &mut Interpreter, args: Vec<Value>) -> (r: Action)
        ensures
            (final(interpreter)@, r@) == self.called(old(interpreter)@, value_seq(args@)),
    ;
}

/// A function that the host provides. The interpreter knows its name and
/// how many arguments it takes, and asks the host for each result.
pub struct Native {
    pub arity: usize,
    pub name: String,
}

impl Native {
    /// The native function `name` of `arity` arguments.
    pub fn new(arity: usize, name: &str) -> (r: Self)
        ensures
            r.arity == arity,
            r.name@ == name@,
    {
        Native { arity, name: name.to_owned() }
    }
}

impl Clone for Native {
    fn clone(&self) -> (r: Self)
        ensures
            r == *self,
    {
        Native { arity: self.arity, name: self.name.clone() }
    }
}

/// A function of the program: its declaration, the frame it was declared
/// in, and whether it is the initializer of a class.
pub struct Function {
    pub declaration: Rc<Stmt>,
    pub closure: usize,
    pub is_init: bool,
}

impl Clone for Function {
    fn clone(&self) -> (r: Self)
        ensures
            r == *self,
    {
        Function {
            declaration: share(&self.declaration),
            closure: self.closure,
            is_init: self.is_init,
        }
    }
}

/// The name that a function was declared under.
pub open spec fn function_name(f: Function) -> Seq<char> {
    match *f.declaration {
        Stmt::Function(name, _, _) => name.lexeme@,
        _ => Seq::empty(),
    }
}

/// How many parameters a function was declared with.
pub open spec fn function_arity(f: Function) -> nat {
    match *f.declaration {
        Stmt::Function(_, params, _) => params@.len(),
        _ => 0,
    }
}

impl Function {
    /// The function that `declaration` declares, closed over frame `closure`.
    pub fn new(declaration: &Rc<Stmt>, closure: usize, is_init: bool) -> (r: Function)
        requires
            **declaration is Function,
        ensures
            r == (Function { declaration: *declaration, closure, is_init }),
    {
        Function { declaration: share(declaration), closure, is_init }
    }

    /// The name that the function was declared under.
    pub fn name(&self) -> (r: String)
        ensures
            r@ == function_name(*self),
    {
        match &*self.declaration {
            Stmt::Function(name, _, _) => name.lexeme.clone(),
            _ => String::new(),
        }
    }

    /// The same function with `this` bound to `instance`: its closure is a
    /// new frame, added to `frames`, that holds `this` and encloses the old
    /// closure.
    pub fn bind(&self, instance: Value, frames: &mut Vec<Environment>) -> (r: Function)
        ensures
            r == (Function { closure: old(frames)@.len() as usize, ..*self }),
            frame_models(final(frames)@) == frame_models(old(frames)@).push(
                this_frame(instance.model(), self.closure),
            ),
    {
        let mut env = Environment::encloser(self.closure);
        env.define("this", instance);
        let at = frames.len();
        proof {
            lemma_frame_models_push(frames@, env);
        }
        frames.push(env);
        Function { declaration: share(&self.declaration), closure: at, is_init: self.is_init }
    }
}

impl LoxCallable for Native {
    open spec fn parameters(&self) -> nat {
        self.arity as nat
    }

    fn arity(&self) -> (r: usize) {
        self.arity
    }

    open spec fn called(&self, m: Machine, args: Seq<ValueModel>) -> (Machine, ActionModel) {
        semantics::ask(m, ActionModel::Native(self.name@, args))
    }

    /// Asks the host for the result.
    fn call(&self, interpreter: &mut Interpreter, args: Vec<Value>) -> (r: Action) {
        interpreter.ask(Action::Native(self.name.clone(), args))
    }
}

impl LoxCallable for Function {
    open spec fn parameters(&self) -> nat {
        function_arity(*self)
    }

    fn arity(&self) -> (r: usize) {
        match &*self.declaration {
            Stmt::Function(_, params, _) => params.len(),
            _ => 0,
        }
    }

    open spec fn called(&self, m: Machine, args: Seq<ValueModel>) -> (Machine, ActionModel) {
        semantics::call_function(m, *self, args)
    }

    /// Opens a frame that binds the parameters and schedules the body.
    fn call(&self, interpreter: &mut Interpreter, args: Vec<Value>) -> (r: Action) {
        interpreter.call_function(self.clone(), args)
    }
}

/// A callable value.
pub enum Callable {
    Native(Native),
    Function(Function),
}

impl Clone for Callable {
    fn clone(&self) -> (r: Self)
        ensures
            r == *self,
    {
        match self {
            Callable::Native(n) => Callable::Native(n.clone()),
            Callable::Function(f) => Callable::Function(f.clone()),
        }
    }
}

} // verus!
