//! Classes: a name, an optional superclass and the methods by name.
use vstd::prelude::*;
use std::rc::Rc;
use crate::expr::{share, Value, ValueModel};
use crate::interpreter::{Action, Interpreter};
use crate::loxcallables::{function_arity, Function, LoxCallable};
use crate::semantics;
use crate::semantics::{ActionModel, Machine};
use crate::table::Table;

verus! {

/// A class: its name, its superclass if it has one, and its methods.
pub struct LoxClass {
    pub name: String,
    pub superclass: Option<Rc<LoxClass>>,
    pub methods: Rc<Table<Function>>,
}

/// What a class is, with its methods as a map.
pub struct ClassModel {
    pub name: Seq<char>,
    pub superclass: Option<Box<ClassModel>>,
    pub methods: Map<Seq<char>, Function>,
}

/// The method `name` of a class: its own, or else its superclass's.
pub open spec fn method_of(class: ClassModel, name: Seq<char>) -> Option<Function>
    decreases class,
{
    if class.methods.contains_key(name) {
        Some(class.methods[name])
    } else {
        match class.superclass {
            Some(parent) => method_of(*parent, name),
            None => None,
        }
    }
}

/// How many arguments a call of the class takes: those of `init`, or none.
pub open spec fn class_arity(class: ClassModel) -> nat {
    match method_of(class, "init"@) {
        Some(init) => function_arity(init),
        None => 0,
    }
}

impl LoxClass {
    pub open spec fn model(&self) -> ClassModel
        decreases self,
    {
        ClassModel {
            name: self.name@,
            superclass: match self.superclass {
                Some(parent) => Some(Box::new(parent.model())),
                None => None,
            },
            methods: self.methods@,
        }
    }

    /// The class `name`.
    pub fn new(
        name: String,
        superclass: Option<Rc<LoxClass>>,
        methods: &Rc<Table<Function>>,
    ) -> (r: Self)
        ensures
            r.name == name,
            r.superclass == superclass,
            r.methods == *methods,
    {
        LoxClass { name, superclass, methods: share(methods) }
    }

    /// The method `name`: the class's own, or else its superclass's.
    pub fn find_method(&self, name: &str) -> (r: Option<&Function>)
        ensures
            match r {
                Some(f) => method_of(self.model(), name@) == Some(*f),
                None => method_of(self.model(), name@) is None,
            },
        decreases self,
    {
        match self.methods.get(name) {
            Some(f) => Some(f),
            None => match &self.superclass {
                Some(parent) => parent.find_method(name),
                None => None,
            },
        }
    }
}

impl Clone for LoxClass {
    fn clone(&self) -> (r: Self)
        ensures
            r == *self,
    {
        LoxClass {
            name: self.name.clone(),
            superclass: match &self.superclass {
                Some(parent) => Some(share(parent)),
                None => None,
            },
            methods: share(&self.methods),
        }
    }
}

impl View for LoxClass {
    type V = ClassModel;

    open spec fn view(&self) -> ClassModel {
        self.model()
    }
}

impl LoxCallable for LoxClass {
    open spec fn parameters(&self) -> nat {
        class_arity(self.model())
    }

    fn arity(&self) -> (r: usize) {
        match self.find_method("init") {
            Some(init) => init.arity(),
            None => 0,
        }
    }

    open spec fn called(&self, m: Machine, args: Seq<ValueModel>) -> (Machine, ActionModel) {
        semantics::instantiate(m, self.model(), args)
    }

    /// Makes a new instance and schedules its initializer, if any.
    fn call(&self, interpreter: &mut Interpreter, args: Vec<Value>) -> (r: Action) {
        interpreter.instantiate(self, args)
    }
}

} // verus!
