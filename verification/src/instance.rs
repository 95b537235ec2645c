//! Instances: a class and the fields by name.
use vstd::prelude::*;
use crate::class::{method_of, ClassModel, LoxClass};
use crate::env::{
    frame_models, lemma_value_models_empty, lemma_value_models_insert, value_models, Environment,
};
use crate::expr::{Value, ValueModel};
use crate::loxcallables::{Callable, Function};
use crate::loxerr::{undefined_property, RuntimeException};
use crate::semantics::this_frame;
use crate::table::Table;
use crate::token::Token;

verus! {

/// An instance: its class and its fields.
pub struct LoxInstance {
    pub class: LoxClass,
    pub fields: Table<Value>,
}

/// What an instance is, with its fields as a map.
pub struct InstanceModel {
    pub class: ClassModel,
    pub fields: Map<Seq<char>, ValueModel>,
}

impl View for LoxInstance {
    type V = InstanceModel;

    open spec fn view(&self) -> InstanceModel {
        InstanceModel { class: self.class.model(), fields: value_models(self.fields@) }
    }
}

/// The models of a sequence of instances, in order.
pub open spec fn instance_models(list: Seq<LoxInstance>) -> Seq<InstanceModel> {
    Seq::new(list.len(), |i: int| list[i]@)
}

impl LoxInstance {
    /// A new instance of `class`, without fields.
    pub fn new(class: LoxClass) -> (r: LoxInstance)
        ensures
            r@ == (InstanceModel { class: class.model(), fields: Map::empty() }),
    {
        proof {
            lemma_value_models_empty();
        }
        LoxInstance { class, fields: Table::new() }
    }

    /// The property `name`: the field of that name, or else the method of
    /// that name bound to `this`, the value that names this instance. A
    /// method is bound in a new frame, added to `frames`.
    pub fn get(&self, name: &Token, this: Value, frames: &mut Vec<Environment>) -> (r: Result<
        Value,
        RuntimeException,
    >)
        ensures
            match r {
                Ok(v) => if self@.fields.contains_key(name@.lexeme) {
                    v.model() == self@.fields[name@.lexeme] && final(frames)@ == old(frames)@
                } else {
                    match method_of(self@.class, name@.lexeme) {
                        Some(method) => {
                            &&& v.model() == ValueModel::Function(
                                Function { closure: old(frames)@.len() as usize, ..method },
                            )
                            &&& frame_models(final(frames)@) == frame_models(old(frames)@).push(
                                this_frame(this.model(), method.closure),
                            )
                        },
                        None => false,
                    }
                },
                Err(e) => !self@.fields.contains_key(name@.lexeme) && method_of(
                    self@.class,
                    name@.lexeme,
                ) is None && e@ == undefined_property(name@) && final(frames)@ == old(frames)@,
            },
    {
        match self.fields.get(name.lexeme.as_str()) {
            Some(v) => Ok(v.clone()),
            None => match self.class.find_method(name.lexeme.as_str()) {
                Some(method) => {
                    let bound = method.bind(this, frames);
                    Ok(Value::Callable(Callable::Function(bound)))
                },
                None => Err(RuntimeException::undefined_property(name)),
            },
        }
    }

    /// Sets the field `name`, over any earlier value.
    pub fn set(&mut self, name: &Token, value: Value)
        ensures
            final(self)@ == (InstanceModel {
                fields: old(self)@.fields.insert(name@.lexeme, value.model()),
                ..old(self)@
            }),
    {
        proof {
            lemma_value_models_insert(self.fields@, name@.lexeme, value);
        }
        self.fields.insert(name.lexeme.clone(), value);
    }
}

} // verus!
