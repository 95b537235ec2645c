//! Expressions, and the mathematical model of each.
use vstd::prelude::*;
use std::rc::Rc;
use vstd::string::*;

use crate::class::{ClassModel, LoxClass};
use crate::loxcallables::{function_name, Callable, Function};
use crate::number::{equal, same_number};
use crate::token::{Token, TokenModel};

verus! {

/// A literal as written in the source. A number keeps its digits.
#[derive(Debug)]
pub enum Literal {
    Nil,
    Bool(bool),
    Number(String),
    String(String),
}

/// What a literal is, with its text as a sequence of characters.
pub enum LiteralModel {
    Nil,
    Bool(bool),
    Number(Seq<char>),
    String(Seq<char>),
}

impl View for Literal {
    type V = LiteralModel;

    open spec fn view(&self) -> LiteralModel {
        match self {
            Literal::Nil => LiteralModel::Nil,
            Literal::Bool(b) => LiteralModel::Bool(*b),
            Literal::Number(s) => LiteralModel::Number(s@),
            Literal::String(s) => LiteralModel::String(s@),
        }
    }
}

/// An expression. The four kinds that read or write a variable carry an
/// identity, under which the resolver records their scope depth.
#[derive(Debug)]
pub enum Expr {
    Assign(usize, Token, Rc<Expr>),
    Binary(Rc<Expr>, Token, Rc<Expr>),
    Call(Rc<Expr>, Token, Vec<Rc<Expr>>),
    Get(Rc<Expr>, Token),
    Grouping(Rc<Expr>),
    Literal(Literal),
    Logical(Rc<Expr>, Token, Rc<Expr>),
    SetField(Rc<Expr>, Token, Rc<Expr>),
    Super(usize, Token, Token),
    This(usize, Token),
    Unary(Token, Rc<Expr>),
    Variable(usize, Token),
}

/// What an expression is, apart from how it is stored.
pub enum ExprModel {
    Assign(nat, TokenModel, Box<ExprModel>),
    Binary(Box<ExprModel>, TokenModel, Box<ExprModel>),
    Call(Box<ExprModel>, TokenModel, Seq<ExprModel>),
    Get(Box<ExprModel>, TokenModel),
    Grouping(Box<ExprModel>),
    Literal(LiteralModel),
    Logical(Box<ExprModel>, TokenModel, Box<ExprModel>),
    SetField(Box<ExprModel>, TokenModel, Box<ExprModel>),
    Super(nat, TokenModel, TokenModel),
    This(nat, TokenModel),
    Unary(TokenModel, Box<ExprModel>),
    Variable(nat, TokenModel),
}

impl Expr {
    pub open spec fn model(&self) -> ExprModel
        decreases self,
    {
        match self {
            Expr::Assign(id, name, value) => ExprModel::Assign(
                *id as nat,
                name@,
                Box::new(value.model()),
            ),
            Expr::Binary(left, op, right) => ExprModel::Binary(
                Box::new(left.model()),
                op@,
                Box::new(right.model()),
            ),
            Expr::Call(callee, paren, args) => ExprModel::Call(
                Box::new(callee.model()),
                paren@,
                Seq::new(
                    args@.len(),
                    |i: int|
                        if 0 <= i < args@.len() {
                            args@[i].model()
                        } else {
                            ExprModel::Literal(LiteralModel::Nil)
                        },
                ),
            ),
            Expr::Get(object, name) => ExprModel::Get(Box::new(object.model()), name@),
            Expr::Grouping(inner) => ExprModel::Grouping(Box::new(inner.model())),
            Expr::Literal(value) => ExprModel::Literal(value@),
            Expr::Logical(left, op, right) => ExprModel::Logical(
                Box::new(left.model()),
                op@,
                Box::new(right.model()),
            ),
            Expr::SetField(object, name, value) => ExprModel::SetField(
                Box::new(object.model()),
                name@,
                Box::new(value.model()),
            ),
            Expr::Super(id, keyword, method) => ExprModel::Super(*id as nat, keyword@, method@),
            Expr::This(id, keyword) => ExprModel::This(*id as nat, keyword@),
            Expr::Unary(op, right) => ExprModel::Unary(op@, Box::new(right.model())),
            Expr::Variable(id, name) => ExprModel::Variable(*id as nat, name@),
        }
    }
}

impl View for Expr {
    type V = ExprModel;

    open spec fn view(&self) -> ExprModel {
        self.model()
    }
}

/// The models of a sequence of expressions, in order.
pub open spec fn expr_models(list: Seq<Rc<Expr>>) -> Seq<ExprModel> {
    Seq::new(list.len(), |i: int| list[i].model())
}

/// Another handle on the same node. Rests on `Rc::clone` of the standard
/// library, which returns a pointer to the same allocation.
#[verifier::external_body]
pub(crate) fn share<T>(node: &Rc<T>) -> (r: Rc<T>)
    ensures
        r == *node,
{
    Rc::clone(node)
}

/// A value of the running program. A number is its IEEE 754 binary64 bit
/// pattern; an instance is named by its index among the interpreter's
/// instances.
pub enum Value {
    Bool(bool),
    Number(u64),
    Nil,
    String(String),
    Callable(Callable),
    Class(Rc<LoxClass>),
    Instance(usize),
}

/// What a value is, apart from how it is stored.
pub enum ValueModel {
    Bool(bool),
    Number(u64),
    Nil,
    String(Seq<char>),
    Native(nat, Seq<char>),
    Function(Function),
    Class(ClassModel),
    Instance(nat),
}

/// Whether a condition that evaluates to `value` holds: everything but
/// `nil` and `false` does.
pub open spec fn truthy(value: ValueModel) -> bool {
    match value {
        ValueModel::Nil => false,
        ValueModel::Bool(b) => b,
        _ => true,
    }
}

/// Equality of values: by content for booleans, numbers, strings and `nil`,
/// by name for classes and callables; an instance equals nothing.
pub open spec fn values_equal(left: ValueModel, right: ValueModel) -> bool {
    match (left, right) {
        (ValueModel::Bool(l), ValueModel::Bool(r)) => l == r,
        (ValueModel::Number(l), ValueModel::Number(r)) => same_number(l, r),
        (ValueModel::Nil, ValueModel::Nil) => true,
        (ValueModel::String(l), ValueModel::String(r)) => l == r,
        (ValueModel::Class(l), ValueModel::Class(r)) => l.name == r.name,
        (ValueModel::Native(_, _), ValueModel::Native(_, _)) => true,
        (ValueModel::Function(l), ValueModel::Function(r)) => function_name(l) == function_name(r),
        _ => false,
    }
}

impl Value {
    pub open spec fn model(&self) -> ValueModel {
        match self {
            Value::Bool(b) => ValueModel::Bool(*b),
            Value::Number(n) => ValueModel::Number(*n),
            Value::Nil => ValueModel::Nil,
            Value::String(s) => ValueModel::String(s@),
            Value::Callable(Callable::Native(n)) => ValueModel::Native(n.arity as nat, n.name@),
            Value::Callable(Callable::Function(f)) => ValueModel::Function(*f),
            Value::Class(c) => ValueModel::Class(c.model()),
            Value::Instance(i) => ValueModel::Instance(*i as nat),
        }
    }

    /// Whether the two values are equal.
    pub fn eq(&self, other: &Self) -> (r: bool)
        ensures
            r == values_equal(self.model(), other.model()),
    {
        match (self, other) {
            (Value::Bool(l), Value::Bool(r)) => *l == *r,
            (Value::Number(l), Value::Number(r)) => equal(*l, *r),
            (Value::Nil, Value::Nil) => true,
            (Value::String(l), Value::String(r)) => *l == *r,
            (Value::Class(l), Value::Class(r)) => l.name == r.name,
            (Value::Callable(Callable::Native(_)), Value::Callable(Callable::Native(_))) => true,
            (Value::Callable(Callable::Function(l)), Value::Callable(Callable::Function(r))) => {
                l.name() == r.name()
            },
            _ => false,
        }
    }
}

impl View for Value {
    type V = ValueModel;

    open spec fn view(&self) -> ValueModel {
        self.model()
    }
}

impl Clone for Value {
    fn clone(&self) -> (r: Self)
        ensures
            r == *self,
    {
        match self {
            Value::Bool(b) => Value::Bool(*b),
            Value::Number(n) => Value::Number(*n),
            Value::Nil => Value::Nil,
            Value::String(s) => Value::String(s.clone()),
            Value::Callable(c) => Value::Callable(c.clone()),
            Value::Class(c) => Value::Class(share(c)),
            Value::Instance(i) => Value::Instance(*i),
        }
    }
}

/// The models of a sequence of values, in order.
pub open spec fn value_seq(list: Seq<Value>) -> Seq<ValueModel> {
    Seq::new(list.len(), |i: int| list[i].model())
}

} // verus!
