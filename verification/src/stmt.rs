//! Statements, and the mathematical model of each.
use vstd::prelude::*;
use std::rc::Rc;
use crate::expr::{Expr, ExprModel};
use crate::token::{token_models, Token, TokenModel};

verus! {

/// A statement. The members of a class are `Function` statements.
#[derive(Debug)]
pub enum Stmt {
    Null,
    Block(Vec<Rc<Stmt>>),
    Class(Token, Option<Rc<Expr>>, Vec<Rc<Stmt>>),
    Expression(Rc<Expr>),
    Function(Token, Vec<Token>, Vec<Rc<Stmt>>),
    If(Rc<Expr>, Rc<Stmt>, Option<Rc<Stmt>>),
    Print(Rc<Expr>),
    Return(Token, Option<Rc<Expr>>),
    Var(Token, Option<Rc<Expr>>),
    While(Rc<Expr>, Rc<Stmt>),
}

/// What a statement is, apart from how it is stored.
pub enum StmtModel {
    Null,
    Block(Seq<StmtModel>),
    Class(TokenModel, Option<ExprModel>, Seq<StmtModel>),
    Expression(ExprModel),
    Function(TokenModel, Seq<TokenModel>, Seq<StmtModel>),
    If(ExprModel, Box<StmtModel>, Option<Box<StmtModel>>),
    Print(ExprModel),
    Return(TokenModel, Option<ExprModel>),
    Var(TokenModel, Option<ExprModel>),
    While(ExprModel, Box<StmtModel>),
}

/// The model of an expression that may be absent.
pub open spec fn optional_expr_model(e: Option<Rc<Expr>>) -> Option<ExprModel> {
    match e {
        Some(e) => Some(e.model()),
        None => None,
    }
}

impl Stmt {
    pub open spec fn model(&self) -> StmtModel
        decreases self,
    {
        match self {
            Stmt::Null => StmtModel::Null,
            Stmt::Block(body) => StmtModel::Block(
                Seq::new(
                    body@.len(),
                    |i: int|
                        if 0 <= i < body@.len() {
                            body@[i].model()
                        } else {
                            StmtModel::Null
                        },
                ),
            ),
            Stmt::Class(name, superclass, methods) => StmtModel::Class(
                name@,
                optional_expr_model(*superclass),
                Seq::new(
                    methods@.len(),
                    |i: int|
                        if 0 <= i < methods@.len() {
                            methods@[i].model()
                        } else {
                            StmtModel::Null
                        },
                ),
            ),
            Stmt::Expression(e) => StmtModel::Expression(e.model()),
            Stmt::Function(name, params, body) => StmtModel::Function(
                name@,
                token_models(params@),
                Seq::new(
                    body@.len(),
                    |i: int|
                        if 0 <= i < body@.len() {
                            body@[i].model()
                        } else {
                            StmtModel::Null
                        },
                ),
            ),
            Stmt::If(condition, then_branch, else_branch) => StmtModel::If(
                condition.model(),
                Box::new(then_branch.model()),
                match else_branch {
                    Some(s) => Some(Box::new(s.model())),
                    None => None,
                },
            ),
            Stmt::Print(e) => StmtModel::Print(e.model()),
            Stmt::Return(keyword, value) => StmtModel::Return(
                keyword@,
                optional_expr_model(*value),
            ),
            Stmt::Var(name, initializer) => StmtModel::Var(
                name@,
                optional_expr_model(*initializer),
            ),
            Stmt::While(condition, body) => StmtModel::While(
                condition.model(),
                Box::new(body.model()),
            ),
        }
    }
}

impl View for Stmt {
    type V = StmtModel;

    open spec fn view(&self) -> StmtModel {
        self.model()
    }
}

/// The models of a sequence of statements, in order.
pub open spec fn stmt_models(list: Seq<Rc<Stmt>>) -> Seq<StmtModel> {
    Seq::new(list.len(), |i: int| list[i].model())
}

} // verus!
