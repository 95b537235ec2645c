//! The recursive-descent parser: tokens to statements.
//!
//! Every rule computes exactly what the rule of the same name in
//! `crate::grammar` states, reports included.
use vstd::prelude::*;
use vstd::string::*;
use std::rc::Rc;
use crate::expr::{expr_models, share, Expr, ExprModel, Literal};
use crate::grammar;
use crate::grammar::{enough, ParseState, Parsed};
use crate::loxerr::{parse_error, parse_error_text, ParseError};
use crate::stmt::{stmt_models, Stmt, StmtModel};
use crate::text::texts;
use crate::token::{token_models, Token, TokenModel, TokenType};

verus! {

/// A parse in progress over one sequence of tokens.
pub struct Parser<'a> {
    current: usize,
    tokens: &'a [Token],
    next_id: usize,
    has_error: bool,
    errors: Vec<String>,
}

/// What a rule for expressions gave, as a model.
pub open spec fn expr_value(r: Result<Rc<Expr>, ParseError>) -> Option<ExprModel> {
    match r {
        Ok(e) => Some(e.model()),
        Err(_) => None,
    }
}

/// What a rule for statements gave, as a model.
pub open spec fn stmt_value(r: Result<Rc<Stmt>, ParseError>) -> Option<StmtModel> {
    match r {
        Ok(s) => Some(s.model()),
        Err(_) => None,
    }
}

/// The token that was taken, as a model.
pub open spec fn token_value(r: Result<Token, ParseError>) -> Option<TokenModel> {
    match r {
        Ok(t) => Some(t@),
        Err(_) => None,
    }
}

pub proof fn lemma_expr_models_push(list: Seq<Rc<Expr>>, e: Rc<Expr>)
    ensures
        expr_models(list.push(e)) == expr_models(list).push(e.model()),
{
    assert(expr_models(list.push(e)) =~= expr_models(list).push(e.model()));
}

pub proof fn lemma_stmt_models_push(list: Seq<Rc<Stmt>>, s: Rc<Stmt>)
    ensures
        stmt_models(list.push(s)) == stmt_models(list).push(s.model()),
{
    assert(stmt_models(list.push(s)) =~= stmt_models(list).push(s.model()));
}

/// The block that holds `body`.
pub fn block_of(body: Vec<Rc<Stmt>>) -> (r: Rc<Stmt>)
    ensures
        r.model() == StmtModel::Block(stmt_models(body@)),
{
    let ghost list = body@;
    let made = Stmt::Block(body);
    assert(made.model()->Block_0 =~= stmt_models(list));
    Rc::new(made)
}

/// The two statements `first` and `second`, in this order.
pub fn pair_of(first: Rc<Stmt>, second: Rc<Stmt>) -> (r: Vec<Rc<Stmt>>)
    ensures
        stmt_models(r@) == seq![first.model(), second.model()],
{
    let mut list: Vec<Rc<Stmt>> = Vec::new();
    list.push(first);
    list.push(second);
    assert(stmt_models(list@) =~= seq![first.model(), second.model()]);
    list
}

/// The declaration of the function `name`.
pub fn function_of(name: Token, params: Vec<Token>, body: Vec<Rc<Stmt>>) -> (r: Rc<Stmt>)
    ensures
        r.model() == StmtModel::Function(name@, token_models(params@), stmt_models(body@)),
{
    let ghost list = body@;
    let made = Stmt::Function(name, params, body);
    assert(made.model()->Function_2 =~= stmt_models(list));
    Rc::new(made)
}

/// The declaration of the class `name`.
pub fn class_of(name: Token, superclass: Option<Rc<Expr>>, methods: Vec<Rc<Stmt>>) -> (r: Rc<
    Stmt,
>)
    ensures
        r.model() == StmtModel::Class(
            name@,
            crate::stmt::optional_expr_model(superclass),
            stmt_models(methods@),
        ),
{
    let ghost list = methods@;
    let made = Stmt::Class(name, superclass, methods);
    assert(made.model()->Class_2 =~= stmt_models(list));
    Rc::new(made)
}

impl<'a> Parser<'a> {
    /// The tokens being parsed.
    pub closed spec fn input(&self) -> Seq<TokenModel> {
        token_models(self.tokens@)
    }

    /// The position, the next identity and the reports so far.
    pub closed spec fn state(&self) -> ParseState {
        ParseState {
            pos: self.current as nat,
            next_id: self.next_id as nat,
            errors: texts(self.errors@),
        }
    }

    /// Whether any report was made.
    pub closed spec fn failed(&self) -> bool {
        self.has_error
    }

    /// What holds of a parser between rules: the tokens end with `Eof`, the
    /// position is at a token, and identities are left for the tokens ahead.
    pub closed spec fn wf(&self) -> bool {
        &&& grammar::well_formed(self.input())
        &&& self.current < self.tokens@.len() <= usize::MAX
        &&& self.next_id + (self.tokens@.len() - self.current) <= usize::MAX
        &&& self.has_error == (self.errors@.len() > 0)
    }

    /// The same parse, further on.
    pub closed spec fn extends(&self, before: &Parser<'a>) -> bool {
        &&& self.wf()
        &&& self.tokens == before.tokens
        &&& self.current >= before.current
    }

    /// The fuel that suffices here for a rule of rank `rank`.
    pub closed spec fn budget(&self, rank: nat) -> nat {
        enough(self.input(), self.current as nat, rank)
    }

    /// Whether any report was made.
    pub fn has_error(&self) -> (r: bool)
        ensures
            r == self.failed(),
    {
        self.has_error
    }

    /// The reports made so far, in order.
    pub fn errors(&self) -> (r: &Vec<String>)
        ensures
            texts(r@) == self.state().errors,
    {
        &self.errors
    }

    /// Hands out the reports made so far and keeps none.
    pub fn take_errors(&mut self) -> (r: Vec<String>)
        ensures
            texts(r@) == old(self).state().errors,
            final(self).state() == (ParseState { errors: Seq::empty(), ..old(self).state() }),
            final(self).input() == old(self).input(),
            final(self).failed() == old(self).failed(),
    {
        let mut taken: Vec<String> = Vec::new();
        std::mem::swap(&mut taken, &mut self.errors);
        assert(texts(self.errors@) =~= Seq::<Seq<char>>::empty());
        taken
    }

    /// A parser at the first of `tokens` that numbers expressions from 0.
    pub fn new(tokens: &'a [Token]) -> (r: Self)
        requires
            grammar::well_formed(token_models(tokens@)),
        ensures
            r.wf(),
            r.input() == token_models(tokens@),
            r.state() == (ParseState { pos: 0, next_id: 0, errors: Seq::empty() }),
            !r.failed(),
    {
        let count = tokens.len();
        let r = Parser { current: 0, tokens, next_id: 0, has_error: false, errors: Vec::new() };
        assert(token_models(tokens@).len() == count);
        assert(texts(r.errors@) =~= Seq::<Seq<char>>::empty());
        r
    }

    /// A parser at the first of `tokens` that numbers expressions from
    /// `first_id`.
    pub fn numbered_from(tokens: &'a [Token], first_id: usize) -> (r: Self)
        requires
            grammar::well_formed(token_models(tokens@)),
            first_id + tokens@.len() <= usize::MAX,
        ensures
            r.wf(),
            r.input() == token_models(tokens@),
            r.state() == (ParseState { pos: 0, next_id: first_id as nat, errors: Seq::empty() }),
            !r.failed(),
    {
        let count = tokens.len();
        let r = Parser {
            current: 0,
            tokens,
            next_id: first_id,
            has_error: false,
            errors: Vec::new(),
        };
        assert(token_models(tokens@).len() == count);
        assert(texts(r.errors@) =~= Seq::<Seq<char>>::empty());
        r
    }

    fn peek(&self) -> (r: &'a Token)
        requires
            self.wf(),
        ensures
            r@ == grammar::peek(self.input(), self.state()),
            *r == self.tokens@[self.current as int],
    {
        &self.tokens[self.current]
    }

    fn is_at_end(&self) -> (r: bool)
        requires
            self.wf(),
        ensures
            r == grammar::at_end(self.input(), self.state()),
    {
        self.peek().token_type == TokenType::Eof
    }

    fn advance(&mut self)
        requires
            old(self).wf(),
        ensures
            final(self).extends(old(self)),
            final(self).state() == grammar::advance(old(self).input(), old(self).state()),
            final(self).errors == old(self).errors,
    {
        if !self.is_at_end() {
            self.current += 1;
        }
    }

    fn check(&self, kind: TokenType) -> (r: bool)
        requires
            self.wf(),
        ensures
            r == grammar::check(self.input(), self.state(), kind),
    {
        !self.is_at_end() && self.peek().token_type == kind
    }

    /// Records a report at `token`.
    fn report(&mut self, token: &Token, msg: &str)
        requires
            old(self).wf(),
        ensures
            final(self).extends(old(self)),
            final(self).state() == grammar::report_at(old(self).state(), token@, msg@),
    {
        self.errors.push(parse_error(token, msg));
        self.has_error = true;
        assert(texts(self.errors@) =~= texts(old(self).errors@).push(
            parse_error_text(token@, msg@),
        ));
    }

    fn consume(&mut self, kind: TokenType, msg: &str) -> (r: Result<Token, ParseError>)
        requires
            old(self).wf(),
        ensures
            final(self).extends(old(self)),
            (Parsed { state: final(self).state(), value: token_value(r) }) == grammar::consume(
                old(self).input(),
                old(self).state(),
                kind,
                msg@,
            ),
            r is Ok ==> final(self).current > old(self).current,
    {
        if self.check(kind) {
            let token = self.peek().clone();
            self.advance();
            Ok(token)
        } else {
            self.report(self.peek(), msg);
            Err(ParseError)
        }
    }

    fn is_match(&mut self, kind: TokenType) -> (r: bool)
        requires
            old(self).wf(),
        ensures
            final(self).extends(old(self)),
            r == grammar::check(old(self).input(), old(self).state(), kind),
            final(self).state() == if r {
                grammar::advance(old(self).input(), old(self).state())
            } else {
                old(self).state()
            },
            r ==> final(self).current > old(self).current,
    {
        if self.check(kind) {
            self.advance();
            true
        } else {
            false
        }
    }

    /// A fresh identity for a variable expression, after its token was taken.
    fn fresh_id(&mut self) -> (id: usize)
        requires
            old(self).next_id < usize::MAX,
        ensures
            id == old(self).next_id,
            *final(self) == (Parser { next_id: (old(self).next_id + 1) as usize, ..*old(self) }),
    {
        let id = self.next_id;
        self.next_id = self.next_id + 1;
        id
    }

    fn synchronize(&mut self)
        requires
            old(self).wf(),
        ensures
            final(self).extends(old(self)),
            final(self).state() == grammar::synchronize(old(self).input(), old(self).state()),
            !grammar::at_end(old(self).input(), old(self).state()) ==> final(self).current > old(
                self,
            ).current,
    {
        self.advance();
        let ghost start = self.current as nat;
        loop
            invariant
                self.wf(),
                self.tokens == old(self).tokens,
                self.next_id == old(self).next_id,
                self.errors == old(self).errors,
                self.current >= start,
                grammar::skip_to_boundary(self.input(), start) == grammar::skip_to_boundary(
                    self.input(),
                    self.current as nat,
                ),
            ensures
                self.wf(),
                self.tokens == old(self).tokens,
                self.next_id == old(self).next_id,
                self.errors == old(self).errors,
                self.current == grammar::skip_to_boundary(self.input(), start),
            decreases self.tokens@.len() - self.current,
        {
            if self.is_at_end() {
                break ;
            }
            if self.current >= 1 && self.tokens[self.current - 1].token_type
                == TokenType::Semicolon {
                break ;
            }
            let kind = self.peek().token_type;
            if kind == TokenType::Class || kind == TokenType::Fun || kind == TokenType::Var || kind
                == TokenType::For || kind == TokenType::If || kind == TokenType::While || kind
                == TokenType::Print || kind == TokenType::Return {
                break ;
            }
            self.advance();
        }
    }

    fn primary(&mut self, Ghost(fuel): Ghost<nat>) -> (r: Result<Rc<Expr>, ParseError>)
        requires
            old(self).wf(),
            fuel >= old(self).budget(0),
        ensures
            final(self).extends(old(self)),
            (Parsed { state: final(self).state(), value: expr_value(r) }) == grammar::primary(
                old(self).input(),
                old(self).state(),
                fuel,
            ),
            r is Ok ==> final(self).current > old(self).current,
        decreases fuel, 0nat,
    {
        let token = self.peek();
        match token.token_type {
            TokenType::True => {
                self.advance();
                Ok(Rc::new(Expr::Literal(Literal::Bool(true))))
            },
            TokenType::False => {
                self.advance();
                Ok(Rc::new(Expr::Literal(Literal::Bool(false))))
            },
            TokenType::Nil => {
                self.advance();
                Ok(Rc::new(Expr::Literal(Literal::Nil)))
            },
            TokenType::Number => {
                self.advance();
                Ok(Rc::new(Expr::Literal(Literal::Number(token.lexeme.clone()))))
            },
            TokenType::StringLiteral => {
                self.advance();
                Ok(Rc::new(Expr::Literal(Literal::String(token.lexeme.clone()))))
            },
            TokenType::Identifier => {
                self.advance();
                let id = self.fresh_id();
                Ok(Rc::new(Expr::Variable(id, token.clone())))
            },
            TokenType::This => {
                self.advance();
                let id = self.fresh_id();
                Ok(Rc::new(Expr::This(id, token.clone())))
            },
            TokenType::LeftParen => {
                self.advance();
                let inner = self.expression(Ghost((fuel - 1) as nat))?;
                self.consume(TokenType::RightParen, "Expect ')' after expression.")?;
                Ok(Rc::new(Expr::Grouping(inner)))
            },
            TokenType::Super => {
                self.advance();
                let id = self.fresh_id();
                self.consume(TokenType::Dot, "Expect '.' after 'super'.")?;
                let method = self.consume(TokenType::Identifier, "Expect superclass method name.")?;
                Ok(Rc::new(Expr::Super(id, token.clone(), method)))
            },
            _ => {
                self.report(token, "Expect expression.");
                Err(ParseError)
            },
        }
    }

    fn expression(&mut self, Ghost(fuel): Ghost<nat>) -> (r: Result<Rc<Expr>, ParseError>)
        requires
            old(self).wf(),
            fuel >= old(self).budget(16),
        ensures
            final(self).extends(old(self)),
            (Parsed { state: final(self).state(), value: expr_value(r) }) == grammar::expression(
                old(self).input(),
                old(self).state(),
                fuel,
            ),
            r is Ok ==> final(self).current > old(self).current,
        decreases fuel, 1nat,
    {
        self.assignment(Ghost(fuel))
    }

    fn assignment(&mut self, Ghost(fuel): Ghost<nat>) -> (r: Result<Rc<Expr>, ParseError>)
        requires
            old(self).wf(),
            fuel >= old(self).budget(16),
        ensures
            final(self).extends(old(self)),
            (Parsed { state: final(self).state(), value: expr_value(r) }) == grammar::assignment(
                old(self).input(),
                old(self).state(),
                fuel,
            ),
            r is Ok ==> final(self).current > old(self).current,
        decreases fuel, 0nat,
    {
        let target = self.binary(0, Ghost((fuel - 1) as nat))?;
        if self.check(TokenType::Equal) {
            let equals = self.peek();
            self.advance();
            let value = self.assignment(Ghost((fuel - 1) as nat))?;
            match &*target {
                Expr::Variable(id, name) => {
                    return Ok(Rc::new(Expr::Assign(*id, name.clone(), value)));
                },
                Expr::Get(object, name) => {
                    return Ok(Rc::new(Expr::SetField(share(object), name.clone(), value)));
                },
                _ => {
                    self.report(equals, "Invalid assignment target.");
                    return Err(ParseError);
                },
            }
        }
        Ok(target)
    }

    /// Whether an operator of the binary level `level` comes next.
    fn at_operator(&self, level: usize) -> (r: bool)
        requires
            self.wf(),
        ensures
            r == (!grammar::at_end(self.input(), self.state()) && grammar::level_operator(
                level as nat,
                grammar::peek(self.input(), self.state()).token_type,
            )),
    {
        let kind = self.peek().token_type;
        if kind == TokenType::Eof {
            false
        } else if level == 0 {
            kind == TokenType::Or
        } else if level == 1 {
            kind == TokenType::And
        } else if level == 2 {
            kind == TokenType::BangEqual || kind == TokenType::EqualEqual
        } else if level == 3 {
            kind == TokenType::Greater || kind == TokenType::GreaterEqual || kind
                == TokenType::Less || kind == TokenType::LessEqual
        } else if level == 4 {
            kind == TokenType::Plus || kind == TokenType::Minus
        } else {
            kind == TokenType::Slash || kind == TokenType::Star
        }
    }

    fn operand(&mut self, level: usize, Ghost(fuel): Ghost<nat>) -> (r: Result<
        Rc<Expr>,
        ParseError,
    >)
        requires
            old(self).wf(),
            level <= 5,
            fuel >= old(self).budget((13 - 2 * level) as nat),
        ensures
            final(self).extends(old(self)),
            (Parsed { state: final(self).state(), value: expr_value(r) }) == grammar::operand(
                old(self).input(),
                old(self).state(),
                level as nat,
                fuel,
            ),
            r is Ok ==> final(self).current > old(self).current,
        decreases fuel, 1nat,
    {
        if level >= 5 {
            self.unary(Ghost(fuel))
        } else {
            self.binary(level + 1, Ghost(fuel))
        }
    }

    /// One binary level: `or`, `and`, equality, comparison, term or factor.
    fn binary(&mut self, level: usize, Ghost(fuel): Ghost<nat>) -> (r: Result<Rc<Expr>, ParseError>)
        requires
            old(self).wf(),
            level <= 5,
            fuel >= old(self).budget((15 - 2 * level) as nat),
        ensures
            final(self).extends(old(self)),
            (Parsed { state: final(self).state(), value: expr_value(r) }) == grammar::binary(
                old(self).input(),
                old(self).state(),
                level as nat,
                fuel,
            ),
            r is Ok ==> final(self).current > old(self).current,
        decreases fuel, 0nat,
    {
        let ghost goal = grammar::binary(old(self).input(), old(self).state(), level as nat, fuel);
        let mut expr = self.operand(level, Ghost((fuel - 1) as nat))?;
        let ghost mut f = (fuel - 1) as nat;
        while self.at_operator(level)
            invariant
                self.extends(old(self)),
                self.current > old(self).current,
                level <= 5,
                f < fuel,
                f >= self.budget((14 - 2 * level) as nat),
                goal == grammar::binary(old(self).input(), old(self).state(), level as nat, fuel),
                grammar::binary_rest(self.input(), self.state(), level as nat, expr.model(), f)
                    == goal,
            decreases self.tokens@.len() - self.current,
        {
            let op = self.peek().clone();
            self.advance();
            let right = self.operand(level, Ghost((f - 1) as nat))?;
            expr = if level <= 1 {
                Rc::new(Expr::Logical(expr, op, right))
            } else {
                Rc::new(Expr::Binary(expr, op, right))
            };
            proof {
                f = (f - 1) as nat;
            }
        }
        Ok(expr)
    }

    fn unary(&mut self, Ghost(fuel): Ghost<nat>) -> (r: Result<Rc<Expr>, ParseError>)
        requires
            old(self).wf(),
            fuel >= old(self).budget(3),
        ensures
            final(self).extends(old(self)),
            (Parsed { state: final(self).state(), value: expr_value(r) }) == grammar::unary(
                old(self).input(),
                old(self).state(),
                fuel,
            ),
            r is Ok ==> final(self).current > old(self).current,
        decreases fuel, 0nat,
    {
        if self.check(TokenType::Bang) || self.check(TokenType::Minus) {
            let op = self.peek().clone();
            self.advance();
            let right = self.unary(Ghost((fuel - 1) as nat))?;
            return Ok(Rc::new(Expr::Unary(op, right)));
        }
        self.call(Ghost((fuel - 1) as nat))
    }

    fn call(&mut self, Ghost(fuel): Ghost<nat>) -> (r: Result<Rc<Expr>, ParseError>)
        requires
            old(self).wf(),
            fuel >= old(self).budget(2),
        ensures
            final(self).extends(old(self)),
            (Parsed { state: final(self).state(), value: expr_value(r) }) == grammar::call(
                old(self).input(),
                old(self).state(),
                fuel,
            ),
            r is Ok ==> final(self).current > old(self).current,
        decreases fuel, 0nat,
    {
        let ghost goal = grammar::call(old(self).input(), old(self).state(), fuel);
        let mut expr = self.primary(Ghost((fuel - 1) as nat))?;
        let ghost mut f = (fuel - 1) as nat;
        loop
            invariant
                self.extends(old(self)),
                self.current > old(self).current,
                f < fuel,
                f >= self.budget(1),
                goal == grammar::call(old(self).input(), old(self).state(), fuel),
                grammar::call_rest(self.input(), self.state(), expr.model(), f) == goal,
            ensures
                self.extends(old(self)),
                self.current > old(self).current,
                goal == grammar::ok(self.state(), expr.model()),
            decreases self.tokens@.len() - self.current,
        {
            if self.is_match(TokenType::LeftParen) {
                expr = self.finish_call(expr, Ghost((f - 1) as nat))?;
            } else if self.is_match(TokenType::Dot) {
                let name = self.consume(TokenType::Identifier, "Expect property name after '.'.")?;
                expr = Rc::new(Expr::Get(expr, name));
            } else {
                break ;
            }
            proof {
                f = (f - 1) as nat;
            }
        }
        Ok(expr)
    }

    fn finish_call(&mut self, callee: Rc<Expr>, Ghost(fuel): Ghost<nat>) -> (r: Result<
        Rc<Expr>,
        ParseError,
    >)
        requires
            old(self).wf(),
            fuel >= old(self).budget(18),
        ensures
            final(self).extends(old(self)),
            (Parsed { state: final(self).state(), value: expr_value(r) }) == grammar::finish_call(
                old(self).input(),
                old(self).state(),
                callee.model(),
                fuel,
            ),
            r is Ok ==> final(self).current > old(self).current,
        decreases fuel, 0nat,
    {
        let args = if self.check(TokenType::RightParen) {
            let none: Vec<Rc<Expr>> = Vec::new();
            assert(expr_models(none@) =~= Seq::<ExprModel>::empty());
            none
        } else {
            self.arguments(Ghost((fuel - 1) as nat))?
        };
        let paren = self.consume(TokenType::RightParen, "Expect ')' after arguments.")?;
        let ghost list = args@;
        let made = Expr::Call(callee, paren, args);
        proof {
            assert(made.model()->Call_2 =~= expr_models(list));
        }
        Ok(Rc::new(made))
    }

    fn arguments(&mut self, Ghost(fuel): Ghost<nat>) -> (r: Result<Vec<Rc<Expr>>, ParseError>)
        requires
            old(self).wf(),
            fuel >= old(self).budget(17),
        ensures
            final(self).extends(old(self)),
            (Parsed {
                state: final(self).state(),
                value: match r {
                    Ok(list) => Some(expr_models(list@)),
                    Err(_) => None,
                },
            }) == grammar::arguments(old(self).input(), old(self).state(), Seq::empty(), fuel),
        decreases fuel, 0nat,
    {
        let ghost goal = grammar::arguments(
            old(self).input(),
            old(self).state(),
            Seq::empty(),
            fuel,
        );
        let mut args: Vec<Rc<Expr>> = Vec::new();
        assert(expr_models(args@) =~= Seq::<ExprModel>::empty());
        let ghost mut f = fuel;
        loop
            invariant_except_break
                grammar::arguments(self.input(), self.state(), expr_models(args@), f) == goal,
            invariant
                self.extends(old(self)),
                f <= fuel,
                f >= self.budget(17),
                goal == grammar::arguments(
                    old(self).input(),
                    old(self).state(),
                    Seq::empty(),
                    fuel,
                ),
            ensures
                self.extends(old(self)),
                goal == grammar::ok(self.state(), expr_models(args@)),
            decreases self.tokens@.len() - self.current,
        {
            if args.len() >= 255 {
                self.report(self.peek(), "Can't have more than 255 arguments.");
            }
            let arg = self.expression(Ghost((f - 1) as nat))?;
            proof {
                lemma_expr_models_push(args@, arg);
            }
            args.push(arg);
            if !self.is_match(TokenType::Comma) {
                break ;
            }
            proof {
                f = (f - 1) as nat;
            }
        }
        Ok(args)
    }

    fn expression_statement(&mut self, Ghost(fuel): Ghost<nat>) -> (r: Result<Rc<Stmt>, ParseError>)
        requires
            old(self).wf(),
            fuel >= old(self).budget(16),
        ensures
            final(self).extends(old(self)),
            (Parsed { state: final(self).state(), value: stmt_value(r) })
                == grammar::expression_statement(old(self).input(), old(self).state(), fuel),
            r is Ok ==> final(self).current > old(self).current,
        decreases fuel, 2nat,
    {
        let value = self.expression(Ghost(fuel))?;
        self.consume(TokenType::Semicolon, "Expect ';' after expression.")?;
        Ok(Rc::new(Stmt::Expression(value)))
    }

    fn print_statement(&mut self, Ghost(fuel): Ghost<nat>) -> (r: Result<Rc<Stmt>, ParseError>)
        requires
            old(self).wf(),
            fuel >= old(self).budget(16),
        ensures
            final(self).extends(old(self)),
            (Parsed { state: final(self).state(), value: stmt_value(r) })
                == grammar::print_statement(old(self).input(), old(self).state(), fuel),
            r is Ok ==> final(self).current > old(self).current,
        decreases fuel, 2nat,
    {
        let value = self.expression(Ghost(fuel))?;
        self.consume(TokenType::Semicolon, "Expect ';' after value.")?;
        Ok(Rc::new(Stmt::Print(value)))
    }

    fn return_statement(&mut self, keyword: Token, Ghost(fuel): Ghost<nat>) -> (r: Result<
        Rc<Stmt>,
        ParseError,
    >)
        requires
            old(self).wf(),
            fuel >= old(self).budget(16),
        ensures
            final(self).extends(old(self)),
            (Parsed { state: final(self).state(), value: stmt_value(r) })
                == grammar::return_statement(
                old(self).input(),
                old(self).state(),
                keyword@,
                fuel,
            ),
            r is Ok ==> final(self).current > old(self).current,
        decreases fuel, 2nat,
    {
        let value = if self.check(TokenType::Semicolon) {
            None
        } else {
            Some(self.expression(Ghost(fuel))?)
        };
        self.consume(TokenType::Semicolon, "Expect ';' after return value.")?;
        Ok(Rc::new(Stmt::Return(keyword, value)))
    }

    fn var_declaration(&mut self, Ghost(fuel): Ghost<nat>) -> (r: Result<Rc<Stmt>, ParseError>)
        requires
            old(self).wf(),
            fuel >= old(self).budget(16),
        ensures
            final(self).extends(old(self)),
            (Parsed { state: final(self).state(), value: stmt_value(r) })
                == grammar::var_declaration(old(self).input(), old(self).state(), fuel),
            r is Ok ==> final(self).current > old(self).current,
        decreases fuel, 2nat,
    {
        let name = self.consume(TokenType::Identifier, "Expect variable name.")?;
        let initializer = if self.is_match(TokenType::Equal) {
            Some(self.expression(Ghost(fuel))?)
        } else {
            None
        };
        self.consume(TokenType::Semicolon, "Expect ';' after variable declaration.")?;
        Ok(Rc::new(Stmt::Var(name, initializer)))
    }

    fn if_statement(&mut self, Ghost(fuel): Ghost<nat>) -> (r: Result<Rc<Stmt>, ParseError>)
        requires
            old(self).wf(),
            fuel >= old(self).budget(1),
        ensures
            final(self).extends(old(self)),
            (Parsed { state: final(self).state(), value: stmt_value(r) }) == grammar::if_statement(
                old(self).input(),
                old(self).state(),
                fuel,
            ),
            r is Ok ==> final(self).current > old(self).current,
        decreases fuel, 0nat,
    {
        self.consume(TokenType::LeftParen, "Expect '(' after 'if'.")?;
        let condition = self.expression(Ghost((fuel - 1) as nat))?;
        self.consume(TokenType::RightParen, "Expect ')' after if condition.")?;
        self.if_branches(condition, Ghost((fuel - 1) as nat))
    }

    fn if_branches(&mut self, condition: Rc<Expr>, Ghost(fuel): Ghost<nat>) -> (r: Result<
        Rc<Stmt>,
        ParseError,
    >)
        requires
            old(self).wf(),
            fuel >= old(self).budget(17),
        ensures
            final(self).extends(old(self)),
            (Parsed { state: final(self).state(), value: stmt_value(r) }) == grammar::if_branches(
                old(self).input(),
                old(self).state(),
                condition.model(),
                fuel,
            ),
            r is Ok ==> final(self).current > old(self).current,
        decreases fuel, 4nat,
    {
        let then_branch = self.statement(Ghost(fuel))?;
        let else_branch = if self.is_match(TokenType::Else) {
            Some(self.statement(Ghost(fuel))?)
        } else {
            None
        };
        Ok(Rc::new(Stmt::If(condition, then_branch, else_branch)))
    }

    fn while_statement(&mut self, Ghost(fuel): Ghost<nat>) -> (r: Result<Rc<Stmt>, ParseError>)
        requires
            old(self).wf(),
            fuel >= old(self).budget(1),
        ensures
            final(self).extends(old(self)),
            (Parsed { state: final(self).state(), value: stmt_value(r) })
                == grammar::while_statement(old(self).input(), old(self).state(), fuel),
            r is Ok ==> final(self).current > old(self).current,
        decreases fuel, 0nat,
    {
        self.consume(TokenType::LeftParen, "Expect '(' after 'while'.")?;
        let condition = self.expression(Ghost((fuel - 1) as nat))?;
        self.consume(TokenType::RightParen, "Expect ')' after condition.")?;
        let body = self.statement(Ghost((fuel - 1) as nat))?;
        Ok(Rc::new(Stmt::While(condition, body)))
    }

    fn for_statement(&mut self, Ghost(fuel): Ghost<nat>) -> (r: Result<Rc<Stmt>, ParseError>)
        requires
            old(self).wf(),
            fuel >= old(self).budget(1),
        ensures
            final(self).extends(old(self)),
            (Parsed { state: final(self).state(), value: stmt_value(r) })
                == grammar::for_statement(old(self).input(), old(self).state(), fuel),
            r is Ok ==> final(self).current > old(self).current,
        decreases fuel, 0nat,
    {
        self.consume(TokenType::LeftParen, "Expect '(' after 'for'.")?;
        let initializer = self.for_initializer(Ghost((fuel - 1) as nat))?;
        let condition = if !self.check(TokenType::Semicolon) {
            self.expression(Ghost((fuel - 1) as nat))?
        } else {
            Rc::new(Expr::Literal(Literal::Bool(true)))
        };
        self.for_tail(initializer, condition, Ghost((fuel - 1) as nat))
    }

    fn for_initializer(&mut self, Ghost(fuel): Ghost<nat>) -> (r: Result<Rc<Stmt>, ParseError>)
        requires
            old(self).wf(),
            fuel >= old(self).budget(16),
        ensures
            final(self).extends(old(self)),
            (Parsed { state: final(self).state(), value: stmt_value(r) })
                == grammar::for_initializer(old(self).input(), old(self).state(), fuel),
            r is Ok ==> final(self).current > old(self).current,
        decreases fuel, 3nat,
    {
        if self.is_match(TokenType::Semicolon) {
            Ok(Rc::new(Stmt::Null))
        } else if self.is_match(TokenType::Var) {
            self.var_declaration(Ghost(fuel))
        } else {
            self.expression_statement(Ghost(fuel))
        }
    }

    fn for_tail(
        &mut self,
        initializer: Rc<Stmt>,
        condition: Rc<Expr>,
        Ghost(fuel): Ghost<nat>,
    ) -> (r: Result<Rc<Stmt>, ParseError>)
        requires
            old(self).wf(),
            fuel >= old(self).budget(17),
        ensures
            final(self).extends(old(self)),
            (Parsed { state: final(self).state(), value: stmt_value(r) }) == grammar::for_tail(
                old(self).input(),
                old(self).state(),
                initializer.model(),
                condition.model(),
                fuel,
            ),
            r is Ok ==> final(self).current > old(self).current,
        decreases fuel, 4nat,
    {
        self.consume(TokenType::Semicolon, "Expect ';' after loop condition.")?;
        let increment = if !self.check(TokenType::RightParen) {
            Some(self.expression(Ghost(fuel))?)
        } else {
            None
        };
        self.consume(TokenType::RightParen, "Expect ')' after for clauses.")?;

        let mut body = self.statement(Ghost(fuel))?;
        if let Some(increment) = increment {
            body = block_of(pair_of(body, Rc::new(Stmt::Expression(increment))));
        }
        let looped = Rc::new(Stmt::While(condition, body));
        Ok(block_of(pair_of(initializer, looped)))
    }

    fn statement(&mut self, Ghost(fuel): Ghost<nat>) -> (r: Result<Rc<Stmt>, ParseError>)
        requires
            old(self).wf(),
            fuel >= old(self).budget(17),
        ensures
            final(self).extends(old(self)),
            (Parsed { state: final(self).state(), value: stmt_value(r) }) == grammar::statement(
                old(self).input(),
                old(self).state(),
                fuel,
            ),
            r is Ok ==> final(self).current > old(self).current,
        decreases fuel, 3nat,
    {
        if self.is_match(TokenType::If) {
            self.if_statement(Ghost((fuel - 1) as nat))
        } else if self.is_match(TokenType::Print) {
            self.print_statement(Ghost((fuel - 1) as nat))
        } else if self.is_match(TokenType::LeftBrace) {
            let body = self.block(Ghost((fuel - 1) as nat))?;
            Ok(block_of(body))
        } else if self.is_match(TokenType::While) {
            self.while_statement(Ghost((fuel - 1) as nat))
        } else if self.is_match(TokenType::For) {
            self.for_statement(Ghost((fuel - 1) as nat))
        } else if self.check(TokenType::Return) {
            let keyword = self.peek().clone();
            self.advance();
            self.return_statement(keyword, Ghost((fuel - 1) as nat))
        } else {
            self.expression_statement(Ghost((fuel - 1) as nat))
        }
    }

    fn block(&mut self, Ghost(fuel): Ghost<nat>) -> (r: Result<Vec<Rc<Stmt>>, ParseError>)
        requires
            old(self).wf(),
            fuel >= old(self).budget(19),
        ensures
            final(self).extends(old(self)),
            (Parsed {
                state: final(self).state(),
                value: match r {
                    Ok(list) => Some(stmt_models(list@)),
                    Err(_) => None,
                },
            }) == grammar::block(old(self).input(), old(self).state(), Seq::empty(), fuel),
            r is Ok ==> final(self).current > old(self).current,
        decreases fuel, 0nat,
    {
        let ghost goal = grammar::block(old(self).input(), old(self).state(), Seq::empty(), fuel);
        let mut stmts: Vec<Rc<Stmt>> = Vec::new();
        assert(stmt_models(stmts@) =~= Seq::<StmtModel>::empty());
        let ghost mut f = fuel;
        while !self.check(TokenType::RightBrace) && !self.is_at_end()
            invariant
                self.extends(old(self)),
                f <= fuel,
                f >= self.budget(19),
                goal == grammar::block(old(self).input(), old(self).state(), Seq::empty(), fuel),
                grammar::block(self.input(), self.state(), stmt_models(stmts@), f) == goal,
            decreases self.tokens@.len() - self.current,
        {
            let stmt = self.declaration(Ghost((f - 1) as nat));
            proof {
                lemma_stmt_models_push(stmts@, stmt);
                f = (f - 1) as nat;
            }
            stmts.push(stmt);
        }
        self.consume(TokenType::RightBrace, "Expect '}' after block.")?;
        Ok(stmts)
    }

    fn parameters(&mut self, Ghost(fuel): Ghost<nat>) -> (r: Result<Vec<Token>, ParseError>)
        requires
            old(self).wf(),
            fuel >= old(self).budget(1),
        ensures
            final(self).extends(old(self)),
            (Parsed {
                state: final(self).state(),
                value: match r {
                    Ok(list) => Some(token_models(list@)),
                    Err(_) => None,
                },
            }) == grammar::parameters(old(self).input(), old(self).state(), Seq::empty(), fuel),
    {
        let ghost goal = grammar::parameters(
            old(self).input(),
            old(self).state(),
            Seq::empty(),
            fuel,
        );
        let mut params: Vec<Token> = Vec::new();
        assert(token_models(params@) =~= Seq::<TokenModel>::empty());
        let ghost mut f = fuel;
        loop
            invariant_except_break
                grammar::parameters(self.input(), self.state(), token_models(params@), f) == goal,
            invariant
                self.extends(old(self)),
                f <= fuel,
                f >= self.budget(1),
                goal == grammar::parameters(
                    old(self).input(),
                    old(self).state(),
                    Seq::empty(),
                    fuel,
                ),
            ensures
                self.extends(old(self)),
                goal == grammar::ok(self.state(), token_models(params@)),
            decreases self.tokens@.len() - self.current,
        {
            if params.len() >= 255 {
                self.report(self.peek(), "Can't have more than 255 parameters.");
            }
            let name = self.consume(TokenType::Identifier, "Expect parameter name.")?;
            proof {
                assert(token_models(params@.push(name)) =~= token_models(params@).push(name@));
            }
            params.push(name);
            if !self.is_match(TokenType::Comma) {
                break ;
            }
            proof {
                f = (f - 1) as nat;
            }
        }
        Ok(params)
    }

    fn function(&mut self, kind: &str, Ghost(fuel): Ghost<nat>) -> (r: Result<Rc<Stmt>, ParseError>)
        requires
            old(self).wf(),
            fuel >= old(self).budget(20),
        ensures
            final(self).extends(old(self)),
            (Parsed { state: final(self).state(), value: stmt_value(r) }) == grammar::function(
                old(self).input(),
                old(self).state(),
                kind@,
                fuel,
            ),
            r is Ok ==> final(self).current > old(self).current,
        decreases fuel, 0nat,
    {
        let mut expect_name = String::from_str("Expect ");
        expect_name.append(kind);
        expect_name.append(" name");
        let name = self.consume(TokenType::Identifier, expect_name.as_str())?;

        let mut expect_open = String::from_str("Expect '(' after ");
        expect_open.append(kind);
        expect_open.append(" name.");
        self.consume(TokenType::LeftParen, expect_open.as_str())?;

        let params = if self.check(TokenType::RightParen) {
            let none: Vec<Token> = Vec::new();
            assert(token_models(none@) =~= Seq::<TokenModel>::empty());
            none
        } else {
            self.parameters(Ghost((fuel - 1) as nat))?
        };
        self.consume(TokenType::RightParen, "Expect ')' after parameters.")?;

        let mut expect_body = String::from_str("Expect '{' before ");
        expect_body.append(kind);
        expect_body.append(" body.");
        self.consume(TokenType::LeftBrace, expect_body.as_str())?;

        let body = self.block(Ghost((fuel - 1) as nat))?;
        Ok(function_of(name, params, body))
    }

    fn class_declaration(&mut self, Ghost(fuel): Ghost<nat>) -> (r: Result<Rc<Stmt>, ParseError>)
        requires
            old(self).wf(),
            fuel >= old(self).budget(1),
        ensures
            final(self).extends(old(self)),
            (Parsed { state: final(self).state(), value: stmt_value(r) })
                == grammar::class_declaration(old(self).input(), old(self).state(), fuel),
            r is Ok ==> final(self).current > old(self).current,
        decreases fuel, 0nat,
    {
        let name = self.consume(TokenType::Identifier, "Expect class name.")?;
        let superclass = if self.is_match(TokenType::Less) {
            let parent = self.consume(TokenType::Identifier, "Expect superclass name.")?;
            let id = self.fresh_id();
            Some(Rc::new(Expr::Variable(id, parent)))
        } else {
            None
        };
        self.consume(TokenType::LeftBrace, "Expect '{' before class body.")?;

        let methods = self.methods(Ghost((fuel - 1) as nat))?;
        self.consume(TokenType::RightBrace, "Expect '}' after class body.")?;
        Ok(class_of(name, superclass, methods))
    }

    fn methods(&mut self, Ghost(fuel): Ghost<nat>) -> (r: Result<Vec<Rc<Stmt>>, ParseError>)
        requires
            old(self).wf(),
            fuel >= old(self).budget(21),
        ensures
            final(self).extends(old(self)),
            (Parsed {
                state: final(self).state(),
                value: match r {
                    Ok(list) => Some(stmt_models(list@)),
                    Err(_) => None,
                },
            }) == grammar::methods(old(self).input(), old(self).state(), Seq::empty(), fuel),
        decreases fuel, 0nat,
    {
        let ghost goal = grammar::methods(old(self).input(), old(self).state(), Seq::empty(), fuel);
        let mut methods: Vec<Rc<Stmt>> = Vec::new();
        assert(stmt_models(methods@) =~= Seq::<StmtModel>::empty());
        let ghost mut f = fuel;
        while !self.check(TokenType::RightBrace) && !self.is_at_end()
            invariant
                self.extends(old(self)),
                f <= fuel,
                f >= self.budget(21),
                goal == grammar::methods(old(self).input(), old(self).state(), Seq::empty(), fuel),
                grammar::methods(self.input(), self.state(), stmt_models(methods@), f) == goal,
            decreases self.tokens@.len() - self.current,
        {
            let method = self.function("method", Ghost((f - 1) as nat))?;
            proof {
                lemma_stmt_models_push(methods@, method);
                f = (f - 1) as nat;
            }
            methods.push(method);
        }
        Ok(methods)
    }

    fn declaration(&mut self, Ghost(fuel): Ghost<nat>) -> (r: Rc<Stmt>)
        requires
            old(self).wf(),
            fuel >= old(self).budget(18),
        ensures
            final(self).extends(old(self)),
            (final(self).state(), r.model()) == grammar::declaration(
                old(self).input(),
                old(self).state(),
                fuel,
            ),
            !grammar::at_end(old(self).input(), old(self).state()) ==> final(self).current > old(
                self,
            ).current,
        decreases fuel, 0nat,
    {
        let parsed = if self.is_match(TokenType::Class) {
            self.class_declaration(Ghost((fuel - 1) as nat))
        } else if self.is_match(TokenType::Fun) {
            self.function("function", Ghost((fuel - 1) as nat))
        } else if self.is_match(TokenType::Var) {
            self.var_declaration(Ghost((fuel - 1) as nat))
        } else {
            self.statement(Ghost((fuel - 1) as nat))
        };
        match parsed {
            Ok(stmt) => stmt,
            Err(_) => {
                self.synchronize();
                Rc::new(Stmt::Null)
            },
        }
    }

    /// Parses what is left of the tokens, up to `Eof`, into statements.
    pub fn parse(&mut self) -> (stmts: Vec<Rc<Stmt>>)
        requires
            old(self).wf(),
        ensures
            final(self).wf(),
            final(self).input() == old(self).input(),
            (final(self).state(), stmt_models(stmts@)) == grammar::program(
                old(self).input(),
                old(self).state(),
                Seq::empty(),
                enough(old(self).input(), old(self).state().pos, 40),
            ),
            final(self).failed() == (final(self).state().errors.len() > 0),
            grammar::at_end(final(self).input(), final(self).state()),
            final(self).state().pos < final(self).input().len(),
    {
        let ghost fuel = enough(old(self).input(), old(self).state().pos, 40);
        let ghost goal = grammar::program(old(self).input(), old(self).state(), Seq::empty(), fuel);
        let mut stmts: Vec<Rc<Stmt>> = Vec::new();
        assert(stmt_models(stmts@) =~= Seq::<StmtModel>::empty());
        let ghost mut f = fuel;
        while !self.is_at_end()
            invariant
                self.extends(old(self)),
                f >= self.budget(19),
                grammar::program(self.input(), self.state(), stmt_models(stmts@), f) == goal,
            decreases self.tokens@.len() - self.current,
        {
            let stmt = self.declaration(Ghost((f - 1) as nat));
            proof {
                lemma_stmt_models_push(stmts@, stmt);
                f = (f - 1) as nat;
            }
            stmts.push(stmt);
        }
        stmts
    }

    /// The identity that the next variable expression would get.
    pub fn next_id(&self) -> (r: usize)
        ensures
            r == self.state().next_id,
    {
        self.next_id
    }
}

} // verus!
