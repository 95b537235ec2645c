//! The interpreter: the abstract machine of `crate::semantics`, executable.
//!
//! `step` makes one transition and says what it asks of the host; the host
//! answers with `reply` where an answer is due and calls `step` again. The
//! loop is the host's: a program need not end.
use vstd::prelude::*;
use vstd::string::*;
use std::collections::HashMap;
use std::rc::Rc;
use crate::class::LoxClass;
use crate::env::{ancestor, bind, frame_models, lemma_frame_models_push, Environment, FrameModel};
use crate::expr::{share, truthy, value_seq, Expr, Literal, Value, ValueModel};
use crate::form;
use crate::instance::{instance_models, InstanceModel, LoxInstance};
use crate::loxcallables::{Callable, Function, LoxCallable, Native};
use crate::loxerr::RuntimeException;
use crate::number;
use crate::semantics;
use crate::semantics::{ActionModel, Machine, ShownModel, Task};
use crate::stmt::Stmt;
use crate::table::Table;
use crate::text::{append_decimal, same_text};
use crate::token::{Token, TokenType};

verus! {

/// Whether a condition that evaluates to `value` holds.
pub fn is_truthy(value: &Value) -> (r: bool)
    ensures
        r == truthy(value.model()),
{
    match value {
        Value::Nil => false,
        Value::Bool(value) => *value,
        _ => true,
    }
}

/// How a value prints: as text, or as a number that the host writes out.
pub enum Shown {
    Text(String),
    Number(u64),
}

impl View for Shown {
    type V = ShownModel;

    open spec fn view(&self) -> ShownModel {
        match self {
            Shown::Text(s) => ShownModel::Text(s@),
            Shown::Number(n) => ShownModel::Number(*n),
        }
    }
}

/// What a step asks of the host.
pub enum Action {
    /// Nothing; more steps remain.
    Continue,
    /// Nothing; the interpreter waits for a reply.
    Waiting,
    /// Nothing; no work is left.
    Finished,
    /// To print a line.
    Print(Shown),
    /// To reply with the number that a numeral denotes.
    Literal(String),
    /// To reply with the result of an arithmetic operator on two numbers.
    Arithmetic(TokenType, u64, u64),
    /// To reply with the result of a native function on its arguments.
    Native(String, Vec<Value>),
    /// Nothing; the program ended early.
    Failed(RuntimeException),
}

impl View for Action {
    type V = ActionModel;

    open spec fn view(&self) -> ActionModel {
        match self {
            Action::Continue => ActionModel::Continue,
            Action::Waiting => ActionModel::Waiting,
            Action::Finished => ActionModel::Finished,
            Action::Print(s) => ActionModel::Print(s@),
            Action::Literal(s) => ActionModel::Literal(s@),
            Action::Arithmetic(op, l, r) => ActionModel::Arithmetic(*op, *l, *r),
            Action::Native(name, args) => ActionModel::Native(name@, value_seq(args@)),
            Action::Failed(e) => ActionModel::Failed(e@),
        }
    }
}

/// The depths by identity, the identities and depths as natural numbers.
pub open spec fn depth_map(depths: Map<usize, usize>) -> Map<nat, nat> {
    Map::new(
        |id: nat| id <= usize::MAX && depths.contains_key(id as usize),
        |id: nat| depths[id as usize] as nat,
    )
}

pub proof fn lemma_value_seq_push(list: Seq<Value>, v: Value)
    ensures
        value_seq(list.push(v)) == value_seq(list).push(v.model()),
{
    assert(value_seq(list.push(v)) =~= value_seq(list).push(v.model()));
}

pub proof fn lemma_value_seq_drop_last(list: Seq<Value>)
    requires
        list.len() > 0,
    ensures
        value_seq(list.drop_last()) == value_seq(list).drop_last(),
        value_seq(list).last() == list.last().model(),
{
    assert(value_seq(list.drop_last()) =~= value_seq(list).drop_last());
}

pub proof fn lemma_instance_models_push(list: Seq<LoxInstance>, i: LoxInstance)
    ensures
        instance_models(list.push(i)) == instance_models(list).push(i@),
{
    assert(instance_models(list.push(i)) =~= instance_models(list).push(i@));
}

pub proof fn lemma_instance_models_update(list: Seq<LoxInstance>, at: int, i: LoxInstance)
    requires
        0 <= at < list.len(),
    ensures
        instance_models(list.update(at, i)) == instance_models(list).update(at, i@),
{
    assert(instance_models(list.update(at, i)) =~= instance_models(list).update(at, i@));
}

/// The state of a run: the work still to do, the values not yet used, the
/// frames, the instances and the resolved depths.
pub struct Interpreter {
    tasks: Vec<Task>,
    values: Vec<Value>,
    frames: Vec<Environment>,
    instances: Vec<LoxInstance>,
    env: usize,
    locals: HashMap<usize, usize>,
    waiting: bool,
}

impl View for Interpreter {
    type V = Machine;

    closed spec fn view(&self) -> Machine {
        Machine {
            tasks: self.tasks@,
            values: value_seq(self.values@),
            frames: frame_models(self.frames@),
            instances: instance_models(self.instances@),
            env: self.env as nat,
            locals: depth_map(self.locals@),
            waiting: self.waiting,
        }
    }
}

/// The machine before any program: the global frame binds `clock`, a
/// native function of no arguments, and is current.
pub open spec fn initial() -> Machine {
    Machine {
        tasks: Seq::empty(),
        values: Seq::empty(),
        frames: seq![
            FrameModel {
                values: Map::<Seq<char>, ValueModel>::empty().insert(
                    "clock"@,
                    ValueModel::Native(0, "clock"@),
                ),
                enclosing: None,
            },
        ],
        instances: Seq::empty(),
        env: 0,
        locals: Map::empty(),
        waiting: false,
    }
}

impl Interpreter {
    /// An interpreter before any program.
    pub fn new() -> (r: Self)
        ensures
            r@ == initial(),
            form::well_formed(r@),
    {
        proof {
            form::lemma_initial_has_form();
        }
        let mut global = Environment::new();
        global.define("clock", Value::Callable(Callable::Native(Native::new(0, "clock"))));
        let mut frames: Vec<Environment> = Vec::new();
        frames.push(global);
        let r = Interpreter {
            tasks: Vec::new(),
            values: Vec::new(),
            frames,
            instances: Vec::new(),
            env: 0,
            locals: HashMap::new(),
            waiting: false,
        };
        proof {
            assert(r@.values =~= Seq::<ValueModel>::empty());
            assert(r@.frames =~= initial().frames);
            assert(r@.instances =~= Seq::<InstanceModel>::empty());
            assert(r@.locals =~= Map::<nat, nat>::empty());
        }
        r
    }

    /// Records that the expression `id` refers `depth` frames out.
    pub fn resolve(&mut self, id: usize, depth: usize)
        ensures
            final(self)@ == (Machine {
                locals: old(self)@.locals.insert(id as nat, depth as nat),
                ..old(self)@
            }),
            form::well_formed(old(self)@) ==> form::well_formed(final(self)@),
    {
        let ghost before = self.locals@;
        self.locals.insert(id, depth);
        assert(depth_map(self.locals@) =~= depth_map(before).insert(id as nat, depth as nat));
    }

    /// Hands the host's reply to the expression that waits for it.
    pub fn reply(&mut self, value: Value)
        ensures
            final(self)@ == semantics::reply(old(self)@, value.model()),
            form::well_formed(old(self)@) && form::value_fits(
                value.model(),
                old(self)@.frames.len(),
            ) ==> form::well_formed(final(self)@),
    {
        proof {
            if form::well_formed(self@) && form::value_fits(value.model(), self@.frames.len()) {
                form::lemma_reply_keeps_form(self@, value.model());
            }
        }
        if self.waiting {
            proof {
                lemma_value_seq_push(self.values@, value);
            }
            self.values.push(value);
            self.waiting = false;
        }
    }

    /// Schedules `stmts`, the first of them next.
    pub fn interpret(&mut self, stmts: &Vec<Rc<Stmt>>)
        ensures
            final(self)@ == semantics::load(old(self)@, stmts@),
            form::well_formed(old(self)@) ==> form::well_formed(final(self)@),
    {
        proof {
            if form::well_formed(self@) {
                form::lemma_load_keeps_form(self@, stmts@);
            }
        }
        let ghost goal = semantics::load(old(self)@, stmts@).tasks;
        let mut i = stmts.len();
        while i > 0
            invariant
                i <= stmts@.len(),
                self.values == old(self).values,
                self.frames == old(self).frames,
                self.instances == old(self).instances,
                self.env == old(self).env,
                self.locals == old(self).locals,
                self.waiting == old(self).waiting,
                self.tasks@ == goal.take(old(self).tasks@.len() + stmts@.len() - i),
                goal == semantics::load(old(self)@, stmts@).tasks,
            decreases i,
        {
            i = i - 1;
            let ghost before = self.tasks@;
            self.tasks.push(Task::Execute(share(&stmts[i])));
            assert(self.tasks@ =~= goal.take(old(self).tasks@.len() + stmts@.len() - i));
        }
        assert(self.tasks@ =~= goal);
    }

    /// How `value` prints.
    pub fn show(&self, value: &Value) -> (r: Shown)
        ensures
            r@ == semantics::display(value.model(), self@.instances),
    {
        match value {
            Value::Nil => Shown::Text(String::from_str("nil")),
            Value::Bool(b) => Shown::Text(
                if *b {
                    String::from_str("true")
                } else {
                    String::from_str("false")
                },
            ),
            Value::Number(n) => Shown::Number(*n),
            Value::String(s) => Shown::Text(s.clone()),
            Value::Callable(Callable::Native(_)) => Shown::Text(String::from_str("<native fn>")),
            Value::Callable(Callable::Function(f)) => {
                let mut text = String::from_str("<fn ");
                text.append(f.name().as_str());
                text.append(">");
                Shown::Text(text)
            },
            Value::Class(c) => Shown::Text(c.name.clone()),
            Value::Instance(i) => {
                let mut text = if *i < self.instances.len() {
                    self.instances[*i].class.name.clone()
                } else {
                    String::new()
                };
                text.append(" instance");
                proof {
                    assert(Seq::<char>::empty() + " instance"@ =~= " instance"@);
                }
                Shown::Text(text)
            },
        }
    }

    fn push_value(&mut self, v: Value) -> (r: Action)
        ensures
            (final(self)@, r@) == semantics::push_value(old(self)@, v.model()),
    {
        proof {
            lemma_value_seq_push(self.values@, v);
        }
        self.values.push(v);
        Action::Continue
    }

    fn raise(&mut self, e: RuntimeException) -> (r: Action)
        ensures
            (final(self)@, r@) == semantics::raise(old(self)@, e@),
    {
        let mut back = self.env;
        let mut i: usize = 0;
        while i < self.tasks.len()
            invariant_except_break
                back == self.env,
                semantics::outermost_return(self.tasks@, 0) == semantics::outermost_return(
                    self.tasks@,
                    i as int,
                ),
            invariant
                i <= self.tasks@.len(),
            ensures
                back == match semantics::outermost_return(self.tasks@, 0) {
                    Some(env) => env,
                    None => self.env,
                },
            decreases self.tasks@.len() - i,
        {
            match &self.tasks[i] {
                Task::Restore(env) => {
                    back = *env;
                    break ;
                },
                Task::Leave(env, _) => {
                    back = *env;
                    break ;
                },
                _ => {},
            }
            i = i + 1;
        }
        self.env = back;
        self.tasks.clear();
        self.values.clear();
        self.waiting = false;
        assert(value_seq(self.values@) =~= Seq::<ValueModel>::empty());
        Action::Failed(e)
    }

    fn fail(&mut self, token: &Token, msg: &str) -> (r: Action)
        ensures
            (final(self)@, r@) == semantics::fail(old(self)@, token@, msg@),
    {
        self.raise(RuntimeException::new(token, msg))
    }

    fn schedule(&mut self, first: Task, second: Task) -> (r: Action)
        ensures
            (final(self)@, r@) == semantics::schedule(old(self)@, first, second),
    {
        self.tasks.push(second);
        self.tasks.push(first);
        Action::Continue
    }

    pub(crate) fn ask(&mut self, request: Action) -> (r: Action)
        ensures
            (final(self)@, r@) == semantics::ask(old(self)@, request@),
    {
        self.waiting = true;
        request
    }

    fn top_value(&self) -> (v: Value)
        ensures
            v.model() == semantics::top(self@.values),
    {
        let n = self.values.len();
        if n > 0 {
            self.values[n - 1].clone()
        } else {
            Value::Nil
        }
    }

    fn pop_value(&mut self) -> (v: Value)
        ensures
            v.model() == semantics::top(old(self)@.values),
            final(self)@ == (Machine { values: semantics::pop(old(self)@.values), ..old(self)@ }),
    {
        proof {
            if self.values@.len() > 0 {
                lemma_value_seq_drop_last(self.values@);
            }
        }
        match self.values.pop() {
            Some(v) => v,
            None => Value::Nil,
        }
    }

    /// The depth that was recorded for the expression `id`, if any.
    pub fn depth(&self, id: usize) -> (r: Option<usize>)
        ensures
            match r {
                Some(d) => self@.locals.contains_key(id as nat) && self@.locals[id as nat] == d,
                None => !self@.locals.contains_key(id as nat),
            },
    {
        match self.locals.get(&id) {
            Some(d) => Some(*d),
            None => None,
        }
    }

    fn read_variable(&self, id: usize, name: &Token) -> (r: Option<Value>)
        ensures
            match r {
                Some(v) => semantics::read_variable(self@, id as nat, name@) == Some(v.model()),
                None => semantics::read_variable(self@, id as nat, name@) is None,
            },
    {
        match self.depth(id) {
            Some(d) => {
                if Environment::has_at(&self.frames, self.env, d, name) {
                    match Environment::get_at(&self.frames, self.env, d, name) {
                        Ok(v) => Some(v),
                        Err(_) => None,
                    }
                } else {
                    None
                }
            },
            None => match Environment::get(&self.frames, 0, name) {
                Ok(v) => Some(v),
                Err(_) => None,
            },
        }
    }

    /// Binds `name` in frame `at`, if there is such a frame.
    fn bind(&mut self, at: usize, name: &str, v: Value)
        ensures
            final(self)@ == (Machine {
                frames: bind(old(self)@.frames, at as nat, name@, v.model()),
                ..old(self)@
            }),
    {
        if at < self.frames.len() {
            Environment::define_in(&mut self.frames, at, name, v);
        }
    }

    fn write_variable(&mut self, id: usize, name: &Token, v: Value) -> (r: bool)
        ensures
            match semantics::write_variable(old(self)@, id as nat, name@, v.model()) {
                Some(frames) => r && final(self)@ == (Machine { frames, ..old(self)@ }),
                None => !r && final(self)@ == old(self)@,
            },
    {
        let place = match self.depth(id) {
            Some(d) => Environment::ancestor(&self.frames, self.env, d),
            None => Environment::find(&self.frames, 0, name.lexeme.as_str()),
        };
        match place {
            Some(f) => {
                self.bind(f, name.lexeme.as_str(), v);
                true
            },
            None => false,
        }
    }

    /// What `this` is in frame `closure`.
    fn this_of(&self, closure: usize) -> (r: Value)
        ensures
            r.model() == semantics::this_of(self@.frames, closure as nat),
    {
        let this = Token::new(TokenType::This, "this", 0);
        if Environment::has_at(&self.frames, closure, 0, &this) {
            match Environment::get_at(&self.frames, closure, 0, &this) {
                Ok(v) => v,
                Err(_) => Value::Nil,
            }
        } else {
            Value::Nil
        }
    }

    fn bind_method(&mut self, method: &Function, instance: Value) -> (r: Function)
        ensures
            (final(self)@, r) == semantics::bind_method(old(self)@, *method, instance.model()),
    {
        method.bind(instance, &mut self.frames)
    }

    pub(crate) fn call_function(&mut self, f: Function, args: Vec<Value>) -> (r: Action)
        ensures
            (final(self)@, r@) == semantics::call_function(old(self)@, f, value_seq(args@)),
    {
        let mut frame = Environment::encloser(f.closure);
        match &*f.declaration {
            Stmt::Function(_, params, _) => {
                let mut i: usize = 0;
                while i < params.len()
                    invariant
                        i <= params@.len(),
                        frame.enclosing == Some(f.closure),
                        frame@.values == semantics::bound_parameters(
                            params@,
                            value_seq(args@),
                            i as nat,
                        ),
                    decreases params@.len() - i,
                {
                    let v = if i < args.len() {
                        args[i].clone()
                    } else {
                        Value::Nil
                    };
                    frame.define(params[i].lexeme.as_str(), v);
                    i = i + 1;
                }
            },
            _ => {},
        }
        let back = Task::Leave(
            self.env,
            if f.is_init {
                Some(f.closure)
            } else {
                None
            },
        );
        let at = self.frames.len();
        proof {
            lemma_frame_models_push(self.frames@, frame);
        }
        self.frames.push(frame);
        self.env = at;
        self.tasks.push(back);
        self.tasks.push(Task::Proceed(f.declaration, 0));
        Action::Continue
    }

    pub(crate) fn instantiate(&mut self, class: &LoxClass, args: Vec<Value>) -> (r: Action)
        ensures
            (final(self)@, r@) == semantics::instantiate(
                old(self)@,
                class.model(),
                value_seq(args@),
            ),
    {
        let id = self.instances.len();
        let init = match class.find_method("init") {
            Some(f) => Some(f.clone()),
            None => None,
        };
        let made = LoxInstance::new(class.clone());
        proof {
            lemma_instance_models_push(self.instances@, made);
        }
        self.instances.push(made);
        match init {
            Some(init) => {
                let bound = self.bind_method(&init, Value::Instance(id));
                let initializer = Function {
                    declaration: bound.declaration,
                    closure: bound.closure,
                    is_init: true,
                };
                self.call_function(initializer, args)
            },
            None => self.push_value(Value::Instance(id)),
        }
    }

    fn unwind(&mut self, v: Value) -> (r: Action)
        ensures
            (final(self)@, r@) == semantics::unwind(old(self)@, v.model()),
    {
        let mut at = self.tasks.len();
        let mut found: Option<(usize, Option<usize>)> = None;
        proof {
            assert(self.tasks@.take(at as int) =~= self.tasks@);
        }
        while at > 0
            invariant_except_break
                found is None,
                semantics::innermost_call(self.tasks@.take(at as int))
                    == semantics::innermost_call(self.tasks@),
            invariant
                at <= self.tasks@.len(),
            ensures
                match found {
                    Some((env, init)) => {
                        &&& 1 <= at <= self.tasks@.len()
                        &&& semantics::innermost_call(self.tasks@) == Some((at - 1) as nat)
                        &&& self.tasks@[at - 1] == Task::Leave(env, init)
                    },
                    None => semantics::innermost_call(self.tasks@) is None,
                },
            decreases at,
        {
            proof {
                assert(self.tasks@.take(at as int).drop_last() =~= self.tasks@.take(at - 1));
            }
            match &self.tasks[at - 1] {
                Task::Leave(env, init) => {
                    found = Some((*env, *init));
                    break ;
                },
                _ => {},
            }
            at = at - 1;
        }
        match found {
            Some((env, init)) => {
                self.tasks.truncate(at - 1);
                let result = match init {
                    Some(closure) => self.this_of(closure),
                    None => v,
                };
                self.env = env;
                self.push_value(result)
            },
            None => self.raise(RuntimeException::Return(v)),
        }
    }

    fn get_property(&mut self, i: usize, name: &Token) -> (r: Action)
        ensures
            (final(self)@, r@) == semantics::get_property(old(self)@, i as nat, name@),
    {
        if i >= self.instances.len() {
            return self.raise(RuntimeException::undefined_property(name));
        }
        match self.instances[i].get(name, Value::Instance(i), &mut self.frames) {
            Ok(v) => self.push_value(v),
            Err(e) => self.raise(e),
        }
    }

    fn set_property(&mut self, i: usize, name: &Token, v: Value)
        ensures
            final(self)@ == semantics::set_property(old(self)@, i as nat, name@, v.model()),
    {
        if i < self.instances.len() {
            let mut instance = LoxInstance {
                class: self.instances[i].class.clone(),
                fields: Table::new(),
            };
            std::mem::swap(&mut instance, &mut self.instances[i]);
            instance.set(name, v);
            proof {
                lemma_instance_models_update(old(self).instances@, i as int, instance);
            }
            self.instances[i] = instance;
            assert(self.instances@ =~= old(self).instances@.update(i as int, instance));
        }
    }

    fn evaluate_super(&mut self, id: usize, keyword: &Token, method: &Token) -> (r: Action)
        ensures
            (final(self)@, r@) == semantics::evaluate_super(
                old(self)@,
                id as nat,
                keyword@,
                method@,
            ),
    {
        let depth = match self.depth(id) {
            Some(d) => d,
            None => {
                return self.raise(RuntimeException::undefined(keyword));
            },
        };
        if depth == 0 {
            return self.raise(RuntimeException::undefined(keyword));
        }
        let this = Token::new(TokenType::This, "this", 0);
        if !Environment::has_at(&self.frames, self.env, depth, keyword) || !Environment::has_at(
            &self.frames,
            self.env,
            depth - 1,
            &this,
        ) {
            return self.raise(RuntimeException::undefined(keyword));
        }
        let superclass = Environment::get_at(&self.frames, self.env, depth, keyword);
        let instance = Environment::get_at(&self.frames, self.env, depth - 1, &this);
        match (superclass, instance) {
            (Ok(Value::Class(class)), Ok(instance)) => {
                let found = match class.find_method(method.lexeme.as_str()) {
                    Some(f) => Some(f.clone()),
                    None => None,
                };
                match found {
                    Some(found) => {
                        let bound = self.bind_method(&found, instance);
                        self.push_value(Value::Callable(Callable::Function(bound)))
                    },
                    None => self.raise(RuntimeException::undefined_property(method)),
                }
            },
            _ => self.raise(RuntimeException::undefined(keyword)),
        }
    }

    /// Takes the first step of an expression.
    fn evaluate(&mut self, expr: Rc<Expr>) -> (r: Action)
        ensures
            (final(self)@, r@) == semantics::evaluate(old(self)@, expr),
    {
        match &*expr {
            Expr::Literal(Literal::Nil) => self.push_value(Value::Nil),
            Expr::Literal(Literal::Bool(b)) => self.push_value(Value::Bool(*b)),
            Expr::Literal(Literal::String(s)) => self.push_value(Value::String(s.clone())),
            Expr::Literal(Literal::Number(s)) => self.ask(Action::Literal(s.clone())),
            Expr::Grouping(inner) => {
                self.tasks.push(Task::Evaluate(share(inner)));
                Action::Continue
            },
            Expr::Variable(id, name) => match self.read_variable(*id, name) {
                Some(v) => self.push_value(v),
                None => self.raise(RuntimeException::undefined(name)),
            },
            Expr::This(id, keyword) => match self.read_variable(*id, keyword) {
                Some(v) => self.push_value(v),
                None => self.raise(RuntimeException::undefined(keyword)),
            },
            Expr::Super(id, keyword, method) => self.evaluate_super(*id, keyword, method),
            Expr::Assign(_, _, value) => {
                let first = Task::Evaluate(share(value));
                self.schedule(first, Task::Resume(expr, 1))
            },
            Expr::Unary(_, right) => {
                let first = Task::Evaluate(share(right));
                self.schedule(first, Task::Resume(expr, 1))
            },
            Expr::Binary(left, _, _) => {
                let first = Task::Evaluate(share(left));
                self.schedule(first, Task::Resume(expr, 1))
            },
            Expr::Logical(left, _, _) => {
                let first = Task::Evaluate(share(left));
                self.schedule(first, Task::Resume(expr, 1))
            },
            Expr::Call(callee, _, _) => {
                let first = Task::Evaluate(share(callee));
                self.schedule(first, Task::Resume(expr, 0))
            },
            Expr::Get(object, _) => {
                let first = Task::Evaluate(share(object));
                self.schedule(first, Task::Resume(expr, 1))
            },
            Expr::SetField(object, _, _) => {
                let first = Task::Evaluate(share(object));
                self.schedule(first, Task::Resume(expr, 1))
            },
        }
    }

    /// Applies a binary operator to two evaluated operands.
    fn apply_binary(&mut self, op: &Token, left: Value, right: Value) -> (r: Action)
        ensures
            (final(self)@, r@) == semantics::apply_binary(
                old(self)@,
                op@,
                left.model(),
                right.model(),
            ),
    {
        match op.token_type {
            TokenType::EqualEqual => self.push_value(Value::Bool(left.eq(&right))),
            TokenType::BangEqual => self.push_value(Value::Bool(!left.eq(&right))),
            TokenType::Plus => match (left, right) {
                (Value::Number(l), Value::Number(r)) => self.ask(
                    Action::Arithmetic(TokenType::Plus, l, r),
                ),
                (Value::String(l), Value::String(r)) => {
                    let mut joined = l;
                    joined.append(r.as_str());
                    self.push_value(Value::String(joined))
                },
                _ => self.fail(op, "Operands must be two numbers or two strings."),
            },
            kind => match (left, right) {
                (Value::Number(l), Value::Number(r)) => match kind {
                    TokenType::Greater => self.push_value(Value::Bool(number::less(r, l))),
                    TokenType::GreaterEqual => self.push_value(
                        Value::Bool(number::less(r, l) || number::equal(l, r)),
                    ),
                    TokenType::Less => self.push_value(Value::Bool(number::less(l, r))),
                    TokenType::LessEqual => self.push_value(
                        Value::Bool(number::less(l, r) || number::equal(l, r)),
                    ),
                    TokenType::Minus | TokenType::Slash | TokenType::Star => self.ask(
                        Action::Arithmetic(kind, l, r),
                    ),
                    _ => self.fail(op, "Operands must be numbers."),
                },
                _ => self.fail(op, "Operands must be numbers."),
            },
        }
    }

    /// The error of a call with the wrong number of arguments.
    fn wrong_arity(&mut self, paren: &Token, expected: usize, got: usize) -> (r: Action)
        ensures
            (final(self)@, r@) == semantics::fail(
                old(self)@,
                paren@,
                semantics::wrong_arity(expected as nat, got as nat),
            ),
    {
        let mut msg = String::from_str("Expected ");
        append_decimal(&mut msg, expected);
        msg.append(" arguments but got ");
        append_decimal(&mut msg, got);
        msg.append(".");
        self.fail(paren, msg.as_str())
    }

    /// Makes a call whose callee and `n` arguments are on the stack.
    fn apply_call(&mut self, paren: &Token, n: usize) -> (r: Action)
        ensures
            (final(self)@, r@) == semantics::apply_call(old(self)@, paren@, n as nat),
    {
        let height = self.values.len();
        if height <= n {
            return self.fail(paren, "Can only call functions and classes.");
        }
        let ghost before = self.values@;
        let args = self.values.split_off(height - n);
        let callee = self.values.pop();
        proof {
            assert(value_seq(args@) =~= value_seq(before).subrange(
                height - n,
                height as int,
            ));
            assert(value_seq(self.values@) =~= value_seq(before).take(height - n - 1));
        }
        match callee {
            Some(Value::Callable(Callable::Native(native))) => {
                if native.arity() == n {
                    native.call(self, args)
                } else {
                    self.wrong_arity(paren, native.arity(), n)
                }
            },
            Some(Value::Callable(Callable::Function(f))) => {
                if f.arity() == n {
                    f.call(self, args)
                } else {
                    self.wrong_arity(paren, f.arity(), n)
                }
            },
            Some(Value::Class(class)) => {
                if class.arity() == n {
                    class.call(self, args)
                } else {
                    self.wrong_arity(paren, class.arity(), n)
                }
            },
            _ => self.fail(paren, "Can only call functions and classes."),
        }
    }

    /// Takes a later step of an expression.
    fn resume(&mut self, expr: Rc<Expr>, done: usize) -> (r: Action)
        ensures
            (final(self)@, r@) == semantics::resume(old(self)@, expr, done as nat),
    {
        match &*expr {
            Expr::Assign(id, name, _) => {
                if self.write_variable(*id, name, self.top_value()) {
                    Action::Continue
                } else {
                    self.raise(RuntimeException::undefined(name))
                }
            },
            Expr::Unary(op, _) => {
                let operand = self.pop_value();
                if op.token_type == TokenType::Bang {
                    self.push_value(Value::Bool(!is_truthy(&operand)))
                } else {
                    match operand {
                        Value::Number(n) => self.push_value(Value::Number(number::negate(n))),
                        _ => self.fail(op, "Operand must be a number."),
                    }
                }
            },
            Expr::Binary(_, op, right) => {
                if done <= 1 {
                    let first = Task::Evaluate(share(right));
                    self.schedule(first, Task::Resume(expr, 2))
                } else {
                    let second = self.pop_value();
                    let first = self.pop_value();
                    self.apply_binary(op, first, second)
                }
            },
            Expr::Logical(_, op, right) => {
                let left = self.top_value();
                let decided = if op.token_type == TokenType::Or {
                    is_truthy(&left)
                } else if op.token_type == TokenType::And {
                    !is_truthy(&left)
                } else {
                    false
                };
                if !decided {
                    self.pop_value();
                    self.tasks.push(Task::Evaluate(share(right)));
                }
                Action::Continue
            },
            Expr::Call(_, paren, args) => {
                let callee_fits = done != 0 || match self.top_value() {
                    Value::Callable(_) => true,
                    Value::Class(_) => true,
                    _ => false,
                };
                if !callee_fits {
                    self.fail(paren, "Can only call functions and classes.")
                } else if done < args.len() {
                    let first = Task::Evaluate(share(&args[done]));
                    self.schedule(first, Task::Resume(expr, done + 1))
                } else {
                    self.apply_call(paren, args.len())
                }
            },
            Expr::Get(_, name) => {
                match self.pop_value() {
                    Value::Instance(i) => self.get_property(i, name),
                    _ => self.fail(name, "Only instances have properties."),
                }
            },
            Expr::SetField(_, name, value) => {
                if done <= 1 {
                    match self.top_value() {
                        Value::Instance(_) => {
                            let first = Task::Evaluate(share(value));
                            self.schedule(first, Task::Resume(expr, 2))
                        },
                        _ => self.fail(name, "Only instances have fields."),
                    }
                } else {
                    let v = self.pop_value();
                    let object = self.pop_value();
                    self.push_value(v.clone());
                    match object {
                        Value::Instance(i) => {
                            self.set_property(i, name, v);
                            Action::Continue
                        },
                        _ => self.fail(name, "Only instances have fields."),
                    }
                }
            },
            _ => Action::Continue,
        }
    }

    /// Declares a class whose superclass, if any, is evaluated.
    fn declare_class(
        &mut self,
        name: &Token,
        members: &Vec<Rc<Stmt>>,
        parent: Option<Rc<LoxClass>>,
    ) -> (r: Action)
        ensures
            (final(self)@, r@) == semantics::declare_class(
                old(self)@,
                name@,
                members@,
                match parent {
                    Some(class) => Some(class.model()),
                    None => None,
                },
            ),
    {
        self.bind(self.env, name.lexeme.as_str(), Value::Nil);
        let closure = match &parent {
            Some(class) => {
                let mut frame = Environment::encloser(self.env);
                frame.define("super", Value::Class(share(class)));
                let at = self.frames.len();
                proof {
                    lemma_frame_models_push(self.frames@, frame);
                }
                self.frames.push(frame);
                at
            },
            None => self.env,
        };
        let mut methods: Table<Function> = Table::new();
        let mut i: usize = 0;
        while i < members.len()
            invariant
                i <= members@.len(),
                methods@ == semantics::declared_methods(members@, i as nat, closure),
            decreases members@.len() - i,
        {
            if let Stmt::Function(method, _, _) = &*members[i] {
                let is_init = same_text(method.lexeme.as_str(), "init");
                methods.insert(
                    method.lexeme.clone(),
                    Function::new(&members[i], closure, is_init),
                );
            }
            i = i + 1;
        }
        let class = Rc::new(LoxClass::new(name.lexeme.clone(), parent, &Rc::new(methods)));
        self.bind(self.env, name.lexeme.as_str(), Value::Class(class));
        Action::Continue
    }

    /// Takes the first step of a statement.
    fn execute(&mut self, stmt: Rc<Stmt>) -> (r: Action)
        ensures
            (final(self)@, r@) == semantics::execute(old(self)@, stmt),
    {
        match &*stmt {
            Stmt::Null => Action::Continue,
            Stmt::Expression(e) => {
                let first = Task::Evaluate(share(e));
                self.schedule(first, Task::Proceed(stmt, 1))
            },
            Stmt::Print(e) => {
                let first = Task::Evaluate(share(e));
                self.schedule(first, Task::Proceed(stmt, 1))
            },
            Stmt::Var(name, Some(initializer)) => {
                let first = Task::Evaluate(share(initializer));
                self.schedule(first, Task::Proceed(stmt, 1))
            },
            Stmt::Var(name, None) => {
                self.bind(self.env, name.lexeme.as_str(), Value::Nil);
                Action::Continue
            },
            Stmt::Block(_) => {
                let frame = Environment::encloser(self.env);
                let at = self.frames.len();
                proof {
                    lemma_frame_models_push(self.frames@, frame);
                }
                self.frames.push(frame);
                self.tasks.push(Task::Restore(self.env));
                self.tasks.push(Task::Proceed(stmt, 0));
                self.env = at;
                Action::Continue
            },
            Stmt::If(condition, _, _) => {
                let first = Task::Evaluate(share(condition));
                self.schedule(first, Task::Proceed(stmt, 1))
            },
            Stmt::While(condition, _) => {
                let first = Task::Evaluate(share(condition));
                self.schedule(first, Task::Proceed(stmt, 1))
            },
            Stmt::Function(name, _, _) => {
                let function = Function::new(&stmt, self.env, false);
                self.bind(
                    self.env,
                    name.lexeme.as_str(),
                    Value::Callable(Callable::Function(function)),
                );
                Action::Continue
            },
            Stmt::Return(_, Some(value)) => {
                let first = Task::Evaluate(share(value));
                self.schedule(first, Task::Proceed(stmt, 1))
            },
            Stmt::Return(_, None) => self.unwind(Value::Nil),
            Stmt::Class(_, Some(parent), _) => {
                let first = Task::Evaluate(share(parent));
                self.schedule(first, Task::Proceed(stmt, 1))
            },
            Stmt::Class(name, None, members) => self.declare_class(name, members, None),
        }
    }

    /// Schedules the next statement of a sequence, if any is left.
    fn proceed_in(&mut self, stmt: Rc<Stmt>, body: &Vec<Rc<Stmt>>, done: usize) -> (r: Action)
        ensures
            (final(self)@, r@) == semantics::proceed_in(old(self)@, stmt, body@, done as nat),
    {
        if done < body.len() {
            let first = Task::Execute(share(&body[done]));
            self.schedule(first, Task::Proceed(stmt, done + 1))
        } else {
            Action::Continue
        }
    }

    /// Takes a later step of a statement.
    fn proceed(&mut self, stmt: Rc<Stmt>, done: usize) -> (r: Action)
        ensures
            (final(self)@, r@) == semantics::proceed(old(self)@, stmt, done as nat),
    {
        match &*stmt {
            Stmt::Expression(_) => {
                self.pop_value();
                Action::Continue
            },
            Stmt::Print(_) => {
                let v = self.pop_value();
                Action::Print(self.show(&v))
            },
            Stmt::Var(name, _) => {
                let v = self.pop_value();
                self.bind(self.env, name.lexeme.as_str(), v);
                Action::Continue
            },
            Stmt::Block(body) => self.proceed_in(share(&stmt), body, done),
            Stmt::Function(_, _, body) => self.proceed_in(share(&stmt), body, done),
            Stmt::If(_, then_branch, else_branch) => {
                let v = self.pop_value();
                if is_truthy(&v) {
                    self.tasks.push(Task::Execute(share(then_branch)));
                } else if let Some(other) = else_branch {
                    self.tasks.push(Task::Execute(share(other)));
                }
                Action::Continue
            },
            Stmt::While(_, body) => {
                let v = self.pop_value();
                if is_truthy(&v) {
                    let first = Task::Execute(share(body));
                    self.schedule(first, Task::Execute(stmt))
                } else {
                    Action::Continue
                }
            },
            Stmt::Return(_, _) => {
                let v = self.pop_value();
                self.unwind(v)
            },
            Stmt::Class(name, Some(parent), members) => {
                match self.pop_value() {
                    Value::Class(class) => self.declare_class(name, members, Some(class)),
                    _ => {
                        match &**parent {
                            Expr::Variable(_, token) => self.fail(
                                token,
                                "Superclass must be a class.",
                            ),
                            _ => self.fail(name, "Superclass must be a class."),
                        }
                    },
                }
            },
            _ => Action::Continue,
        }
    }

    /// Ends a call whose body ran to its end.
    fn leave(&mut self, env: usize, init: Option<usize>) -> (r: Action)
        ensures
            (final(self)@, r@) == semantics::leave(old(self)@, env, init),
    {
        let result = match init {
            Some(closure) => self.this_of(closure),
            None => Value::Nil,
        };
        self.env = env;
        self.push_value(result)
    }

    /// Makes one transition and says what it asks of the host. An
    /// interpreter that has the form keeps it.
    pub fn step(&mut self) -> (r: Action)
        ensures
            (final(self)@, r@) == semantics::step(old(self)@),
            form::well_formed(old(self)@) ==> form::well_formed(final(self)@),
    {
        let r = self.transition();
        let count = self.frames.len();
        proof {
            assert(self@.frames.len() == count);
            if form::well_formed(old(self)@) {
                form::lemma_step_keeps_form(old(self)@);
            }
        }
        r
    }

    fn transition(&mut self) -> (r: Action)
        ensures
            (final(self)@, r@) == semantics::step(old(self)@),
    {
        if self.waiting {
            return Action::Waiting;
        }
        match self.tasks.pop() {
            None => Action::Finished,
            Some(Task::Evaluate(e)) => self.evaluate(e),
            Some(Task::Resume(e, done)) => self.resume(e, done),
            Some(Task::Execute(s)) => self.execute(s),
            Some(Task::Proceed(s, done)) => self.proceed(s, done),
            Some(Task::Restore(env)) => {
                self.env = env;
                Action::Continue
            },
            Some(Task::Leave(env, init)) => self.leave(env, init),
        }
    }

    /// Steps until something is asked of the host or the program ends, but
    /// at most `budget` times; `Continue` says that the budget ran out.
    pub fn run(&mut self, budget: usize) -> (r: Action)
        ensures
            (final(self)@, r@) == semantics::run(old(self)@, budget as nat),
            form::well_formed(old(self)@) ==> form::well_formed(final(self)@),
    {
        let ghost goal = semantics::run(old(self)@, budget as nat);
        let mut left = budget;
        while left > 0
            invariant
                form::well_formed(old(self)@) ==> form::well_formed(self@),
                goal == semantics::run(old(self)@, budget as nat),
                semantics::run(self@, left as nat) == goal,
            decreases left,
        {
            match self.step() {
                Action::Continue => {
                    left = left - 1;
                },
                other => {
                    return other;
                },
            }
        }
        Action::Continue
    }

    /// Schedules `stmts` to run in the frame `env`, which is added to the
    /// frames and is current until they are done; then the frame that is
    /// current now is current again. A runtime error leaves every block
    /// and call under way at once, so after it the frame is current that
    /// was current before the outermost of them: the frame that is
    /// current now, where none is under way now.
    pub fn execute_block(&mut self, stmts: &Vec<Rc<Stmt>>, env: Environment)
        ensures
            final(self)@ == semantics::load(
                Machine {
                    frames: old(self)@.frames.push(env@),
                    env: old(self)@.frames.len(),
                    tasks: old(self)@.tasks.push(Task::Restore(old(self)@.env as usize)),
                    ..old(self)@
                },
                stmts@,
            ),
            form::well_formed(old(self)@) && form::map_fits(env@.values, old(self)@.frames.len())
                && (env@.enclosing matches Some(p) ==> p < old(self)@.frames.len())
                ==> form::well_formed(final(self)@),
    {
        let at = self.frames.len();
        proof {
            lemma_frame_models_push(self.frames@, env);
        }
        self.frames.push(env);
        let count = self.frames.len();
        proof {
            if form::well_formed(old(self)@) && form::map_fits(
                env@.values,
                old(self)@.frames.len(),
            ) && (env@.enclosing matches Some(p) ==> p < old(self)@.frames.len()) {
                form::lemma_block_keeps_form(old(self)@, env@, stmts@);
            }
        }
        self.tasks.push(Task::Restore(self.env));
        self.env = at;
        self.interpret(stmts);
    }
}

} // verus!
