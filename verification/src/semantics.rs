//! The meaning of programs: an abstract machine over mathematical values.
//!
//! A machine holds the work still to do (a stack of tasks), the values
//! computed and not yet used, the frames and the instances. `step` says what
//! one transition does and what, if anything, it asks of the host: to print,
//! to do arithmetic, to read a numeral, or to run a native function.
use vstd::prelude::*;
use std::rc::Rc;
use crate::class::{class_arity, method_of, ClassModel};
use crate::env::{ancestor, bind, binder, lookup, lookup_at, FrameModel};
use crate::expr::{truthy, values_equal, Expr, Literal, ValueModel};
use crate::instance::InstanceModel;
use crate::loxcallables::{function_arity, function_name, Function};
use crate::loxerr::{undefined_property, undefined_variable, ExceptionModel};
use crate::number::{negated, same_number, smaller};
use crate::stmt::Stmt;
use crate::text::decimal;
use crate::token::{Token, TokenModel, TokenType};

verus! {

/// A piece of work.
pub enum Task {
    /// Evaluate the expression and push its value.
    Evaluate(Rc<Expr>),
    /// Go on with the expression, so many of its operands being evaluated.
    Resume(Rc<Expr>, usize),
    /// Execute the statement.
    Execute(Rc<Stmt>),
    /// Go on with the statement, so many of its parts being done.
    Proceed(Rc<Stmt>, usize),
    /// Leave a block: make this frame the current one again.
    Restore(usize),
    /// Leave a call: make this frame the current one again and push the
    /// result. Where the call is one of an initializer, the second field is
    /// the frame that binds `this`.
    Leave(usize, Option<usize>),
}

/// The state of the abstract machine.
pub struct Machine {
    pub tasks: Seq<Task>,
    pub values: Seq<ValueModel>,
    pub frames: Seq<FrameModel>,
    pub instances: Seq<InstanceModel>,
    /// The current frame.
    pub env: nat,
    /// The scope depth of each resolved expression, by its identity.
    pub locals: Map<nat, nat>,
    /// Whether the machine waits for the host's reply.
    pub waiting: bool,
}

/// How a value prints: as text, or as a number that the host writes out.
pub enum ShownModel {
    Text(Seq<char>),
    Number(u64),
}

/// What a step asks of the host.
pub enum ActionModel {
    /// Nothing; more steps remain.
    Continue,
    /// Nothing; the machine waits for a reply.
    Waiting,
    /// Nothing; no work is left.
    Finished,
    /// To print a line.
    Print(ShownModel),
    /// To reply with the number that a numeral denotes.
    Literal(Seq<char>),
    /// To reply with the result of an arithmetic operator on two numbers.
    Arithmetic(TokenType, u64, u64),
    /// To reply with the result of a native function on its arguments.
    Native(Seq<char>, Seq<ValueModel>),
    /// Nothing; the program ended early.
    Failed(ExceptionModel),
}

/// The value on top of the stack, or `nil` where the stack is empty.
pub open spec fn top(values: Seq<ValueModel>) -> ValueModel {
    if values.len() > 0 {
        values.last()
    } else {
        ValueModel::Nil
    }
}

/// The stack without its top.
pub open spec fn pop(values: Seq<ValueModel>) -> Seq<ValueModel> {
    if values.len() > 0 {
        values.drop_last()
    } else {
        values
    }
}

/// The frame that the outermost block or call under way goes back to: the
/// one saved by the first task from `from` on that saves any.
pub open spec fn outermost_return(tasks: Seq<Task>, from: int) -> Option<usize>
    decreases tasks.len() - from,
{
    if 0 <= from < tasks.len() {
        match tasks[from] {
            Task::Restore(env) => Some(env),
            Task::Leave(env, _) => Some(env),
            _ => outermost_return(tasks, from + 1),
        }
    } else {
        None
    }
}

/// The program ends early: no work and no values are left, and every
/// block and call under way is left, so that the frame is current again
/// that was current before the outermost of them.
pub open spec fn raise(m: Machine, e: ExceptionModel) -> (Machine, ActionModel) {
    (
        Machine {
            tasks: Seq::empty(),
            values: Seq::empty(),
            env: match outermost_return(m.tasks, 0) {
                Some(env) => env as nat,
                None => m.env,
            },
            waiting: false,
            ..m
        },
        ActionModel::Failed(e),
    )
}

/// The program ends early with a runtime error at `token`.
pub open spec fn fail(m: Machine, token: TokenModel, msg: Seq<char>) -> (Machine, ActionModel) {
    raise(m, ExceptionModel::RuntimeError { token, error: msg })
}

/// A value is computed.
pub open spec fn push_value(m: Machine, v: ValueModel) -> (Machine, ActionModel) {
    (Machine { values: m.values.push(v), ..m }, ActionModel::Continue)
}

/// Two tasks are scheduled, `first` to be done first.
pub open spec fn schedule(m: Machine, first: Task, second: Task) -> (Machine, ActionModel) {
    (Machine { tasks: m.tasks.push(second).push(first), ..m }, ActionModel::Continue)
}

/// Something is asked of the host, and the machine waits.
pub open spec fn ask(m: Machine, request: ActionModel) -> (Machine, ActionModel) {
    (Machine { waiting: true, ..m }, request)
}

/// How `v` prints.
pub open spec fn display(v: ValueModel, instances: Seq<InstanceModel>) -> ShownModel {
    match v {
        ValueModel::Nil => ShownModel::Text("nil"@),
        ValueModel::Bool(b) => ShownModel::Text(
            if b {
                "true"@
            } else {
                "false"@
            },
        ),
        ValueModel::Number(n) => ShownModel::Number(n),
        ValueModel::String(s) => ShownModel::Text(s),
        ValueModel::Native(_, _) => ShownModel::Text("<native fn>"@),
        ValueModel::Function(f) => ShownModel::Text("<fn "@ + function_name(f) + ">"@),
        ValueModel::Class(c) => ShownModel::Text(c.name),
        ValueModel::Instance(i) => ShownModel::Text(
            if i < instances.len() {
                instances[i as int].class.name + " instance"@
            } else {
                " instance"@
            },
        ),
    }
}

/// The value of a variable: at its resolved depth from the current frame,
/// or in the global frame where it was not resolved.
pub open spec fn read_variable(m: Machine, id: nat, name: TokenModel) -> Option<ValueModel> {
    if m.locals.contains_key(id) {
        lookup_at(m.frames, m.env, m.locals[id], name.lexeme)
    } else {
        lookup(m.frames, 0, name.lexeme)
    }
}

/// The frames after an assignment to a variable, if it has a place.
pub open spec fn write_variable(m: Machine, id: nat, name: TokenModel, v: ValueModel) -> Option<
    Seq<FrameModel>,
> {
    let place = if m.locals.contains_key(id) {
        ancestor(m.frames, m.env, m.locals[id])
    } else {
        binder(m.frames, 0, name.lexeme)
    };
    match place {
        Some(f) => Some(bind(m.frames, f, name.lexeme, v)),
        None => None,
    }
}

/// The frame that binds `this` to `instance` around `closure`.
pub open spec fn this_frame(instance: ValueModel, closure: usize) -> FrameModel {
    FrameModel {
        values: Map::<Seq<char>, ValueModel>::empty().insert("this"@, instance),
        enclosing: Some(closure as nat),
    }
}

/// The machine after `method` is bound to `instance`, and the bound method.
pub open spec fn bind_method(m: Machine, method: Function, instance: ValueModel) -> (
    Machine,
    Function,
) {
    (
        Machine { frames: m.frames.push(this_frame(instance, method.closure)), ..m },
        Function { closure: m.frames.len() as usize, ..method },
    )
}

/// What `this` is in frame `closure`.
pub open spec fn this_of(frames: Seq<FrameModel>, closure: nat) -> ValueModel {
    match lookup_at(frames, closure, 0, "this"@) {
        Some(v) => v,
        None => ValueModel::Nil,
    }
}

/// The argument at `i`, or `nil` where there is none.
pub open spec fn argument(args: Seq<ValueModel>, i: int) -> ValueModel {
    if 0 <= i < args.len() {
        args[i]
    } else {
        ValueModel::Nil
    }
}

/// The bindings of the first `upto` parameters to their arguments; a later
/// parameter of the same name wins.
pub open spec fn bound_parameters(params: Seq<Token>, args: Seq<ValueModel>, upto: nat) -> Map<
    Seq<char>,
    ValueModel,
>
    decreases upto,
{
    if upto == 0 || upto > params.len() {
        Map::empty()
    } else {
        bound_parameters(params, args, (upto - 1) as nat).insert(
            params[upto - 1].lexeme@,
            argument(args, upto - 1),
        )
    }
}

/// The parameters that a function was declared with.
pub open spec fn parameters_of(f: Function) -> Seq<Token> {
    match *f.declaration {
        Stmt::Function(_, params, _) => params@,
        _ => Seq::empty(),
    }
}

/// A call of `f`: a new frame inside its closure binds the parameters and
/// becomes current; the body is scheduled, and under it the way back.
pub open spec fn call_function(m: Machine, f: Function, args: Seq<ValueModel>) -> (
    Machine,
    ActionModel,
) {
    let params = parameters_of(f);
    let frame = FrameModel {
        values: bound_parameters(params, args, params.len()),
        enclosing: Some(f.closure as nat),
    };
    let back = Task::Leave(
        m.env as usize,
        if f.is_init {
            Some(f.closure)
        } else {
            None
        },
    );
    (
        Machine {
            frames: m.frames.push(frame),
            env: m.frames.len(),
            tasks: m.tasks.push(back).push(Task::Proceed(f.declaration, 0)),
            ..m
        },
        ActionModel::Continue,
    )
}

/// A call of a class: a new instance, initialized by `init` where the class
/// has one. The call gives the instance, whatever `init` returns and
/// however the method was made.
pub open spec fn instantiate(m: Machine, class: ClassModel, args: Seq<ValueModel>) -> (
    Machine,
    ActionModel,
) {
    let instance = ValueModel::Instance(m.instances.len());
    let made = Machine {
        instances: m.instances.push(InstanceModel { class, fields: Map::empty() }),
        ..m
    };
    match method_of(class, "init"@) {
        Some(init) => {
            let (bound_machine, bound) = bind_method(made, init, instance);
            call_function(bound_machine, Function { is_init: true, ..bound }, args)
        },
        None => push_value(made, instance),
    }
}

/// The index of the innermost call that is under way, if any.
pub open spec fn innermost_call(tasks: Seq<Task>) -> Option<nat>
    decreases tasks.len(),
{
    if tasks.len() == 0 {
        None
    } else if tasks.last() is Leave {
        Some((tasks.len() - 1) as nat)
    } else {
        innermost_call(tasks.drop_last())
    }
}

/// A `return` of `v`: the innermost call ends with it, or with the instance
/// where it is an initializer. Outside any call the program ends early.
pub open spec fn unwind(m: Machine, v: ValueModel) -> (Machine, ActionModel) {
    match innermost_call(m.tasks) {
        Some(i) => match m.tasks[i as int] {
            Task::Leave(env, init) => {
                let result = match init {
                    Some(closure) => this_of(m.frames, closure as nat),
                    None => v,
                };
                (
                    Machine {
                        tasks: m.tasks.take(i as int),
                        env: env as nat,
                        values: m.values.push(result),
                        ..m
                    },
                    ActionModel::Continue,
                )
            },
            _ => raise(m, ExceptionModel::Return(v)),
        },
        None => raise(m, ExceptionModel::Return(v)),
    }
}

/// The property `name` of instance `i`: a field, or else a method bound to
/// the instance.
pub open spec fn get_property(m: Machine, i: nat, name: TokenModel) -> (Machine, ActionModel) {
    if i >= m.instances.len() {
        raise(m, undefined_property(name))
    } else if m.instances[i as int].fields.contains_key(name.lexeme) {
        push_value(m, m.instances[i as int].fields[name.lexeme])
    } else {
        match method_of(m.instances[i as int].class, name.lexeme) {
            Some(method) => {
                let (bound_machine, bound) = bind_method(m, method, ValueModel::Instance(i));
                push_value(bound_machine, ValueModel::Function(bound))
            },
            None => raise(m, undefined_property(name)),
        }
    }
}

/// The machine after field `name` of instance `i` is set.
pub open spec fn set_property(m: Machine, i: nat, name: TokenModel, v: ValueModel) -> Machine {
    if i < m.instances.len() {
        Machine {
            instances: m.instances.update(
                i as int,
                InstanceModel {
                    fields: m.instances[i as int].fields.insert(name.lexeme, v),
                    ..m.instances[i as int]
                },
            ),
            ..m
        }
    } else {
        m
    }
}

/// `super.method`: the method of the superclass, bound to `this`. The
/// superclass stands at the resolved depth, `this` one frame further in.
pub open spec fn evaluate_super(m: Machine, id: nat, keyword: TokenModel, method: TokenModel) -> (
    Machine,
    ActionModel,
) {
    if !m.locals.contains_key(id) || m.locals[id] == 0 {
        raise(m, undefined_variable(keyword))
    } else {
        let depth = m.locals[id];
        match (
            lookup_at(m.frames, m.env, depth, keyword.lexeme),
            lookup_at(m.frames, m.env, (depth - 1) as nat, "this"@),
        ) {
            (Some(ValueModel::Class(class)), Some(this)) => match method_of(class, method.lexeme) {
                Some(found) => {
                    let (bound_machine, bound) = bind_method(m, found, this);
                    push_value(bound_machine, ValueModel::Function(bound))
                },
                None => raise(m, undefined_property(method)),
            },
            _ => raise(m, undefined_variable(keyword)),
        }
    }
}

/// The first step of an expression.
pub open spec fn evaluate(m: Machine, e: Rc<Expr>) -> (Machine, ActionModel) {
    match *e {
        Expr::Literal(Literal::Nil) => push_value(m, ValueModel::Nil),
        Expr::Literal(Literal::Bool(b)) => push_value(m, ValueModel::Bool(b)),
        Expr::Literal(Literal::String(s)) => push_value(m, ValueModel::String(s@)),
        Expr::Literal(Literal::Number(s)) => ask(m, ActionModel::Literal(s@)),
        Expr::Grouping(inner) => (
            Machine { tasks: m.tasks.push(Task::Evaluate(inner)), ..m },
            ActionModel::Continue,
        ),
        Expr::Variable(id, name) => match read_variable(m, id as nat, name@) {
            Some(v) => push_value(m, v),
            None => raise(m, undefined_variable(name@)),
        },
        Expr::This(id, keyword) => match read_variable(m, id as nat, keyword@) {
            Some(v) => push_value(m, v),
            None => raise(m, undefined_variable(keyword@)),
        },
        Expr::Super(id, keyword, method) => evaluate_super(m, id as nat, keyword@, method@),
        Expr::Assign(_, _, value) => schedule(m, Task::Evaluate(value), Task::Resume(e, 1)),
        Expr::Unary(_, right) => schedule(m, Task::Evaluate(right), Task::Resume(e, 1)),
        Expr::Binary(left, _, _) => schedule(m, Task::Evaluate(left), Task::Resume(e, 1)),
        Expr::Logical(left, _, _) => schedule(m, Task::Evaluate(left), Task::Resume(e, 1)),
        Expr::Call(callee, _, _) => schedule(m, Task::Evaluate(callee), Task::Resume(e, 0)),
        Expr::Get(object, _) => schedule(m, Task::Evaluate(object), Task::Resume(e, 1)),
        Expr::SetField(object, _, _) => schedule(m, Task::Evaluate(object), Task::Resume(e, 1)),
    }
}

/// Whether the host is asked for the result of this operator.
pub open spec fn arithmetic(kind: TokenType) -> bool {
    kind == TokenType::Plus || kind == TokenType::Minus || kind == TokenType::Star || kind
        == TokenType::Slash
}

/// A binary operator on two evaluated operands.
pub open spec fn apply_binary(m: Machine, op: TokenModel, left: ValueModel, right: ValueModel) -> (
    Machine,
    ActionModel,
) {
    match op.token_type {
        TokenType::EqualEqual => push_value(m, ValueModel::Bool(values_equal(left, right))),
        TokenType::BangEqual => push_value(m, ValueModel::Bool(!values_equal(left, right))),
        TokenType::Plus => match (left, right) {
            (ValueModel::Number(l), ValueModel::Number(r)) => ask(
                m,
                ActionModel::Arithmetic(TokenType::Plus, l, r),
            ),
            (ValueModel::String(l), ValueModel::String(r)) => push_value(
                m,
                ValueModel::String(l + r),
            ),
            _ => fail(m, op, "Operands must be two numbers or two strings."@),
        },
        kind => match (left, right) {
            (ValueModel::Number(l), ValueModel::Number(r)) => match kind {
                TokenType::Greater => push_value(m, ValueModel::Bool(smaller(r, l))),
                TokenType::GreaterEqual => push_value(
                    m,
                    ValueModel::Bool(smaller(r, l) || same_number(l, r)),
                ),
                TokenType::Less => push_value(m, ValueModel::Bool(smaller(l, r))),
                TokenType::LessEqual => push_value(
                    m,
                    ValueModel::Bool(smaller(l, r) || same_number(l, r)),
                ),
                TokenType::Minus | TokenType::Slash | TokenType::Star => ask(
                    m,
                    ActionModel::Arithmetic(kind, l, r),
                ),
                _ => fail(m, op, "Operands must be numbers."@),
            },
            _ => fail(m, op, "Operands must be numbers."@),
        },
    }
}

/// The message of a call with the wrong number of arguments.
pub open spec fn wrong_arity(expected: nat, got: nat) -> Seq<char> {
    "Expected "@ + decimal(expected) + " arguments but got "@ + decimal(got) + "."@
}

/// Whether a value can be called: a function, native or of the program,
/// or a class.
pub open spec fn callable(v: ValueModel) -> bool {
    v is Native || v is Function || v is Class
}

/// A call whose callee and `n` arguments are evaluated and on the stack,
/// the callee lowest.
pub open spec fn apply_call(m: Machine, paren: TokenModel, n: nat) -> (Machine, ActionModel) {
    if m.values.len() <= n {
        fail(m, paren, "Can only call functions and classes."@)
    } else {
        let at = m.values.len() - n;
        let args = m.values.subrange(at, m.values.len() as int);
        let rest = Machine { values: m.values.take(at - 1), ..m };
        match m.values[at - 1] {
            ValueModel::Native(arity, name) => if arity == n {
                ask(rest, ActionModel::Native(name, args))
            } else {
                fail(rest, paren, wrong_arity(arity, n))
            },
            ValueModel::Function(f) => if function_arity(f) == n {
                call_function(rest, f, args)
            } else {
                fail(rest, paren, wrong_arity(function_arity(f), n))
            },
            ValueModel::Class(class) => if class_arity(class) == n {
                instantiate(rest, class, args)
            } else {
                fail(rest, paren, wrong_arity(class_arity(class), n))
            },
            _ => fail(rest, paren, "Can only call functions and classes."@),
        }
    }
}

/// A later step of an expression, `done` of its operands being evaluated.
pub open spec fn resume(m: Machine, e: Rc<Expr>, done: nat) -> (Machine, ActionModel) {
    match *e {
        Expr::Assign(id, name, _) => match write_variable(m, id as nat, name@, top(m.values)) {
            Some(frames) => (Machine { frames, ..m }, ActionModel::Continue),
            None => raise(m, undefined_variable(name@)),
        },
        Expr::Unary(op, _) => {
            let rest = Machine { values: pop(m.values), ..m };
            if op.token_type == TokenType::Bang {
                push_value(rest, ValueModel::Bool(!truthy(top(m.values))))
            } else {
                match top(m.values) {
                    ValueModel::Number(n) => push_value(rest, ValueModel::Number(negated(n))),
                    _ => fail(rest, op@, "Operand must be a number."@),
                }
            }
        },
        Expr::Binary(_, op, right) => if done <= 1 {
            schedule(m, Task::Evaluate(right), Task::Resume(e, 2))
        } else {
            apply_binary(
                Machine { values: pop(pop(m.values)), ..m },
                op@,
                top(pop(m.values)),
                top(m.values),
            )
        },
        Expr::Logical(_, op, right) => {
            let decided = if op.token_type == TokenType::Or {
                truthy(top(m.values))
            } else if op.token_type == TokenType::And {
                !truthy(top(m.values))
            } else {
                false
            };
            if decided {
                (m, ActionModel::Continue)
            } else {
                (
                    Machine {
                        values: pop(m.values),
                        tasks: m.tasks.push(Task::Evaluate(right)),
                        ..m
                    },
                    ActionModel::Continue,
                )
            }
        },
        Expr::Call(_, paren, args) => if done == 0 && !callable(top(m.values)) {
            fail(m, paren@, "Can only call functions and classes."@)
        } else if done < args@.len() {
            schedule(m, Task::Evaluate(args@[done as int]), Task::Resume(e, (done + 1) as usize))
        } else {
            apply_call(m, paren@, args@.len())
        },
        Expr::Get(_, name) => {
            let rest = Machine { values: pop(m.values), ..m };
            match top(m.values) {
                ValueModel::Instance(i) => get_property(rest, i, name@),
                _ => fail(rest, name@, "Only instances have properties."@),
            }
        },
        Expr::SetField(_, name, value) => if done <= 1 {
            match top(m.values) {
                ValueModel::Instance(_) => schedule(m, Task::Evaluate(value), Task::Resume(e, 2)),
                _ => fail(m, name@, "Only instances have fields."@),
            }
        } else {
            let rest = Machine { values: pop(pop(m.values)).push(top(m.values)), ..m };
            match top(pop(m.values)) {
                ValueModel::Instance(i) => (
                    set_property(rest, i, name@, top(m.values)),
                    ActionModel::Continue,
                ),
                _ => fail(rest, name@, "Only instances have fields."@),
            }
        },
        _ => (m, ActionModel::Continue),
    }
}


/// The methods of a class from the first `upto` members of its declaration,
/// each closed over frame `closure`; a later method of the same name wins.
pub open spec fn declared_methods(members: Seq<Rc<Stmt>>, upto: nat, closure: usize) -> Map<
    Seq<char>,
    Function,
>
    decreases upto,
{
    if upto == 0 || upto > members.len() {
        Map::empty()
    } else {
        let earlier = declared_methods(members, (upto - 1) as nat, closure);
        match *members[upto - 1] {
            Stmt::Function(name, _, _) => earlier.insert(
                name.lexeme@,
                Function {
                    declaration: members[upto - 1],
                    closure,
                    is_init: name.lexeme@ == "init"@,
                },
            ),
            _ => earlier,
        }
    }
}

/// The frame that binds `super` to `class` inside frame `around`.
pub open spec fn super_frame(class: ClassModel, around: nat) -> FrameModel {
    FrameModel {
        values: Map::<Seq<char>, ValueModel>::empty().insert("super"@, ValueModel::Class(class)),
        enclosing: Some(around),
    }
}

/// The declaration of a class whose superclass, if any, is evaluated: the
/// name is bound in the current frame to the class, whose methods are
/// closed over the current frame, or over a new frame that binds `super`.
pub open spec fn declare_class(
    m: Machine,
    name: TokenModel,
    members: Seq<Rc<Stmt>>,
    parent: Option<ClassModel>,
) -> (Machine, ActionModel) {
    let declared = bind(m.frames, m.env, name.lexeme, ValueModel::Nil);
    let (frames, closure) = match parent {
        Some(class) => (declared.push(super_frame(class, m.env)), declared.len()),
        None => (declared, m.env),
    };
    let class = ClassModel {
        name: name.lexeme,
        superclass: match parent {
            Some(class) => Some(Box::new(class)),
            None => None,
        },
        methods: declared_methods(members, members.len(), closure as usize),
    };
    (
        Machine { frames: bind(frames, m.env, name.lexeme, ValueModel::Class(class)), ..m },
        ActionModel::Continue,
    )
}

/// The token that names the superclass in a class declaration.
pub open spec fn superclass_token(name: Token, parent: Rc<Expr>) -> TokenModel {
    match *parent {
        Expr::Variable(_, token) => token@,
        _ => name@,
    }
}

/// The first step of a statement.
pub open spec fn execute(m: Machine, s: Rc<Stmt>) -> (Machine, ActionModel) {
    match *s {
        Stmt::Null => (m, ActionModel::Continue),
        Stmt::Expression(e) => schedule(m, Task::Evaluate(e), Task::Proceed(s, 1)),
        Stmt::Print(e) => schedule(m, Task::Evaluate(e), Task::Proceed(s, 1)),
        Stmt::Var(name, Some(initializer)) => schedule(
            m,
            Task::Evaluate(initializer),
            Task::Proceed(s, 1),
        ),
        Stmt::Var(name, None) => (
            Machine { frames: bind(m.frames, m.env, name.lexeme@, ValueModel::Nil), ..m },
            ActionModel::Continue,
        ),
        Stmt::Block(_) => (
            Machine {
                frames: m.frames.push(FrameModel { values: Map::empty(), enclosing: Some(m.env) }),
                env: m.frames.len(),
                tasks: m.tasks.push(Task::Restore(m.env as usize)).push(Task::Proceed(s, 0)),
                ..m
            },
            ActionModel::Continue,
        ),
        Stmt::If(condition, _, _) => schedule(m, Task::Evaluate(condition), Task::Proceed(s, 1)),
        Stmt::While(condition, _) => schedule(m, Task::Evaluate(condition), Task::Proceed(s, 1)),
        Stmt::Function(name, _, _) => (
            Machine {
                frames: bind(
                    m.frames,
                    m.env,
                    name.lexeme@,
                    ValueModel::Function(
                        Function { declaration: s, closure: m.env as usize, is_init: false },
                    ),
                ),
                ..m
            },
            ActionModel::Continue,
        ),
        Stmt::Return(_, Some(value)) => schedule(m, Task::Evaluate(value), Task::Proceed(s, 1)),
        Stmt::Return(_, None) => unwind(m, ValueModel::Nil),
        Stmt::Class(name, Some(parent), _) => schedule(
            m,
            Task::Evaluate(parent),
            Task::Proceed(s, 1),
        ),
        Stmt::Class(name, None, members) => declare_class(m, name@, members@, None),
    }
}

/// The next statement of a sequence, or nothing where `done` of them are
/// all.
pub open spec fn proceed_in(m: Machine, s: Rc<Stmt>, body: Seq<Rc<Stmt>>, done: nat) -> (
    Machine,
    ActionModel,
) {
    if done < body.len() {
        schedule(m, Task::Execute(body[done as int]), Task::Proceed(s, (done + 1) as usize))
    } else {
        (m, ActionModel::Continue)
    }
}

/// A later step of a statement, `done` of its parts being done.
pub open spec fn proceed(m: Machine, s: Rc<Stmt>, done: nat) -> (Machine, ActionModel) {
    let rest = Machine { values: pop(m.values), ..m };
    match *s {
        Stmt::Expression(_) => (rest, ActionModel::Continue),
        Stmt::Print(_) => (rest, ActionModel::Print(display(top(m.values), m.instances))),
        Stmt::Var(name, _) => (
            Machine { frames: bind(m.frames, m.env, name.lexeme@, top(m.values)), ..rest },
            ActionModel::Continue,
        ),
        Stmt::Block(body) => proceed_in(m, s, body@, done),
        Stmt::Function(_, _, body) => proceed_in(m, s, body@, done),
        Stmt::If(_, then_branch, else_branch) => if truthy(top(m.values)) {
            (
                Machine { tasks: rest.tasks.push(Task::Execute(then_branch)), ..rest },
                ActionModel::Continue,
            )
        } else {
            match else_branch {
                Some(other) => (
                    Machine { tasks: rest.tasks.push(Task::Execute(other)), ..rest },
                    ActionModel::Continue,
                ),
                None => (rest, ActionModel::Continue),
            }
        },
        Stmt::While(_, body) => if truthy(top(m.values)) {
            schedule(rest, Task::Execute(body), Task::Execute(s))
        } else {
            (rest, ActionModel::Continue)
        },
        Stmt::Return(_, _) => unwind(rest, top(m.values)),
        Stmt::Class(name, Some(parent), members) => match top(m.values) {
            ValueModel::Class(class) => declare_class(rest, name@, members@, Some(class)),
            _ => fail(rest, superclass_token(name, parent), "Superclass must be a class."@),
        },
        _ => (m, ActionModel::Continue),
    }
}

/// The end of a call whose body ran to its end: the caller's frame is
/// current again, and the call gives `nil`, or the instance where it is an
/// initializer.
pub open spec fn leave(m: Machine, env: usize, init: Option<usize>) -> (Machine, ActionModel) {
    let result = match init {
        Some(closure) => this_of(m.frames, closure as nat),
        None => ValueModel::Nil,
    };
    (Machine { env: env as nat, values: m.values.push(result), ..m }, ActionModel::Continue)
}

/// One transition.
pub open spec fn step(m: Machine) -> (Machine, ActionModel) {
    if m.waiting {
        (m, ActionModel::Waiting)
    } else if m.tasks.len() == 0 {
        (m, ActionModel::Finished)
    } else {
        let rest = Machine { tasks: m.tasks.drop_last(), ..m };
        match m.tasks.last() {
            Task::Evaluate(e) => evaluate(rest, e),
            Task::Resume(e, done) => resume(rest, e, done as nat),
            Task::Execute(s) => execute(rest, s),
            Task::Proceed(s, done) => proceed(rest, s, done as nat),
            Task::Restore(env) => (Machine { env: env as nat, ..rest }, ActionModel::Continue),
            Task::Leave(env, init) => leave(rest, env, init),
        }
    }
}

/// Steps until something is asked of the host or the program ends, but at
/// most `budget` times.
pub open spec fn run(m: Machine, budget: nat) -> (Machine, ActionModel)
    decreases budget,
{
    if budget == 0 {
        (m, ActionModel::Continue)
    } else {
        let (next, action) = step(m);
        if action is Continue {
            run(next, (budget - 1) as nat)
        } else {
            (next, action)
        }
    }
}

/// The host's reply to what the last step asked: it becomes the value of
/// the expression that asked. A machine that does not wait ignores it.
pub open spec fn reply(m: Machine, v: ValueModel) -> Machine {
    if m.waiting {
        Machine { values: m.values.push(v), waiting: false, ..m }
    } else {
        m
    }
}

/// The machine with `stmts` scheduled, the first of them next.
pub open spec fn load(m: Machine, stmts: Seq<Rc<Stmt>>) -> Machine {
    Machine {
        tasks: m.tasks + Seq::new(
            stmts.len(),
            |i: int| Task::Execute(stmts[stmts.len() - 1 - i]),
        ),
        ..m
    }
}


/// A function declaration closes over the frame that is current when it
/// is executed: the name is bound there to a function whose closure is
/// that frame.
pub proof fn lemma_declaration_captures_current_frame(m: Machine, s: Rc<Stmt>)
    requires
        *s is Function,
        crate::form::well_formed(m),
    ensures
        execute(m, s).0.frames[m.env as int].values[function_name(
            Function { declaration: s, closure: m.env as usize, is_init: false },
        )] == ValueModel::Function(
            Function { declaration: s, closure: m.env as usize, is_init: false },
        ),
        execute(m, s).0.env == m.env,
{
}

/// A call runs in a new frame inside the function's closure, whatever
/// frame is current at the call; the current frame comes back when the
/// call is left.
pub proof fn lemma_call_runs_in_closure(m: Machine, f: Function, args: Seq<ValueModel>)
    ensures
        call_function(m, f, args).0.env == m.frames.len(),
        call_function(m, f, args).0.frames.last().enclosing == Some(f.closure as nat),
        call_function(m, f, args).0.frames.take(m.frames.len() as int) == m.frames,
        call_function(m, f, args).0.tasks[m.tasks.len() as int] matches Task::Leave(env, _)
            && env == m.env as usize,
{
    assert(call_function(m, f, args).0.frames.take(m.frames.len() as int) =~= m.frames);
}

/// From the frame of a call, one link out is the function's closure:
/// every call of a function reads and writes there what the calls before
/// it left.
pub proof fn lemma_call_reaches_closure(
    m: Machine,
    f: Function,
    args: Seq<ValueModel>,
    name: Seq<char>,
)
    requires
        f.closure < m.frames.len(),
    ensures
        ancestor(call_function(m, f, args).0.frames, call_function(m, f, args).0.env, 1) == Some(
            f.closure as nat,
        ),
        lookup_at(call_function(m, f, args).0.frames, call_function(m, f, args).0.env, 1, name)
            == lookup_at(m.frames, f.closure as nat, 0, name),
{
    let after = call_function(m, f, args).0;
    assert(after.frames[f.closure as int] == m.frames[f.closure as int]);
    reveal_with_fuel(ancestor, 2);
}

/// The end of a call changes no frame: what the call bound in its closure
/// stays bound.
pub proof fn lemma_call_end_keeps_frames(m: Machine, v: ValueModel, env: usize, init: Option<usize>)
    ensures
        unwind(m, v).0.frames == m.frames,
        leave(m, env, init).0.frames == m.frames,
{
}

/// An assignment through a closure is seen by every later read of the
/// same frame: a bound name reads as the value last bound to it.
pub proof fn lemma_bound_value_is_read(
    frames: Seq<FrameModel>,
    at: nat,
    name: Seq<char>,
    value: ValueModel,
)
    requires
        at < frames.len(),
    ensures
        lookup_at(bind(frames, at, name, value), at, 0, name) == Some(value),
        lookup(bind(frames, at, name, value), at, name) == Some(value),
{
}

/// A call of an initializer gives the instance, whether its body runs to
/// the end or returns early, and whatever value a `return` carries.
pub proof fn lemma_initializer_gives_instance(m: Machine, closure: usize, env: usize, v: ValueModel)
    requires
        m.tasks.len() > 0,
        m.tasks.last() == Task::Leave(env, Some(closure)),
    ensures
        unwind(m, v).0.values == m.values.push(this_of(m.frames, closure as nat)),
        unwind(m, v).1 == ActionModel::Continue,
        step(m).0.values == m.values.push(this_of(m.frames, closure as nat)) || m.waiting,
{
}

/// A field of an instance hides the method of the same name.
pub proof fn lemma_field_hides_method(m: Machine, i: nat, name: TokenModel)
    requires
        i < m.instances.len(),
        m.instances[i as int].fields.contains_key(name.lexeme),
    ensures
        get_property(m, i, name) == push_value(m, m.instances[i as int].fields[name.lexeme]),
{
}

/// `or` with a truthy left operand, and `and` with a falsy one, give the
/// left operand and schedule nothing: the right operand is not evaluated.
pub proof fn lemma_logical_short_circuits(m: Machine, e: Rc<Expr>)
    requires
        *e matches Expr::Logical(_, op, _) && ((op.token_type == TokenType::Or && truthy(
            top(m.values),
        )) || (op.token_type == TokenType::And && !truthy(top(m.values)))),
    ensures
        resume(m, e, 1) == (m, ActionModel::Continue),
{
}

/// `+` joins two strings, asks the host for the sum of two numbers, and
/// fails on anything else.
pub proof fn lemma_plus(m: Machine, op: TokenModel, left: ValueModel, right: ValueModel)
    requires
        op.token_type == TokenType::Plus,
    ensures
        match (left, right) {
            (ValueModel::String(l), ValueModel::String(r)) => apply_binary(m, op, left, right)
                == push_value(m, ValueModel::String(l + r)),
            (ValueModel::Number(l), ValueModel::Number(r)) => apply_binary(m, op, left, right)
                == ask(m, ActionModel::Arithmetic(TokenType::Plus, l, r)),
            _ => apply_binary(m, op, left, right).1 == ActionModel::Failed(
                ExceptionModel::RuntimeError {
                    token: op,
                    error: "Operands must be two numbers or two strings."@,
                },
            ),
        },
{
}


/// A `return` ends the program only where no call is under way; inside a
/// call it ends that call and the program goes on.
pub proof fn lemma_return_ends_program_outside_calls(m: Machine, v: ValueModel)
    ensures
        innermost_call(m.tasks) is None ==> unwind(m, v).1 == ActionModel::Failed(
            ExceptionModel::Return(v),
        ),
        innermost_call(m.tasks) is Some ==> unwind(m, v).1 == ActionModel::Continue,
    decreases m.tasks.len(),
{
    if m.tasks.len() > 0 && !(m.tasks.last() is Leave) {
        lemma_return_ends_program_outside_calls(Machine { tasks: m.tasks.drop_last(), ..m }, v);
    }
    lemma_innermost_is_leave(m.tasks);
}

proof fn lemma_innermost_is_leave(tasks: Seq<Task>)
    ensures
        innermost_call(tasks) matches Some(i) ==> i < tasks.len() && tasks[i as int] is Leave,
    decreases tasks.len(),
{
    if tasks.len() > 0 && !(tasks.last() is Leave) {
        lemma_innermost_is_leave(tasks.drop_last());
    }
}

/// The host is asked for sums, differences, products and quotients, and
/// for the result of no other operator.
pub proof fn lemma_asks_arithmetic_only(m: Machine)
    ensures
        step(m).1 matches ActionModel::Arithmetic(kind, _, _) ==> arithmetic(kind),
{
    if !m.waiting && m.tasks.len() > 0 {
        let rest = Machine { tasks: m.tasks.drop_last(), ..m };
        match m.tasks.last() {
            Task::Resume(e, done) => {
                match *e {
                    Expr::Binary(_, op, _) => {
                        lemma_binary_asks_arithmetic_only(
                            Machine { values: pop(pop(rest.values)), ..rest },
                            op@,
                            top(pop(rest.values)),
                            top(rest.values),
                        );
                    },
                    _ => {},
                }
            },
            _ => {},
        }
    }
}

proof fn lemma_binary_asks_arithmetic_only(
    m: Machine,
    op: TokenModel,
    left: ValueModel,
    right: ValueModel,
)
    ensures
        apply_binary(m, op, left, right).1 matches ActionModel::Arithmetic(kind, _, _)
            ==> arithmetic(kind),
{
}


/// A call of a class gives the new instance. Without `init` the instance
/// is the value of the call at once. With `init`, its call is scheduled as
/// that of an initializer with `this` bound to the instance, however the
/// method was made: running to the end and returning, with whatever
/// value, both give the instance.
pub proof fn lemma_class_call_gives_instance(
    m: Machine,
    class: ClassModel,
    args: Seq<ValueModel>,
    v: ValueModel,
)
    requires
        m.env < m.frames.len() < usize::MAX,
    ensures
        ({
            let after = instantiate(m, class, args).0;
            let instance = ValueModel::Instance(m.instances.len());
            &&& after.instances == m.instances.push(InstanceModel { class, fields: Map::empty() })
            &&& match method_of(class, "init"@) {
                None => after == (Machine {
                    instances: after.instances,
                    values: m.values.push(instance),
                    ..m
                }),
                Some(init) => {
                    &&& after.tasks == m.tasks.push(
                        Task::Leave(m.env as usize, Some(m.frames.len() as usize)),
                    ).push(Task::Proceed(init.declaration, 0))
                    &&& this_of(after.frames, m.frames.len()) == instance
                    &&& unwind(after, v).0.values == m.values.push(instance)
                    &&& leave(after, m.env as usize, Some(m.frames.len() as usize)).0.values
                        == m.values.push(instance)
                    &&& unwind(after, v).0.env == m.env
                },
            }
        }),
{
    let instance = ValueModel::Instance(m.instances.len());
    match method_of(class, "init"@) {
        Some(init) => {
            let after = instantiate(m, class, args).0;
            let below = m.tasks.push(Task::Leave(m.env as usize, Some(m.frames.len() as usize)));
            assert(after.frames[m.frames.len() as int] == this_frame(instance, init.closure));
            assert(this_of(after.frames, m.frames.len()) == instance) by {
                reveal_with_fuel(ancestor, 1);
            }
            assert(innermost_call(after.tasks) == Some(m.tasks.len())) by {
                reveal_with_fuel(innermost_call, 3);
                assert(after.tasks.drop_last() =~= below);
            }
            assert(after.tasks.take(m.tasks.len() as int) =~= m.tasks);
        },
        None => {},
    }
}

proof fn lemma_outermost_shifts(a: Seq<Task>, b: Seq<Task>, from: int)
    requires
        0 <= from,
    ensures
        outermost_return(a + b, a.len() + from) == outermost_return(b, from),
    decreases b.len() - from,
{
    if from < b.len() {
        assert((a + b)[a.len() + from] == b[from]);
        lemma_outermost_shifts(a, b, from + 1);
    }
}

/// What is scheduled later does not change where the outermost block or
/// call under way goes back to.
pub proof fn lemma_outermost_stays(a: Seq<Task>, b: Seq<Task>, from: int)
    requires
        0 <= from <= a.len(),
    ensures
        outermost_return(a + b, from) == match outermost_return(a, from) {
            Some(env) => Some(env),
            None => outermost_return(b, 0),
        },
    decreases a.len() - from,
{
    if from < a.len() {
        assert((a + b)[from] == a[from]);
        lemma_outermost_stays(a, b, from + 1);
    } else {
        lemma_outermost_shifts(a, b, 0);
    }
}

/// A runtime error leaves every block and call under way: the frame is
/// current again that was current before the outermost of them. For a
/// block that was scheduled in frame `env` on top of the tasks `before`,
/// that is `env` where no block or call was under way then, and else the
/// frame that the outermost of those goes back to, whatever was scheduled
/// since.
pub proof fn lemma_error_leaves_blocks(
    later: Machine,
    before: Seq<Task>,
    env: usize,
    since: Seq<Task>,
    e: ExceptionModel,
)
    requires
        later.tasks == before.push(Task::Restore(env)) + since,
    ensures
        raise(later, e).0.env == match outermost_return(before, 0) {
            Some(outer) => outer as nat,
            None => env as nat,
        },
        raise(later, e).0.tasks.len() == 0,
        raise(later, e).0.values.len() == 0,
        raise(later, e).0.frames == later.frames,
{
    let block = before.push(Task::Restore(env));
    lemma_outermost_stays(block, since, 0);
    assert(block =~= before + seq![Task::Restore(env)]);
    lemma_outermost_stays(before, seq![Task::Restore(env)], 0);
}

} // verus!
