//! A counting closure: a function whose body adds one to a variable of its
//! closure and returns it. Each call leaves the sum in the closure, and the
//! next call starts from there. Sums and numerals are the host's, so the
//! law is stated over what the host replies.
use vstd::prelude::*;
use std::rc::Rc;
use crate::env::{ancestor, bind, lookup_at, FrameModel};
use crate::expr::{Expr, Literal, ValueModel};
use crate::form::{lemma_frames_bound, lemma_grown, lemma_pushed, well_formed};
use crate::loxcallables::Function;
use crate::semantics::{
    call_function, innermost_call, reply, step, ActionModel, Machine, Task,
};
use crate::stmt::Stmt;
use crate::token::TokenType;

verus! {

/// What the host replies where a number is asked of it: to a numeral the
/// number it denotes, to a sum the sum.
pub open spec fn answer(
    action: ActionModel,
    numeral: spec_fn(Seq<char>) -> u64,
    sum: spec_fn(u64, u64) -> u64,
) -> Option<ValueModel> {
    match action {
        ActionModel::Literal(text) => Some(ValueModel::Number(numeral(text))),
        ActionModel::Arithmetic(TokenType::Plus, l, r) => Some(ValueModel::Number(sum(l, r))),
        _ => None,
    }
}

/// The machine after one step and the host's reply to it, if one is due.
pub open spec fn served(
    m: Machine,
    numeral: spec_fn(Seq<char>) -> u64,
    sum: spec_fn(u64, u64) -> u64,
) -> Machine {
    let (next, action) = step(m);
    match answer(action, numeral, sum) {
        Some(v) => reply(next, v),
        None => next,
    }
}

/// The machine after `steps` steps, the host replying.
pub open spec fn driven(
    m: Machine,
    numeral: spec_fn(Seq<char>) -> u64,
    sum: spec_fn(u64, u64) -> u64,
    steps: nat,
) -> Machine
    decreases steps,
{
    if steps == 0 {
        m
    } else {
        driven(served(m, numeral, sum), numeral, sum, (steps - 1) as nat)
    }
}

/// Whether `f` is a function without parameters whose body is
/// `name = name + one; return name;`, each `name` resolved one frame out.
pub open spec fn counts(f: Function, name: Seq<char>, one: Seq<char>, locals: Map<nat, nat>) -> bool {
    !f.is_init && match *f.declaration {
        Stmt::Function(_, params, body) => params@.len() == 0 && body@.len() == 2 && match (
            *body@[0],
            *body@[1],
        ) {
            (Stmt::Expression(e), Stmt::Return(_, Some(r))) => match (*e, *r) {
                (Expr::Assign(target_id, target, value), Expr::Variable(result_id, result)) => {
                    &&& target.lexeme@ == name
                    &&& result.lexeme@ == name
                    &&& locals.contains_key(target_id as nat) && locals[target_id as nat] == 1
                    &&& locals.contains_key(result_id as nat) && locals[result_id as nat] == 1
                    &&& match *value {
                        Expr::Binary(left, op, right) => op.token_type == TokenType::Plus && match (
                            *left,
                            *right,
                        ) {
                            (Expr::Variable(read_id, read), Expr::Literal(Literal::Number(text))) => {
                                &&& read.lexeme@ == name
                                &&& text@ == one
                                &&& locals.contains_key(read_id as nat) && locals[read_id as nat]
                                    == 1
                            },
                            _ => false,
                        },
                        _ => false,
                    }
                },
                _ => false,
            },
            _ => false,
        },
        _ => false,
    }
}

/// The steps that one call of a counting function takes.
pub open spec fn call_length() -> nat {
    14
}

/// The machine after a call of `f` has run to its end.
pub open spec fn called(
    m: Machine,
    f: Function,
    numeral: spec_fn(Seq<char>) -> u64,
    sum: spec_fn(u64, u64) -> u64,
) -> Machine {
    driven(call_function(m, f, Seq::empty()).0, numeral, sum, call_length())
}

proof fn lemma_driven_unfolds(
    m: Machine,
    numeral: spec_fn(Seq<char>) -> u64,
    sum: spec_fn(u64, u64) -> u64,
    steps: nat,
)
    requires
        steps > 0,
    ensures
        driven(m, numeral, sum, steps) == driven(
            served(m, numeral, sum),
            numeral,
            sum,
            (steps - 1) as nat,
        ),
{
}

spec fn body_of(f: Function) -> Seq<Rc<Stmt>> {
    match *f.declaration {
        Stmt::Function(_, _, body) => body@,
        _ => Seq::empty(),
    }
}

spec fn expression_of(s: Rc<Stmt>) -> Rc<Expr> {
    match *s {
        Stmt::Expression(e) => e,
        Stmt::Return(_, Some(e)) => e,
        _ => arbitrary(),
    }
}

spec fn assigned(e: Rc<Expr>) -> Rc<Expr> {
    match *e {
        Expr::Assign(_, _, value) => value,
        _ => arbitrary(),
    }
}

spec fn left_of(e: Rc<Expr>) -> Rc<Expr> {
    match *e {
        Expr::Binary(left, _, _) => left,
        _ => arbitrary(),
    }
}

spec fn right_of(e: Rc<Expr>) -> Rc<Expr> {
    match *e {
        Expr::Binary(_, _, right) => right,
        _ => arbitrary(),
    }
}

/// The tasks of `m` replaced.
spec fn tasked(m: Machine, tasks: Seq<Task>) -> Machine {
    Machine { tasks, ..m }
}

proof fn lemma_top_task(m: Machine, below: Seq<Task>, task: Task)
    requires
        m.tasks == below.push(task),
    ensures
        m.tasks.len() > 0,
        m.tasks.last() == task,
        m.tasks.drop_last() == below,
{
    assert(below.push(task).drop_last() =~= below);
}


/// One call of a counting function: it reads the count in its closure,
/// leaves there the sum of it and one, and gives that sum. Nothing else of
/// the machine changes, but that the frame of the call stays behind.
pub proof fn lemma_counter_call(
    m: Machine,
    f: Function,
    name: Seq<char>,
    one: Seq<char>,
    count: u64,
    numeral: spec_fn(Seq<char>) -> u64,
    sum: spec_fn(u64, u64) -> u64,
)
    requires
        well_formed(m),
        !m.waiting,
        f.closure < m.frames.len(),
        counts(f, name, one, m.locals),
        m.frames[f.closure as int].values.contains_key(name),
        m.frames[f.closure as int].values[name] == ValueModel::Number(count),
    ensures
        called(m, f, numeral, sum) == (Machine {
            frames: bind(
                m.frames.push(FrameModel { values: Map::empty(), enclosing: Some(f.closure as nat) }),
                f.closure as nat,
                name,
                ValueModel::Number(sum(count, numeral(one))),
            ),
            values: m.values.push(ValueModel::Number(sum(count, numeral(one)))),
            ..m
        }),
{
    let decl = f.declaration;
    let body = body_of(f);
    let s1 = body[0];
    let s2 = body[1];
    let e = expression_of(s1);
    let r = expression_of(s2);
    let value = assigned(e);
    let left = left_of(value);
    let right = right_of(value);
    let total = ValueModel::Number(sum(count, numeral(one)));
    let first = ValueModel::Number(count);
    let second = ValueModel::Number(numeral(one));
    let level = m.frames.len();
    let frame = FrameModel { values: Map::empty(), enclosing: Some(f.closure as nat) };
    let frames = m.frames.push(frame);
    let below = m.tasks.push(Task::Leave(m.env as usize, None));
    let start = Machine { frames, env: level, ..m };

    let c0 = tasked(start, below.push(Task::Proceed(decl, 0)));
    assert(call_function(m, f, Seq::empty()).0 == c0) by {
        reveal_with_fuel(crate::semantics::bound_parameters, 1);
    }
    assert(lookup_at(frames, level, 1, name) == Some(first)) by {
        reveal_with_fuel(ancestor, 2);
        assert(frames[f.closure as int] == m.frames[f.closure as int]);
    }
    assert(ancestor(frames, level, 1) == Some(f.closure as nat)) by {
        reveal_with_fuel(ancestor, 2);
    }

    let c1 = tasked(start, below.push(Task::Proceed(decl, 1)).push(Task::Execute(s1)));
    assert(served(c0, numeral, sum) == c1) by {
        lemma_top_task(c0, below, Task::Proceed(decl, 0));
    }
    let t2 = below.push(Task::Proceed(decl, 1)).push(Task::Proceed(s1, 1));
    let c2 = tasked(start, t2.push(Task::Evaluate(e)));
    assert(served(c1, numeral, sum) == c2) by {
        lemma_top_task(c1, below.push(Task::Proceed(decl, 1)), Task::Execute(s1));
    }
    let t3 = t2.push(Task::Resume(e, 1));
    let c3 = tasked(start, t3.push(Task::Evaluate(value)));
    assert(served(c2, numeral, sum) == c3) by {
        lemma_top_task(c2, t2, Task::Evaluate(e));
    }
    let c4 = tasked(start, t3.push(Task::Resume(value, 1)).push(Task::Evaluate(left)));
    assert(served(c3, numeral, sum) == c4) by {
        lemma_top_task(c3, t3, Task::Evaluate(value));
    }
    let c5 = Machine {
        values: m.values.push(first),
        ..tasked(start, t3.push(Task::Resume(value, 1)))
    };
    assert(served(c4, numeral, sum) == c5) by {
        lemma_top_task(c4, t3.push(Task::Resume(value, 1)), Task::Evaluate(left));
    }
    let t6 = t3.push(Task::Resume(value, 2));
    let c6 = Machine { values: m.values.push(first), ..tasked(start, t6.push(Task::Evaluate(right))) };
    assert(served(c5, numeral, sum) == c6) by {
        lemma_top_task(c5, t3, Task::Resume(value, 1));
    }
    let c7 = Machine { values: m.values.push(first).push(second), ..tasked(start, t6) };
    assert(served(c6, numeral, sum) == c7) by {
        lemma_top_task(c6, t6, Task::Evaluate(right));
    }
    let c8 = Machine { values: m.values.push(total), ..tasked(start, t3) };
    assert(served(c7, numeral, sum) == c8) by {
        lemma_top_task(c7, t3, Task::Resume(value, 2));
        assert(m.values.push(first).push(second).drop_last() =~= m.values.push(first));
        assert(m.values.push(first).drop_last() =~= m.values);
    }
    let bound = bind(frames, f.closure as nat, name, total);
    let after = Machine { frames: bound, env: level, ..m };
    let c9 = Machine { values: m.values.push(total), ..tasked(after, t2) };
    assert(served(c8, numeral, sum) == c9) by {
        lemma_top_task(c8, t2, Task::Resume(e, 1));
    }
    let c10 = tasked(after, below.push(Task::Proceed(decl, 1)));
    assert(served(c9, numeral, sum) == c10) by {
        lemma_top_task(c9, below.push(Task::Proceed(decl, 1)), Task::Proceed(s1, 1));
        assert(m.values.push(total).drop_last() =~= m.values);
    }
    let t11 = below.push(Task::Proceed(decl, 2));
    let c11 = tasked(after, t11.push(Task::Execute(s2)));
    assert(served(c10, numeral, sum) == c11) by {
        lemma_top_task(c10, below, Task::Proceed(decl, 1));
    }
    let c12 = tasked(after, t11.push(Task::Proceed(s2, 1)).push(Task::Evaluate(r)));
    assert(served(c11, numeral, sum) == c12) by {
        lemma_top_task(c11, t11, Task::Execute(s2));
    }
    let c13 = Machine { values: m.values.push(total), ..tasked(after, t11.push(Task::Proceed(s2, 1))) };
    assert(served(c12, numeral, sum) == c13) by {
        lemma_top_task(c12, t11.push(Task::Proceed(s2, 1)), Task::Evaluate(r));
        reveal_with_fuel(ancestor, 2);
    }
    let c14 = Machine { frames: bound, values: m.values.push(total), ..m };
    assert(served(c13, numeral, sum) == c14) by {
        lemma_top_task(c13, t11, Task::Proceed(s2, 1));
        assert(m.values.push(total).drop_last() =~= m.values);
        reveal_with_fuel(innermost_call, 3);
        assert(t11.drop_last() =~= below);
        assert(below.drop_last() =~= m.tasks);
        assert(t11.take(m.tasks.len() as int) =~= m.tasks);
    }

    lemma_driven_unfolds(c0, numeral, sum, 14);
    lemma_driven_unfolds(c1, numeral, sum, 13);
    lemma_driven_unfolds(c2, numeral, sum, 12);
    lemma_driven_unfolds(c3, numeral, sum, 11);
    lemma_driven_unfolds(c4, numeral, sum, 10);
    lemma_driven_unfolds(c5, numeral, sum, 9);
    lemma_driven_unfolds(c6, numeral, sum, 8);
    lemma_driven_unfolds(c7, numeral, sum, 7);
    lemma_driven_unfolds(c8, numeral, sum, 6);
    lemma_driven_unfolds(c9, numeral, sum, 5);
    lemma_driven_unfolds(c10, numeral, sum, 4);
    lemma_driven_unfolds(c11, numeral, sum, 3);
    lemma_driven_unfolds(c12, numeral, sum, 2);
    lemma_driven_unfolds(c13, numeral, sum, 1);
}


/// The count after `k` calls: `one` added `k` times, as the host adds.
pub open spec fn count_after(count: u64, one: u64, sum: spec_fn(u64, u64) -> u64, k: nat) -> u64
    decreases k,
{
    if k == 0 {
        count
    } else {
        sum(count_after(count, one, sum, (k - 1) as nat), one)
    }
}

/// The machine after `k` calls of `f`, one after the other, each run to
/// its end.
pub open spec fn called_times(
    m: Machine,
    f: Function,
    numeral: spec_fn(Seq<char>) -> u64,
    sum: spec_fn(u64, u64) -> u64,
    k: nat,
) -> Machine
    decreases k,
{
    if k == 0 {
        m
    } else {
        called(called_times(m, f, numeral, sum, (k - 1) as nat), f, numeral, sum)
    }
}

/// The k-th call of a counting function gives the count that its closure
/// held at first with one added k times, and leaves it in the closure.
/// Each call runs in a frame of its own; the work that was scheduled, the
/// current frame and the depths are as before.
pub proof fn lemma_counter_calls(
    m: Machine,
    f: Function,
    name: Seq<char>,
    one: Seq<char>,
    count: u64,
    numeral: spec_fn(Seq<char>) -> u64,
    sum: spec_fn(u64, u64) -> u64,
    k: nat,
)
    requires
        well_formed(m),
        !m.waiting,
        f.closure < m.frames.len(),
        m.frames.len() + k <= usize::MAX,
        counts(f, name, one, m.locals),
        m.frames[f.closure as int].values.contains_key(name),
        m.frames[f.closure as int].values[name] == ValueModel::Number(count),
    ensures
        ({
            let after = called_times(m, f, numeral, sum, k);
            let now = ValueModel::Number(count_after(count, numeral(one), sum, k));
            &&& well_formed(after)
            &&& after == (Machine { frames: after.frames, values: after.values, ..m })
            &&& after.frames.len() == m.frames.len() + k
            &&& after.frames[f.closure as int].values.contains_key(name)
            &&& after.frames[f.closure as int].values[name] == now
            &&& after.values.len() == m.values.len() + k
            &&& k > 0 ==> after.values.last() == now
        }),
    decreases k,
{
    if k > 0 {
        lemma_counter_calls(m, f, name, one, count, numeral, sum, (k - 1) as nat);
        let before = called_times(m, f, numeral, sum, (k - 1) as nat);
        let held = count_after(count, numeral(one), sum, (k - 1) as nat);
        lemma_counter_call(before, f, name, one, held, numeral, sum);
        let total = ValueModel::Number(sum(held, numeral(one)));
        let frame = FrameModel { values: Map::empty(), enclosing: Some(f.closure as nat) };
        lemma_grown(before, frame);
        let grown = Machine { frames: before.frames.push(frame), ..before };
        lemma_frames_bound(grown, f.closure as nat, name, total);
        let bound = Machine {
            frames: bind(grown.frames, f.closure as nat, name, total),
            ..grown
        };
        lemma_pushed(bound, total);
    }
}

} // verus!
