//! The form of a machine: every frame that anything names exists, and a
//! frame is enclosed by an earlier one. A machine of this form keeps it.
use vstd::prelude::*;
use std::rc::Rc;
use crate::class::{method_of, ClassModel};
use crate::env::{ancestor, bind, binder, lookup, lookup_at, FrameModel};
use crate::expr::{Expr, Literal, ValueModel};
use crate::instance::InstanceModel;
use crate::loxcallables::Function;
use crate::semantics::{
    apply_binary, apply_call, bind_method, bound_parameters, call_function, declare_class,
    declared_methods, evaluate, evaluate_super, execute, get_property, innermost_call,
    instantiate, leave, load, outermost_return, parameters_of, pop, proceed, proceed_in, read_variable, reply,
    resume, set_property, step, super_frame, this_frame, this_of, top, unwind, Machine, Task,
};
use crate::stmt::Stmt;
use crate::token::{Token, TokenModel};

verus! {

/// Whether every method of the class, the inherited ones too, is closed
/// over one of the first `n` frames.
pub open spec fn class_fits(class: ClassModel, n: nat) -> bool
    decreases class,
{
    &&& forall|name: Seq<char>| #[trigger]
        class.methods.contains_key(name) ==> class.methods[name].closure < n
    &&& match class.superclass {
        Some(parent) => class_fits(*parent, n),
        None => true,
    }
}

/// Whether the frames that a value names are among the first `n`.
pub open spec fn value_fits(v: ValueModel, n: nat) -> bool {
    match v {
        ValueModel::Function(f) => f.closure < n,
        ValueModel::Class(class) => class_fits(class, n),
        _ => true,
    }
}

/// Whether every value of a map fits.
pub open spec fn map_fits(values: Map<Seq<char>, ValueModel>, n: nat) -> bool {
    forall|name: Seq<char>| #[trigger] values.contains_key(name) ==> value_fits(values[name], n)
}

/// Whether every value of a sequence fits.
pub open spec fn values_fit(values: Seq<ValueModel>, n: nat) -> bool {
    forall|i: int| 0 <= i < values.len() ==> value_fits(#[trigger] values[i], n)
}

/// Whether the frame that a task goes back to is among the first `n`.
pub open spec fn task_fits(task: Task, n: nat) -> bool {
    match task {
        Task::Restore(env) => env < n,
        Task::Leave(env, _) => env < n,
        _ => true,
    }
}

/// Whether every task of a sequence fits.
pub open spec fn tasks_fit(tasks: Seq<Task>, n: nat) -> bool {
    forall|i: int| 0 <= i < tasks.len() ==> task_fits(#[trigger] tasks[i], n)
}

/// Whether frame `at` is enclosed by an earlier frame, if by any, and
/// holds values that fit.
pub open spec fn frame_fits(frame: FrameModel, at: nat, n: nat) -> bool {
    &&& frame.enclosing matches Some(p) ==> p < at
    &&& map_fits(frame.values, n)
}

/// Whether every frame of a sequence fits at its place.
pub open spec fn frames_fit(frames: Seq<FrameModel>, n: nat) -> bool {
    forall|i: int| 0 <= i < frames.len() ==> frame_fits(#[trigger] frames[i], i as nat, n)
}

/// Whether the class and the fields of an instance fit.
pub open spec fn instance_fits(instance: InstanceModel, n: nat) -> bool {
    class_fits(instance.class, n) && map_fits(instance.fields, n)
}

/// Whether every instance of a sequence fits.
pub open spec fn instances_fit(instances: Seq<InstanceModel>, n: nat) -> bool {
    forall|i: int| 0 <= i < instances.len() ==> instance_fits(#[trigger] instances[i], n)
}

/// The form of a machine: the current frame exists; every frame is
/// enclosed by an earlier one, if by any; and every frame that a value, a
/// task, a class or an instance names exists.
pub open spec fn well_formed(m: Machine) -> bool {
    &&& m.env < m.frames.len() <= usize::MAX
    &&& frames_fit(m.frames, m.frames.len())
    &&& values_fit(m.values, m.frames.len())
    &&& tasks_fit(m.tasks, m.frames.len())
    &&& instances_fit(m.instances, m.frames.len())
}

proof fn lemma_class_grows(class: ClassModel, n: nat, k: nat)
    requires
        class_fits(class, n),
        n <= k,
    ensures
        class_fits(class, k),
    decreases class,
{
    match class.superclass {
        Some(parent) => lemma_class_grows(*parent, n, k),
        None => {},
    }
}

proof fn lemma_value_grows(v: ValueModel, n: nat, k: nat)
    requires
        value_fits(v, n),
        n <= k,
    ensures
        value_fits(v, k),
{
    match v {
        ValueModel::Class(class) => lemma_class_grows(class, n, k),
        _ => {},
    }
}

proof fn lemma_map_grows(values: Map<Seq<char>, ValueModel>, n: nat, k: nat)
    requires
        map_fits(values, n),
        n <= k,
    ensures
        map_fits(values, k),
{
    assert forall|name: Seq<char>| #[trigger] values.contains_key(name) implies value_fits(
        values[name],
        k,
    ) by {
        lemma_value_grows(values[name], n, k);
    }
}

proof fn lemma_values_grow(values: Seq<ValueModel>, n: nat, k: nat)
    requires
        values_fit(values, n),
        n <= k,
    ensures
        values_fit(values, k),
{
    assert forall|i: int| 0 <= i < values.len() implies value_fits(#[trigger] values[i], k) by {
        lemma_value_grows(values[i], n, k);
    }
}

proof fn lemma_frames_grow(frames: Seq<FrameModel>, n: nat, k: nat)
    requires
        frames_fit(frames, n),
        n <= k,
    ensures
        frames_fit(frames, k),
{
    assert forall|i: int| 0 <= i < frames.len() implies frame_fits(
        #[trigger] frames[i],
        i as nat,
        k,
    ) by {
        lemma_map_grows(frames[i].values, n, k);
    }
}

proof fn lemma_instances_grow(instances: Seq<InstanceModel>, n: nat, k: nat)
    requires
        instances_fit(instances, n),
        n <= k,
    ensures
        instances_fit(instances, k),
{
    assert forall|i: int| 0 <= i < instances.len() implies instance_fits(
        #[trigger] instances[i],
        k,
    ) by {
        lemma_class_grows(instances[i].class, n, k);
        lemma_map_grows(instances[i].fields, n, k);
    }
}

/// A machine keeps its form when a frame is added that is enclosed by an
/// earlier frame, if by any, and holds values that fit.
pub(crate) proof fn lemma_grown(m: Machine, frame: FrameModel)
    requires
        well_formed(m),
        m.frames.len() < usize::MAX,
        frame.enclosing matches Some(p) ==> p < m.frames.len(),
        map_fits(frame.values, m.frames.len()),
    ensures
        well_formed(Machine { frames: m.frames.push(frame), ..m }),
{
    let n = m.frames.len();
    let k = n + 1;
    lemma_frames_grow(m.frames, n, k);
    lemma_map_grows(frame.values, n, k);
    lemma_values_grow(m.values, n, k);
    lemma_instances_grow(m.instances, n, k);
    let frames = m.frames.push(frame);
    assert forall|i: int| 0 <= i < frames.len() implies frame_fits(
        #[trigger] frames[i],
        i as nat,
        k,
    ) by {
        if i < n {
            assert(frames[i] == m.frames[i]);
        }
    }
}

proof fn lemma_bound(frames: Seq<FrameModel>, at: nat, name: Seq<char>, v: ValueModel, n: nat)
    requires
        frames_fit(frames, n),
        value_fits(v, n),
    ensures
        frames_fit(bind(frames, at, name, v), n),
        bind(frames, at, name, v).len() == frames.len(),
{
    let after = bind(frames, at, name, v);
    assert forall|i: int| 0 <= i < after.len() implies frame_fits(
        #[trigger] after[i],
        i as nat,
        n,
    ) by {
        assert(frame_fits(frames[i], i as nat, n));
        if i == at {
            assert forall|k: Seq<char>| #[trigger]
                after[i].values.contains_key(k) implies value_fits(after[i].values[k], n) by {
                if k != name {
                    assert(frames[i].values.contains_key(k));
                }
            }
        }
    }
}

proof fn lemma_ancestor_inside(frames: Seq<FrameModel>, start: nat, dist: nat)
    ensures
        ancestor(frames, start, dist) matches Some(f) ==> f < frames.len(),
    decreases dist,
{
    if start < frames.len() && dist > 0 {
        match frames[start as int].enclosing {
            Some(p) => lemma_ancestor_inside(frames, p, (dist - 1) as nat),
            None => {},
        }
    }
}

proof fn lemma_binder_inside(frames: Seq<FrameModel>, start: nat, name: Seq<char>)
    ensures
        binder(frames, start, name) matches Some(f) ==> f < frames.len(),
    decreases start,
{
    if start < frames.len() && !frames[start as int].values.contains_key(name) {
        match frames[start as int].enclosing {
            Some(p) => {
                if p < start {
                    lemma_binder_inside(frames, p, name);
                }
            },
            None => {},
        }
    }
}

proof fn lemma_lookup_fits(frames: Seq<FrameModel>, start: nat, name: Seq<char>, n: nat)
    requires
        frames_fit(frames, n),
    ensures
        lookup(frames, start, name) matches Some(v) ==> value_fits(v, n),
    decreases start,
{
    if start < frames.len() {
        assert(frame_fits(frames[start as int], start, n));
        if !frames[start as int].values.contains_key(name) {
            match frames[start as int].enclosing {
                Some(p) => {
                    if p < start {
                        lemma_lookup_fits(frames, p, name, n);
                    }
                },
                None => {},
            }
        }
    }
}

proof fn lemma_lookup_at_fits(
    frames: Seq<FrameModel>,
    start: nat,
    dist: nat,
    name: Seq<char>,
    n: nat,
)
    requires
        frames_fit(frames, n),
    ensures
        lookup_at(frames, start, dist, name) matches Some(v) ==> value_fits(v, n),
{
    lemma_ancestor_inside(frames, start, dist);
    match ancestor(frames, start, dist) {
        Some(f) => {
            assert(frame_fits(frames[f as int], f, n));
        },
        None => {},
    }
}

proof fn lemma_this_fits(frames: Seq<FrameModel>, closure: nat, n: nat)
    requires
        frames_fit(frames, n),
    ensures
        value_fits(this_of(frames, closure), n),
{
    lemma_lookup_at_fits(frames, closure, 0, "this"@, n);
}

proof fn lemma_method_fits(class: ClassModel, name: Seq<char>, n: nat)
    requires
        class_fits(class, n),
    ensures
        method_of(class, name) matches Some(f) ==> f.closure < n,
    decreases class,
{
    if !class.methods.contains_key(name) {
        match class.superclass {
            Some(parent) => lemma_method_fits(*parent, name, n),
            None => {},
        }
    }
}

proof fn lemma_parameters_fit(params: Seq<Token>, args: Seq<ValueModel>, upto: nat, n: nat)
    requires
        values_fit(args, n),
    ensures
        map_fits(bound_parameters(params, args, upto), n),
    decreases upto,
{
    if upto > 0 && upto <= params.len() {
        lemma_parameters_fit(params, args, (upto - 1) as nat, n);
        let earlier = bound_parameters(params, args, (upto - 1) as nat);
        let now = bound_parameters(params, args, upto);
        assert forall|k: Seq<char>| #[trigger] now.contains_key(k) implies value_fits(
            now[k],
            n,
        ) by {
            if k != params[upto - 1].lexeme@ {
                assert(earlier.contains_key(k));
            } else if 0 <= upto - 1 < args.len() {
                assert(value_fits(args[upto - 1], n));
            }
        }
    }
}

proof fn lemma_declared_methods_fit(members: Seq<Rc<Stmt>>, upto: nat, closure: usize, n: nat)
    requires
        closure < n,
    ensures
        forall|name: Seq<char>| #[trigger]
            declared_methods(members, upto, closure).contains_key(name) ==> declared_methods(
                members,
                upto,
                closure,
            )[name].closure < n,
    decreases upto,
{
    if upto > 0 && upto <= members.len() {
        lemma_declared_methods_fit(members, (upto - 1) as nat, closure, n);
        let earlier = declared_methods(members, (upto - 1) as nat, closure);
        let now = declared_methods(members, upto, closure);
        assert forall|name: Seq<char>| #[trigger] now.contains_key(name) implies now[name].closure
            < n by {
            match *members[upto - 1] {
                Stmt::Function(method, _, _) => {
                    if name != method.lexeme@ {
                        assert(earlier.contains_key(name));
                    }
                },
                _ => {
                    assert(earlier.contains_key(name));
                },
            }
        }
    }
}

proof fn lemma_outermost_fits(tasks: Seq<Task>, from: int, n: nat)
    requires
        tasks_fit(tasks, n),
    ensures
        outermost_return(tasks, from) matches Some(env) ==> env < n,
    decreases tasks.len() - from,
{
    if 0 <= from < tasks.len() {
        assert(task_fits(tasks[from], n));
        lemma_outermost_fits(tasks, from + 1, n);
    }
}

proof fn lemma_innermost_is_call(tasks: Seq<Task>)
    ensures
        innermost_call(tasks) matches Some(i) ==> i < tasks.len() && tasks[i as int] is Leave,
    decreases tasks.len(),
{
    if tasks.len() > 0 && !(tasks.last() is Leave) {
        lemma_innermost_is_call(tasks.drop_last());
    }
}


proof fn lemma_top_fits(m: Machine)
    requires
        well_formed(m),
    ensures
        value_fits(top(m.values), m.frames.len()),
        value_fits(top(pop(m.values)), m.frames.len()),
        well_formed(Machine { values: pop(m.values), ..m }),
        well_formed(Machine { values: pop(pop(m.values)), ..m }),
{
    if m.values.len() > 0 {
        assert(value_fits(m.values[m.values.len() - 1], m.frames.len()));
        let once = pop(m.values);
        assert forall|i: int| 0 <= i < once.len() implies value_fits(
            #[trigger] once[i],
            m.frames.len(),
        ) by {
            assert(once[i] == m.values[i]);
        }
        if once.len() > 0 {
            assert(value_fits(once[once.len() - 1], m.frames.len()));
            let twice = pop(once);
            assert forall|i: int| 0 <= i < twice.len() implies value_fits(
                #[trigger] twice[i],
                m.frames.len(),
            ) by {
                assert(twice[i] == m.values[i]);
            }
        }
    }
}

pub(crate) proof fn lemma_pushed(m: Machine, v: ValueModel)
    requires
        well_formed(m),
        value_fits(v, m.frames.len()),
    ensures
        well_formed(Machine { values: m.values.push(v), ..m }),
{
    let values = m.values.push(v);
    assert forall|i: int| 0 <= i < values.len() implies value_fits(
        #[trigger] values[i],
        m.frames.len(),
    ) by {
        if i < m.values.len() {
            assert(values[i] == m.values[i]);
        }
    }
}

proof fn lemma_tasked(m: Machine, task: Task)
    requires
        well_formed(m),
        task_fits(task, m.frames.len()),
    ensures
        well_formed(Machine { tasks: m.tasks.push(task), ..m }),
{
    let tasks = m.tasks.push(task);
    assert forall|i: int| 0 <= i < tasks.len() implies task_fits(
        #[trigger] tasks[i],
        m.frames.len(),
    ) by {
        if i < m.tasks.len() {
            assert(tasks[i] == m.tasks[i]);
        }
    }
}

proof fn lemma_tasks_cut(m: Machine, upto: int)
    requires
        well_formed(m),
        0 <= upto <= m.tasks.len(),
    ensures
        well_formed(Machine { tasks: m.tasks.take(upto), ..m }),
{
    let tasks = m.tasks.take(upto);
    assert forall|i: int| 0 <= i < tasks.len() implies task_fits(
        #[trigger] tasks[i],
        m.frames.len(),
    ) by {
        assert(tasks[i] == m.tasks[i]);
    }
}

pub(crate) proof fn lemma_frames_bound(m: Machine, at: nat, name: Seq<char>, v: ValueModel)
    requires
        well_formed(m),
        value_fits(v, m.frames.len()),
    ensures
        well_formed(Machine { frames: bind(m.frames, at, name, v), ..m }),
{
    lemma_bound(m.frames, at, name, v, m.frames.len());
}

proof fn lemma_bind_method_keeps(m: Machine, method: Function, instance: ValueModel)
    requires
        well_formed(m),
        method.closure < m.frames.len() < usize::MAX,
        value_fits(instance, m.frames.len()),
    ensures
        well_formed(bind_method(m, method, instance).0),
        bind_method(m, method, instance).0.frames.len() == m.frames.len() + 1,
        bind_method(m, method, instance).1.closure == m.frames.len(),
        bind_method(m, method, instance).0 == (Machine {
            frames: bind_method(m, method, instance).0.frames,
            ..m
        }),
{
    let frame = this_frame(instance, method.closure);
    assert forall|k: Seq<char>| #[trigger] frame.values.contains_key(k) implies value_fits(
        frame.values[k],
        m.frames.len(),
    ) by {}
    lemma_grown(m, frame);
}

proof fn lemma_call_keeps(m: Machine, f: Function, args: Seq<ValueModel>)
    requires
        well_formed(m),
        f.closure < m.frames.len() < usize::MAX,
        values_fit(args, m.frames.len()),
    ensures
        well_formed(call_function(m, f, args).0),
{
    let params = parameters_of(f);
    lemma_parameters_fit(params, args, params.len(), m.frames.len());
    let frame = FrameModel {
        values: bound_parameters(params, args, params.len()),
        enclosing: Some(f.closure as nat),
    };
    lemma_grown(m, frame);
    let grown = Machine { frames: m.frames.push(frame), env: m.frames.len(), ..m };
    let back = Task::Leave(
        m.env as usize,
        if f.is_init {
            Some(f.closure)
        } else {
            None
        },
    );
    lemma_tasked(grown, back);
    lemma_tasked(Machine { tasks: m.tasks.push(back), ..grown }, Task::Proceed(f.declaration, 0));
}

proof fn lemma_instantiate_keeps(m: Machine, class: ClassModel, args: Seq<ValueModel>)
    requires
        well_formed(m),
        class_fits(class, m.frames.len()),
        values_fit(args, m.frames.len()),
        instantiate(m, class, args).0.frames.len() <= usize::MAX,
    ensures
        well_formed(instantiate(m, class, args).0),
{
    let instance = ValueModel::Instance(m.instances.len());
    let record = InstanceModel { class, fields: Map::empty() };
    let made = Machine { instances: m.instances.push(record), ..m };
    assert forall|i: int| 0 <= i < made.instances.len() implies instance_fits(
        #[trigger] made.instances[i],
        m.frames.len(),
    ) by {
        if i < m.instances.len() {
            assert(made.instances[i] == m.instances[i]);
        }
    }
    assert(well_formed(made));
    lemma_method_fits(class, "init"@, m.frames.len());
    match method_of(class, "init"@) {
        Some(init) => {
            lemma_bind_method_keeps(made, init, instance);
            let (bound_machine, bound) = bind_method(made, init, instance);
            lemma_values_grow(args, m.frames.len(), bound_machine.frames.len());
            lemma_call_keeps(bound_machine, Function { is_init: true, ..bound }, args);
        },
        None => {
            lemma_pushed(made, instance);
        },
    }
}

proof fn lemma_unwind_keeps(m: Machine, v: ValueModel)
    requires
        well_formed(m),
        value_fits(v, m.frames.len()),
    ensures
        well_formed(unwind(m, v).0),
{
    lemma_outermost_fits(m.tasks, 0, m.frames.len());
    lemma_innermost_is_call(m.tasks);
    match innermost_call(m.tasks) {
        Some(i) => {
            assert(task_fits(m.tasks[i as int], m.frames.len()));
            match m.tasks[i as int] {
                Task::Leave(env, init) => {
                    lemma_tasks_cut(m, i as int);
                    let cut = Machine { tasks: m.tasks.take(i as int), env: env as nat, ..m };
                    match init {
                        Some(closure) => {
                            lemma_this_fits(m.frames, closure as nat, m.frames.len());
                            lemma_pushed(cut, this_of(m.frames, closure as nat));
                        },
                        None => {
                            lemma_pushed(cut, v);
                        },
                    }
                },
                _ => {},
            }
        },
        None => {},
    }
}

proof fn lemma_get_property_keeps(m: Machine, i: nat, name: TokenModel)
    requires
        well_formed(m),
        get_property(m, i, name).0.frames.len() <= usize::MAX,
    ensures
        well_formed(get_property(m, i, name).0),
{
    lemma_outermost_fits(m.tasks, 0, m.frames.len());
    if i < m.instances.len() {
        let instance = m.instances[i as int];
        assert(instance_fits(instance, m.frames.len()));
        if instance.fields.contains_key(name.lexeme) {
            lemma_pushed(m, instance.fields[name.lexeme]);
        } else {
            lemma_method_fits(instance.class, name.lexeme, m.frames.len());
            match method_of(instance.class, name.lexeme) {
                Some(method) => {
                    lemma_bind_method_keeps(m, method, ValueModel::Instance(i));
                    let (bound_machine, bound) = bind_method(m, method, ValueModel::Instance(i));
                    lemma_pushed(bound_machine, ValueModel::Function(bound));
                },
                None => {},
            }
        }
    }
}

proof fn lemma_set_property_keeps(m: Machine, i: nat, name: TokenModel, v: ValueModel)
    requires
        well_formed(m),
        value_fits(v, m.frames.len()),
    ensures
        well_formed(set_property(m, i, name, v)),
{
    if i < m.instances.len() {
        let after = set_property(m, i, name, v).instances;
        assert forall|j: int| 0 <= j < after.len() implies instance_fits(
            #[trigger] after[j],
            m.frames.len(),
        ) by {
            assert(instance_fits(m.instances[j], m.frames.len()));
            if j == i {
                assert forall|k: Seq<char>| #[trigger]
                    after[j].fields.contains_key(k) implies value_fits(
                    after[j].fields[k],
                    m.frames.len(),
                ) by {
                    if k != name.lexeme {
                        assert(m.instances[j].fields.contains_key(k));
                    }
                }
            }
        }
    }
}

proof fn lemma_super_keeps(m: Machine, id: nat, keyword: TokenModel, method: TokenModel)
    requires
        well_formed(m),
        evaluate_super(m, id, keyword, method).0.frames.len() <= usize::MAX,
    ensures
        well_formed(evaluate_super(m, id, keyword, method).0),
{
    lemma_outermost_fits(m.tasks, 0, m.frames.len());
    if m.locals.contains_key(id) && m.locals[id] != 0 {
        let depth = m.locals[id];
        lemma_lookup_at_fits(m.frames, m.env, depth, keyword.lexeme, m.frames.len());
        lemma_lookup_at_fits(m.frames, m.env, (depth - 1) as nat, "this"@, m.frames.len());
        match (
            lookup_at(m.frames, m.env, depth, keyword.lexeme),
            lookup_at(m.frames, m.env, (depth - 1) as nat, "this"@),
        ) {
            (Some(ValueModel::Class(class)), Some(this)) => {
                lemma_method_fits(class, method.lexeme, m.frames.len());
                match method_of(class, method.lexeme) {
                    Some(found) => {
                        lemma_bind_method_keeps(m, found, this);
                        let (bound_machine, bound) = bind_method(m, found, this);
                        lemma_pushed(bound_machine, ValueModel::Function(bound));
                    },
                    None => {},
                }
            },
            _ => {},
        }
    }
}

proof fn lemma_read_fits(m: Machine, id: nat, name: TokenModel)
    requires
        well_formed(m),
    ensures
        read_variable(m, id, name) matches Some(v) ==> value_fits(v, m.frames.len()),
{
    if m.locals.contains_key(id) {
        lemma_lookup_at_fits(m.frames, m.env, m.locals[id], name.lexeme, m.frames.len());
    } else {
        lemma_lookup_fits(m.frames, 0, name.lexeme, m.frames.len());
    }
}

proof fn lemma_scheduled(m: Machine, first: Task, second: Task)
    requires
        well_formed(m),
        task_fits(first, m.frames.len()),
        task_fits(second, m.frames.len()),
    ensures
        well_formed(Machine { tasks: m.tasks.push(second).push(first), ..m }),
{
    lemma_tasked(m, second);
    lemma_tasked(Machine { tasks: m.tasks.push(second), ..m }, first);
}

proof fn lemma_evaluate_keeps(m: Machine, e: Rc<Expr>)
    requires
        well_formed(m),
        evaluate(m, e).0.frames.len() <= usize::MAX,
    ensures
        well_formed(evaluate(m, e).0),
{
    lemma_outermost_fits(m.tasks, 0, m.frames.len());
    match *e {
        Expr::Literal(Literal::Nil) => lemma_pushed(m, ValueModel::Nil),
        Expr::Literal(Literal::Bool(b)) => lemma_pushed(m, ValueModel::Bool(b)),
        Expr::Literal(Literal::String(s)) => lemma_pushed(m, ValueModel::String(s@)),
        Expr::Literal(Literal::Number(_)) => {},
        Expr::Grouping(inner) => lemma_tasked(m, Task::Evaluate(inner)),
        Expr::Variable(id, name) => {
            lemma_read_fits(m, id as nat, name@);
            match read_variable(m, id as nat, name@) {
                Some(v) => lemma_pushed(m, v),
                None => {},
            }
        },
        Expr::This(id, keyword) => {
            lemma_read_fits(m, id as nat, keyword@);
            match read_variable(m, id as nat, keyword@) {
                Some(v) => lemma_pushed(m, v),
                None => {},
            }
        },
        Expr::Super(id, keyword, method) => lemma_super_keeps(m, id as nat, keyword@, method@),
        Expr::Assign(_, _, value) => lemma_scheduled(m, Task::Evaluate(value), Task::Resume(e, 1)),
        Expr::Unary(_, right) => lemma_scheduled(m, Task::Evaluate(right), Task::Resume(e, 1)),
        Expr::Binary(left, _, _) => lemma_scheduled(m, Task::Evaluate(left), Task::Resume(e, 1)),
        Expr::Logical(left, _, _) => lemma_scheduled(m, Task::Evaluate(left), Task::Resume(e, 1)),
        Expr::Call(callee, _, _) => lemma_scheduled(m, Task::Evaluate(callee), Task::Resume(e, 0)),
        Expr::Get(object, _) => lemma_scheduled(m, Task::Evaluate(object), Task::Resume(e, 1)),
        Expr::SetField(object, _, _) => lemma_scheduled(
            m,
            Task::Evaluate(object),
            Task::Resume(e, 1),
        ),
    }
}

proof fn lemma_apply_binary_keeps(m: Machine, op: TokenModel, left: ValueModel, right: ValueModel)
    requires
        well_formed(m),
    ensures
        well_formed(apply_binary(m, op, left, right).0),
{
    lemma_outermost_fits(m.tasks, 0, m.frames.len());
    let result = apply_binary(m, op, left, right);
    if result.1 is Continue {
        assert(result.0.values.len() == m.values.len() + 1);
        let v = result.0.values.last();
        assert(value_fits(v, m.frames.len()));
        lemma_pushed(m, v);
        assert(result.0.values =~= m.values.push(v));
    }
}

proof fn lemma_apply_call_keeps(m: Machine, paren: TokenModel, n: nat)
    requires
        well_formed(m),
        apply_call(m, paren, n).0.frames.len() <= usize::MAX,
    ensures
        well_formed(apply_call(m, paren, n).0),
{
    lemma_outermost_fits(m.tasks, 0, m.frames.len());
    if m.values.len() > n {
        let at = m.values.len() - n;
        let args = m.values.subrange(at, m.values.len() as int);
        let rest = Machine { values: m.values.take(at - 1), ..m };
        assert forall|i: int| 0 <= i < args.len() implies value_fits(
            #[trigger] args[i],
            m.frames.len(),
        ) by {
            assert(args[i] == m.values[at + i]);
        }
        assert forall|i: int| 0 <= i < rest.values.len() implies value_fits(
            #[trigger] rest.values[i],
            m.frames.len(),
        ) by {
            assert(rest.values[i] == m.values[i]);
        }
        assert(well_formed(rest));
        assert(value_fits(m.values[at - 1], m.frames.len()));
        match m.values[at - 1] {
            ValueModel::Function(f) => {
                if crate::loxcallables::function_arity(f) == n {
                    lemma_call_keeps(rest, f, args);
                }
            },
            ValueModel::Class(class) => {
                if crate::class::class_arity(class) == n {
                    lemma_instantiate_keeps(rest, class, args);
                }
            },
            _ => {},
        }
    }
}

proof fn lemma_resume_keeps(m: Machine, e: Rc<Expr>, done: nat)
    requires
        well_formed(m),
        resume(m, e, done).0.frames.len() <= usize::MAX,
    ensures
        well_formed(resume(m, e, done).0),
{
    lemma_outermost_fits(m.tasks, 0, m.frames.len());
    lemma_top_fits(m);
    let rest = Machine { values: pop(m.values), ..m };
    match *e {
        Expr::Assign(id, name, _) => {
            let place = if m.locals.contains_key(id as nat) {
                ancestor(m.frames, m.env, m.locals[id as nat])
            } else {
                binder(m.frames, 0, name@.lexeme)
            };
            match place {
                Some(f) => lemma_frames_bound(m, f, name@.lexeme, top(m.values)),
                None => {},
            }
        },
        Expr::Unary(op, _) => {
            lemma_pushed(rest, ValueModel::Bool(!crate::expr::truthy(top(m.values))));
            match top(m.values) {
                ValueModel::Number(n) => lemma_pushed(
                    rest,
                    ValueModel::Number(crate::number::negated(n)),
                ),
                _ => {},
            }
        },
        Expr::Binary(_, op, right) => {
            if done <= 1 {
                lemma_scheduled(m, Task::Evaluate(right), Task::Resume(e, 2));
            } else {
                lemma_apply_binary_keeps(
                    Machine { values: pop(pop(m.values)), ..m },
                    op@,
                    top(pop(m.values)),
                    top(m.values),
                );
            }
        },
        Expr::Logical(_, _, right) => {
            lemma_tasked(rest, Task::Evaluate(right));
        },
        Expr::Call(_, paren, args) => {
            if done < args@.len() {
                lemma_scheduled(
                    m,
                    Task::Evaluate(args@[done as int]),
                    Task::Resume(e, (done + 1) as usize),
                );
            } else {
                lemma_apply_call_keeps(m, paren@, args@.len());
            }
        },
        Expr::Get(_, name) => {
            match top(m.values) {
                ValueModel::Instance(i) => lemma_get_property_keeps(rest, i, name@),
                _ => {},
            }
        },
        Expr::SetField(_, name, value) => {
            if done <= 1 {
                lemma_scheduled(m, Task::Evaluate(value), Task::Resume(e, 2));
            } else {
                let kept = Machine { values: pop(pop(m.values)), ..m };
                lemma_pushed(kept, top(m.values));
                let after = Machine { values: pop(pop(m.values)).push(top(m.values)), ..m };
                match top(pop(m.values)) {
                    ValueModel::Instance(i) => lemma_set_property_keeps(
                        after,
                        i,
                        name@,
                        top(m.values),
                    ),
                    _ => {},
                }
            }
        },
        _ => {},
    }
}

proof fn lemma_declare_class_keeps(
    m: Machine,
    name: TokenModel,
    members: Seq<Rc<Stmt>>,
    parent: Option<ClassModel>,
)
    requires
        well_formed(m),
        parent matches Some(class) ==> class_fits(class, m.frames.len()),
        declare_class(m, name, members, parent).0.frames.len() <= usize::MAX,
    ensures
        well_formed(declare_class(m, name, members, parent).0),
{
    lemma_frames_bound(m, m.env, name.lexeme, ValueModel::Nil);
    let declared = Machine { frames: bind(m.frames, m.env, name.lexeme, ValueModel::Nil), ..m };
    match parent {
        Some(class) => {
            let frame = super_frame(class, m.env);
            assert forall|k: Seq<char>| #[trigger] frame.values.contains_key(k) implies value_fits(
                frame.values[k],
                m.frames.len(),
            ) by {}
            lemma_grown(declared, frame);
            let grown = Machine { frames: declared.frames.push(frame), ..declared };
            let closure = declared.frames.len();
            lemma_declared_methods_fit(
                members,
                members.len(),
                closure as usize,
                grown.frames.len(),
            );
            lemma_class_grows(class, m.frames.len(), grown.frames.len());
            let made = ClassModel {
                name: name.lexeme,
                superclass: Some(Box::new(class)),
                methods: declared_methods(members, members.len(), closure as usize),
            };
            assert(class_fits(made, grown.frames.len()));
            lemma_frames_bound(grown, m.env, name.lexeme, ValueModel::Class(made));
        },
        None => {
            lemma_declared_methods_fit(members, members.len(), m.env as usize, m.frames.len());
            let made = ClassModel {
                name: name.lexeme,
                superclass: None,
                methods: declared_methods(members, members.len(), m.env as usize),
            };
            assert(class_fits(made, m.frames.len()));
            lemma_frames_bound(declared, m.env, name.lexeme, ValueModel::Class(made));
        },
    }
}

proof fn lemma_execute_keeps(m: Machine, s: Rc<Stmt>)
    requires
        well_formed(m),
        execute(m, s).0.frames.len() <= usize::MAX,
    ensures
        well_formed(execute(m, s).0),
{
    match *s {
        Stmt::Null => {},
        Stmt::Expression(e) => lemma_scheduled(m, Task::Evaluate(e), Task::Proceed(s, 1)),
        Stmt::Print(e) => lemma_scheduled(m, Task::Evaluate(e), Task::Proceed(s, 1)),
        Stmt::Var(name, Some(initializer)) => lemma_scheduled(
            m,
            Task::Evaluate(initializer),
            Task::Proceed(s, 1),
        ),
        Stmt::Var(name, None) => lemma_frames_bound(m, m.env, name.lexeme@, ValueModel::Nil),
        Stmt::Block(_) => {
            let frame = FrameModel { values: Map::empty(), enclosing: Some(m.env) };
            lemma_grown(m, frame);
            let grown = Machine { frames: m.frames.push(frame), env: m.frames.len(), ..m };
            lemma_scheduled(grown, Task::Proceed(s, 0), Task::Restore(m.env as usize));
        },
        Stmt::If(condition, _, _) => lemma_scheduled(
            m,
            Task::Evaluate(condition),
            Task::Proceed(s, 1),
        ),
        Stmt::While(condition, _) => lemma_scheduled(
            m,
            Task::Evaluate(condition),
            Task::Proceed(s, 1),
        ),
        Stmt::Function(name, _, _) => lemma_frames_bound(
            m,
            m.env,
            name.lexeme@,
            ValueModel::Function(
                Function { declaration: s, closure: m.env as usize, is_init: false },
            ),
        ),
        Stmt::Return(_, Some(value)) => lemma_scheduled(
            m,
            Task::Evaluate(value),
            Task::Proceed(s, 1),
        ),
        Stmt::Return(_, None) => lemma_unwind_keeps(m, ValueModel::Nil),
        Stmt::Class(name, Some(parent), _) => lemma_scheduled(
            m,
            Task::Evaluate(parent),
            Task::Proceed(s, 1),
        ),
        Stmt::Class(name, None, members) => lemma_declare_class_keeps(m, name@, members@, None),
    }
}

proof fn lemma_proceed_in_keeps(m: Machine, s: Rc<Stmt>, body: Seq<Rc<Stmt>>, done: nat)
    requires
        well_formed(m),
    ensures
        well_formed(proceed_in(m, s, body, done).0),
{
    if done < body.len() {
        lemma_scheduled(m, Task::Execute(body[done as int]), Task::Proceed(s, (done + 1) as usize));
    }
}

proof fn lemma_proceed_keeps(m: Machine, s: Rc<Stmt>, done: nat)
    requires
        well_formed(m),
        proceed(m, s, done).0.frames.len() <= usize::MAX,
    ensures
        well_formed(proceed(m, s, done).0),
{
    lemma_outermost_fits(m.tasks, 0, m.frames.len());
    lemma_top_fits(m);
    let rest = Machine { values: pop(m.values), ..m };
    match *s {
        Stmt::Var(name, _) => lemma_frames_bound(rest, m.env, name.lexeme@, top(m.values)),
        Stmt::Block(body) => lemma_proceed_in_keeps(m, s, body@, done),
        Stmt::Function(_, _, body) => lemma_proceed_in_keeps(m, s, body@, done),
        Stmt::If(_, then_branch, else_branch) => {
            lemma_tasked(rest, Task::Execute(then_branch));
            match else_branch {
                Some(other) => lemma_tasked(rest, Task::Execute(other)),
                None => {},
            }
        },
        Stmt::While(_, body) => lemma_scheduled(rest, Task::Execute(body), Task::Execute(s)),
        Stmt::Return(_, _) => lemma_unwind_keeps(rest, top(m.values)),
        Stmt::Class(name, Some(parent), members) => {
            match top(m.values) {
                ValueModel::Class(class) => lemma_declare_class_keeps(
                    rest,
                    name@,
                    members@,
                    Some(class),
                ),
                _ => {},
            }
        },
        _ => {},
    }
}

proof fn lemma_leave_keeps(m: Machine, env: usize, init: Option<usize>)
    requires
        well_formed(m),
        env < m.frames.len(),
    ensures
        well_formed(leave(m, env, init).0),
{
    let back = Machine { env: env as nat, ..m };
    match init {
        Some(closure) => {
            lemma_this_fits(m.frames, closure as nat, m.frames.len());
            lemma_pushed(back, this_of(m.frames, closure as nat));
        },
        None => lemma_pushed(back, ValueModel::Nil),
    }
}

/// A step keeps the form of the machine, as long as the frames can still
/// be counted.
pub proof fn lemma_step_keeps_form(m: Machine)
    requires
        well_formed(m),
        step(m).0.frames.len() <= usize::MAX,
    ensures
        well_formed(step(m).0),
{
    if !m.waiting && m.tasks.len() > 0 {
        lemma_tasks_cut(m, m.tasks.len() - 1);
        assert(m.tasks.drop_last() =~= m.tasks.take(m.tasks.len() - 1));
        let rest = Machine { tasks: m.tasks.drop_last(), ..m };
        assert(task_fits(m.tasks[m.tasks.len() - 1], m.frames.len()));
        match m.tasks.last() {
            Task::Evaluate(e) => lemma_evaluate_keeps(rest, e),
            Task::Resume(e, done) => lemma_resume_keeps(rest, e, done as nat),
            Task::Execute(s) => lemma_execute_keeps(rest, s),
            Task::Proceed(s, done) => lemma_proceed_keeps(rest, s, done as nat),
            Task::Restore(env) => {},
            Task::Leave(env, init) => lemma_leave_keeps(rest, env, init),
        }
    }
}

/// A reply that names no frame but those that exist keeps the form.
pub proof fn lemma_reply_keeps_form(m: Machine, v: ValueModel)
    requires
        well_formed(m),
        value_fits(v, m.frames.len()),
    ensures
        well_formed(reply(m, v)),
{
    lemma_pushed(m, v);
}

/// Scheduling statements keeps the form.
pub proof fn lemma_load_keeps_form(m: Machine, stmts: Seq<Rc<Stmt>>)
    requires
        well_formed(m),
    ensures
        well_formed(load(m, stmts)),
{
    let tasks = load(m, stmts).tasks;
    assert forall|i: int| 0 <= i < tasks.len() implies task_fits(
        #[trigger] tasks[i],
        m.frames.len(),
    ) by {
        if i < m.tasks.len() {
            assert(tasks[i] == m.tasks[i]);
        }
    }
}


/// The machine before any program has the form.
pub proof fn lemma_initial_has_form()
    ensures
        well_formed(crate::interpreter::initial()),
{
    let m = crate::interpreter::initial();
    assert(m.frames.len() == 1);
    assert forall|i: int| 0 <= i < m.frames.len() implies frame_fits(
        #[trigger] m.frames[i],
        i as nat,
        m.frames.len(),
    ) by {
        assert forall|k: Seq<char>| #[trigger] m.frames[i].values.contains_key(k) implies value_fits(
            m.frames[i].values[k],
            m.frames.len(),
        ) by {}
    }
}

/// Scheduling statements in a new frame keeps the form, where the frame
/// is enclosed by a frame that exists, if by any, and holds values that
/// fit.
pub proof fn lemma_block_keeps_form(m: Machine, frame: FrameModel, stmts: Seq<Rc<Stmt>>)
    requires
        well_formed(m),
        m.frames.len() < usize::MAX,
        frame.enclosing matches Some(p) ==> p < m.frames.len(),
        map_fits(frame.values, m.frames.len()),
    ensures
        well_formed(
            load(
                Machine {
                    frames: m.frames.push(frame),
                    env: m.frames.len(),
                    tasks: m.tasks.push(Task::Restore(m.env as usize)),
                    ..m
                },
                stmts,
            ),
        ),
{
    lemma_grown(m, frame);
    let grown = Machine { frames: m.frames.push(frame), env: m.frames.len(), ..m };
    lemma_tasked(grown, Task::Restore(m.env as usize));
    lemma_load_keeps_form(
        Machine { tasks: m.tasks.push(Task::Restore(m.env as usize)), ..grown },
        stmts,
    );
}

} // verus!
