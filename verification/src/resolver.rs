//! The resolver: for every expression that reads or writes a variable, how
//! many scopes lie between its use and its binding.
//!
//! `resolve_stmts` says, as a function of the statements and the state,
//! which depths are noted and which errors are reported; `Resolver`
//! computes exactly that and hands each depth to the interpreter.
use vstd::prelude::*;
use vstd::string::*;
use std::rc::Rc;
use crate::expr::Expr;
use crate::interpreter::Interpreter;
use crate::loxerr::{parse_error, parse_error_text};
use crate::semantics::Machine;
use crate::stmt::Stmt;
use crate::table::Table;
use crate::text::{same_text, texts};
use crate::token::{Token, TokenModel};

verus! {

/// The kind of function whose body is being resolved.
#[derive(Clone, Copy, Debug, PartialEq, Eq, Structural)]
pub enum FunctionType {
    Script,
    Function,
    Initializer,
    Method,
}

/// The kind of class whose body is being resolved.
#[derive(Clone, Copy, Debug, PartialEq, Eq, Structural)]
pub enum ClassType {
    Outside,
    Class,
    Subclass,
}

/// The state of a resolution.
pub struct Resolution {
    /// The open scopes, the innermost last; a name maps to whether its
    /// initializer is done.
    pub scopes: Seq<Map<Seq<char>, bool>>,
    pub function: FunctionType,
    pub class: ClassType,
    /// The reports made so far.
    pub errors: Seq<Seq<char>>,
    /// The depths noted so far, by expression identity.
    pub notes: Map<nat, nat>,
}

/// The state before anything is resolved.
pub open spec fn fresh() -> Resolution {
    Resolution {
        scopes: Seq::empty(),
        function: FunctionType::Script,
        class: ClassType::Outside,
        errors: Seq::empty(),
        notes: Map::empty(),
    }
}

/// The state after a report at `token`.
pub open spec fn report(st: Resolution, token: TokenModel, msg: Seq<char>) -> Resolution {
    Resolution { errors: st.errors.push(parse_error_text(token, msg)), ..st }
}

/// The state with a new innermost scope.
pub open spec fn begin_scope(st: Resolution) -> Resolution {
    Resolution { scopes: st.scopes.push(Map::empty()), ..st }
}

/// The state without its innermost scope.
pub open spec fn end_scope(st: Resolution) -> Resolution {
    if st.scopes.len() > 0 {
        Resolution { scopes: st.scopes.drop_last(), ..st }
    } else {
        st
    }
}

/// Puts `name` into the innermost scope, if any scope is open.
pub open spec fn put(st: Resolution, name: Seq<char>, defined: bool) -> Resolution {
    if st.scopes.len() > 0 {
        Resolution {
            scopes: st.scopes.update(st.scopes.len() - 1, st.scopes.last().insert(name, defined)),
            ..st
        }
    } else {
        st
    }
}

/// Declares `name` in the innermost scope: there, but not yet usable. A
/// second declaration in one scope is reported.
pub open spec fn declare(st: Resolution, name: TokenModel) -> Resolution {
    if st.scopes.len() > 0 {
        let warned = if st.scopes.last().contains_key(name.lexeme) {
            report(st, name, "Already a variable with this name in this scope."@)
        } else {
            st
        };
        put(warned, name.lexeme, false)
    } else {
        st
    }
}

/// Marks `name` in the innermost scope as usable.
pub open spec fn define(st: Resolution, name: TokenModel) -> Resolution {
    put(st, name.lexeme, true)
}

/// How many scopes lie between the innermost and the nearest that holds
/// `name`.
pub open spec fn depth_of(scopes: Seq<Map<Seq<char>, bool>>, name: Seq<char>) -> Option<nat>
    decreases scopes.len(),
{
    if scopes.len() == 0 {
        None
    } else if scopes.last().contains_key(name) {
        Some(0)
    } else {
        match depth_of(scopes.drop_last(), name) {
            Some(d) => Some(d + 1),
            None => None,
        }
    }
}

/// The depth of a name is the distance to the nearest scope that holds it:
/// that scope holds the name, and no scope further in does.
pub proof fn lemma_depth_is_nearest(scopes: Seq<Map<Seq<char>, bool>>, name: Seq<char>)
    ensures
        match depth_of(scopes, name) {
            Some(d) => {
                &&& d < scopes.len()
                &&& scopes[scopes.len() - 1 - d].contains_key(name)
                &&& forall|i: int|
                    scopes.len() - 1 - d < i < scopes.len() ==> !(#[trigger] scopes[i]).contains_key(
                        name,
                    )
            },
            None => forall|i: int| 0 <= i < scopes.len() ==> !(#[trigger] scopes[i]).contains_key(
                name,
            ),
        },
    decreases scopes.len(),
{
    if scopes.len() > 0 && !scopes.last().contains_key(name) {
        lemma_depth_is_nearest(scopes.drop_last(), name);
        let inner = scopes.drop_last();
        assert(forall|i: int| 0 <= i < inner.len() ==> inner[i] == scopes[i]);
    }
}

/// Notes the depth of the expression `id` that refers to `name`; a name in
/// no scope is left to the globals.
pub open spec fn resolve_local(st: Resolution, id: nat, name: TokenModel) -> Resolution {
    match depth_of(st.scopes, name.lexeme) {
        Some(depth) => Resolution { notes: st.notes.insert(id, depth), ..st },
        None => st,
    }
}

/// The state after an expression is resolved.
pub open spec fn resolve_expr(e: Expr, st: Resolution) -> Resolution
    decreases e, 0nat,
{
    match e {
        Expr::Assign(id, name, value) => resolve_local(resolve_expr(*value, st), id as nat, name@),
        Expr::Binary(left, _, right) => resolve_expr(*right, resolve_expr(*left, st)),
        Expr::Call(callee, _, args) => resolve_exprs(args@, 0, resolve_expr(*callee, st)),
        Expr::Get(object, _) => resolve_expr(*object, st),
        Expr::Grouping(inner) => resolve_expr(*inner, st),
        Expr::Literal(_) => st,
        Expr::Logical(left, _, right) => resolve_expr(*right, resolve_expr(*left, st)),
        Expr::SetField(object, _, value) => resolve_expr(*value, resolve_expr(*object, st)),
        Expr::Super(id, keyword, _) => if st.class == ClassType::Outside {
            report(st, keyword@, "Can't use 'super' outside of a class."@)
        } else if st.class == ClassType::Class {
            report(st, keyword@, "Can't use 'super' in a class with no superclass."@)
        } else {
            resolve_local(st, id as nat, keyword@)
        },
        Expr::This(id, keyword) => if st.class == ClassType::Outside {
            report(st, keyword@, "Can't use 'this' outside of a class."@)
        } else {
            resolve_local(st, id as nat, keyword@)
        },
        Expr::Unary(_, right) => resolve_expr(*right, st),
        Expr::Variable(id, name) => if st.scopes.len() > 0 && st.scopes.last().contains_key(
            name@.lexeme,
        ) && !st.scopes.last()[name@.lexeme] {
            report(st, name@, "Can't read local variable in its own initializer."@)
        } else {
            resolve_local(st, id as nat, name@)
        },
    }
}

/// The state after the expressions from `from` on are resolved in order.
pub open spec fn resolve_exprs(list: Seq<Rc<Expr>>, from: int, st: Resolution) -> Resolution
    decreases list, list.len() - from,
{
    if 0 <= from < list.len() {
        resolve_exprs(list, from + 1, resolve_expr(*list[from], st))
    } else {
        st
    }
}

/// The state after the parameters from `from` on are declared and defined.
pub open spec fn declare_params(params: Seq<Token>, from: int, st: Resolution) -> Resolution
    decreases params.len() - from,
{
    if 0 <= from < params.len() {
        declare_params(params, from + 1, define(declare(st, params[from]@), params[from]@))
    } else {
        st
    }
}

/// A function body: a scope of its own that holds the parameters.
pub open spec fn resolve_function(
    params: Seq<Token>,
    body: Seq<Rc<Stmt>>,
    kind: FunctionType,
    st: Resolution,
) -> Resolution
    decreases body, body.len() + 1,
{
    let inside = declare_params(params, 0, begin_scope(Resolution { function: kind, ..st }));
    Resolution { function: st.function, ..end_scope(resolve_stmts(body, 0, inside)) }
}

/// The members of a class from `from` on, each a method, or the
/// initializer where it is named `init`.
pub open spec fn resolve_methods(list: Seq<Rc<Stmt>>, from: int, st: Resolution) -> Resolution
    decreases list, list.len() - from,
{
    if 0 <= from < list.len() {
        let next = match *list[from] {
            Stmt::Function(name, params, body) => resolve_function(
                params@,
                body@,
                if name@.lexeme == "init"@ {
                    FunctionType::Initializer
                } else {
                    FunctionType::Method
                },
                st,
            ),
            _ => st,
        };
        resolve_methods(list, from + 1, next)
    } else {
        st
    }
}

/// The superclass of a class declaration: it may not be the class itself;
/// it is resolved like any variable, and a scope that holds `super` opens.
pub open spec fn resolve_superclass(name: TokenModel, parent: Expr, st: Resolution) -> Resolution
    decreases parent, 1nat,
{
    let checked = match parent {
        Expr::Variable(_, token) => if token@.lexeme == name.lexeme {
            report(st, token@, "A class can't inherit from itself"@)
        } else {
            st
        },
        _ => st,
    };
    put(
        begin_scope(resolve_expr(parent, Resolution { class: ClassType::Subclass, ..checked })),
        "super"@,
        true,
    )
}

/// The state after a statement is resolved.
pub open spec fn resolve_stmt(s: Stmt, st: Resolution) -> Resolution
    decreases s, 0nat,
{
    match s {
        Stmt::Null => st,
        Stmt::Block(body) => end_scope(resolve_stmts(body@, 0, begin_scope(st))),
        Stmt::Class(name, superclass, methods) => {
            let named = define(declare(Resolution { class: ClassType::Class, ..st }, name@), name@);
            let inherited = match superclass {
                Some(parent) => resolve_superclass(name@, *parent, named),
                None => named,
            };
            let done = end_scope(
                resolve_methods(methods@, 0, put(begin_scope(inherited), "this"@, true)),
            );
            let closed = if superclass is Some {
                end_scope(done)
            } else {
                done
            };
            Resolution { class: st.class, ..closed }
        },
        Stmt::Expression(e) => resolve_expr(*e, st),
        Stmt::Function(name, params, body) => resolve_function(
            params@,
            body@,
            FunctionType::Function,
            define(declare(st, name@), name@),
        ),
        Stmt::If(condition, then_branch, else_branch) => {
            let first = resolve_stmt(*then_branch, resolve_expr(*condition, st));
            match else_branch {
                Some(other) => resolve_stmt(*other, first),
                None => first,
            }
        },
        Stmt::Print(e) => resolve_expr(*e, st),
        Stmt::Return(keyword, value) => if st.function == FunctionType::Script {
            report(st, keyword@, "Can't return from top-level code."@)
        } else {
            match value {
                Some(v) => resolve_expr(
                    *v,
                    if st.function == FunctionType::Initializer {
                        report(st, keyword@, "Can't return a value from an initializer."@)
                    } else {
                        st
                    },
                ),
                None => st,
            }
        },
        Stmt::Var(name, initializer) => {
            let declared = declare(st, name@);
            define(
                match initializer {
                    Some(e) => resolve_expr(*e, declared),
                    None => declared,
                },
                name@,
            )
        },
        Stmt::While(condition, body) => resolve_stmt(*body, resolve_expr(*condition, st)),
    }
}

/// The state after the statements from `from` on are resolved in order.
pub open spec fn resolve_stmts(list: Seq<Rc<Stmt>>, from: int, st: Resolution) -> Resolution
    decreases list, list.len() - from,
{
    if 0 <= from < list.len() {
        resolve_stmts(list, from + 1, resolve_stmt(*list[from], st))
    } else {
        st
    }
}


/// The depths that an interpreter holds after `program` is resolved by a
/// new resolver, where it held `locals` before.
pub open spec fn resolved(locals: Map<nat, nat>, program: Seq<Rc<Stmt>>) -> Map<nat, nat> {
    locals.union_prefer_right(resolve_stmts(program, 0, fresh()).notes)
}

/// Resolving the same statements a second time changes no depth.
pub proof fn lemma_resolve_twice(locals: Map<nat, nat>, program: Seq<Rc<Stmt>>)
    ensures
        resolved(resolved(locals, program), program) == resolved(locals, program),
{
    assert(resolved(resolved(locals, program), program) =~= resolved(locals, program));
}

/// The maps of a sequence of scopes, in order.
pub open spec fn scope_maps(scopes: Seq<Table<bool>>) -> Seq<Map<Seq<char>, bool>> {
    Seq::new(scopes.len(), |i: int| scopes[i]@)
}

/// A depth found `by` scopes further in.
pub open spec fn deeper(found: Option<nat>, by: nat) -> Option<nat> {
    match found {
        Some(d) => Some(d + by),
        None => None,
    }
}

/// A resolution in progress.
pub struct Resolver {
    scopes: Vec<Table<bool>>,
    has_error: bool,
    errors: Vec<String>,
    current_function: FunctionType,
    current_class: ClassType,
    base: Ghost<Map<nat, nat>>,
    notes: Ghost<Map<nat, nat>>,
}

impl Resolver {
    /// The scopes, the modes, the reports and the depths noted so far.
    pub closed spec fn state(&self) -> Resolution {
        Resolution {
            scopes: scope_maps(self.scopes@),
            function: self.current_function,
            class: self.current_class,
            errors: texts(self.errors@),
            notes: self.notes@,
        }
    }

    /// The depths that the interpreter held when this resolver was made.
    pub closed spec fn base(&self) -> Map<nat, nat> {
        self.base@
    }

    /// Whether any report was made.
    pub closed spec fn failed(&self) -> bool {
        self.has_error
    }

    /// What holds of a resolver between steps: the flag says whether
    /// anything was reported.
    pub closed spec fn wf(&self) -> bool {
        self.has_error == (self.errors@.len() > 0)
    }

    /// Whether the interpreter holds what it held at first and what was
    /// noted since.
    pub open spec fn linked(&self, m: Machine) -> bool {
        m.locals == self.base().union_prefer_right(self.state().notes)
    }

    /// What a resolution step leaves: the state is `expected`, and the
    /// interpreter differs from before in the depths it holds at most.
    pub open spec fn follows(
        &self,
        before: &Resolver,
        was: Machine,
        now: Machine,
        expected: Resolution,
    ) -> bool {
        &&& self.wf()
        &&& self.base() == before.base()
        &&& self.linked(now)
        &&& now == (Machine { locals: now.locals, ..was })
        &&& self.state() == expected
    }

    /// Whether any report was made.
    pub fn has_error(&self) -> (r: bool)
        ensures
            r == self.failed(),
    {
        self.has_error
    }

    /// The reports made so far, in order.
    pub fn errors(&self) -> (r: &Vec<String>)
        ensures
            texts(r@) == self.state().errors,
    {
        &self.errors
    }

    /// Hands out the reports made so far and keeps none.
    pub fn take_errors(&mut self) -> (r: Vec<String>)
        ensures
            texts(r@) == old(self).state().errors,
            final(self).state() == (crate::resolver::Resolution { errors: Seq::empty(), ..old(self).state() }),
            final(self).base() == old(self).base(),
            final(self).failed() == old(self).failed(),
    {
        let mut taken: Vec<String> = Vec::new();
        std::mem::swap(&mut taken, &mut self.errors);
        assert(texts(self.errors@) =~= Seq::<Seq<char>>::empty());
        taken
    }

    /// A resolver for the interpreter as it stands.
    pub fn new(interpreter: &Interpreter) -> (r: Resolver)
        ensures
            r.wf(),
            r.state() == fresh(),
            r.base() == interpreter@.locals,
            r.linked(interpreter@),
            !r.failed(),
    {
        let r = Resolver {
            scopes: Vec::new(),
            has_error: false,
            errors: Vec::new(),
            current_function: FunctionType::Script,
            current_class: ClassType::Outside,
            base: Ghost(interpreter@.locals),
            notes: Ghost(Map::empty()),
        };
        proof {
            assert(r.state().scopes =~= Seq::<Map<Seq<char>, bool>>::empty());
            assert(r.state().errors =~= Seq::<Seq<char>>::empty());
            assert(interpreter@.locals =~= interpreter@.locals.union_prefer_right(
                Map::<nat, nat>::empty(),
            ));
        }
        r
    }

    /// Resolves `stmts` in order, handing each depth to `interpreter`.
    pub fn resolve(&mut self, interpreter: &mut Interpreter, stmts: &Vec<Rc<Stmt>>)
        requires
            old(self).wf(),
            old(self).linked(old(interpreter)@),
        ensures
            final(self).follows(
                old(self),
                old(interpreter)@,
                final(interpreter)@,
                resolve_stmts(stmts@, 0, old(self).state()),
            ),
            final(self).failed() == (final(self).state().errors.len() > 0),
            old(self).state() == fresh() && old(self).base() == old(interpreter)@.locals
                ==> final(interpreter)@.locals == resolved(old(interpreter)@.locals, stmts@),
        decreases stmts@, stmts@.len() + 1,
    {
        let ghost goal = resolve_stmts(stmts@, 0, old(self).state());
        let mut i: usize = 0;
        while i < stmts.len()
            invariant
                i <= stmts@.len(),
                self.follows(
                    old(self),
                    old(interpreter)@,
                    interpreter@,
                    self.state(),
                ),
                resolve_stmts(stmts@, i as int, self.state()) == goal,
            decreases stmts@.len() - i,
        {
            self.resolve_stmt(interpreter, &stmts[i]);
            i = i + 1;
        }
    }

    fn report(&mut self, token: &Token, msg: &str)
        requires
            old(self).wf(),
        ensures
            final(self).wf(),
            final(self).base() == old(self).base(),
            final(self).state() == report(old(self).state(), token@, msg@),
    {
        self.errors.push(parse_error(token, msg));
        self.has_error = true;
        assert(texts(self.errors@) =~= texts(old(self).errors@).push(
            parse_error_text(token@, msg@),
        ));
    }

    fn begin_scope(&mut self)
        requires
            old(self).wf(),
        ensures
            final(self).wf(),
            final(self).base() == old(self).base(),
            final(self).state() == begin_scope(old(self).state()),
    {
        self.scopes.push(Table::new());
        assert(scope_maps(self.scopes@) =~= scope_maps(old(self).scopes@).push(Map::empty()));
    }

    fn end_scope(&mut self)
        requires
            old(self).wf(),
        ensures
            final(self).wf(),
            final(self).base() == old(self).base(),
            final(self).state() == end_scope(old(self).state()),
    {
        if self.scopes.len() > 0 {
            self.scopes.pop();
            assert(scope_maps(self.scopes@) =~= scope_maps(old(self).scopes@).drop_last());
        }
    }

    /// Puts `name` into the innermost scope, if any scope is open.
    fn put(&mut self, name: &str, defined: bool)
        requires
            old(self).wf(),
        ensures
            final(self).wf(),
            final(self).base() == old(self).base(),
            final(self).state() == put(old(self).state(), name@, defined),
    {
        match self.scopes.pop() {
            Some(scope) => {
                let mut scope = scope;
                scope.insert(name.to_owned(), defined);
                self.scopes.push(scope);
                assert(scope_maps(self.scopes@) =~= scope_maps(old(self).scopes@).update(
                    old(self).scopes@.len() - 1,
                    scope_maps(old(self).scopes@).last().insert(name@, defined),
                ));
            },
            None => {
                assert(self.scopes@ =~= old(self).scopes@);
            },
        }
    }

    fn declare(&mut self, name: &Token)
        requires
            old(self).wf(),
        ensures
            final(self).wf(),
            final(self).base() == old(self).base(),
            final(self).state() == declare(old(self).state(), name@),
    {
        let open = self.scopes.len();
        if open > 0 {
            if self.scopes[open - 1].contains_key(name.lexeme.as_str()) {
                self.report(name, "Already a variable with this name in this scope.");
            }
            self.put(name.lexeme.as_str(), false);
        }
    }

    fn define(&mut self, name: &Token)
        requires
            old(self).wf(),
        ensures
            final(self).wf(),
            final(self).base() == old(self).base(),
            final(self).state() == define(old(self).state(), name@),
    {
        self.put(name.lexeme.as_str(), true);
    }

    fn resolve_local(&mut self, interpreter: &mut Interpreter, id: usize, name: &Token)
        requires
            old(self).wf(),
            old(self).linked(old(interpreter)@),
        ensures
            final(self).follows(
                old(self),
                old(interpreter)@,
                final(interpreter)@,
                resolve_local(old(self).state(), id as nat, name@),
            ),
    {
        let ghost all = scope_maps(self.scopes@);
        let open = self.scopes.len();
        let mut checked: usize = 0;
        proof {
            assert(all.take(open as int) =~= all);
        }
        while checked < open
            invariant
                checked <= open == self.scopes@.len(),
                all == scope_maps(self.scopes@),
                *self == *old(self),
                *interpreter == *old(interpreter),
                self.wf(),
                self.linked(interpreter@),
                depth_of(all, name@.lexeme) == deeper(
                    depth_of(all.take(open - checked), name@.lexeme),
                    checked as nat,
                ),
            decreases open - checked,
        {
            let at = open - 1 - checked;
            proof {
                assert(all.take(open - checked).drop_last() =~= all.take(open - checked - 1));
            }
            if self.scopes[at].contains_key(name.lexeme.as_str()) {
                interpreter.resolve(id, checked);
                self.notes = Ghost(self.notes@.insert(id as nat, checked as nat));
                proof {
                    assert(interpreter@.locals =~= self.base().union_prefer_right(self.notes@));
                }
                return ;
            }
            checked = checked + 1;
        }
        proof {
            assert(all.take(0) =~= Seq::<Map<Seq<char>, bool>>::empty());
        }
    }

    fn resolve_expr(&mut self, interpreter: &mut Interpreter, expr: &Expr)
        requires
            old(self).wf(),
            old(self).linked(old(interpreter)@),
        ensures
            final(self).follows(
                old(self),
                old(interpreter)@,
                final(interpreter)@,
                resolve_expr(*expr, old(self).state()),
            ),
        decreases expr, 0nat,
    {
        match expr {
            Expr::Assign(id, name, value) => {
                self.resolve_expr(interpreter, value);
                self.resolve_local(interpreter, *id, name);
            },
            Expr::Binary(left, _, right) => {
                self.resolve_expr(interpreter, left);
                self.resolve_expr(interpreter, right);
            },
            Expr::Call(callee, _, args) => {
                self.resolve_expr(interpreter, callee);
                let ghost goal = resolve_exprs(args@, 0, self.state());
                let mut i: usize = 0;
                while i < args.len()
                    invariant
                        i <= args@.len(),
                        self.follows(old(self), old(interpreter)@, interpreter@, self.state()),
                        resolve_exprs(args@, i as int, self.state()) == goal,
                        *expr matches Expr::Call(_, _, a) && a == args,
                    decreases args@.len() - i,
                {
                    self.resolve_expr(interpreter, &args[i]);
                    i = i + 1;
                }
            },
            Expr::Get(object, _) => self.resolve_expr(interpreter, object),
            Expr::Grouping(inner) => self.resolve_expr(interpreter, inner),
            Expr::Literal(_) => {},
            Expr::Logical(left, _, right) => {
                self.resolve_expr(interpreter, left);
                self.resolve_expr(interpreter, right);
            },
            Expr::SetField(object, _, value) => {
                self.resolve_expr(interpreter, object);
                self.resolve_expr(interpreter, value);
            },
            Expr::Super(id, keyword, _) => {
                if self.current_class == ClassType::Outside {
                    self.report(keyword, "Can't use 'super' outside of a class.");
                } else if self.current_class == ClassType::Class {
                    self.report(keyword, "Can't use 'super' in a class with no superclass.");
                } else {
                    self.resolve_local(interpreter, *id, keyword);
                }
            },
            Expr::This(id, keyword) => {
                if self.current_class == ClassType::Outside {
                    self.report(keyword, "Can't use 'this' outside of a class.");
                } else {
                    self.resolve_local(interpreter, *id, keyword);
                }
            },
            Expr::Unary(_, right) => self.resolve_expr(interpreter, right),
            Expr::Variable(id, name) => {
                let open = self.scopes.len();
                let unready = if open > 0 {
                    match self.scopes[open - 1].get(name.lexeme.as_str()) {
                        Some(defined) => !*defined,
                        None => false,
                    }
                } else {
                    false
                };
                if unready {
                    self.report(name, "Can't read local variable in its own initializer.");
                } else {
                    self.resolve_local(interpreter, *id, name);
                }
            },
        }
    }

    fn resolve_function(
        &mut self,
        interpreter: &mut Interpreter,
        params: &Vec<Token>,
        body: &Vec<Rc<Stmt>>,
        kind: FunctionType,
    )
        requires
            old(self).wf(),
            old(self).linked(old(interpreter)@),
        ensures
            final(self).follows(
                old(self),
                old(interpreter)@,
                final(interpreter)@,
                resolve_function(params@, body@, kind, old(self).state()),
            ),
        decreases body@, body@.len() + 2,
    {
        let enclosing = self.current_function;
        self.current_function = kind;
        self.begin_scope();
        let ghost goal = declare_params(params@, 0, self.state());
        let mut i: usize = 0;
        while i < params.len()
            invariant
                i <= params@.len(),
                self.follows(old(self), old(interpreter)@, interpreter@, self.state()),
                *interpreter == *old(interpreter),
                declare_params(params@, i as int, self.state()) == goal,
            decreases params@.len() - i,
        {
            self.declare(&params[i]);
            self.define(&params[i]);
            i = i + 1;
        }
        self.resolve(interpreter, body);
        self.end_scope();
        self.current_function = enclosing;
    }

    fn resolve_stmt(&mut self, interpreter: &mut Interpreter, stmt: &Stmt)
        requires
            old(self).wf(),
            old(self).linked(old(interpreter)@),
        ensures
            final(self).follows(
                old(self),
                old(interpreter)@,
                final(interpreter)@,
                resolve_stmt(*stmt, old(self).state()),
            ),
        decreases stmt, 1nat,
    {
        match stmt {
            Stmt::Null => {},
            Stmt::Block(body) => {
                self.begin_scope();
                self.resolve(interpreter, body);
                self.end_scope();
            },
            Stmt::Class(_, _, _) => self.resolve_class(interpreter, stmt),
            Stmt::Expression(e) => self.resolve_expr(interpreter, e),
            Stmt::Function(name, params, body) => {
                self.declare(name);
                self.define(name);
                self.resolve_function(interpreter, params, body, FunctionType::Function);
            },
            Stmt::If(condition, then_branch, else_branch) => {
                self.resolve_expr(interpreter, condition);
                self.resolve_stmt(interpreter, then_branch);
                if let Some(other) = else_branch {
                    self.resolve_stmt(interpreter, other);
                }
            },
            Stmt::Print(e) => self.resolve_expr(interpreter, e),
            Stmt::Return(keyword, value) => {
                if self.current_function == FunctionType::Script {
                    self.report(keyword, "Can't return from top-level code.");
                } else if let Some(v) = value {
                    if self.current_function == FunctionType::Initializer {
                        self.report(keyword, "Can't return a value from an initializer.");
                    }
                    self.resolve_expr(interpreter, v);
                }
            },
            Stmt::Var(name, initializer) => {
                self.declare(name);
                if let Some(e) = initializer {
                    self.resolve_expr(interpreter, e);
                }
                self.define(name);
            },
            Stmt::While(condition, body) => {
                self.resolve_expr(interpreter, condition);
                self.resolve_stmt(interpreter, body);
            },
        }
    }

    fn resolve_methods(&mut self, interpreter: &mut Interpreter, methods: &Vec<Rc<Stmt>>)
        requires
            old(self).wf(),
            old(self).linked(old(interpreter)@),
        ensures
            final(self).follows(
                old(self),
                old(interpreter)@,
                final(interpreter)@,
                resolve_methods(methods@, 0, old(self).state()),
            ),
        decreases methods@, methods@.len() + 1,
    {
        let ghost goal = resolve_methods(methods@, 0, self.state());
        let mut i: usize = 0;
        while i < methods.len()
            invariant
                i <= methods@.len(),
                self.follows(old(self), old(interpreter)@, interpreter@, self.state()),
                resolve_methods(methods@, i as int, self.state()) == goal,
            decreases methods@.len() - i,
        {
            if let Stmt::Function(name, params, body) = &*methods[i] {
                let kind = if same_text(name.lexeme.as_str(), "init") {
                    FunctionType::Initializer
                } else {
                    FunctionType::Method
                };
                self.resolve_function(interpreter, params, body, kind);
            }
            i = i + 1;
        }
    }

    fn resolve_superclass(&mut self, interpreter: &mut Interpreter, name: &Token, parent: &Expr)
        requires
            old(self).wf(),
            old(self).linked(old(interpreter)@),
        ensures
            final(self).follows(
                old(self),
                old(interpreter)@,
                final(interpreter)@,
                resolve_superclass(name@, *parent, old(self).state()),
            ),
        decreases parent, 1nat,
    {
        if let Expr::Variable(_, token) = parent {
            if token.lexeme == name.lexeme {
                self.report(token, "A class can't inherit from itself");
            }
        }
        self.current_class = ClassType::Subclass;
        self.resolve_expr(interpreter, parent);
        self.begin_scope();
        self.put("super", true);
    }

    fn resolve_class(&mut self, interpreter: &mut Interpreter, stmt: &Stmt)
        requires
            old(self).wf(),
            old(self).linked(old(interpreter)@),
            stmt is Class,
        ensures
            final(self).follows(
                old(self),
                old(interpreter)@,
                final(interpreter)@,
                resolve_stmt(*stmt, old(self).state()),
            ),
        decreases stmt, 0nat,
    {
        if let Stmt::Class(name, superclass, methods) = stmt {
            let enclosing = self.current_class;
            self.current_class = ClassType::Class;
            self.declare(name);
            self.define(name);
            if let Some(parent) = superclass {
                self.resolve_superclass(interpreter, name, parent);
            }
            self.begin_scope();
            self.put("this", true);
            self.resolve_methods(interpreter, methods);
            self.end_scope();
            if superclass.is_some() {
                self.end_scope();
            }
            self.current_class = enclosing;
        }
    }
}

} // verus!
