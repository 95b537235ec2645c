//! Environments: the frames of the scope chain.
//!
//! Frames live in a vector and name each other by index; a frame encloses
//! only frames that were added after it, so every chain ends.
use vstd::prelude::*;
use crate::expr::{Value, ValueModel};
use crate::loxerr::{undefined_variable, RuntimeException};
use crate::table::Table;
use crate::token::Token;

verus! {

/// One frame: its bindings, and the frame around it.
pub struct Environment {
    pub values: Table<Value>,
    pub enclosing: Option<usize>,
}

/// What a frame is, with its bindings as a map.
pub struct FrameModel {
    pub values: Map<Seq<char>, ValueModel>,
    pub enclosing: Option<nat>,
}

/// The models of the values of a map.
pub open spec fn value_models(m: Map<Seq<char>, Value>) -> Map<Seq<char>, ValueModel> {
    Map::new(|k: Seq<char>| m.contains_key(k), |k: Seq<char>| m[k].model())
}

pub proof fn lemma_value_models_insert(m: Map<Seq<char>, Value>, k: Seq<char>, v: Value)
    ensures
        value_models(m.insert(k, v)) == value_models(m).insert(k, v.model()),
{
    assert(value_models(m.insert(k, v)) =~= value_models(m).insert(k, v.model()));
}

pub proof fn lemma_value_models_empty()
    ensures
        value_models(Map::empty()) == Map::<Seq<char>, ValueModel>::empty(),
{
    assert(value_models(Map::empty()) =~= Map::<Seq<char>, ValueModel>::empty());
}

impl View for Environment {
    type V = FrameModel;

    open spec fn view(&self) -> FrameModel {
        FrameModel {
            values: value_models(self.values@),
            enclosing: match self.enclosing {
                Some(p) => Some(p as nat),
                None => None,
            },
        }
    }
}

/// The models of a sequence of frames, in order.
pub open spec fn frame_models(frames: Seq<Environment>) -> Seq<FrameModel> {
    Seq::new(frames.len(), |i: int| frames[i]@)
}

/// The value of `name` as seen from frame `start`: that of the nearest
/// frame of the chain that binds it.
pub open spec fn lookup(frames: Seq<FrameModel>, start: nat, name: Seq<char>) -> Option<ValueModel>
    decreases start,
{
    if start >= frames.len() {
        None
    } else if frames[start as int].values.contains_key(name) {
        Some(frames[start as int].values[name])
    } else {
        match frames[start as int].enclosing {
            Some(p) => if p < start {
                lookup(frames, p, name)
            } else {
                None
            },
            None => None,
        }
    }
}

/// The frame of the chain from `start` that binds `name`, if any.
pub open spec fn binder(frames: Seq<FrameModel>, start: nat, name: Seq<char>) -> Option<nat>
    decreases start,
{
    if start >= frames.len() {
        None
    } else if frames[start as int].values.contains_key(name) {
        Some(start)
    } else {
        match frames[start as int].enclosing {
            Some(p) => if p < start {
                binder(frames, p, name)
            } else {
                None
            },
            None => None,
        }
    }
}

/// The frames after `name` is bound to `value` in frame `at`.
pub open spec fn bind(frames: Seq<FrameModel>, at: nat, name: Seq<char>, value: ValueModel) -> Seq<
    FrameModel,
> {
    if at < frames.len() {
        frames.update(
            at as int,
            FrameModel { values: frames[at as int].values.insert(name, value), ..frames[at as int] },
        )
    } else {
        frames
    }
}

/// The frame `dist` links out from `start`, if the chain is that long.
pub open spec fn ancestor(frames: Seq<FrameModel>, start: nat, dist: nat) -> Option<nat>
    decreases dist,
{
    if start >= frames.len() {
        None
    } else if dist == 0 {
        Some(start)
    } else {
        match frames[start as int].enclosing {
            Some(p) => ancestor(frames, p, (dist - 1) as nat),
            None => None,
        }
    }
}

/// The value of `name` in the frame `dist` links out from `start`.
pub open spec fn lookup_at(frames: Seq<FrameModel>, start: nat, dist: nat, name: Seq<char>) -> Option<
    ValueModel,
> {
    match ancestor(frames, start, dist) {
        Some(f) => if frames[f as int].values.contains_key(name) {
            Some(frames[f as int].values[name])
        } else {
            None
        },
        None => None,
    }
}

pub proof fn lemma_frame_models_update(frames: Seq<Environment>, at: int, frame: Environment)
    requires
        0 <= at < frames.len(),
    ensures
        frame_models(frames.update(at, frame)) == frame_models(frames).update(at, frame@),
{
    assert(frame_models(frames.update(at, frame)) =~= frame_models(frames).update(at, frame@));
}

pub proof fn lemma_frame_models_push(frames: Seq<Environment>, frame: Environment)
    ensures
        frame_models(frames.push(frame)) == frame_models(frames).push(frame@),
{
    assert(frame_models(frames.push(frame)) =~= frame_models(frames).push(frame@));
}

impl Environment {
    /// A frame with no bindings and nothing around it.
    pub fn new() -> (r: Self)
        ensures
            r@ == (FrameModel { values: Map::empty(), enclosing: None }),
    {
        proof {
            lemma_value_models_empty();
        }
        Environment { values: Table::new(), enclosing: None }
    }

    /// A frame with no bindings inside frame `encloser`.
    pub fn encloser(encloser: usize) -> (r: Self)
        ensures
            r@ == (FrameModel { values: Map::empty(), enclosing: Some(encloser as nat) }),
            r.values@ == Map::<Seq<char>, Value>::empty(),
            r.enclosing == Some(encloser),
    {
        proof {
            lemma_value_models_empty();
        }
        Environment { values: Table::new(), enclosing: Some(encloser) }
    }

    /// Binds `name` in this frame, over any earlier binding.
    pub fn define(&mut self, name: &str, val: Value)
        ensures
            final(self)@ == (FrameModel {
                values: old(self)@.values.insert(name@, val.model()),
                ..old(self)@
            }),
            final(self).values@ == old(self).values@.insert(name@, val),
            final(self).enclosing == old(self).enclosing,
    {
        proof {
            lemma_value_models_insert(self.values@, name@, val);
        }
        self.values.insert(name.to_owned(), val);
    }

    /// The frame of the chain from `start` that binds `name`, if any.
    pub fn find(frames: &Vec<Environment>, start: usize, name: &str) -> (r: Option<usize>)
        ensures
            match r {
                Some(f) => binder(frame_models(frames@), start as nat, name@) == Some(f as nat) && f
                    < frames@.len() && frames@[f as int].values@.contains_key(name@),
                None => binder(frame_models(frames@), start as nat, name@) is None,
            },
    {
        let mut cur = start;
        loop
            invariant
                binder(frame_models(frames@), start as nat, name@) == binder(
                    frame_models(frames@),
                    cur as nat,
                    name@,
                ),
            decreases cur,
        {
            if cur >= frames.len() {
                return None;
            }
            if frames[cur].values.contains_key(name) {
                return Some(cur);
            }
            match frames[cur].enclosing {
                Some(p) => {
                    if p < cur {
                        cur = p;
                    } else {
                        return None;
                    }
                },
                None => {
                    return None;
                },
            }
        }
    }

    /// The value of `name` as seen from frame `start`.
    pub fn get(frames: &Vec<Environment>, start: usize, name: &Token) -> (r: Result<
        Value,
        RuntimeException,
    >)
        ensures
            match r {
                Ok(v) => lookup(frame_models(frames@), start as nat, name@.lexeme) == Some(
                    v.model(),
                ),
                Err(e) => lookup(frame_models(frames@), start as nat, name@.lexeme) is None && e@
                    == undefined_variable(name@),
            },
    {
        proof {
            lemma_lookup_binder(frame_models(frames@), start as nat, name@.lexeme);
        }
        match Environment::find(frames, start, name.lexeme.as_str()) {
            Some(f) => {
                match frames[f].values.get(name.lexeme.as_str()) {
                    Some(v) => Ok(v.clone()),
                    None => Err(RuntimeException::undefined(name)),
                }
            },
            None => Err(RuntimeException::undefined(name)),
        }
    }

    /// Rebinds `t` in the nearest frame of the chain from `start` that
    /// binds it.
    pub fn assign(frames: &mut Vec<Environment>, start: usize, t: &Token, val: Value) -> (r: Result<
        (),
        RuntimeException,
    >)
        ensures
            match r {
                Ok(_) => match binder(frame_models(old(frames)@), start as nat, t@.lexeme) {
                    Some(f) => frame_models(final(frames)@) == bind(
                        frame_models(old(frames)@),
                        f,
                        t@.lexeme,
                        val.model(),
                    ),
                    None => false,
                },
                Err(e) => binder(frame_models(old(frames)@), start as nat, t@.lexeme) is None
                    && final(frames)@ == old(frames)@ && e@ == undefined_variable(t@),
            },
    {
        match Environment::find(frames, start, t.lexeme.as_str()) {
            Some(f) => {
                Environment::define_in(frames, f, t.lexeme.as_str(), val);
                Ok(())
            },
            None => Err(RuntimeException::undefined(t)),
        }
    }

    /// Binds `name` in frame `at`.
    pub fn define_in(frames: &mut Vec<Environment>, at: usize, name: &str, val: Value)
        requires
            at < old(frames)@.len(),
        ensures
            frame_models(final(frames)@) == bind(
                frame_models(old(frames)@),
                at as nat,
                name@,
                val.model(),
            ),
            final(frames)@.len() == old(frames)@.len(),
    {
        let mut frame = Environment { values: Table::new(), enclosing: None };
        std::mem::swap(&mut frame, &mut frames[at]);
        frame.define(name, val);
        proof {
            lemma_frame_models_update(old(frames)@, at as int, frame);
        }
        frames[at] = frame;
        assert(frames@ =~= old(frames)@.update(at as int, frame));
    }

    /// The frame `dist` links out from `start`, if the chain is that long.
    pub fn ancestor(frames: &Vec<Environment>, start: usize, dist: usize) -> (r: Option<usize>)
        ensures
            match r {
                Some(f) => ancestor(frame_models(frames@), start as nat, dist as nat) == Some(
                    f as nat,
                ) && f < frames@.len(),
                None => ancestor(frame_models(frames@), start as nat, dist as nat) is None,
            },
    {
        let mut cur = start;
        let mut left = dist;
        loop
            invariant
                ancestor(frame_models(frames@), start as nat, dist as nat) == ancestor(
                    frame_models(frames@),
                    cur as nat,
                    left as nat,
                ),
            decreases left,
        {
            if cur >= frames.len() {
                return None;
            }
            if left == 0 {
                return Some(cur);
            }
            match frames[cur].enclosing {
                Some(p) => {
                    cur = p;
                    left = left - 1;
                },
                None => {
                    return None;
                },
            }
        }
    }

    /// The value of `name` in the frame `dist` links out from `start`,
    /// which binds it.
    pub fn get_at(frames: &Vec<Environment>, start: usize, dist: usize, name: &Token) -> (r: Result<
        Value,
        RuntimeException,
    >)
        requires
            lookup_at(frame_models(frames@), start as nat, dist as nat, name@.lexeme) is Some,
        ensures
            match r {
                Ok(v) => lookup_at(frame_models(frames@), start as nat, dist as nat, name@.lexeme)
                    == Some(v.model()),
                Err(_) => false,
            },
    {
        match Environment::ancestor(frames, start, dist) {
            Some(f) => match frames[f].values.get(name.lexeme.as_str()) {
                Some(v) => Ok(v.clone()),
                None => Err(RuntimeException::undefined(name)),
            },
            None => Err(RuntimeException::undefined(name)),
        }
    }

    /// Whether the frame `dist` links out from `start` exists and binds
    /// `name`.
    pub fn has_at(frames: &Vec<Environment>, start: usize, dist: usize, name: &Token) -> (r: bool)
        ensures
            r == (lookup_at(frame_models(frames@), start as nat, dist as nat, name@.lexeme)
                is Some),
    {
        match Environment::ancestor(frames, start, dist) {
            Some(f) => frames[f].values.contains_key(name.lexeme.as_str()),
            None => false,
        }
    }

    /// Binds `t` in the frame `dist` links out from `start`, which exists.
    pub fn assign_at(frames: &mut Vec<Environment>, start: usize, dist: usize, t: &Token, val: Value)
        requires
            ancestor(frame_models(old(frames)@), start as nat, dist as nat) is Some,
        ensures
            frame_models(final(frames)@) == bind(
                frame_models(old(frames)@),
                ancestor(frame_models(old(frames)@), start as nat, dist as nat)->0,
                t@.lexeme,
                val.model(),
            ),
            final(frames)@.len() == old(frames)@.len(),
    {
        match Environment::ancestor(frames, start, dist) {
            Some(f) => {
                Environment::define_in(frames, f, t.lexeme.as_str(), val);
            },
            None => {},
        }
    }
}

/// A name has a value from `start` exactly where a frame of that chain
/// binds it, and the value is that frame's.
pub proof fn lemma_lookup_binder(frames: Seq<FrameModel>, start: nat, name: Seq<char>)
    ensures
        match binder(frames, start, name) {
            Some(f) => f < frames.len() && frames[f as int].values.contains_key(name) && lookup(
                frames,
                start,
                name,
            ) == Some(frames[f as int].values[name]),
            None => lookup(frames, start, name) is None,
        },
    decreases start,
{
    if start < frames.len() && !frames[start as int].values.contains_key(name) {
        match frames[start as int].enclosing {
            Some(p) => {
                if p < start {
                    lemma_lookup_binder(frames, p, name);
                }
            },
            None => {},
        }
    }
}

} // verus!
