//! Lexically nested variable bindings.
//!
//! An environment is a frame of name-to-value bindings with an optional
//! owned parent; the chain of parents models nested scopes, the root
//! being the global scope.  Its mathematical model is the sequence of
//! frames from the root (first) to the current frame (last), each frame
//! a sequence of bindings in which the latest binding of a name wins.

use vstd::prelude::*;
use crate::value::{Value, ValV};
use crate::error::RuntimeError;
use crate::text::str_eq_str;

verus! {

/// The model of one scope frame: its bindings, oldest first.
pub type FrameV = Seq<(Seq<char>, ValV)>;

/// A scope: bindings of this frame, plus the enclosing scope if any.
pub struct Environment {
    values: Vec<(String, Value)>,
    parent: Option<Box<Environment>>,
}

/// The model of a frame's binding list.
pub open spec fn frame_view(vs: Seq<(String, Value)>) -> FrameV {
    vs.map(|i: int, p: (String, Value)| (p.0@, p.1@))
}

/// The chain of frames of an environment, root first.
pub closed spec fn env_chain(e: Environment) -> Seq<FrameV>
    decreases e,
{
    match e.parent {
        Option::None => seq![frame_view(e.values@)],
        Option::Some(p) => env_chain(*p) + seq![frame_view(e.values@)],
    }
}

impl View for Environment {
    type V = Seq<FrameV>;

    closed spec fn view(&self) -> Seq<FrameV> {
        env_chain(*self)
    }
}

/// Looks a name up in one frame; the latest binding wins.
pub open spec fn frame_get(f: FrameV, name: Seq<char>) -> Option<ValV>
    decreases f.len(),
{
    if f.len() == 0 {
        Option::None
    } else if f.last().0 == name {
        Option::Some(f.last().1)
    } else {
        frame_get(f.drop_last(), name)
    }
}

/// Looks a name up along the chain; inner frames shadow outer ones.
pub open spec fn chain_get(c: Seq<FrameV>, name: Seq<char>) -> Option<ValV>
    decreases c.len(),
{
    if c.len() == 0 {
        Option::None
    } else {
        match frame_get(c.last(), name) {
            Option::Some(v) => Option::Some(v),
            Option::None => chain_get(c.drop_last(), name),
        }
    }
}

/// Overwrites the latest binding of a name in one frame, if there is one.
pub open spec fn frame_assign(f: FrameV, name: Seq<char>, v: ValV) -> Option<FrameV>
    decreases f.len(),
{
    if f.len() == 0 {
        Option::None
    } else if f.last().0 == name {
        Option::Some(f.drop_last().push((name, v)))
    } else {
        match frame_assign(f.drop_last(), name, v) {
            Option::Some(g) => Option::Some(g.push(f.last())),
            Option::None => Option::None,
        }
    }
}

/// Overwrites the binding of a name in the innermost frame that has one.
pub open spec fn chain_assign(c: Seq<FrameV>, name: Seq<char>, v: ValV) -> Option<Seq<FrameV>>
    decreases c.len(),
{
    if c.len() == 0 {
        Option::None
    } else {
        match frame_assign(c.last(), name, v) {
            Option::Some(g) => Option::Some(c.drop_last().push(g)),
            Option::None => match chain_assign(c.drop_last(), name, v) {
                Option::Some(d) => Option::Some(d.push(c.last())),
                Option::None => Option::None,
            },
        }
    }
}

/// The chain that results from binding a name in the current frame.
pub open spec fn chain_define(c: Seq<FrameV>, name: Seq<char>, v: ValV) -> Seq<FrameV> {
    c.drop_last().push(c.last().push((name, v)))
}

impl Environment {
    /// A fresh scope, global when `parent` is `None`, nested otherwise.
    pub fn new(parent: Option<Box<Environment>>) -> (r: Self)
        ensures
            r@ == match parent {
                Option::None => seq![Seq::<(Seq<char>, ValV)>::empty()],
                Option::Some(p) => p@ + seq![Seq::<(Seq<char>, ValV)>::empty()],
            },
    {
        let r = Environment { values: Vec::new(), parent };
        proof {
            assert(frame_view(Seq::<(String, Value)>::empty()) =~= Seq::<(
                Seq<char>,
                ValV,
            )>::empty());
        }
        r
    }

    /// Gives the nested scope up, yielding the enclosing one; every
    /// change made to outer frames while this scope was current is kept.
    pub fn into_parent(self) -> (r: Option<Box<Environment>>)
        ensures
            self@.len() > 1 ==> (r matches Option::Some(p) && p@ == self@.drop_last()),
            self@.len() <= 1 ==> r is None,
    {
        proof {
            match &self.parent {
                Option::Some(p) => {
                    lemma_env_chain_nonempty(**p);
                    assert(env_chain(self).drop_last() =~= env_chain(**p));
                },
                Option::None => {
                    assert(env_chain(self).len() == 1);
                },
            }
        }
        self.parent
    }

    /// Binds a name in the current frame, shadowing any outer binding
    /// and superseding any earlier binding in this frame.
    pub fn define(&mut self, name: &String, value: Value)
        ensures
            final(self)@ == chain_define(old(self)@, name@, value@),
    {
        self.values.push((name.clone(), value));
        proof {
            assert(frame_view(self.values@).drop_last() =~= frame_view(
                old(self).values@,
            ));
            assert(frame_view(self.values@) =~= frame_view(old(self).values@).push(
                (name@, value@),
            ));
            if old(self).parent is Some {
                assert(env_chain(*old(self)).drop_last() =~= env_chain(
                    *old(self).parent.unwrap(),
                ));
                assert(env_chain(*self) =~= chain_define(env_chain(*old(self)), name@, value@));
            } else {
                assert(env_chain(*self) =~= chain_define(env_chain(*old(self)), name@, value@));
            }
        }
    }

    /// Searches this frame, newest binding first.
    fn get_local(&self, name: &String) -> (r: Option<Value>)
        ensures
            match r {
                Option::Some(v) => frame_get(frame_view(self.values@), name@) == Option::Some(v@),
                Option::None => frame_get(frame_view(self.values@), name@) is None,
            },
    {
        let ghost fv = frame_view(self.values@);
        proof {
            assert(fv.take(self.values@.len() as int) =~= fv);
        }
        let mut i: usize = self.values.len();
        while i > 0
            invariant
                i <= self.values.len(),
                fv == frame_view(self.values@),
                fv.len() == self.values@.len(),
                frame_get(fv, name@) == frame_get(fv.take(i as int), name@),
            decreases i,
        {
            let pair = &self.values[i - 1];
            proof {
                assert(fv[i - 1] == (self.values@[i - 1].0@, self.values@[i - 1].1@));
                assert(fv.take(i as int).last() == fv[i - 1]);
                assert(fv.take(i as int).drop_last() =~= fv.take(i - 1));
            }
            if str_eq_str(pair.0.as_str(), name.as_str()) {
                return Option::Some(pair.1.clone());
            }
            i = i - 1;
        }
        proof {
            assert(fv.take(0) =~= Seq::<(Seq<char>, ValV)>::empty());
        }
        Option::None
    }

    /// Looks a name up, trying enclosing scopes outwards; fails exactly
    /// when no scope in the chain binds the name.
    pub fn get(&self, name: &String) -> (r: Result<Value, RuntimeError>)
        ensures
            match r {
                Result::Ok(v) => chain_get(self@, name@) == Option::Some(v@),
                Result::Err(_) => chain_get(self@, name@) is None,
            },
        decreases *self,
    {
        proof {
            lemma_env_chain_nonempty(*self);
            assert(self@.last() == frame_view(self.values@));
            match &self.parent {
                Option::Some(p) => {
                    assert(self@.drop_last() =~= env_chain(**p));
                },
                Option::None => {
                    assert(self@.drop_last() =~= Seq::<FrameV>::empty());
                },
            }
        }
        match self.get_local(name) {
            Option::Some(v) => {
                proof {
                    assert(chain_get(self@, name@) == Option::Some(v@));
                }
                Result::Ok(v)
            },
            Option::None => match &self.parent {
                Option::Some(p) => {
                    let r = p.get(name);
                    proof {
                        assert(chain_get(self@, name@) == chain_get(env_chain(**p), name@));
                    }
                    r
                },
                Option::None => {
                    proof {
                        assert(chain_get(self@, name@) is None);
                    }
                    Result::Err(RuntimeError {})
                },
            },
        }
    }

    /// Overwrites the binding of a name in the innermost scope that has
    /// one; fails exactly when no scope binds the name, and then changes
    /// nothing.
    pub fn assign(&mut self, name: &String, value: &Value) -> (r: Result<(), RuntimeError>)
        ensures
            match r {
                Result::Ok(_) => chain_assign(old(self)@, name@, value@) == Option::Some(
                    final(self)@,
                ),
                Result::Err(_) => chain_assign(old(self)@, name@, value@) is None && final(self)@
                    == old(self)@,
            },
        decreases *old(self),
    {
        let ghost c0 = self@;
        proof {
            lemma_env_chain_nonempty(*old(self));
            assert(c0.last() == frame_view(old(self).values@));
            match &old(self).parent {
                Option::Some(p) => {
                    assert(c0.drop_last() =~= env_chain(**p));
                },
                Option::None => {
                    assert(c0.drop_last() =~= Seq::<FrameV>::empty());
                },
            }
        }
        let found = self.assign_local(name, value);
        if found {
            proof {
                assert(env_chain(*self).last() == frame_view(self.values@));
                match &self.parent {
                    Option::Some(p) => {
                        assert(env_chain(*self).drop_last() =~= env_chain(**p));
                    },
                    Option::None => {},
                }
                assert(env_chain(*self) =~= c0.drop_last().push(frame_view(self.values@)));
            }
            Result::Ok(())
        } else {
            let mut par: Option<Box<Environment>> = Option::None;
            core::mem::swap(&mut self.parent, &mut par);
            match par {
                Option::Some(mut pbox) => {
                    let r = pbox.assign(name, value);
                    self.parent = Option::Some(pbox);
                    proof {
                        assert(env_chain(*self).last() == frame_view(self.values@));
                        assert(env_chain(*self).drop_last() =~= env_chain(
                            *self.parent.unwrap(),
                        ));
                        if r is Ok {
                            assert(env_chain(*self) =~= chain_assign(
                                c0,
                                name@,
                                value@,
                            ).unwrap());
                        } else {
                            assert(env_chain(*self) =~= c0);
                        }
                    }
                    r
                },
                Option::None => {
                    self.parent = Option::None;
                    proof {
                        assert(env_chain(*self) =~= c0);
                        assert(chain_assign(c0, name@, value@) is None);
                    }
                    Result::Err(RuntimeError {})
                },
            }
        }
    }

    /// Overwrites the newest binding of a name in this frame alone,
    /// reporting whether one was found.
    fn assign_local(&mut self, name: &String, value: &Value) -> (found: bool)
        ensures
            final(self).parent == old(self).parent,
            found ==> frame_assign(frame_view(old(self).values@), name@, value@) == Option::Some(
                frame_view(final(self).values@),
            ),
            !found ==> frame_assign(frame_view(old(self).values@), name@, value@) is None
                && final(self).values@ == old(self).values@,
    {
        let ghost fv0 = frame_view(self.values@);
        proof {
            assert(fv0.take(fv0.len() as int) =~= fv0);
            assert(fv0.skip(fv0.len() as int) =~= Seq::<(Seq<char>, ValV)>::empty());
            match frame_assign(fv0, name@, value@) {
                Option::Some(g) => {
                    assert(g + fv0.skip(fv0.len() as int) =~= g);
                },
                Option::None => {},
            }
        }
        let mut i: usize = self.values.len();
        while i > 0
            invariant
                i <= self.values.len(),
                self.parent == old(self).parent,
                self.values@ == old(self).values@,
                fv0 == frame_view(self.values@),
                fv0.len() == self.values@.len(),
                frame_assign(fv0, name@, value@) == frame_assign_partial(
                    fv0,
                    i as int,
                    name@,
                    value@,
                ),
            decreases i,
        {
            proof {
                assert(fv0[i - 1] == (self.values@[i - 1].0@, self.values@[i - 1].1@));
                assert(fv0.take(i as int).last() == fv0[i - 1]);
                assert(fv0.take(i as int).drop_last() =~= fv0.take(i - 1));
            }
            let name_matches = {
                let pair = &self.values[i - 1];
                str_eq_str(pair.0.as_str(), name.as_str())
            };
            if name_matches {
                proof {
                    lemma_frame_assign_found(fv0, i as int, name@, value@);
                }
                self.values[i - 1] = (name.clone(), value.clone());
                proof {
                    assert(frame_view(self.values@) =~= fv0.update(i - 1, (name@, value@)));
                }
                return true;
            }
            proof {
                assert(fv0.skip(i - 1) =~= seq![fv0[i - 1]] + fv0.skip(i as int));
                match frame_assign(fv0.take(i - 1), name@, value@) {
                    Option::Some(h) => {
                        assert(h.push(fv0[i - 1]) + fv0.skip(i as int) =~= h + fv0.skip(i - 1));
                    },
                    Option::None => {},
                }
            }
            i = i - 1;
        }
        proof {
            assert(fv0.take(0) =~= Seq::<(Seq<char>, ValV)>::empty());
        }
        false
    }
}

/// What `frame_assign` yields once the bindings at positions `i` and
/// above are known not to bind `name`.
pub open spec fn frame_assign_partial(f: FrameV, i: int, name: Seq<char>, v: ValV) -> Option<
    FrameV,
> {
    match frame_assign(f.take(i), name, v) {
        Option::Some(g) => Option::Some(g + f.skip(i)),
        Option::None => Option::None,
    }
}

/// A name can be overwritten in a frame exactly when it can be read.
pub proof fn lemma_frame_get_assign(f: FrameV, name: Seq<char>, v: ValV)
    ensures
        frame_get(f, name) is Some <==> frame_assign(f, name, v) is Some,
    decreases f.len(),
{
    if f.len() > 0 && f.last().0 != name {
        lemma_frame_get_assign(f.drop_last(), name, v);
    }
}

/// A name can be overwritten in a chain exactly when it can be read.
pub proof fn lemma_chain_get_assign(c: Seq<FrameV>, name: Seq<char>, v: ValV)
    ensures
        chain_get(c, name) is Some <==> chain_assign(c, name, v) is Some,
    decreases c.len(),
{
    if c.len() > 0 {
        lemma_frame_get_assign(c.last(), name, v);
        if frame_get(c.last(), name) is None {
            lemma_chain_get_assign(c.drop_last(), name, v);
        }
    }
}

/// Overwriting a binding changes no frame's length and no frame's names.
pub proof fn lemma_frame_assign_shape(f: FrameV, name: Seq<char>, v: ValV)
    ensures
        frame_assign(f, name, v) matches Option::Some(g) ==> g.len() == f.len() && forall|i: int|
            0 <= i < f.len() ==> (#[trigger] g[i]).0 == f[i].0,
    decreases f.len(),
{
    if f.len() > 0 {
        if f.last().0 == name {
        } else {
            lemma_frame_assign_shape(f.drop_last(), name, v);
        }
    }
}

/// Assignment keeps the shape of the chain: as many frames, each with
/// the same names in the same order.
pub proof fn lemma_chain_assign_shape(c: Seq<FrameV>, name: Seq<char>, v: ValV)
    ensures
        chain_assign(c, name, v) matches Option::Some(d) ==> d.len() == c.len() && forall|i: int|
            0 <= i < c.len() ==> (#[trigger] d[i]).len() == c[i].len() && forall|j: int|
                0 <= j < c[i].len() ==> d[i][j].0 == c[i][j].0,
    decreases c.len(),
{
    if c.len() > 0 {
        lemma_frame_assign_shape(c.last(), name, v);
        if frame_assign(c.last(), name, v) is None {
            lemma_chain_assign_shape(c.drop_last(), name, v);
        }
    }
}

/// Every environment chain holds at least the global frame.
pub proof fn lemma_env_chain_nonempty(e: Environment)
    ensures
        env_chain(e).len() >= 1,
        e@.len() >= 1,
    decreases e,
{
    match e.parent {
        Option::Some(p) => {
            lemma_env_chain_nonempty(*p);
        },
        Option::None => {},
    }
}

proof fn lemma_frame_assign_found(f: FrameV, i: int, name: Seq<char>, v: ValV)
    requires
        0 < i <= f.len(),
        f[i - 1].0 == name,
        frame_assign(f, name, v) == frame_assign_partial(f, i, name, v),
    ensures
        frame_assign(f, name, v) == Option::Some(f.update(i - 1, (name, v))),
{
    assert(f.take(i).last() == f[i - 1]);
    assert(f.take(i).drop_last() =~= f.take(i - 1));
    assert(frame_assign(f.take(i), name, v) == Option::Some(
        f.take(i - 1).push((name, v)),
    ));
    assert(f.take(i - 1).push((name, v)) + f.skip(i) =~= f.update(i - 1, (name, v)));
}

} // verus!
