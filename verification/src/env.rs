//! Static scopes, which resolution walks, and the environments that mirror
//! them at evaluation time.

use crate::attr_set::{Bindings, ValueRef};
use crate::nix_expr::Expr;
use crate::symbol_table::Symbol;
use std::collections::HashMap;
use vstd::prelude::*;

verus! {

/// A variable's environment level: the number of frames between a reference
/// and the frame it refers to.
#[derive(Clone, Copy, Debug, PartialEq, Eq, Structural)]
pub struct Level(pub usize);

/// A variable's displacement within an environment level.
#[derive(Clone, Copy, Debug, PartialEq, Eq, Structural)]
pub struct Displ(pub usize);

impl From<usize> for Level {
    fn from(level: usize) -> (r: Level) {
        Level(level)
    }
}

impl vstd::std_specs::convert::FromSpecImpl<usize> for Level {
    open spec fn obeys_from_spec() -> bool {
        true
    }

    open spec fn from_spec(level: usize) -> Level {
        Level(level)
    }
}

impl From<Level> for usize {
    fn from(level: Level) -> (r: usize) {
        level.0
    }
}

impl vstd::std_specs::convert::FromSpecImpl<Level> for usize {
    open spec fn obeys_from_spec() -> bool {
        true
    }

    open spec fn from_spec(level: Level) -> usize {
        level.0
    }
}

impl From<usize> for Displ {
    fn from(displ: usize) -> (r: Displ) {
        Displ(displ)
    }
}

impl vstd::std_specs::convert::FromSpecImpl<usize> for Displ {
    open spec fn obeys_from_spec() -> bool {
        true
    }

    open spec fn from_spec(displ: usize) -> Displ {
        Displ(displ)
    }
}

impl From<Displ> for usize {
    fn from(displ: Displ) -> (r: usize) {
        displ.0
    }
}

impl vstd::std_specs::convert::FromSpecImpl<Displ> for usize {
    open spec fn obeys_from_spec() -> bool {
        true
    }

    open spec fn from_spec(displ: Displ) -> usize {
        displ.0
    }
}

/// The index of an environment in the evaluator's state.
pub type EnvRef = usize;

/// The names that a static scope binds, each with its displacement.
pub type Vars = HashMap<Symbol, Displ>;

/// One frame of the static scope chain.
pub struct StaticEnv<'a> {
    /// Whether the frame stands for a `with`. Such a frame binds no names:
    /// what it defines is known at evaluation time only.
    pub is_with: bool,
    /// The frame around this one.
    pub up: Option<&'a StaticEnv<'a>>,
    pub vars: Vars,
}

/// What a static frame says: whether it stands for a `with`, and the names
/// it binds.
pub struct StaticFrame {
    pub is_with: bool,
    pub vars: Map<Symbol, Displ>,
}

/// Where a name is found from a chain of static frames.
pub enum Resolution {
    /// In the frame `level` frames up, at `displ`.
    Bound { level: nat, displ: Displ },
    /// In no frame; to be looked up at evaluation time, starting at the
    /// `with` frame `level` frames up.
    FromWith { level: nat },
    /// In no frame, with no `with` around.
    Unbound,
}

/// The innermost frame of `frames` that binds `name`, with the displacement
/// it gives.
pub open spec fn innermost_binding(frames: Seq<StaticFrame>, name: Symbol) -> Option<(nat, Displ)>
    decreases frames.len(),
{
    if frames.len() == 0 {
        None
    } else if frames[0].vars.contains_key(name) {
        Some((0, frames[0].vars[name]))
    } else {
        match innermost_binding(frames.drop_first(), name) {
            Some((level, displ)) => Some((level + 1, displ)),
            None => None,
        }
    }
}

/// The level of the innermost `with` frame of `frames`.
pub open spec fn nearest_with(frames: Seq<StaticFrame>) -> Option<nat>
    decreases frames.len(),
{
    if frames.len() == 0 {
        None
    } else if frames[0].is_with {
        Some(0)
    } else {
        match nearest_with(frames.drop_first()) {
            Some(level) => Some(level + 1),
            None => None,
        }
    }
}

/// Where `name` is found from the chain `frames`, innermost frame first:
/// in the innermost frame that binds it; failing that, through the nearest
/// `with`; failing that, nowhere.
pub open spec fn resolve(frames: Seq<StaticFrame>, name: Symbol) -> Resolution {
    match innermost_binding(frames, name) {
        Some((level, displ)) => Resolution::Bound { level, displ },
        None => match nearest_with(frames) {
            Some(level) => Resolution::FromWith { level },
            None => Resolution::Unbound,
        },
    }
}

/// The names that the frames of a chain bind.
pub open spec fn bound_names(frames: Seq<StaticFrame>) -> Set<Symbol> {
    Set::new(
        |name: Symbol| exists|i: int| 0 <= i < frames.len() && #[trigger] frames[i].vars.contains_key(name),
    )
}

/// Whether a chain holds the frame of a `with`.
pub open spec fn has_with(frames: Seq<StaticFrame>) -> bool {
    exists|i: int| 0 <= i < frames.len() && #[trigger] frames[i].is_with
}

/// A name is bound in a chain exactly if some frame of the chain binds it,
/// and the level found lies within the chain.
pub proof fn lemma_innermost_binding(frames: Seq<StaticFrame>, name: Symbol)
    ensures
        innermost_binding(frames, name) is Some <==> bound_names(frames).contains(name),
        innermost_binding(frames, name) matches Some((level, displ)) ==> level < frames.len()
            && frames[level as int].vars.contains_key(name) && frames[level as int].vars[name]
            == displ && forall|j: int| 0 <= j < level ==> !frames[j].vars.contains_key(name),
    decreases frames.len(),
{
    if frames.len() == 0 {
    } else if frames[0].vars.contains_key(name) {
    } else {
        let rest = frames.drop_first();
        lemma_innermost_binding(rest, name);
        if bound_names(frames).contains(name) {
            let i = choose|i: int| 0 <= i < frames.len() && #[trigger] frames[i].vars.contains_key(name);
            assert(rest[i - 1].vars.contains_key(name));
        }
        if bound_names(rest).contains(name) {
            let i = choose|i: int| 0 <= i < rest.len() && #[trigger] rest[i].vars.contains_key(name);
            assert(frames[i + 1].vars.contains_key(name));
        }
        match innermost_binding(rest, name) {
            Some((level, displ)) => {
                assert(frames[level as int + 1] == rest[level as int]);
                assert forall|j: int| 0 <= j < level + 1 implies !frames[j].vars.contains_key(
                    name,
                ) by {
                    if j > 0 {
                        assert(frames[j] == rest[j - 1]);
                    }
                }
            },
            None => {},
        }
    }
}

/// A chain has a nearest `with` exactly if it holds the frame of a `with`,
/// and the level found is that of the innermost such frame.
pub proof fn lemma_nearest_with(frames: Seq<StaticFrame>)
    ensures
        nearest_with(frames) is Some <==> has_with(frames),
        nearest_with(frames) matches Some(level) ==> level < frames.len()
            && frames[level as int].is_with && forall|j: int| 0 <= j < level ==> !frames[j].is_with,
    decreases frames.len(),
{
    if frames.len() == 0 {
    } else if frames[0].is_with {
    } else {
        let rest = frames.drop_first();
        lemma_nearest_with(rest);
        if has_with(frames) {
            let i = choose|i: int| 0 <= i < frames.len() && #[trigger] frames[i].is_with;
            assert(rest[i - 1].is_with);
        }
        if has_with(rest) {
            let i = choose|i: int| 0 <= i < rest.len() && #[trigger] rest[i].is_with;
            assert(frames[i + 1].is_with);
        }
        match nearest_with(rest) {
            Some(level) => {
                assert(frames[level as int + 1] == rest[level as int]);
                assert forall|j: int| 0 <= j < level + 1 implies !frames[j].is_with by {
                    if j > 0 {
                        assert(frames[j] == rest[j - 1]);
                    }
                }
            },
            None => {},
        }
    }
}

/// A name resolves from a chain exactly if the chain binds it or holds the
/// frame of a `with`.
pub proof fn lemma_resolve_total(frames: Seq<StaticFrame>, name: Symbol)
    ensures
        !(resolve(frames, name) is Unbound) <==> (bound_names(frames).contains(name) || has_with(
            frames,
        )),
{
    lemma_innermost_binding(frames, name);
    lemma_nearest_with(frames);
}

impl<'a> StaticEnv<'a> {
    /// What this frame says.
    pub open spec fn frame(&self) -> StaticFrame {
        StaticFrame { is_with: self.is_with, vars: self.vars@ }
    }

    /// The chain that begins at this frame, innermost frame first.
    pub open spec fn frames(&self) -> Seq<StaticFrame>
        decreases self,
    {
        match self.up {
            Some(up) => seq![self.frame()] + up.frames(),
            None => seq![self.frame()],
        }
    }

    /// The number of frames of the chain.
    pub open spec fn depth(&self) -> nat {
        self.frames().len()
    }
}

/// The frames of a chain after the first are the chain of the frame around
/// its first frame.
pub proof fn lemma_frames_step(env: &StaticEnv)
    ensures
        env.frames().len() >= 1,
        env.frames()[0] == env.frame(),
        env.frames().skip(1) == chain_from(env.up),
{
    assert(env.frames().skip(1) =~= chain_from(env.up));
}

impl<'a> StaticEnv<'a> {
    /// The number of frames of the chain, if the machine's integers can
    /// hold it.
    pub fn chain_len(&self) -> (n: Option<usize>)
        ensures
            match n {
                Some(k) => k == self.depth(),
                None => self.depth() > usize::MAX,
            },
    {
        let mut count: usize = 1;
        let mut cur: Option<&StaticEnv> = self.up;
        proof {
            lemma_frames_step(self);
            assert(self.frames().len() == 1 + self.frames().skip(1).len());
        }
        loop
            invariant
                count >= 1,
                count + chain_from(cur).len() == self.depth(),
            decreases chain_from(cur).len(),
        {
            match cur {
                None => {
                    return Some(count);
                },
                Some(frame) => {
                    proof {
                        lemma_frames_step(frame);
                        assert(frame.frames().len() == 1 + frame.frames().skip(1).len());
                    }
                    if count == usize::MAX {
                        return None;
                    }
                    count += 1;
                    cur = frame.up;
                },
            }
        }
    }
}

/// The chain that begins at `env`, which is empty where there is no frame.
pub open spec fn chain_from(env: Option<&StaticEnv>) -> Seq<StaticFrame> {
    match env {
        Some(env) => env.frames(),
        None => Seq::empty(),
    }
}

/// A frame of a static chain as the walk over the chain hands it out.
pub struct StaticEnvLevel<'a> {
    pub env: &'a StaticEnv<'a>,
    /// How many frames the walk has left behind.
    pub level: Level,
    /// The level of the first `with` frame that the walk has met, this
    /// frame included.
    pub with_level: Option<Level>,
}

/// A walk over a static chain, from the innermost frame outwards.
pub struct StaticEnvIter<'a> {
    pub cur_env: Option<&'a StaticEnv<'a>>,
    pub level: Level,
    pub with_level: Option<Level>,
}

impl<'a> StaticEnvIter<'a> {
    /// A walk that begins at `env`.
    pub fn new(env: &'a StaticEnv<'a>) -> (iter: StaticEnvIter<'a>)
        ensures
            iter.cur_env == Some(env),
            iter.level == Level(0),
            iter.with_level is None,
    {
        StaticEnvIter { cur_env: Some(env), level: Level(0), with_level: None }
    }

    /// Hands out the frame the walk stands at and steps to the frame around
    /// it; hands out nothing, and changes nothing, where the chain has
    /// ended.
    pub fn next(&mut self) -> (item: Option<StaticEnvLevel<'a>>)
        requires
            old(self).cur_env is Some ==> old(self).level.0 < usize::MAX,
        ensures
            match old(self).cur_env {
                None => item is None && *final(self) == *old(self),
                Some(env) => {
                    let with_level = if env.is_with && old(self).with_level is None {
                        Some(old(self).level)
                    } else {
                        old(self).with_level
                    };
                    &&& item == Some(
                        StaticEnvLevel { env, level: old(self).level, with_level },
                    )
                    &&& *final(self) == (StaticEnvIter {
                        cur_env: env.up,
                        level: Level((old(self).level.0 + 1) as usize),
                        with_level,
                    })
                },
            },
    {
        match self.cur_env {
            None => None,
            Some(env) => {
                if env.is_with && self.with_level.is_none() {
                    self.with_level = Some(self.level);
                }
                let item = StaticEnvLevel { env, level: self.level, with_level: self.with_level };
                self.cur_env = env.up;
                self.level = Level(self.level.0 + 1);
                Some(item)
            },
        }
    }
}

/// One frame of the runtime environment chain.
pub struct Env<'a> {
    /// The frame around this one.
    pub up: Option<EnvRef>,
    /// For the frame of a `with`: how many frames lie between it and the
    /// frame of the nearest `with` around it; zero if there is none.
    pub prev_with: Level,
    pub values: EnvInner<'a>,
}

/// What a frame holds.
pub enum EnvInner<'a> {
    /// The slots of the variables of the frame, by displacement.
    Plain(Vec<ValueRef>),
    /// The attribute set expression of a `with`, not yet evaluated.
    HasWithExpr(&'a Expr),
    /// The attribute set of a `with`. A frame that has come to hold its
    /// attribute set never goes back to holding the expression.
    HasWithAttrs(Bindings),
}

/// An environment of a runtime chain as the walk over the chain hands it
/// out.
#[derive(Clone, Copy, Debug, PartialEq, Eq, Structural)]
pub struct EnvLevel {
    pub env: EnvRef,
    /// How many frames the walk has left behind.
    pub level: Level,
}

/// A walk over a runtime chain, from an environment outwards.
pub struct EnvIter {
    pub cur_env: Option<EnvRef>,
    pub level: Level,
}

impl EnvIter {
    /// A walk that begins at `env`.
    pub fn new(env: EnvRef) -> (iter: EnvIter)
        ensures
            iter.cur_env == Some(env),
            iter.level == Level(0),
    {
        EnvIter { cur_env: Some(env), level: Level(0) }
    }

    /// Hands out the environment the walk stands at and steps to the one
    /// around it, as `envs` gives it; hands out nothing, and changes
    /// nothing, where the chain has ended or leaves `envs`.
    pub fn next(&mut self, envs: &Vec<Env>) -> (item: Option<EnvLevel>)
        requires
            old(self).cur_env matches Some(env) && env < envs@.len() ==> old(self).level.0
                < usize::MAX,
        ensures
            match old(self).cur_env {
                Some(env) if env < envs@.len() => {
                    &&& item == Some(EnvLevel { env, level: old(self).level })
                    &&& final(self).cur_env == envs@[env as int].up
                    &&& final(self).level == Level((old(self).level.0 + 1) as usize)
                },
                _ => item is None && *final(self) == *old(self),
            },
    {
        match self.cur_env {
            Some(env) => {
                if env < envs.len() {
                    let item = EnvLevel { env, level: self.level };
                    self.cur_env = envs[env].up;
                    self.level = Level(self.level.0 + 1);
                    Some(item)
                } else {
                    None
                }
            },
            None => None,
        }
    }
}

} // verus!
