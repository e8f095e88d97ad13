//! What every expression node offers: resolution, evaluation, deferral.

use crate::attr_set::ValueRef;
use crate::env::{EnvRef, StaticEnv, StaticFrame};
use crate::err::NixResult;
use crate::eval::EvalState;
use crate::heap::Heap;
use crate::nix_expr::Expr;
use crate::pos::Pos;
use crate::resolve::{annotated, fits, outcome, resolved, unbound};
use crate::semantics;
use crate::semantics::Step;
use crate::symbol_table::Symbol;
use vstd::prelude::*;

verus! {

/// The operations of an expression node.
pub trait ExprExt: Sized {
    /// Whether the scopes of the node can be counted on top of `depth`
    /// frames.
    spec fn fits_on(&self, depth: nat) -> bool;

    /// The first free variable of the node within `frames`.
    spec fn first_unbound(&self, frames: Seq<StaticFrame>) -> Option<(Symbol, Pos)>;

    /// Whether `after` is the node as resolution within `frames` leaves
    /// it.
    spec fn resolved_to(&self, after: &Self, frames: Seq<StaticFrame>) -> bool;

    /// Whether `after` is the node up to what resolution writes into it.
    spec fn annotated_as(&self, after: &Self) -> bool;

    /// What evaluation of the node in `env` gives, from the state `h`.
    spec fn evaluation<'a>(&'a self, h: Heap<'a>, env: EnvRef, d: nat) -> Step<'a, ValueRef>;

    /// The slot that stands for the node in `env`, unevaluated.
    spec fn deferral<'a>(&'a self, h: Heap<'a>, env: EnvRef) -> (Heap<'a>, ValueRef);

    /// The node with `name` stored as the name of its function, if it is
    /// one.
    spec fn named(&self, name: Symbol) -> Self;

    /// Resolves the variables of the node against the static chain that
    /// begins at `env`. Whether it succeeds or fails, the node stays the
    /// tree that it was, up to what resolution writes.
    fn bind_vars(&mut self, env: &StaticEnv) -> (r: NixResult<()>)
        requires
            old(self).fits_on(env.depth()),
        ensures
            r == outcome(old(self).first_unbound(env.frames())),
            r is Ok ==> old(self).resolved_to(final(self), env.frames()),
            old(self).annotated_as(final(self)),
    ;

    /// Evaluates the node in `env`.
    fn eval<'a>(&'a self, state: &mut EvalState<'a>, env: EnvRef, depth: usize) -> (r: NixResult<
        ValueRef,
    >)
        requires
            old(state).wf(),
        ensures
            final(state).wf(),
            (final(state)@, r) == self.evaluation(old(state)@, env, depth as nat),
    ;

    /// The slot that stands for the node in `env`, unevaluated.
    fn maybe_thunk<'a>(&'a self, state: &mut EvalState<'a>, env: EnvRef) -> (slot: ValueRef)
        requires
            old(state).wf(),
        ensures
            final(state).wf(),
            (final(state)@, slot) == self.deferral(old(state)@, env),
    ;

    /// Stores `name` as the name of the function, if the node is one.
    fn set_name(&mut self, name: Symbol)
        ensures
            *final(self) == old(self).named(name),
    ;
}

impl ExprExt for Expr {
    open spec fn fits_on(&self, depth: nat) -> bool {
        fits(*self, depth)
    }

    open spec fn first_unbound(&self, frames: Seq<StaticFrame>) -> Option<(Symbol, Pos)> {
        unbound(*self, frames)
    }

    open spec fn resolved_to(&self, after: &Self, frames: Seq<StaticFrame>) -> bool {
        resolved(*self, *after, frames)
    }

    open spec fn annotated_as(&self, after: &Self) -> bool {
        annotated(*self, *after)
    }

    open spec fn evaluation<'a>(&'a self, h: Heap<'a>, env: EnvRef, d: nat) -> Step<'a, ValueRef> {
        semantics::eval(h, env, self, d)
    }

    open spec fn deferral<'a>(&'a self, h: Heap<'a>, env: EnvRef) -> (Heap<'a>, ValueRef) {
        semantics::maybe_thunk(h, env, self)
    }

    open spec fn named(&self, name: Symbol) -> Self {
        match *self {
            Expr::Lambda(l) => Expr::Lambda(
                crate::nix_expr::ExprLambda {
                    pos: l.pos,
                    name,
                    arg: l.arg,
                    match_attrs: l.match_attrs,
                    formals: l.formals,
                    body: l.body,
                },
            ),
            _ => *self,
        }
    }

    fn bind_vars(&mut self, env: &StaticEnv) -> (r: NixResult<()>) {
        Expr::bind_vars(self, env)
    }

    fn eval<'a>(&'a self, state: &mut EvalState<'a>, env: EnvRef, depth: usize) -> (r: NixResult<
        ValueRef,
    >) {
        state.eval(env, self, depth)
    }

    fn maybe_thunk<'a>(&'a self, state: &mut EvalState<'a>, env: EnvRef) -> (slot: ValueRef) {
        state.maybe_thunk(env, self)
    }

    fn set_name(&mut self, name: Symbol) {
        match self {
            Expr::Lambda(l) => {
                l.name = name;
            },
            _ => {},
        }
    }
}

} // verus!
