//! Forcing, evaluation and variable lookup.

use crate::attr_set::{AttrValue, Bindings, ValueRef};
use crate::env::{Env, EnvInner, EnvRef};
use crate::err::{NixError, NixResult, ValueKind};
use crate::agreement::{
    lemma_eval_sound, lemma_force_sound, lemma_lookup_var_sound, sound_step,
};
use crate::env::StaticEnv;
use crate::eval::{scope_fits, EvalState, ShouldEval};
use crate::resolve::{annotated, fits, lemma_annotated_same, resolved, unbound};
use crate::resolve_lemmas::lemma_resolution_fits;
use crate::soundness::{fits_env, no_bad, shape, sound, var_ok};
use crate::invariants::{
    evaluated_at, extends, kept, lemma_eval, lemma_force, lemma_lookup_var,
    lemma_lookup_without_evaluation,
};
use crate::nix_expr::{AttrName, Expr, ExprSelect, ExprVar};
use crate::pos::Pos;
use crate::semantics;
use crate::symbol_table::Symbol;
use crate::value::{App, Lambda, NixString, Thunk, Value};
use vstd::prelude::*;

verus! {

impl<'a> EvalState<'a> {
    /// A copy of the value in `slot`.
    pub fn copy_of(&self, slot: ValueRef) -> (v: Option<Value<'a>>)
        ensures
            match v {
                Some(v) => self@.value_at(slot) == Some(v@),
                None => self@.value_at(slot) is None,
            },
    {
        match self.value(slot) {
            Some(v) => Some(v.duplicate()),
            None => None,
        }
    }

    /// Forces the value in `slot`, so that the slot holds an evaluated
    /// value. A thunk is evaluated at most once; forcing it while it is
    /// being forced is an infinite recursion, reported at `pos`.
    pub fn force(&mut self, slot: ValueRef, pos: Pos, depth: usize) -> (r: NixResult<()>)
        requires
            old(self).wf(),
        ensures
            final(self).wf(),
            (final(self)@, r) == semantics::force(old(self)@, slot, pos, depth as nat),
            extends(old(self)@, final(self)@),
            r is Ok ==> evaluated_at(final(self)@, slot),
            sound(old(self)@) && slot < old(self)@.values.len() ==> sound(final(self)@) && no_bad(
                r,
            ),
        decreases depth, 0nat, 0nat,
    {
        proof {
            lemma_force(old(self)@, slot, pos, depth as nat);
            if sound(old(self)@) && slot < old(self)@.values.len() {
                lemma_force_sound(old(self)@, slot, pos, depth as nat);
            }
        }
        if slot >= self.values.len() {
            return Err(NixError::BadReference);
        }
        match &self.values[slot] {
            Value::Thunk(t) => {
                let t: Thunk<'a> = *t;
                if depth == 0 {
                    return Err(NixError::DepthExhausted);
                }
                self.put_value(slot, Value::Blackhole);
                match self.eval(t.env, t.expr, depth - 1) {
                    Ok(v) => match self.copy_of(v) {
                        Some(value) => {
                            self.put_value(slot, value);
                            Ok(())
                        },
                        None => {
                            self.put_value(slot, Value::Thunk(t));
                            Err(NixError::BadReference)
                        },
                    },
                    Err(e) => {
                        self.put_value(slot, Value::Thunk(t));
                        Err(e)
                    },
                }
            },
            Value::Blackhole => Err(NixError::InfiniteRecursion(pos)),
            Value::App(a) => {
                let a: App = *a;
                if depth == 0 {
                    return Err(NixError::DepthExhausted);
                }
                match self.call(a.left, a.right, pos, depth - 1) {
                    Ok(v) => match self.copy_of(v) {
                        Some(value) => {
                            self.put_value(slot, value);
                            Ok(())
                        },
                        None => Err(NixError::BadReference),
                    },
                    Err(e) => Err(e),
                }
            },
            _ => Ok(()),
        }
    }

    /// Evaluates `e` in `env`, to a slot that holds an evaluated value.
    pub fn eval(&mut self, env: EnvRef, e: &'a Expr, depth: usize) -> (r: NixResult<ValueRef>)
        requires
            old(self).wf(),
        ensures
            final(self).wf(),
            (final(self)@, r) == semantics::eval(old(self)@, env, e, depth as nat),
            extends(old(self)@, final(self)@),
            r matches Ok(slot) ==> evaluated_at(final(self)@, slot),
            sound(old(self)@) && fits_env(old(self)@, None, env, *e) ==> sound(final(self)@)
                && no_bad(r),
        decreases depth, 0nat, 0nat,
    {
        proof {
            lemma_eval(old(self)@, env, e, depth as nat);
            if sound(old(self)@) && fits_env(old(self)@, None, env, *e) {
                lemma_eval_sound(old(self)@, env, e, depth as nat);
            }
        }
        if depth == 0 {
            return Err(NixError::DepthExhausted);
        }
        let d1 = depth - 1;
        match e {
            Expr::Int(n) => Ok(self.push_value(Value::Int(*n))),
            Expr::Float(f) => Ok(self.push_value(Value::Float(*f))),
            Expr::Bool(b) => Ok(self.push_value(Value::Bool(*b))),
            Expr::Null => Ok(self.push_value(Value::Null)),
            Expr::String(sym) => {
                if *sym < self.symbols.len() {
                    let s = self.symbols.name(*sym).clone();
                    let v = Value::String(NixString { s, context: Vec::new() });
                    assert(v@ == crate::heap::ValueView::String(
                        crate::heap::NixStringView {
                            s: self@.symbols[*sym as int],
                            context: Seq::<Seq<char>>::empty(),
                        },
                    )) by {
                        assert(crate::heap::string_views(Seq::<String>::empty())
                            =~= Seq::<Seq<char>>::empty());
                    }
                    Ok(self.push_value(v))
                } else {
                    Err(NixError::UnknownSymbol(*sym))
                }
            },
            Expr::Path(p) => Ok(self.push_value(Value::Path(p.clone()))),
            Expr::Var(v) => {
                match self.lookup_var(env, v, ShouldEval::Yes, d1) {
                    Ok(slot) => match self.force(slot, v.pos, d1) {
                        Ok(()) => Ok(slot),
                        Err(e) => Err(e),
                    },
                    Err(e) => Err(e),
                }
            },
            Expr::Select(s) => self.eval_select(env, s, d1),
            Expr::OpHasAttr(x) => self.eval_has_attr(env, x, d1),
            Expr::Attrs(a) => self.eval_attrs_literal(env, a, d1),
            Expr::List(items) => {
                let slots = self.thunks(env, items);
                Ok(self.push_value(Value::List(slots)))
            },
            Expr::Lambda(l) => Ok(self.push_value(Value::Lambda(Lambda { env, fun: l }))),
            Expr::Let(l) => self.eval_let(env, l, d1),
            Expr::With(w) => {
                let inner = self.push_env(
                    Env {
                        up: Some(env),
                        prev_with: w.prev_with,
                        values: EnvInner::HasWithExpr(&*w.attrs),
                    },
                );
                self.eval(inner, &*w.body, d1)
            },
            Expr::If(c) => {
                match self.eval_bool(env, &*c.cond, d1) {
                    Ok(b) => if b {
                        self.eval(env, &*c.then_, d1)
                    } else {
                        self.eval(env, &*c.else_, d1)
                    },
                    Err(e) => Err(e),
                }
            },
            Expr::Assert(a) => {
                match self.eval_bool(env, &*a.cond, d1) {
                    Ok(b) => if b {
                        self.eval(env, &*a.body, d1)
                    } else {
                        Err(NixError::AssertionFailed(a.pos))
                    },
                    Err(e) => Err(e),
                }
            },
            Expr::OpNot(x) => {
                match self.eval_bool(env, &**x, d1) {
                    Ok(b) => Ok(self.push_value(Value::Bool(!b))),
                    Err(e) => Err(e),
                }
            },
            Expr::BinOp(b) => self.eval_binop(env, b, d1),
            Expr::ConcatStrings(c) => self.eval_concat(env, c, d1),
            Expr::Pos(p) => self.eval_pos(*p),
        }
    }

    /// Resolves and evaluates `expr` as `eval_top_level` does, wherever the
    /// scopes of `expr` can be counted on top of the frames of `scope`.
    /// Where they cannot, it fails with `ScopesTooDeep` and leaves the
    /// expression and the state as they are.
    pub fn eval_program(
        &mut self,
        scope: &StaticEnv,
        expr: &'a mut Expr,
        depth: usize,
    ) -> (r: NixResult<ValueRef>)
        requires
            old(self).wf(),
        ensures
            final(self).wf(),
            !fits(*old(expr), scope.depth()) ==> r == Err::<ValueRef, _>(NixError::ScopesTooDeep)
                && final(self)@ == old(self)@ && *final(expr) == *old(expr),
            fits(*old(expr), scope.depth()) ==> match unbound(*old(expr), scope.frames()) {
                Some((name, pos)) => r == Err::<ValueRef, _>(NixError::UndefinedVar(name, pos))
                    && final(self)@ == old(self)@,
                None => resolved(*old(expr), *final(expr), scope.frames()) && (final(self)@, r)
                    == semantics::eval(old(self)@, 0, final(expr), depth as nat),
            },
            annotated(*old(expr), *final(expr)),
            extends(old(self)@, final(self)@),
            sound(old(self)@) && scope_fits(*scope, old(self)@) ==> sound(final(self)@) && no_bad(
                r,
            ),
    {
        if expr.scopes_fit(scope.chain_len()) {
            self.eval_top_level(scope, expr, depth)
        } else {
            proof {
                lemma_annotated_same(*expr);
            }
            Err(NixError::ScopesTooDeep)
        }
    }

    /// Resolves `expr` against `scope`, the static frame that stands for the
    /// outermost frame, and evaluates it in the outermost environment.
    ///
    /// Fails with the first free variable of `expr` if it has one, and
    /// leaves the state as it is then. Else the result is that of the
    /// evaluation of the resolved expression; in a sound state whose
    /// outermost frame `scope` stands for, it never tells of a reference
    /// outside the state.
    pub fn eval_top_level(
        &mut self,
        scope: &StaticEnv,
        expr: &'a mut Expr,
        depth: usize,
    ) -> (r: NixResult<ValueRef>)
        requires
            old(self).wf(),
            fits(*old(expr), scope.depth()),
        ensures
            final(self).wf(),
            match unbound(*old(expr), scope.frames()) {
                Some((name, pos)) => r == Err::<ValueRef, _>(NixError::UndefinedVar(name, pos))
                    && final(self)@ == old(self)@,
                None => resolved(*old(expr), *final(expr), scope.frames()) && (final(self)@, r)
                    == semantics::eval(old(self)@, 0, final(expr), depth as nat),
            },
            annotated(*old(expr), *final(expr)),
            extends(old(self)@, final(self)@),
            sound(old(self)@) && scope_fits(*scope, old(self)@) ==> sound(final(self)@) && no_bad(
                r,
            ),
    {
        let ghost before = *expr;
        match expr.bind_vars(scope) {
            Err(e) => Err(e),
            Ok(()) => {
                let resolved: &'a Expr = expr;
                proof {
                    if sound(old(self)@) && scope_fits(*scope, old(self)@) {
                        lemma_resolution_fits(
                            before,
                            *resolved,
                            scope.frames(),
                            shape(old(self)@, 0, None),
                        );
                        assert(old(self)@.envs.len() > 0) by {
                            assert(shape(old(self)@, 0, None).len() == scope.frames().len());
                            crate::env::lemma_frames_step(scope);
                        }
                    }
                }
                self.eval(0, resolved, depth)
            },
        }
    }

    /// The slots that stand for the expressions of `items`, unevaluated.
    pub fn thunks(&mut self, env: EnvRef, items: &'a Vec<Expr>) -> (slots: Vec<ValueRef>)
        requires
            old(self).wf(),
        ensures
            final(self).wf(),
            (final(self)@, slots@) == semantics::thunks(old(self)@, env, items, 0, Seq::empty()),
    {
        let mut slots: Vec<ValueRef> = Vec::new();
        let n = items.len();
        let mut i: usize = 0;
        while i < n
            invariant
                self.wf(),
                n == items@.len(),
                i <= n,
                semantics::thunks(self@, env, items, i as nat, slots@) == semantics::thunks(
                    old(self)@,
                    env,
                    items,
                    0,
                    Seq::empty(),
                ),
            decreases n - i,
        {
            let slot = self.maybe_thunk(env, &items[i]);
            slots.push(slot);
            i += 1;
        }
        slots
    }

    /// Evaluates `e` in `env` to a boolean.
    pub fn eval_bool(&mut self, env: EnvRef, e: &'a Expr, depth: usize) -> (r: NixResult<bool>)
        requires
            old(self).wf(),
        ensures
            final(self).wf(),
            (final(self)@, r) == semantics::eval_bool(old(self)@, env, e, depth as nat),
        decreases depth, 1nat, 0nat,
    {
        match self.eval(env, e, depth) {
            Ok(slot) => match self.value(slot) {
                Some(Value::Bool(b)) => Ok(*b),
                Some(v) => Err(NixError::Type { expected: ValueKind::Bool, actual: v.kind() }),
                None => Err(NixError::BadReference),
            },
            Err(e) => Err(e),
        }
    }

    /// Evaluates `expr` in `env` to an attribute set, and hands out a copy
    /// of the set. Fails with a type error where the value is no set.
    pub fn eval_attrs(&mut self, env: EnvRef, expr: &'a Expr, depth: usize) -> (r: NixResult<
        Bindings,
    >)
        requires
            old(self).wf(),
        ensures
            final(self).wf(),
            final(self)@ == semantics::eval_attrs(old(self)@, env, expr, depth as nat).0,
            match r {
                Ok(b) => semantics::eval_attrs(old(self)@, env, expr, depth as nat).1 == Ok::<
                    _,
                    NixError,
                >(b@),
                Err(e) => semantics::eval_attrs(old(self)@, env, expr, depth as nat).1 == Err::<
                    Map<Symbol, AttrValue>,
                    _,
                >(e),
            },
        decreases depth, 1nat, 0nat,
    {
        match self.eval(env, expr, depth) {
            Ok(slot) => match self.value(slot) {
                Some(Value::Attrs(b)) => Ok(b.duplicate()),
                Some(v) => Err(NixError::Type { expected: ValueKind::Attrs, actual: v.kind() }),
                None => Err(NixError::BadReference),
            },
            Err(e) => Err(e),
        }
    }

    /// Evaluates `e` in `env` to a list, and hands out a copy of its slots.
    pub fn eval_list(&mut self, env: EnvRef, e: &'a Expr, depth: usize) -> (r: NixResult<
        Vec<ValueRef>,
    >)
        requires
            old(self).wf(),
        ensures
            final(self).wf(),
            final(self)@ == semantics::eval_list(old(self)@, env, e, depth as nat).0,
            match r {
                Ok(items) => semantics::eval_list(old(self)@, env, e, depth as nat).1 == Ok::<
                    _,
                    NixError,
                >(items@),
                Err(e2) => semantics::eval_list(old(self)@, env, e, depth as nat).1 == Err::<
                    Seq<ValueRef>,
                    _,
                >(e2),
            },
        decreases depth, 1nat, 0nat,
    {
        match self.eval(env, e, depth) {
            Ok(slot) => match self.value(slot) {
                Some(Value::List(items)) => Ok(crate::eval::duplicate_slots(items)),
                Some(v) => Err(NixError::Type { expected: ValueKind::List, actual: v.kind() }),
                None => Err(NixError::BadReference),
            },
            Err(e) => Err(e),
        }
    }

    /// Finds the slot of the variable `var` from `env`, by the coordinates
    /// that resolution has given it.
    ///
    /// A variable bound to a frame is read from the frame `level` frames
    /// up, at its displacement; nothing is evaluated. A variable left to
    /// the enclosing `with` expressions is looked up in the attribute set
    /// of the `with` frame `level` frames up, then in that of the `with`
    /// around it, and so on; a frame on the way that still holds the
    /// expression of its `with` comes to hold its attribute set. With
    /// `ShouldEval::No` such a frame makes the lookup fail instead.
    pub fn lookup_var(
        &mut self,
        env: EnvRef,
        var: &ExprVar,
        should_eval: ShouldEval,
        depth: usize,
    ) -> (r: NixResult<ValueRef>)
        requires
            old(self).wf(),
        ensures
            final(self).wf(),
            (final(self)@, r) == semantics::lookup_var(
                old(self)@,
                env,
                *var,
                should_eval,
                depth as nat,
            ),
            extends(old(self)@, final(self)@),
            should_eval == ShouldEval::No ==> final(self)@ == old(self)@,
            sound(old(self)@) && env < old(self)@.envs.len() && var_ok(
                *var,
                shape(old(self)@, env, None),
            ) ==> sound(final(self)@) && no_bad(r),
        decreases depth, 3nat, 0nat,
    {
        proof {
            lemma_lookup_var(old(self)@, env, *var, should_eval, depth as nat);
            lemma_lookup_without_evaluation(old(self)@, env, *var, depth as nat);
            if sound(old(self)@) && env < old(self)@.envs.len() && var_ok(
                *var,
                shape(old(self)@, env, None),
            ) {
                lemma_lookup_var_sound(old(self)@, env, *var, should_eval, depth as nat);
            }
        }
        if !var.resolved {
            return Err(NixError::BadReference);
        }
        if !var.from_with {
            return match self.lookup_static(env, var) {
                Some(slot) => Ok(slot),
                None => Err(NixError::BadReference),
            };
        }
        let mut cur: EnvRef = match self.walk_up(env, var.level.0) {
            Some(e) => e,
            None => {
                return Err(NixError::BadReference);
            },
        };
        loop
            invariant
                self.wf(),
                semantics::lookup_with(self@, cur, *var, should_eval, depth as nat)
                    == semantics::lookup_var(old(self)@, env, *var, should_eval, depth as nat),
                kept(
                    old(self)@,
                    semantics::lookup_var(old(self)@, env, *var, should_eval, depth as nat).0,
                ),
                should_eval == ShouldEval::No ==> semantics::lookup_var(
                    old(self)@,
                    env,
                    *var,
                    should_eval,
                    depth as nat,
                ).0 == old(self)@,
                sound(old(self)@) && env < old(self)@.envs.len() && var_ok(
                    *var,
                    shape(old(self)@, env, None),
                ) ==> sound_step(
                    semantics::lookup_var(old(self)@, env, *var, should_eval, depth as nat),
                ),
            decreases cur,
        {
            if cur >= self.envs.len() {
                return Err(NixError::BadReference);
            }
            let found: Option<AttrValue>;
            match &self.envs[cur].values {
                EnvInner::Plain(_) => {
                    return Err(NixError::BadReference);
                },
                EnvInner::HasWithAttrs(b) => {
                    found = b.get(var.name);
                },
                EnvInner::HasWithExpr(x) => {
                    let x: &'a Expr = *x;
                    match should_eval {
                        ShouldEval::No => {
                            return Err(NixError::VarLookupUnevaluated(var.name));
                        },
                        ShouldEval::Yes => {},
                    }
                    let up: EnvRef = match self.envs[cur].up {
                        Some(up) => up,
                        None => {
                            return Err(NixError::BadReference);
                        },
                    };
                    match self.eval_attrs(up, x, depth) {
                        Err(e) => {
                            return Err(e);
                        },
                        Ok(b) => {
                            found = b.get(var.name);
                            self.put_env(cur, EnvInner::HasWithAttrs(b));
                        },
                    }
                },
            }
            match found {
                Some(attr) => {
                    return Ok(attr.value);
                },
                None => {},
            }
            if cur >= self.envs.len() {
                return Err(NixError::BadReference);
            }
            let prev = self.envs[cur].prev_with.0;
            if prev == 0 {
                return Err(NixError::UndefinedVar(var.name, var.pos));
            }
            proof {
                semantics::lemma_walk_up(self@, cur, prev as nat);
            }
            match self.walk_up(cur, prev) {
                Some(e) => {
                    cur = e;
                },
                None => {
                    return Err(NixError::BadReference);
                },
            }
        }
    }

    /// The symbol of the string that `e` evaluates to.
    pub fn name_of(&mut self, env: EnvRef, e: &'a Expr, depth: usize) -> (r: NixResult<Symbol>)
        requires
            old(self).wf(),
        ensures
            final(self).wf(),
            (final(self)@, r) == semantics::name_of(old(self)@, env, e, depth as nat),
        decreases depth, 1nat, 0nat, 0nat,
    {
        match self.eval(env, e, depth) {
            Ok(slot) => match self.value(slot) {
                Some(Value::String(s)) => {
                    let text = s.s.clone();
                    Ok(self.intern(text))
                },
                Some(v) => Err(NixError::Type { expected: ValueKind::String, actual: v.kind() }),
                None => Err(NixError::BadReference),
            },
            Err(e) => Err(e),
        }
    }

    /// The symbol of an attribute name: the written one, or that of the
    /// string that its expression evaluates to.
    pub fn attr_name(&mut self, env: EnvRef, name: &'a AttrName, depth: usize) -> (r: NixResult<
        Symbol,
    >)
        requires
            old(self).wf(),
        ensures
            final(self).wf(),
            (final(self)@, r) == semantics::attr_name(old(self)@, env, name, depth as nat),
        decreases depth, 1nat, 0nat,
    {
        match &name.expr {
            None => Ok(name.symbol),
            Some(x) => self.name_of(env, &**x, depth),
        }
    }

    /// What a selection gives where its path cannot be followed.
    pub fn select_default(&mut self, env: EnvRef, s: &'a ExprSelect, e: NixError, depth: usize) -> (r:
        NixResult<ValueRef>)
        requires
            old(self).wf(),
        ensures
            final(self).wf(),
            (final(self)@, r) == semantics::select_default(old(self)@, env, s, e, depth as nat),
        decreases depth, 1nat, 0nat,
    {
        match &s.def {
            Some(x) => self.eval(env, &**x, depth),
            None => Err(e),
        }
    }

    /// Evaluates a selection `e.a.b.c`, with its default if it has one.
    pub fn eval_select(&mut self, env: EnvRef, s: &'a ExprSelect, depth: usize) -> (r: NixResult<
        ValueRef,
    >)
        requires
            old(self).wf(),
        ensures
            final(self).wf(),
            (final(self)@, r) == semantics::eval_select(old(self)@, env, s, depth as nat),
        decreases depth, 3nat, 0nat,
    {
        let mut cur: ValueRef = match self.eval(env, &*s.expr, depth) {
            Ok(slot) => slot,
            Err(e) => {
                return Err(e);
            },
        };
        let n = s.attr_path.len();
        let mut i: usize = 0;
        while i < n
            invariant
                self.wf(),
                n == s.attr_path@.len(),
                i <= n,
                semantics::select_path(self@, env, s, cur, i as nat, depth as nat)
                    == semantics::eval_select(old(self)@, env, s, depth as nat),
            decreases n - i,
        {
            let name: Symbol = match self.attr_name(env, &s.attr_path[i], depth) {
                Ok(name) => name,
                Err(e) => {
                    return Err(e);
                },
            };
            match self.value(cur) {
                None => {
                    return Err(NixError::BadReference);
                },
                Some(Value::Attrs(b)) => match b.get(name) {
                    Some(attr) => {
                        match self.force(attr.value, s.pos, depth) {
                            Ok(()) => {
                                cur = attr.value;
                            },
                            Err(e) => {
                                return Err(e);
                            },
                        }
                    },
                    None => {
                        return self.select_default(
                            env,
                            s,
                            NixError::MissingAttr(name, s.pos),
                            depth,
                        );
                    },
                },
                Some(v) => {
                    let actual = v.kind();
                    return self.select_default(
                        env,
                        s,
                        NixError::Type { expected: ValueKind::Attrs, actual },
                        depth,
                    );
                },
            }
            i += 1;
        }
        Ok(cur)
    }
}

} // verus!
