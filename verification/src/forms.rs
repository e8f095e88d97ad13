//! Evaluation of the expression forms that build sets, call functions,
//! compare values and concatenate.

use crate::attr_set::{
    enumerates, lemma_sorted_enumeration_unique, sorted_by_text, Attr, AttrValue, Bindings,
    ValueRef,
};
use crate::env::{Env, EnvInner, EnvRef, Level};
use crate::err::{NixError, NixResult, ValueKind};
use crate::eval::{duplicate_slots, EvalState};
use crate::agreement::{lemma_call_sound, lemma_values_equal_sound};
use crate::heap::ValueView;
use crate::soundness::{no_bad, sound};
use crate::invariants::{evaluated_at, extends, lemma_call, lemma_values_equal};
use crate::nix_expr::{
    AttrDef, BinOp, ExprAttrs, ExprConcatStrings, ExprLambda, ExprLet, ExprOpHasAttr, OpKind,
};
use crate::ops::{
    duplicate_def, float_eq, gather, gathered_value, least_unexpected, missing_formal, prim_result,
    Comparison, Parts,
};
use crate::pos::Pos;
use crate::primops::{PrimOp, PrimOpFun};
use crate::semantics;
use crate::semantics::Gathered;
use crate::symbol_table::Symbol;
use crate::value::{Lambda, NixString, PrimOpApp, Thunk, Value};
use vstd::prelude::*;
use vstd::string::*;

verus! {

/// A sequence that holds the attributes of `m` in the order of their names
/// is the one that `sorted_attrs` names.
pub proof fn lemma_sorted_attrs(
    attrs: Seq<Attr>,
    m: Map<Symbol, AttrValue>,
    symbols: Seq<Seq<char>>,
)
    requires
        sorted_by_text(attrs, symbols),
        enumerates(attrs, m),
    ensures
        attrs == semantics::sorted_attrs(m, symbols),
{
    let chosen = semantics::sorted_attrs(m, symbols);
    assert(sorted_by_text(chosen, symbols) && enumerates(chosen, m));
    lemma_sorted_enumeration_unique(attrs, chosen, m, symbols);
}

/// Whether `plan` is what the comparison of the evaluated values `x` and
/// `y` has to do, with the names in the order that `symbols` gives them.
pub open spec fn planned(
    plan: Comparison,
    x: ValueView,
    y: ValueView,
    symbols: Seq<Seq<char>>,
) -> bool {
    match (x, y) {
        (ValueView::Int(m), ValueView::Int(n)) => plan matches Comparison::Decided(r) && r == (m
            == n),
        (ValueView::Bool(m), ValueView::Bool(n)) => plan matches Comparison::Decided(r) && r == (m
            == n),
        (ValueView::String(m), ValueView::String(n)) => plan matches Comparison::Decided(r) && r
            == (m.s == n.s),
        (ValueView::Path(m), ValueView::Path(n)) => plan matches Comparison::Decided(r) && r == (m
            == n),
        (ValueView::Null, ValueView::Null) => plan matches Comparison::Decided(r) && r,
        (ValueView::Float(m), ValueView::Float(n)) => plan matches Comparison::Decided(r) && r
            == semantics::float_eq(m, n),
        (ValueView::List(m), ValueView::List(n)) => if m.len() != n.len() {
            plan matches Comparison::Decided(r) && !r
        } else {
            plan matches Comparison::Lists(u, v) && u@ == m && v@ == n
        },
        (ValueView::Attrs(m), ValueView::Attrs(n)) => if m.len() != n.len() {
            plan matches Comparison::Decided(r) && !r
        } else {
            plan matches Comparison::Sets(u, v) && u@ == semantics::sorted_attrs(m, symbols) && v@
                == n
        },
        _ => plan matches Comparison::Decided(r) && !r,
    }
}

impl<'a> EvalState<'a> {
    /// The slots and the attributes of the definitions of `attrs` with
    /// written names: one slot for each, unevaluated.
    pub fn static_attrs(
        &mut self,
        outer: EnvRef,
        inner: EnvRef,
        attrs: &'a Vec<(Symbol, AttrDef)>,
    ) -> (r: NixResult<(Vec<ValueRef>, Bindings)>)
        requires
            old(self).wf(),
        ensures
            final(self).wf(),
            final(self)@ == semantics::static_attrs(
                old(self)@,
                outer,
                inner,
                attrs,
                0,
                Seq::empty(),
                Map::empty(),
            ).0,
            match r {
                Ok((slots, b)) => semantics::static_attrs(
                    old(self)@,
                    outer,
                    inner,
                    attrs,
                    0,
                    Seq::empty(),
                    Map::empty(),
                ).1 == Ok::<_, NixError>((slots@, b@)),
                Err(e) => semantics::static_attrs(
                    old(self)@,
                    outer,
                    inner,
                    attrs,
                    0,
                    Seq::empty(),
                    Map::empty(),
                ).1 == Err::<(Seq<ValueRef>, Map<Symbol, AttrValue>), _>(e),
            },
    {
        let ghost target = semantics::static_attrs(
            old(self)@,
            outer,
            inner,
            attrs,
            0,
            Seq::empty(),
            Map::empty(),
        );
        let mut slots: Vec<ValueRef> = Vec::new();
        let mut b = Bindings::new();
        let n = attrs.len();
        let mut i: usize = 0;
        while i < n
            invariant
                self.wf(),
                n == attrs@.len(),
                i <= n,
                target == semantics::static_attrs(
                    old(self)@,
                    outer,
                    inner,
                    attrs,
                    0,
                    Seq::empty(),
                    Map::empty(),
                ),
                semantics::static_attrs(self@, outer, inner, attrs, i as nat, slots@, b@)
                    == target,
            decreases n - i,
        {
            let name = attrs[i].0;
            let def = &attrs[i].1;
            match b.get(name) {
                Some(_) => {
                    return Err(NixError::DuplicateAttr(name, def.pos));
                },
                None => {},
            }
            let slot = self.maybe_thunk(
                if def.inherited {
                    outer
                } else {
                    inner
                },
                &*def.expr,
            );
            slots.push(slot);
            b.insert(name, AttrValue { value: slot, pos: def.pos });
            i += 1;
        }
        Ok((slots, b))
    }

    /// The slots of the formals of `fun`, after `base`: for each formal the
    /// slot that `b` holds under its name, or a new thunk of its default.
    pub fn formal_slots(
        &mut self,
        env: EnvRef,
        fun: &'a ExprLambda,
        b: &Bindings,
        base: Vec<ValueRef>,
    ) -> (r: NixResult<Vec<ValueRef>>)
        requires
            old(self).wf(),
        ensures
            final(self).wf(),
            final(self)@ == semantics::formal_slots(old(self)@, env, fun, b@, 0, base@).0,
            match r {
                Ok(slots) => semantics::formal_slots(old(self)@, env, fun, b@, 0, base@).1 == Ok::<
                    _,
                    NixError,
                >(slots@),
                Err(e) => semantics::formal_slots(old(self)@, env, fun, b@, 0, base@).1 == Err::<
                    Seq<ValueRef>,
                    _,
                >(e),
            },
    {
        let ghost target = semantics::formal_slots(old(self)@, env, fun, b@, 0, base@);
        let mut slots = base;
        let n = fun.formals.formals.len();
        let mut i: usize = 0;
        while i < n
            invariant
                self.wf(),
                n == fun.formals.formals@.len(),
                i <= n,
                target == semantics::formal_slots(old(self)@, env, fun, b@, 0, base@),
                semantics::formal_slots(self@, env, fun, b@, i as nat, slots@) == target,
            decreases n - i,
        {
            let formal = &fun.formals.formals[i];
            match b.get(formal.name) {
                Some(attr) => {
                    slots.push(attr.value);
                },
                None => match &formal.def {
                    Some(d) => {
                        let slot = self.push_value(Value::Thunk(Thunk { env, expr: &**d }));
                        slots.push(slot);
                    },
                    None => {
                        return Err(NixError::MissingFormal(formal.name, fun.pos));
                    },
                },
            }
            i += 1;
        }
        Ok(slots)
    }

    /// Adds to `b` the attributes of `attrs` with computed names.
    pub fn dynamic_attrs(
        &mut self,
        env: EnvRef,
        attrs: &'a ExprAttrs,
        b: Bindings,
        depth: usize,
    ) -> (r: NixResult<Bindings>)
        requires
            old(self).wf(),
        ensures
            final(self).wf(),
            final(self)@ == semantics::dynamic_attrs(old(self)@, env, attrs, 0, b@, depth as nat).0,
            match r {
                Ok(all) => semantics::dynamic_attrs(old(self)@, env, attrs, 0, b@, depth as nat).1
                    == Ok::<_, NixError>(all@),
                Err(e) => semantics::dynamic_attrs(old(self)@, env, attrs, 0, b@, depth as nat).1
                    == Err::<Map<Symbol, AttrValue>, _>(e),
            },
        decreases depth, 2nat, 0nat,
    {
        let ghost target = semantics::dynamic_attrs(old(self)@, env, attrs, 0, b@, depth as nat);
        let mut all = b;
        let n = attrs.dynamic_attrs.len();
        let mut i: usize = 0;
        while i < n
            invariant
                self.wf(),
                n == attrs.dynamic_attrs@.len(),
                i <= n,
                target == semantics::dynamic_attrs(old(self)@, env, attrs, 0, b@, depth as nat),
                semantics::dynamic_attrs(self@, env, attrs, i as nat, all@, depth as nat)
                    == target,
            decreases n - i,
        {
            let def = &attrs.dynamic_attrs[i];
            let name: Symbol = match self.name_of(env, &*def.name_expr, depth) {
                Ok(name) => name,
                Err(e) => {
                    return Err(e);
                },
            };
            match all.get(name) {
                Some(_) => {
                    return Err(NixError::DuplicateAttr(name, def.pos));
                },
                None => {},
            }
            let slot = self.maybe_thunk(env, &*def.value_expr);
            all.insert(name, AttrValue { value: slot, pos: def.pos });
            i += 1;
        }
        Ok(all)
    }

    /// Evaluates an attribute set literal.
    pub fn eval_attrs_literal(&mut self, env: EnvRef, attrs: &'a ExprAttrs, depth: usize) -> (r:
        NixResult<ValueRef>)
        requires
            old(self).wf(),
        ensures
            final(self).wf(),
            (final(self)@, r) == semantics::eval_attrs_literal(
                old(self)@,
                env,
                attrs,
                depth as nat,
            ),
        decreases depth, 3nat, 0nat,
    {
        match duplicate_def(&attrs.attrs) {
            Some((name, pos)) => {
                return Err(NixError::DuplicateAttr(name, pos));
            },
            None => {},
        }
        let inner: EnvRef = if attrs.recursive {
            self.push_env(
                Env { up: Some(env), prev_with: Level(0), values: EnvInner::Plain(Vec::new()) },
            )
        } else {
            env
        };
        match self.static_attrs(env, inner, &attrs.attrs) {
            Err(e) => Err(e),
            Ok((slots, b)) => {
                if attrs.recursive {
                    self.put_env(inner, EnvInner::Plain(slots));
                }
                match self.dynamic_attrs(inner, attrs, b, depth) {
                    Ok(all) => Ok(self.push_value(Value::Attrs(all))),
                    Err(e) => Err(e),
                }
            },
        }
    }

    /// Evaluates a `let`.
    pub fn eval_let(&mut self, env: EnvRef, l: &'a ExprLet, depth: usize) -> (r: NixResult<
        ValueRef,
    >)
        requires
            old(self).wf(),
        ensures
            final(self).wf(),
            (final(self)@, r) == semantics::eval_let(old(self)@, env, l, depth as nat),
        decreases depth, 1nat, 0nat,
    {
        match duplicate_def(&l.attrs.attrs) {
            Some((name, pos)) => {
                return Err(NixError::DuplicateAttr(name, pos));
            },
            None => {},
        }
        let inner = self.push_env(
            Env { up: Some(env), prev_with: Level(0), values: EnvInner::Plain(Vec::new()) },
        );
        match self.static_attrs(env, inner, &l.attrs.attrs) {
            Err(e) => Err(e),
            Ok((slots, b)) => {
                self.put_env(inner, EnvInner::Plain(slots));
                self.eval(inner, &*l.body, depth)
            },
        }
    }

    /// Evaluates the test `e ? a.b.c`.
    pub fn eval_has_attr(&mut self, env: EnvRef, x: &'a ExprOpHasAttr, depth: usize) -> (r:
        NixResult<ValueRef>)
        requires
            old(self).wf(),
        ensures
            final(self).wf(),
            (final(self)@, r) == semantics::eval_has_attr(old(self)@, env, x, depth as nat),
        decreases depth, 3nat, 0nat,
    {
        let mut cur: ValueRef = match self.eval(env, &*x.expr, depth) {
            Ok(slot) => slot,
            Err(e) => {
                return Err(e);
            },
        };
        let ghost start = self@;
        let ghost first = cur;
        let n = x.attr_path.len();
        let mut i: usize = 0;
        let mut present = true;
        while i < n && present
            invariant
                self.wf(),
                n == x.attr_path@.len(),
                i <= n,
                semantics::eval(old(self)@, env, &*x.expr, depth as nat) == (
                    start,
                    Ok::<ValueRef, NixError>(first),
                ),
                present ==> semantics::has_path(self@, env, x, cur, i as nat, depth as nat)
                    == semantics::has_path(start, env, x, first, 0, depth as nat),
                !present ==> semantics::has_path(start, env, x, first, 0, depth as nat) == (
                    self@,
                    Ok::<bool, NixError>(false),
                ),
            decreases n - i,
        {
            let name: Symbol = match self.attr_name(env, &x.attr_path[i], depth) {
                Ok(name) => name,
                Err(e) => {
                    return Err(e);
                },
            };
            match self.value(cur) {
                None => {
                    return Err(NixError::BadReference);
                },
                Some(Value::Attrs(b)) => match b.get(name) {
                    Some(attr) => {
                        match self.force(attr.value, Pos::Undefined, depth) {
                            Ok(()) => {
                                cur = attr.value;
                            },
                            Err(e) => {
                                return Err(e);
                            },
                        }
                    },
                    None => {
                        present = false;
                    },
                },
                Some(_) => {
                    present = false;
                },
            }
            i += 1;
        }
        Ok(self.push_value(Value::Bool(present)))
    }

    /// Calls the value in `f` with the argument in `arg`.
    pub fn call(&mut self, f: ValueRef, arg: ValueRef, pos: Pos, depth: usize) -> (r: NixResult<
        ValueRef,
    >)
        requires
            old(self).wf(),
        ensures
            final(self).wf(),
            (final(self)@, r) == semantics::call(old(self)@, f, arg, pos, depth as nat),
            extends(old(self)@, final(self)@),
            r matches Ok(slot) ==> evaluated_at(final(self)@, slot),
            sound(old(self)@) && f < old(self)@.values.len() && arg < old(self)@.values.len()
                ==> sound(final(self)@) && no_bad(r),
        decreases depth, 3nat, 0nat,
    {
        proof {
            lemma_call(old(self)@, f, arg, pos, depth as nat);
            if sound(old(self)@) && f < old(self)@.values.len() && arg < old(
                self,
            )@.values.len() {
                lemma_call_sound(old(self)@, f, arg, pos, depth as nat);
            }
        }
        match self.force(f, pos, depth) {
            Err(e) => {
                return Err(e);
            },
            Ok(()) => {},
        }
        match self.value(f) {
            None => Err(NixError::BadReference),
            Some(Value::Lambda(l)) => {
                let l: Lambda<'a> = *l;
                self.call_lambda(l, arg, pos, depth)
            },
            Some(Value::PrimOp(op)) => {
                let op = op.duplicate();
                let mut args: Vec<ValueRef> = Vec::new();
                args.push(arg);
                assert(args@ =~= seq![arg]);
                self.call_prim(op, args, pos, depth)
            },
            Some(Value::PrimOpApp(app)) => {
                let op = app.op.duplicate();
                let mut args = duplicate_slots(&app.args);
                args.push(arg);
                self.call_prim(op, args, pos, depth)
            },
            Some(v) => Err(NixError::NotAFunction(v.kind())),
        }
    }

    /// Calls a function.
    #[verifier::rlimit(50)]
    pub fn call_lambda(&mut self, l: Lambda<'a>, arg: ValueRef, pos: Pos, depth: usize) -> (r:
        NixResult<ValueRef>)
        requires
            old(self).wf(),
        ensures
            final(self).wf(),
            (final(self)@, r) == semantics::call_lambda(old(self)@, l, arg, pos, depth as nat),
        decreases depth, 1nat, 0nat,
    {
        let fun: &'a ExprLambda = l.fun;
        if !fun.match_attrs {
            let mut slots: Vec<ValueRef> = Vec::new();
            slots.push(arg);
            assert(slots@ =~= seq![arg]);
            let inner = self.push_env(
                Env { up: Some(l.env), prev_with: Level(0), values: EnvInner::Plain(slots) },
            );
            return self.eval(inner, &*fun.body, depth);
        }
        match self.force(arg, pos, depth) {
            Err(e) => {
                return Err(e);
            },
            Ok(()) => {},
        }
        let b: Bindings = match self.value(arg) {
            None => {
                return Err(NixError::BadReference);
            },
            Some(Value::Attrs(b)) => b.duplicate(),
            Some(v) => {
                return Err(NixError::Type { expected: ValueKind::Attrs, actual: v.kind() });
            },
        };
        match missing_formal(fun, &b) {
            Some(name) => {
                return Err(NixError::MissingFormal(name, fun.pos));
            },
            None => {},
        }
        if !fun.formals.ellipsis {
            match least_unexpected(fun, &b, &self.symbols) {
                Some(name) => {
                    return Err(NixError::UnexpectedArg(name, fun.pos));
                },
                None => {},
            }
        }
        let inner = self.push_env(
            Env { up: Some(l.env), prev_with: Level(0), values: EnvInner::Plain(Vec::new()) },
        );
        let mut base: Vec<ValueRef> = Vec::new();
        if fun.arg.is_some() {
            base.push(arg);
            assert(base@ =~= seq![arg]);
        }
        match self.formal_slots(inner, fun, &b, base) {
            Err(e) => Err(e),
            Ok(slots) => {
                self.put_env(inner, EnvInner::Plain(slots));
                self.eval(inner, &*fun.body, depth)
            },
        }
    }

    /// Gives a built-in function the arguments `args`.
    pub fn call_prim(&mut self, op: PrimOp, args: Vec<ValueRef>, pos: Pos, depth: usize) -> (r:
        NixResult<ValueRef>)
        requires
            old(self).wf(),
        ensures
            final(self).wf(),
            (final(self)@, r) == semantics::call_prim(old(self)@, op@, args@, pos, depth as nat),
        decreases depth, 2nat, 0nat,
    {
        if args.len() < op.arity {
            Ok(self.push_value(Value::PrimOpApp(PrimOpApp { op, args })))
        } else {
            self.apply_prim(op.fun, &args, pos, depth)
        }
    }

    /// Forces the value in `slot` to an integer.
    pub fn force_int(&mut self, slot: ValueRef, pos: Pos, depth: usize) -> (r: NixResult<i64>)
        requires
            old(self).wf(),
        ensures
            final(self).wf(),
            (final(self)@, r) == semantics::force_int(old(self)@, slot, pos, depth as nat),
        decreases depth, 1nat, 0nat,
    {
        match self.force(slot, pos, depth) {
            Err(e) => Err(e),
            Ok(()) => match self.value(slot) {
                Some(Value::Int(n)) => Ok(*n),
                Some(v) => Err(NixError::Type { expected: ValueKind::Int, actual: v.kind() }),
                None => Err(NixError::BadReference),
            },
        }
    }

    /// Carries out a built-in function.
    pub fn apply_prim(&mut self, fun: PrimOpFun, args: &Vec<ValueRef>, pos: Pos, depth: usize) -> (r:
        NixResult<ValueRef>)
        requires
            old(self).wf(),
        ensures
            final(self).wf(),
            (final(self)@, r) == semantics::apply_prim(old(self)@, fun, args@, pos, depth as nat),
        decreases depth, 1nat, 1nat,
    {
        if args.len() != 2 {
            return Err(NixError::CallArity { takes: 2, given: args.len() });
        }
        let a: i64 = match self.force_int(args[0], pos, depth) {
            Ok(a) => a,
            Err(e) => {
                return Err(e);
            },
        };
        let b: i64 = match self.force_int(args[1], pos, depth) {
            Ok(b) => b,
            Err(e) => {
                return Err(e);
            },
        };
        match prim_result(fun, a, b) {
            Ok(v) => Ok(self.push_value(v)),
            Err(e) => Err(e),
        }
    }

    /// What the comparison of the evaluated values in `a` and `b` has to
    /// do.
    pub fn comparison(&self, a: ValueRef, b: ValueRef) -> (plan: Option<Comparison>)
        requires
            self.wf(),
        ensures
            match (self@.value_at(a), self@.value_at(b)) {
                (Some(x), Some(y)) => plan matches Some(p) && planned(p, x, y, self@.symbols),
                _ => plan is None,
            },
    {
        match (self.value(a), self.value(b)) {
            (Some(x), Some(y)) => Some(
                match (x, y) {
                    (Value::Int(m), Value::Int(n)) => Comparison::Decided(*m == *n),
                    (Value::Bool(m), Value::Bool(n)) => Comparison::Decided(*m == *n),
                    (Value::String(m), Value::String(n)) => Comparison::Decided(m.s == n.s),
                    (Value::Path(m), Value::Path(n)) => Comparison::Decided(*m == *n),
                    (Value::Null, Value::Null) => Comparison::Decided(true),
                    (Value::Float(m), Value::Float(n)) => Comparison::Decided(float_eq(*m, *n)),
                    (Value::List(m), Value::List(n)) => if m.len() != n.len() {
                        Comparison::Decided(false)
                    } else {
                        Comparison::Lists(duplicate_slots(m), duplicate_slots(n))
                    },
                    (Value::Attrs(m), Value::Attrs(n)) => if m.len() != n.len() {
                        Comparison::Decided(false)
                    } else {
                        let attrs = m.sorted(&self.symbols);
                        proof {
                            lemma_sorted_attrs(attrs@, m@, self.symbols@);
                        }
                        Comparison::Sets(attrs, n.duplicate())
                    },
                    _ => Comparison::Decided(false),
                },
            ),
            _ => None,
        }
    }

    /// Whether the values in `a` and `b` are equal, forcing as much of them
    /// as the comparison reads.
    pub fn values_equal(&mut self, a: ValueRef, b: ValueRef, pos: Pos, depth: usize) -> (r:
        NixResult<bool>)
        requires
            old(self).wf(),
        ensures
            final(self).wf(),
            (final(self)@, r) == semantics::values_equal(old(self)@, a, b, pos, depth as nat),
            extends(old(self)@, final(self)@),
            sound(old(self)@) && a < old(self)@.values.len() && b < old(self)@.values.len()
                ==> sound(final(self)@) && no_bad(r),
        decreases depth, 0nat, 0nat,
    {
        proof {
            lemma_values_equal(old(self)@, a, b, pos, depth as nat);
            if sound(old(self)@) && a < old(self)@.values.len() && b < old(self)@.values.len() {
                lemma_values_equal_sound(old(self)@, a, b, pos, depth as nat);
            }
        }
        if depth == 0 {
            return Err(NixError::DepthExhausted);
        }
        let d1 = depth - 1;
        match self.force(a, pos, d1) {
            Err(e) => {
                return Err(e);
            },
            Ok(()) => {},
        }
        match self.force(b, pos, d1) {
            Err(e) => {
                return Err(e);
            },
            Ok(()) => {},
        }
        match self.comparison(a, b) {
            None => Err(NixError::BadReference),
            Some(Comparison::Decided(r)) => Ok(r),
            Some(Comparison::Lists(x, y)) => self.lists_equal(&x, &y, pos, d1),
            Some(Comparison::Sets(x, y)) => self.attrs_equal(&x, &y, pos, d1),
        }
    }

    /// Whether two lists of slots hold equal values at each index that both
    /// have.
    pub fn lists_equal(&mut self, a: &Vec<ValueRef>, b: &Vec<ValueRef>, pos: Pos, depth: usize) -> (r:
        NixResult<bool>)
        requires
            old(self).wf(),
        ensures
            final(self).wf(),
            (final(self)@, r) == semantics::lists_equal(old(self)@, a@, b@, 0, pos, depth as nat),
        decreases depth, 1nat, 0nat,
    {
        let ghost target = semantics::lists_equal(old(self)@, a@, b@, 0, pos, depth as nat);
        let mut i: usize = 0;
        while i < a.len() && i < b.len()
            invariant
                self.wf(),
                target == semantics::lists_equal(old(self)@, a@, b@, 0, pos, depth as nat),
                semantics::lists_equal(self@, a@, b@, i as nat, pos, depth as nat) == target,
            decreases a@.len() - i,
        {
            match self.values_equal(a[i], b[i], pos, depth) {
                Ok(true) => {},
                r => {
                    return r;
                },
            }
            i += 1;
        }
        Ok(true)
    }

    /// Whether each of the attributes `a` is in `b` with an equal value.
    pub fn attrs_equal(&mut self, a: &Vec<Attr>, b: &Bindings, pos: Pos, depth: usize) -> (r:
        NixResult<bool>)
        requires
            old(self).wf(),
        ensures
            final(self).wf(),
            (final(self)@, r) == semantics::attrs_equal(old(self)@, a@, b@, 0, pos, depth as nat),
        decreases depth, 1nat, 0nat,
    {
        let ghost target = semantics::attrs_equal(old(self)@, a@, b@, 0, pos, depth as nat);
        let mut i: usize = 0;
        while i < a.len()
            invariant
                self.wf(),
                target == semantics::attrs_equal(old(self)@, a@, b@, 0, pos, depth as nat),
                semantics::attrs_equal(self@, a@, b@, i as nat, pos, depth as nat) == target,
            decreases a@.len() - i,
        {
            match b.get(a[i].name) {
                None => {
                    return Ok(false);
                },
                Some(other) => match self.values_equal(a[i].value.value, other.value, pos, depth) {
                    Ok(true) => {},
                    r => {
                        return r;
                    },
                },
            }
            i += 1;
        }
        Ok(true)
    }

    /// Evaluates a binary operation.
    pub fn eval_binop(&mut self, env: EnvRef, b: &'a BinOp, depth: usize) -> (r: NixResult<
        ValueRef,
    >)
        requires
            old(self).wf(),
        ensures
            final(self).wf(),
            (final(self)@, r) == semantics::eval_binop(old(self)@, env, b, depth as nat),
        decreases depth, 4nat, 0nat,
    {
        match b.kind {
            OpKind::App => {
                let f: ValueRef = match self.eval(env, &*b.e1, depth) {
                    Ok(f) => f,
                    Err(e) => {
                        return Err(e);
                    },
                };
                let arg = self.maybe_thunk(env, &*b.e2);
                let v: ValueRef = match self.call(f, arg, b.pos, depth) {
                    Ok(v) => v,
                    Err(e) => {
                        return Err(e);
                    },
                };
                match self.force(v, b.pos, depth) {
                    Ok(()) => Ok(v),
                    Err(e) => Err(e),
                }
            },
            OpKind::Eq | OpKind::NEq => {
                let x: ValueRef = match self.eval(env, &*b.e1, depth) {
                    Ok(x) => x,
                    Err(e) => {
                        return Err(e);
                    },
                };
                let y: ValueRef = match self.eval(env, &*b.e2, depth) {
                    Ok(y) => y,
                    Err(e) => {
                        return Err(e);
                    },
                };
                match self.values_equal(x, y, b.pos, depth) {
                    Err(e) => Err(e),
                    Ok(eq) => {
                        let wanted = match b.kind {
                            OpKind::Eq => true,
                            _ => false,
                        };
                        Ok(self.push_value(Value::Bool(eq == wanted)))
                    },
                }
            },
            OpKind::And | OpKind::Or | OpKind::Impl => {
                let x: bool = match self.eval_bool(env, &*b.e1, depth) {
                    Ok(x) => x,
                    Err(e) => {
                        return Err(e);
                    },
                };
                let decided: Option<bool> = match b.kind {
                    OpKind::And => if !x {
                        Some(false)
                    } else {
                        None
                    },
                    OpKind::Or => if x {
                        Some(true)
                    } else {
                        None
                    },
                    _ => if !x {
                        Some(true)
                    } else {
                        None
                    },
                };
                match decided {
                    Some(result) => Ok(self.push_value(Value::Bool(result))),
                    None => match self.eval_bool(env, &*b.e2, depth) {
                        Ok(y) => Ok(self.push_value(Value::Bool(y))),
                        Err(e) => Err(e),
                    },
                }
            },
            OpKind::Update => {
                let x: Bindings = match self.eval_attrs(env, &*b.e1, depth) {
                    Ok(x) => x,
                    Err(e) => {
                        return Err(e);
                    },
                };
                let y: Bindings = match self.eval_attrs(env, &*b.e2, depth) {
                    Ok(y) => y,
                    Err(e) => {
                        return Err(e);
                    },
                };
                let merged = x.updated(&y);
                Ok(self.push_value(Value::Attrs(merged)))
            },
            OpKind::ConcatLists => {
                let x: Vec<ValueRef> = match self.eval_list(env, &*b.e1, depth) {
                    Ok(x) => x,
                    Err(e) => {
                        return Err(e);
                    },
                };
                let y: Vec<ValueRef> = match self.eval_list(env, &*b.e2, depth) {
                    Ok(y) => y,
                    Err(e) => {
                        return Err(e);
                    },
                };
                let mut all = x;
                let mut i: usize = 0;
                while i < y.len()
                    invariant
                        i <= y@.len(),
                        all@ == x@ + y@.take(i as int),
                    decreases y@.len() - i,
                {
                    all.push(y[i]);
                    assert(all@ =~= x@ + y@.take(i as int + 1));
                    i += 1;
                }
                assert(y@.take(y@.len() as int) =~= y@);
                Ok(self.push_value(Value::List(all)))
            },
        }
    }

    /// Evaluates a concatenation.
    pub fn eval_concat(&mut self, env: EnvRef, c: &'a ExprConcatStrings, depth: usize) -> (r:
        NixResult<ValueRef>)
        requires
            old(self).wf(),
        ensures
            final(self).wf(),
            (final(self)@, r) == semantics::eval_concat(old(self)@, env, c, depth as nat),
        decreases depth, 2nat, 0nat,
    {
        let ghost target = semantics::concat_parts(
            old(self)@,
            env,
            c,
            0,
            Gathered::Nothing,
            depth as nat,
        );
        let mut acc = Parts::Nothing;
        let n = c.exprs.len();
        let mut i: usize = 0;
        while i < n
            invariant
                self.wf(),
                n == c.exprs@.len(),
                i <= n,
                target == semantics::concat_parts(
                    old(self)@,
                    env,
                    c,
                    0,
                    Gathered::Nothing,
                    depth as nat,
                ),
                semantics::concat_parts(self@, env, c, i as nat, acc@, depth as nat) == target,
            decreases n - i,
        {
            let slot: ValueRef = match self.eval(env, &c.exprs[i], depth) {
                Ok(slot) => slot,
                Err(e) => {
                    return Err(e);
                },
            };
            match self.value(slot) {
                None => {
                    return Err(NixError::BadReference);
                },
                Some(v) => match gather(acc, v, c.force_string) {
                    Err(e) => {
                        return Err(e);
                    },
                    Ok(next) => {
                        acc = next;
                    },
                },
            }
            i += 1;
        }
        Ok(self.push_value(gathered_value(acc)))
    }

    /// The value of a position.
    pub fn eval_pos(&mut self, pos: Pos) -> (r: NixResult<ValueRef>)
        requires
            old(self).wf(),
        ensures
            final(self).wf(),
            (final(self)@, r) == semantics::eval_pos(old(self)@, pos),
    {
        match pos {
            Pos::Undefined => Ok(self.push_value(Value::Null)),
            Pos::Known(p) => {
                if p.file >= self.symbols.len() {
                    return Err(NixError::UnknownSymbol(p.file));
                }
                if p.line as u64 > i64::MAX as u64 || p.column as u64 > i64::MAX as u64 {
                    return Err(NixError::IntegerOverflow);
                }
                let context: Vec<String> = Vec::new();
                assert(crate::heap::string_views(context@) =~= Seq::<Seq<char>>::empty());
                let text = self.symbols.name(p.file).clone();
                let file = self.push_value(Value::String(NixString { s: text, context }));
                let line = self.push_value(Value::Int(p.line as i64));
                let column = self.push_value(Value::Int(p.column as i64));
                let s_file = self.intern(String::from_str("file"));
                let s_line = self.intern(String::from_str("line"));
                let s_column = self.intern(String::from_str("column"));
                let mut b = Bindings::new();
                b.insert(s_file, AttrValue { value: file, pos });
                b.insert(s_line, AttrValue { value: line, pos });
                b.insert(s_column, AttrValue { value: column, pos });
                Ok(self.push_value(Value::Attrs(b)))
            },
        }
    }
}

} // verus!
