//! What every step of evaluation keeps: slots and environments are only
//! added, an evaluated value stays what it is, and the frame of a `with`
//! that holds its attribute set keeps holding one.

use crate::attr_set::{Attr, AttrValue, ValueRef};
use crate::env::{EnvRef, Level};
use crate::err::NixError;
use crate::eval::ShouldEval;
use crate::heap::{EnvInnerView, EnvView, Heap, PrimOpView, ValueView};
use crate::nix_expr::{
    AttrDef, AttrName, BinOp, Expr, ExprAttrs, ExprConcatStrings, ExprLambda, ExprLet,
    ExprOpHasAttr, ExprSelect, ExprVar, OpKind,
};
use crate::pos::Pos;
use crate::primops::PrimOpFun;
use crate::semantics::{
    apply_prim, attr_name, attrs_equal, call, call_lambda, call_prim, concat_parts,
    duplicate_def, dynamic_attrs, missing_formal,
    eval, eval_attrs, eval_attrs_literal, eval_binop, eval_bool, eval_concat, eval_has_attr,
    eval_let, eval_list, eval_pos, eval_select, force, force_int, formal_slots, fresh, gather,
    gathered_value, has_path, least_unexpected, lemma_walk_up, lists_equal, lookup_in_with,
    lookup_static, lookup_var, lookup_with, maybe_thunk, name_of, prim_result, select_default, select_path,
    sorted_attrs, static_attrs, thunks, values_equal, walk_up, Gathered, Step,
};
use crate::symbol_table::Symbol;
use crate::value::{Lambda, Thunk};
use vstd::prelude::*;

verus! {

/// Whether a value is evaluated: no thunk, no application, no black hole.
pub open spec fn is_evaluated(v: ValueView) -> bool {
    !(v is Thunk) && !(v is App) && !(v is Blackhole)
}

/// Whether `slot` is a slot of `h` that holds an evaluated value.
pub open spec fn evaluated_at(h: Heap, slot: ValueRef) -> bool {
    slot < h.values.len() && is_evaluated(h.values[slot as int])
}

/// Whether the frame `later` is what the frame `earlier` may have become:
/// it stands in the same place of its chain; it holds the slots or the
/// attribute set that it held; and where it held the expression of a
/// `with`, it holds that expression or an attribute set.
pub open spec fn frame_kept(earlier: EnvView, later: EnvView) -> bool {
    &&& later.up == earlier.up
    &&& later.prev_with == earlier.prev_with
    &&& match earlier.values {
        EnvInnerView::Plain(_) => later.values == earlier.values,
        EnvInnerView::HasWithAttrs(_) => later.values == earlier.values,
        EnvInnerView::HasWithExpr(_) => later.values == earlier.values
            || later.values is HasWithAttrs,
    }
}

/// Whether the state `g` may follow the state `h`: `g` has the symbols,
/// the slots and the environments of `h`, and perhaps more; each evaluated
/// value of `h` is unchanged in `g`; and each frame of `h` is kept.
pub open spec fn extends(h: Heap, g: Heap) -> bool {
    &&& h.symbols.len() <= g.symbols.len()
    &&& h.values.len() <= g.values.len()
    &&& h.envs.len() <= g.envs.len()
    &&& forall|i: int| 0 <= i < h.symbols.len() ==> g.symbols[i] == #[trigger] h.symbols[i]
    &&& forall|i: int|
        0 <= i < h.values.len() && is_evaluated(#[trigger] h.values[i]) ==> g.values[i]
            == h.values[i]
    &&& forall|i: int| 0 <= i < h.envs.len() ==> frame_kept(#[trigger] h.envs[i], g.envs[i])
}

/// Whether the slots and the environments of the state can be numbered
/// by the machine's integers, as those of every state of an evaluator can.
pub open spec fn countable(h: Heap) -> bool {
    h.values.len() <= usize::MAX && h.envs.len() <= usize::MAX
}

/// Whether `g` has at least as many symbols, slots and environments as
/// `h`.
pub open spec fn grows(h: Heap, g: Heap) -> bool {
    &&& h.symbols.len() <= g.symbols.len()
    &&& h.values.len() <= g.values.len()
    &&& h.envs.len() <= g.envs.len()
}

/// Whether the state `g` keeps the state `h`: it is no smaller and, if its
/// slots and environments can be numbered, it may follow `h`.
pub open spec fn kept(h: Heap, g: Heap) -> bool {
    grows(h, g) && (countable(g) ==> extends(h, g))
}

/// Whether a step from `h` keeps the state and, where it gives a slot,
/// gives one that holds an evaluated value.
pub open spec fn gives_value(h: Heap, step: Step<ValueRef>) -> bool {
    kept(h, step.0) && (countable(step.0) ==> (step.1 matches Ok(slot) ==> evaluated_at(
        step.0,
        slot,
    )))
}

/// What may follow a state that may follow `h`, may follow `h`.
pub proof fn lemma_extends_trans(h: Heap, g: Heap, k: Heap)
    requires
        extends(h, g),
        extends(g, k),
    ensures
        extends(h, k),
{
    assert forall|i: int| 0 <= i < h.envs.len() implies frame_kept(
        #[trigger] h.envs[i],
        k.envs[i],
    ) by {
        assert(frame_kept(h.envs[i], g.envs[i]));
        assert(frame_kept(g.envs[i], k.envs[i]));
    }
    assert forall|i: int|
        0 <= i < h.values.len() && is_evaluated(#[trigger] h.values[i]) implies k.values[i]
        == h.values[i] by {
        assert(g.values[i] == h.values[i]);
        assert(is_evaluated(g.values[i]));
    }
    assert forall|i: int| 0 <= i < h.symbols.len() implies k.symbols[i]
        == #[trigger] h.symbols[i] by {
        assert(g.symbols[i] == h.symbols[i]);
    }
}

/// What keeps a state that keeps `h`, keeps `h`.
pub proof fn lemma_kept_trans(h: Heap, g: Heap, k: Heap)
    requires
        kept(h, g),
        kept(g, k),
    ensures
        kept(h, k),
{
    if countable(k) {
        lemma_extends_trans(h, g, k);
    }
}

/// A slot that holds an evaluated value holds it in every state that
/// follows.
pub proof fn lemma_evaluated_kept(h: Heap, g: Heap, slot: ValueRef)
    requires
        extends(h, g),
        evaluated_at(h, slot),
    ensures
        evaluated_at(g, slot),
        g.values[slot as int] == h.values[slot as int],
{
}

pub(crate) proof fn lemma_intern(h: Heap, text: Seq<char>)
    ensures
        kept(h, h.intern(text).0),
        h.intern(text).0.values == h.values,
        h.intern(text).0.envs == h.envs,
{
}

/// Filling a slot that held no evaluated value keeps the state.
pub(crate) proof fn lemma_put(h: Heap, g: Heap, slot: ValueRef, v: ValueView)
    requires
        kept(h, g),
        slot < h.values.len() ==> !is_evaluated(h.values[slot as int]),
    ensures
        kept(h, g.put(slot, v)),
{
    let k = g.put(slot, v);
    if countable(k) {
        assert forall|i: int|
            0 <= i < h.values.len() && is_evaluated(#[trigger] h.values[i]) implies k.values[i]
            == h.values[i] by {
            assert(g.values[i] == h.values[i]);
        }
        assert forall|i: int| 0 <= i < h.envs.len() implies frame_kept(
            #[trigger] h.envs[i],
            k.envs[i],
        ) by {
            assert(frame_kept(h.envs[i], g.envs[i]));
        }
    }
}

/// What keeps a state in which a slot without an evaluated value was
/// filled, keeps the state before the filling.
pub(crate) proof fn lemma_after_put(h: Heap, slot: ValueRef, v: ValueView, g: Heap)
    requires
        kept(h.put(slot, v), g),
        slot < h.values.len() ==> !is_evaluated(h.values[slot as int]),
    ensures
        kept(h, g),
{
    let k = h.put(slot, v);
    if countable(g) {
        assert forall|i: int|
            0 <= i < h.values.len() && is_evaluated(#[trigger] h.values[i]) implies g.values[i]
            == h.values[i] by {
            assert(k.values[i] == h.values[i]);
        }
        assert forall|i: int| 0 <= i < h.envs.len() implies frame_kept(
            #[trigger] h.envs[i],
            g.envs[i],
        ) by {
            assert(k.envs[i] == h.envs[i]);
            assert(frame_kept(k.envs[i], g.envs[i]));
        }
        assert forall|i: int| 0 <= i < h.symbols.len() implies g.symbols[i]
            == #[trigger] h.symbols[i] by {
            assert(k.symbols[i] == h.symbols[i]);
        }
    }
}

/// Letting a frame that `h` does not have hold its slots keeps `h`.
pub(crate) proof fn lemma_put_new_env(h: Heap, g: Heap, env: EnvRef, values: EnvInnerView)
    requires
        kept(h, g),
        countable(g) ==> env >= h.envs.len(),
    ensures
        kept(h, g.put_env(env, values)),
{
    let k = g.put_env(env, values);
    if countable(k) {
        assert forall|i: int| 0 <= i < h.envs.len() implies frame_kept(
            #[trigger] h.envs[i],
            k.envs[i],
        ) by {
            assert(frame_kept(h.envs[i], g.envs[i]));
        }
        assert forall|i: int|
            0 <= i < h.values.len() && is_evaluated(#[trigger] h.values[i]) implies k.values[i]
            == h.values[i] by {
            assert(g.values[i] == h.values[i]);
        }
    }
}

/// Letting the frame of a `with` that held its expression hold its
/// attribute set keeps the state.
pub(crate) proof fn lemma_put_with_env(h: Heap, g: Heap, env: EnvRef, b: Map<Symbol, AttrValue>)
    requires
        kept(h, g),
        env < h.envs.len(),
        h.envs[env as int].values is HasWithExpr,
    ensures
        kept(h, g.put_env(env, EnvInnerView::HasWithAttrs(b))),
{
    let k = g.put_env(env, EnvInnerView::HasWithAttrs(b));
    if countable(k) {
        assert forall|i: int| 0 <= i < h.envs.len() implies frame_kept(
            #[trigger] h.envs[i],
            k.envs[i],
        ) by {
            assert(frame_kept(h.envs[i], g.envs[i]));
        }
        assert forall|i: int|
            0 <= i < h.values.len() && is_evaluated(#[trigger] h.values[i]) implies k.values[i]
            == h.values[i] by {
            assert(g.values[i] == h.values[i]);
        }
    }
}

pub(crate) proof fn lemma_maybe_thunk<'a>(h: Heap<'a>, env: EnvRef, e: &'a Expr)
    ensures
        kept(h, maybe_thunk(h, env, e).0),
        maybe_thunk(h, env, e).0.envs == h.envs,
{
}

pub(crate) proof fn lemma_thunks<'a>(
    h: Heap<'a>,
    env: EnvRef,
    items: &'a Vec<Expr>,
    i: nat,
    acc: Seq<ValueRef>,
)
    ensures
        kept(h, thunks(h, env, items, i, acc).0),
    decreases items@.len() - i,
{
    if i < items@.len() {
        let (h1, slot) = maybe_thunk(h, env, &items@[i as int]);
        lemma_maybe_thunk(h, env, &items@[i as int]);
        lemma_thunks(h1, env, items, i + 1, acc.push(slot));
        lemma_kept_trans(h, h1, thunks(h, env, items, i, acc).0);
    }
}

pub(crate) proof fn lemma_static_attrs<'a>(
    h: Heap<'a>,
    outer: EnvRef,
    inner: EnvRef,
    attrs: &'a Vec<(Symbol, AttrDef)>,
    i: nat,
    slots: Seq<ValueRef>,
    b: Map<Symbol, AttrValue>,
)
    ensures
        kept(h, static_attrs(h, outer, inner, attrs, i, slots, b).0),
        static_attrs(h, outer, inner, attrs, i, slots, b).0.envs == h.envs,
    decreases attrs@.len() - i,
{
    if i < attrs@.len() {
        let name = attrs@[i as int].0;
        let def = &attrs@[i as int].1;
        if !b.contains_key(name) {
            let target = if def.inherited {
                outer
            } else {
                inner
            };
            let (h1, slot) = maybe_thunk(h, target, &*def.expr);
            lemma_maybe_thunk(h, target, &*def.expr);
            let b1 = b.insert(name, AttrValue { value: slot, pos: def.pos });
            lemma_static_attrs(h1, outer, inner, attrs, i + 1, slots.push(slot), b1);
            lemma_kept_trans(
                h,
                h1,
                static_attrs(h1, outer, inner, attrs, i + 1, slots.push(slot), b1).0,
            );
        }
    }
}

pub(crate) proof fn lemma_formal_slots<'a>(
    h: Heap<'a>,
    env: EnvRef,
    fun: &'a ExprLambda,
    b: Map<Symbol, AttrValue>,
    i: nat,
    slots: Seq<ValueRef>,
)
    ensures
        kept(h, formal_slots(h, env, fun, b, i, slots).0),
        formal_slots(h, env, fun, b, i, slots).0.envs == h.envs,
    decreases fun.formals.formals@.len() - i,
{
    if i < fun.formals.formals@.len() {
        let formal = &fun.formals.formals@[i as int];
        if b.contains_key(formal.name) {
            lemma_formal_slots(h, env, fun, b, i + 1, slots.push(b[formal.name].value));
        } else {
            match &formal.def {
                Some(d) => {
                    let (h1, slot) = h.push_value(ValueView::Thunk(Thunk { env, expr: &**d }));
                    lemma_formal_slots(h1, env, fun, b, i + 1, slots.push(slot));
                    lemma_kept_trans(
                        h,
                        h1,
                        formal_slots(h1, env, fun, b, i + 1, slots.push(slot)).0,
                    );
                },
                None => {},
            }
        }
    }
}

pub(crate) proof fn lemma_fresh<'a>(h: Heap<'a>, v: ValueView<'a>)
    requires
        is_evaluated(v),
    ensures
        gives_value(h, fresh(h, v)),
{
}

pub(crate) proof fn lemma_then<'a>(h: Heap<'a>, h1: Heap<'a>, step: Step<'a, ValueRef>)
    requires
        kept(h, h1),
        gives_value(h1, step),
    ensures
        gives_value(h, step),
{
    lemma_kept_trans(h, h1, step.0);
}

pub(crate) proof fn lemma_fresh_after<'a>(h: Heap<'a>, h1: Heap<'a>, v: ValueView<'a>)
    requires
        kept(h, h1),
        is_evaluated(v),
    ensures
        gives_value(h, fresh(h1, v)),
{
    lemma_fresh(h1, v);
    lemma_then(h, h1, fresh(h1, v));
}

/// Forcing keeps the state and, where it succeeds, leaves an evaluated
/// value in the slot.
pub proof fn lemma_force<'a>(h: Heap<'a>, slot: ValueRef, pos: Pos, d: nat)
    ensures
        kept(h, force(h, slot, pos, d).0),
        countable(force(h, slot, pos, d).0) && force(h, slot, pos, d).1 is Ok ==> evaluated_at(
            force(h, slot, pos, d).0,
            slot,
        ),
    decreases d, 0nat, 0nat,
{
    match h.value_at(slot) {
        Some(ValueView::Thunk(t)) => {
            if d > 0 {
                let h0 = h.put(slot, ValueView::Blackhole);
                lemma_eval(h0, t.env, t.expr, (d - 1) as nat);
                let (h1, r) = eval(h0, t.env, t.expr, (d - 1) as nat);
                lemma_after_put(h, slot, ValueView::Blackhole, h1);
                match r {
                    Ok(v) => match h1.value_at(v) {
                        Some(value) => {
                            lemma_put(h, h1, slot, value);
                        },
                        None => {
                            lemma_put(h, h1, slot, ValueView::Thunk(t));
                        },
                    },
                    Err(e) => {
                        lemma_put(h, h1, slot, ValueView::Thunk(t));
                    },
                }
            }
        },
        Some(ValueView::App(a)) => {
            if d > 0 {
                lemma_call(h, a.left, a.right, pos, (d - 1) as nat);
                let (h1, r) = call(h, a.left, a.right, pos, (d - 1) as nat);
                match r {
                    Ok(v) => match h1.value_at(v) {
                        Some(value) => {
                            lemma_put(h, h1, slot, value);
                        },
                        None => {},
                    },
                    Err(e) => {},
                }
            }
        },
        _ => {},
    }
}

/// Evaluation keeps the state and gives a slot that holds an evaluated
/// value.
pub proof fn lemma_eval<'a>(h: Heap<'a>, env: EnvRef, e: &'a Expr, d: nat)
    ensures
        gives_value(h, eval(h, env, e, d)),
    decreases d, 0nat, 0nat,
{
    if d > 0 {
        let d1 = (d - 1) as nat;
        match e {
            Expr::Int(n) => {
                lemma_fresh(h, ValueView::Int(*n));
            },
            Expr::Float(f) => {
                lemma_fresh(h, ValueView::Float(*f));
            },
            Expr::Bool(b) => {
                lemma_fresh(h, ValueView::Bool(*b));
            },
            Expr::Null => {
                lemma_fresh(h, ValueView::Null);
            },
            Expr::String(sym) => {},
            Expr::Path(p) => {
                lemma_fresh(h, ValueView::Path(p@));
            },
            Expr::Var(v) => {
                lemma_lookup_var(h, env, *v, ShouldEval::Yes, d1);
                let (h1, r) = lookup_var(h, env, *v, ShouldEval::Yes, d1);
                match r {
                    Ok(slot) => {
                        lemma_force(h1, slot, v.pos, d1);
                        lemma_kept_trans(h, h1, force(h1, slot, v.pos, d1).0);
                    },
                    Err(e) => {},
                }
            },
            Expr::Select(s) => {
                lemma_eval_select(h, env, s, d1);
            },
            Expr::OpHasAttr(x) => {
                lemma_eval_has_attr(h, env, x, d1);
            },
            Expr::Attrs(a) => {
                lemma_eval_attrs_literal(h, env, a, d1);
            },
            Expr::List(items) => {
                lemma_thunks(h, env, items, 0, Seq::empty());
                let (h1, slots) = thunks(h, env, items, 0, Seq::empty());
                lemma_fresh_after(h, h1, ValueView::List(slots));
            },
            Expr::Lambda(l) => {
                lemma_fresh(h, ValueView::Lambda(Lambda { env, fun: l }));
            },
            Expr::Let(l) => {
                lemma_eval_let(h, env, l, d1);
            },
            Expr::With(w) => {
                let (h1, env2) = h.push_env(
                    EnvView {
                        up: Some(env),
                        prev_with: w.prev_with,
                        values: EnvInnerView::HasWithExpr(&*w.attrs),
                    },
                );
                lemma_eval(h1, env2, &*w.body, d1);
                lemma_then(h, h1, eval(h1, env2, &*w.body, d1));
            },
            Expr::If(c) => {
                lemma_eval_bool(h, env, &*c.cond, d1);
                let (h1, r) = eval_bool(h, env, &*c.cond, d1);
                match r {
                    Ok(b) => {
                        if b {
                            lemma_eval(h1, env, &*c.then_, d1);
                            lemma_then(h, h1, eval(h1, env, &*c.then_, d1));
                        } else {
                            lemma_eval(h1, env, &*c.else_, d1);
                            lemma_then(h, h1, eval(h1, env, &*c.else_, d1));
                        }
                    },
                    Err(e) => {},
                }
            },
            Expr::Assert(a) => {
                lemma_eval_bool(h, env, &*a.cond, d1);
                let (h1, r) = eval_bool(h, env, &*a.cond, d1);
                match r {
                    Ok(b) => {
                        if b {
                            lemma_eval(h1, env, &*a.body, d1);
                            lemma_then(h, h1, eval(h1, env, &*a.body, d1));
                        }
                    },
                    Err(e) => {},
                }
            },
            Expr::OpNot(x) => {
                lemma_eval_bool(h, env, &**x, d1);
                let (h1, r) = eval_bool(h, env, &**x, d1);
                match r {
                    Ok(b) => {
                        lemma_fresh_after(h, h1, ValueView::Bool(!b));
                    },
                    Err(e) => {},
                }
            },
            Expr::BinOp(b) => {
                lemma_eval_binop(h, env, b, d1);
            },
            Expr::ConcatStrings(c) => {
                lemma_eval_concat(h, env, c, d1);
            },
            Expr::Pos(p) => {
                lemma_eval_pos(h, *p);
            },
        }
        if let Expr::String(sym) = e {
            if *sym < h.symbols.len() {
                lemma_fresh(
                    h,
                    ValueView::String(
                        crate::heap::NixStringView {
                            s: h.symbols[*sym as int],
                            context: Seq::empty(),
                        },
                    ),
                );
            }
        }
    }
}

pub(crate) proof fn lemma_eval_pos<'a>(h: Heap<'a>, pos: Pos)
    ensures
        gives_value(h, eval_pos(h, pos)),
{
    match pos {
        Pos::Undefined => {
            lemma_fresh(h, ValueView::Null);
        },
        Pos::Known(p) => {
            if p.file < h.symbols.len() && p.line <= i64::MAX && p.column <= i64::MAX {
                let (h1, file) = h.push_value(
                    ValueView::String(
                        crate::heap::NixStringView {
                            s: h.symbols[p.file as int],
                            context: Seq::empty(),
                        },
                    ),
                );
                let (h2, line) = h1.push_value(ValueView::Int(p.line as i64));
                let (h3, column) = h2.push_value(ValueView::Int(p.column as i64));
                let (h4, s_file) = h3.intern("file"@);
                let (h5, s_line) = h4.intern("line"@);
                let (h6, s_column) = h5.intern("column"@);
                lemma_kept_trans(h, h1, h2);
                lemma_kept_trans(h, h2, h3);
                lemma_intern(h3, "file"@);
                lemma_kept_trans(h, h3, h4);
                lemma_intern(h4, "line"@);
                lemma_kept_trans(h, h4, h5);
                lemma_intern(h5, "column"@);
                lemma_kept_trans(h, h5, h6);
                let v = ValueView::Attrs(
                    Map::empty().insert(s_file, AttrValue { value: file, pos }).insert(
                        s_line,
                        AttrValue { value: line, pos },
                    ).insert(s_column, AttrValue { value: column, pos }),
                );
                lemma_fresh_after(h, h6, v);
            }
        },
    }
}

pub(crate) proof fn lemma_eval_bool<'a>(h: Heap<'a>, env: EnvRef, e: &'a Expr, d: nat)
    ensures
        kept(h, eval_bool(h, env, e, d).0),
    decreases d, 1nat, 0nat,
{
    lemma_eval(h, env, e, d);
}

pub(crate) proof fn lemma_eval_attrs<'a>(h: Heap<'a>, env: EnvRef, e: &'a Expr, d: nat)
    ensures
        kept(h, eval_attrs(h, env, e, d).0),
    decreases d, 1nat, 0nat,
{
    lemma_eval(h, env, e, d);
}

pub(crate) proof fn lemma_eval_list<'a>(h: Heap<'a>, env: EnvRef, e: &'a Expr, d: nat)
    ensures
        kept(h, eval_list(h, env, e, d).0),
    decreases d, 1nat, 0nat,
{
    lemma_eval(h, env, e, d);
}

/// Looking a variable up keeps the state.
pub proof fn lemma_lookup_var<'a>(
    h: Heap<'a>,
    env: EnvRef,
    var: ExprVar,
    should_eval: ShouldEval,
    d: nat,
)
    ensures
        kept(h, lookup_var(h, env, var, should_eval, d).0),
    decreases d, 3nat, 0nat,
{
    if var.resolved && var.from_with {
        match walk_up(h, env, var.level.0 as nat) {
            Some(e) => {
                lemma_lookup_with(h, e, var, should_eval, d);
            },
            None => {},
        }
    }
}

pub(crate) proof fn lemma_lookup_with<'a>(
    h: Heap<'a>,
    env: EnvRef,
    var: ExprVar,
    should_eval: ShouldEval,
    d: nat,
)
    ensures
        kept(h, lookup_with(h, env, var, should_eval, d).0),
    decreases d, 2nat, env,
{
    match h.env_at(env) {
        None => {},
        Some(frame) => match frame.values {
            EnvInnerView::Plain(_) => {},
            EnvInnerView::HasWithAttrs(b) => {
                lemma_lookup_in_with(h, env, b, var, should_eval, d);
            },
            EnvInnerView::HasWithExpr(x) => {
                if should_eval != ShouldEval::No {
                    match frame.up {
                        None => {},
                        Some(up) => {
                            lemma_eval_attrs(h, up, x, d);
                            let (h1, r) = eval_attrs(h, up, x, d);
                            match r {
                                Ok(b) => {
                                    let h2 = h1.put_env(env, EnvInnerView::HasWithAttrs(b));
                                    lemma_put_with_env(h, h1, env, b);
                                    lemma_lookup_in_with(h2, env, b, var, should_eval, d);
                                    lemma_kept_trans(
                                        h,
                                        h2,
                                        lookup_in_with(h2, env, b, var, should_eval, d).0,
                                    );
                                },
                                Err(e) => {},
                            }
                        },
                    }
                }
            },
        },
    }
}

pub(crate) proof fn lemma_lookup_in_with<'a>(
    h: Heap<'a>,
    env: EnvRef,
    b: Map<Symbol, AttrValue>,
    var: ExprVar,
    should_eval: ShouldEval,
    d: nat,
)
    ensures
        kept(h, lookup_in_with(h, env, b, var, should_eval, d).0),
    decreases d, 2nat, env, 0nat,
{
    if !b.contains_key(var.name) {
        match h.env_at(env) {
            None => {},
            Some(frame) => {
                if frame.prev_with.0 != 0 {
                    match walk_up(h, env, frame.prev_with.0 as nat) {
                        Some(e) => {
                            lemma_walk_up(h, env, frame.prev_with.0 as nat);
                            lemma_lookup_with(h, e, var, should_eval, d);
                        },
                        None => {},
                    }
                }
            },
        }
    }
}

pub(crate) proof fn lemma_name_of<'a>(h: Heap<'a>, env: EnvRef, e: &'a Expr, d: nat)
    ensures
        kept(h, name_of(h, env, e, d).0),
    decreases d, 1nat, 0nat, 0nat,
{
    lemma_eval(h, env, e, d);
    let (h1, r) = eval(h, env, e, d);
    match r {
        Ok(slot) => match h1.value_at(slot) {
            Some(ValueView::String(s)) => {
                lemma_intern(h1, s.s);
                lemma_kept_trans(h, h1, h1.intern(s.s).0);
            },
            _ => {},
        },
        Err(e) => {},
    }
}

pub(crate) proof fn lemma_attr_name<'a>(h: Heap<'a>, env: EnvRef, name: &'a AttrName, d: nat)
    ensures
        kept(h, attr_name(h, env, name, d).0),
    decreases d, 1nat, 0nat,
{
    match &name.expr {
        None => {},
        Some(x) => {
            lemma_name_of(h, env, &**x, d);
        },
    }
}

pub(crate) proof fn lemma_select_default<'a>(
    h: Heap<'a>,
    env: EnvRef,
    s: &'a ExprSelect,
    e: NixError,
    d: nat,
)
    ensures
        gives_value(h, select_default(h, env, s, e, d)),
    decreases d, 1nat, 0nat,
{
    match &s.def {
        Some(x) => {
            lemma_eval(h, env, &**x, d);
        },
        None => {},
    }
}

pub(crate) proof fn lemma_eval_select<'a>(h: Heap<'a>, env: EnvRef, s: &'a ExprSelect, d: nat)
    ensures
        gives_value(h, eval_select(h, env, s, d)),
    decreases d, 3nat, 0nat,
{
    lemma_eval(h, env, &*s.expr, d);
    let (h1, r) = eval(h, env, &*s.expr, d);
    match r {
        Ok(slot) => {
            lemma_select_path(h1, env, s, slot, 0, d);
            lemma_then(h, h1, select_path(h1, env, s, slot, 0, d));
        },
        Err(e) => {},
    }
}

pub(crate) proof fn lemma_select_path<'a>(
    h: Heap<'a>,
    env: EnvRef,
    s: &'a ExprSelect,
    cur: ValueRef,
    i: nat,
    d: nat,
)
    requires
        countable(h) ==> evaluated_at(h, cur),
    ensures
        gives_value(h, select_path(h, env, s, cur, i, d)),
    decreases d, 2nat, s.attr_path@.len() - i,
{
    if i < s.attr_path@.len() {
        lemma_attr_name(h, env, &s.attr_path@[i as int], d);
        let (h1, r) = attr_name(h, env, &s.attr_path@[i as int], d);
        match r {
            Err(e) => {},
            Ok(name) => match h1.value_at(cur) {
                None => {},
                Some(ValueView::Attrs(b)) => {
                    if b.contains_key(name) {
                        lemma_force(h1, b[name].value, s.pos, d);
                        let (h2, r2) = force(h1, b[name].value, s.pos, d);
                        lemma_kept_trans(h, h1, h2);
                        match r2 {
                            Ok(_) => {
                                lemma_select_path(h2, env, s, b[name].value, i + 1, d);
                                lemma_then(
                                    h,
                                    h2,
                                    select_path(h2, env, s, b[name].value, i + 1, d),
                                );
                            },
                            Err(e) => {},
                        }
                    } else {
                        lemma_select_default(h1, env, s, NixError::MissingAttr(name, s.pos), d);
                        lemma_then(
                            h,
                            h1,
                            select_default(h1, env, s, NixError::MissingAttr(name, s.pos), d),
                        );
                    }
                },
                Some(v) => {
                    let e = NixError::Type {
                        expected: crate::err::ValueKind::Attrs,
                        actual: crate::heap::kind_of(v),
                    };
                    lemma_select_default(h1, env, s, e, d);
                    lemma_then(h, h1, select_default(h1, env, s, e, d));
                },
            },
        }
    }
}

pub(crate) proof fn lemma_eval_has_attr<'a>(h: Heap<'a>, env: EnvRef, x: &'a ExprOpHasAttr, d: nat)
    ensures
        gives_value(h, eval_has_attr(h, env, x, d)),
    decreases d, 3nat, 0nat,
{
    lemma_eval(h, env, &*x.expr, d);
    let (h1, r) = eval(h, env, &*x.expr, d);
    match r {
        Ok(slot) => {
            lemma_has_path(h1, env, x, slot, 0, d);
            let (h2, r2) = has_path(h1, env, x, slot, 0, d);
            lemma_kept_trans(h, h1, h2);
            match r2 {
                Ok(b) => {
                    lemma_fresh_after(h, h2, ValueView::Bool(b));
                },
                Err(e) => {},
            }
        },
        Err(e) => {},
    }
}

pub(crate) proof fn lemma_has_path<'a>(
    h: Heap<'a>,
    env: EnvRef,
    x: &'a ExprOpHasAttr,
    cur: ValueRef,
    i: nat,
    d: nat,
)
    ensures
        kept(h, has_path(h, env, x, cur, i, d).0),
    decreases d, 2nat, x.attr_path@.len() - i,
{
    if i < x.attr_path@.len() {
        lemma_attr_name(h, env, &x.attr_path@[i as int], d);
        let (h1, r) = attr_name(h, env, &x.attr_path@[i as int], d);
        match r {
            Err(e) => {},
            Ok(name) => match h1.value_at(cur) {
                Some(ValueView::Attrs(b)) => {
                    if b.contains_key(name) {
                        lemma_force(h1, b[name].value, Pos::Undefined, d);
                        let (h2, r2) = force(h1, b[name].value, Pos::Undefined, d);
                        lemma_kept_trans(h, h1, h2);
                        match r2 {
                            Ok(_) => {
                                lemma_has_path(h2, env, x, b[name].value, i + 1, d);
                                lemma_kept_trans(
                                    h,
                                    h2,
                                    has_path(h2, env, x, b[name].value, i + 1, d).0,
                                );
                            },
                            Err(e) => {},
                        }
                    }
                },
                _ => {},
            },
        }
    }
}

pub(crate) proof fn lemma_dynamic_attrs<'a>(
    h: Heap<'a>,
    env: EnvRef,
    attrs: &'a ExprAttrs,
    i: nat,
    b: Map<Symbol, AttrValue>,
    d: nat,
)
    ensures
        kept(h, dynamic_attrs(h, env, attrs, i, b, d).0),
    decreases d, 2nat, attrs.dynamic_attrs@.len() - i,
{
    if i < attrs.dynamic_attrs@.len() {
        let def = &attrs.dynamic_attrs@[i as int];
        lemma_name_of(h, env, &*def.name_expr, d);
        let (h1, r) = name_of(h, env, &*def.name_expr, d);
        match r {
            Err(e) => {},
            Ok(name) => {
                if !b.contains_key(name) {
                    lemma_maybe_thunk(h1, env, &*def.value_expr);
                    let (h2, slot) = maybe_thunk(h1, env, &*def.value_expr);
                    lemma_kept_trans(h, h1, h2);
                    let b1 = b.insert(name, AttrValue { value: slot, pos: def.pos });
                    lemma_dynamic_attrs(h2, env, attrs, i + 1, b1, d);
                    lemma_kept_trans(h, h2, dynamic_attrs(h2, env, attrs, i + 1, b1, d).0);
                }
            },
        }
    }
}

/// The frame that a `let`, a recursive set or a function opens.
pub open spec fn new_frame<'a>(up: EnvRef) -> EnvView<'a> {
    EnvView { up: Some(up), prev_with: Level(0), values: EnvInnerView::Plain(Seq::empty()) }
}

pub(crate) proof fn lemma_eval_attrs_literal<'a>(
    h: Heap<'a>,
    env: EnvRef,
    attrs: &'a ExprAttrs,
    d: nat,
)
    ensures
        gives_value(h, eval_attrs_literal(h, env, attrs, d)),
    decreases d, 3nat, 0nat,
{
    if duplicate_def(&attrs.attrs, 0, Set::empty()) is None {
        let (h0, inner) = if attrs.recursive {
            h.push_env(new_frame(env))
        } else {
            (h, env)
        };
        lemma_static_attrs(h0, env, inner, &attrs.attrs, 0, Seq::empty(), Map::empty());
        let (h1, r) = static_attrs(h0, env, inner, &attrs.attrs, 0, Seq::empty(), Map::empty());
        lemma_kept_trans(h, h0, h1);
        match r {
            Err(e) => {},
            Ok((slots, b)) => {
                let h2 = if attrs.recursive {
                    h1.put_env(inner, EnvInnerView::Plain(slots))
                } else {
                    h1
                };
                if attrs.recursive {
                    lemma_put_new_env(h, h1, inner, EnvInnerView::Plain(slots));
                }
                lemma_dynamic_attrs(h2, inner, attrs, 0, b, d);
                let (h3, r3) = dynamic_attrs(h2, inner, attrs, 0, b, d);
                lemma_kept_trans(h, h2, h3);
                match r3 {
                    Ok(all) => {
                        lemma_fresh_after(h, h3, ValueView::Attrs(all));
                    },
                    Err(e) => {},
                }
            },
        }
    }
}

pub(crate) proof fn lemma_eval_let<'a>(h: Heap<'a>, env: EnvRef, l: &'a ExprLet, d: nat)
    ensures
        gives_value(h, eval_let(h, env, l, d)),
    decreases d, 1nat, 0nat,
{
    if duplicate_def(&l.attrs.attrs, 0, Set::empty()) is None {
        let (h0, inner) = h.push_env(new_frame(env));
        lemma_static_attrs(h0, env, inner, &l.attrs.attrs, 0, Seq::empty(), Map::empty());
        let (h1, r) = static_attrs(h0, env, inner, &l.attrs.attrs, 0, Seq::empty(), Map::empty());
        lemma_kept_trans(h, h0, h1);
        match r {
            Err(e) => {},
            Ok((slots, b)) => {
                let h2 = h1.put_env(inner, EnvInnerView::Plain(slots));
                lemma_put_new_env(h, h1, inner, EnvInnerView::Plain(slots));
                lemma_eval(h2, inner, &*l.body, d);
                lemma_then(h, h2, eval(h2, inner, &*l.body, d));
            },
        }
    }
}

/// A call keeps the state and gives a slot that holds an evaluated value.
pub proof fn lemma_call<'a>(h: Heap<'a>, f: ValueRef, arg: ValueRef, pos: Pos, d: nat)
    ensures
        gives_value(h, call(h, f, arg, pos, d)),
    decreases d, 3nat, 0nat,
{
    lemma_force(h, f, pos, d);
    let (h1, r) = force(h, f, pos, d);
    match r {
        Err(e) => {},
        Ok(_) => match h1.value_at(f) {
            Some(ValueView::Lambda(l)) => {
                lemma_call_lambda(h1, l, arg, pos, d);
                lemma_then(h, h1, call_lambda(h1, l, arg, pos, d));
            },
            Some(ValueView::PrimOp(op)) => {
                lemma_call_prim(h1, op, seq![arg], pos, d);
                lemma_then(h, h1, call_prim(h1, op, seq![arg], pos, d));
            },
            Some(ValueView::PrimOpApp(app)) => {
                lemma_call_prim(h1, app.op, app.args.push(arg), pos, d);
                lemma_then(h, h1, call_prim(h1, app.op, app.args.push(arg), pos, d));
            },
            _ => {},
        },
    }
}

pub(crate) proof fn lemma_call_lambda<'a>(h: Heap<'a>, l: Lambda<'a>, arg: ValueRef, pos: Pos, d: nat)
    ensures
        gives_value(h, call_lambda(h, l, arg, pos, d)),
    decreases d, 1nat, 0nat,
{
    if !l.fun.match_attrs {
        let (h1, inner) = h.push_env(
            EnvView {
                up: Some(l.env),
                prev_with: Level(0),
                values: EnvInnerView::Plain(seq![arg]),
            },
        );
        lemma_eval(h1, inner, &*l.fun.body, d);
        lemma_then(h, h1, eval(h1, inner, &*l.fun.body, d));
    } else {
        lemma_force(h, arg, pos, d);
        let (h1, r) = force(h, arg, pos, d);
        match r {
            Err(e) => {},
            Ok(_) => match h1.value_at(arg) {
                Some(ValueView::Attrs(b)) => {
                    if missing_formal(l.fun, b, 0) is None && !(!l.fun.formals.ellipsis
                        && least_unexpected(l.fun, b, h1.symbols) is Some) {
                        let (h2, inner) = h1.push_env(new_frame(l.env));
                        lemma_kept_trans(h, h1, h2);
                        let base = if l.fun.arg is Some {
                            seq![arg]
                        } else {
                            Seq::empty()
                        };
                        lemma_formal_slots(h2, inner, l.fun, b, 0, base);
                        let (h3, r3) = formal_slots(h2, inner, l.fun, b, 0, base);
                        lemma_kept_trans(h, h2, h3);
                        match r3 {
                            Err(e) => {},
                            Ok(slots) => {
                                let h4 = h3.put_env(inner, EnvInnerView::Plain(slots));
                                lemma_put_new_env(h, h3, inner, EnvInnerView::Plain(slots));
                                lemma_eval(h4, inner, &*l.fun.body, d);
                                lemma_then(h, h4, eval(h4, inner, &*l.fun.body, d));
                            },
                        }
                    }
                },
                _ => {},
            },
        }
    }
}

pub(crate) proof fn lemma_call_prim<'a>(h: Heap<'a>, op: PrimOpView, args: Seq<ValueRef>, pos: Pos, d: nat)
    ensures
        gives_value(h, call_prim(h, op, args, pos, d)),
    decreases d, 2nat, 0nat,
{
    if args.len() < op.arity {
        lemma_fresh(h, ValueView::PrimOpApp(crate::heap::PrimOpAppView { op, args }));
    } else {
        lemma_apply_prim(h, op.fun, args, pos, d);
    }
}

pub(crate) proof fn lemma_force_int<'a>(h: Heap<'a>, slot: ValueRef, pos: Pos, d: nat)
    ensures
        kept(h, force_int(h, slot, pos, d).0),
    decreases d, 1nat, 0nat,
{
    lemma_force(h, slot, pos, d);
}

pub(crate) proof fn lemma_apply_prim<'a>(h: Heap<'a>, fun: PrimOpFun, args: Seq<ValueRef>, pos: Pos, d: nat)
    ensures
        gives_value(h, apply_prim(h, fun, args, pos, d)),
    decreases d, 1nat, 1nat,
{
    if args.len() == 2 {
        lemma_force_int(h, args[0], pos, d);
        let (h1, r1) = force_int(h, args[0], pos, d);
        match r1 {
            Err(e) => {},
            Ok(a) => {
                lemma_force_int(h1, args[1], pos, d);
                let (h2, r2) = force_int(h1, args[1], pos, d);
                lemma_kept_trans(h, h1, h2);
                match r2 {
                    Err(e) => {},
                    Ok(b) => match prim_result::<'a>(fun, a, b) {
                        Ok(v) => {
                            lemma_fresh_after(h, h2, v);
                        },
                        Err(e) => {},
                    },
                }
            },
        }
    }
}

/// A comparison keeps the state.
pub proof fn lemma_values_equal<'a>(h: Heap<'a>, a: ValueRef, b: ValueRef, pos: Pos, d: nat)
    ensures
        kept(h, values_equal(h, a, b, pos, d).0),
    decreases d, 0nat, 0nat,
{
    if d > 0 {
        let d1 = (d - 1) as nat;
        lemma_force(h, a, pos, d1);
        let (h1, r1) = force(h, a, pos, d1);
        match r1 {
            Err(e) => {},
            Ok(_) => {
                lemma_force(h1, b, pos, d1);
                let (h2, r2) = force(h1, b, pos, d1);
                lemma_kept_trans(h, h1, h2);
                match r2 {
                    Err(e) => {},
                    Ok(_) => match (h2.value_at(a), h2.value_at(b)) {
                        (Some(x), Some(y)) => match (x, y) {
                            (ValueView::List(m), ValueView::List(n)) => {
                                if m.len() == n.len() {
                                    lemma_lists_equal(h2, m, n, 0, pos, d1);
                                    lemma_kept_trans(
                                        h,
                                        h2,
                                        lists_equal(h2, m, n, 0, pos, d1).0,
                                    );
                                }
                            },
                            (ValueView::Attrs(m), ValueView::Attrs(n)) => {
                                if m.len() == n.len() {
                                    lemma_attrs_equal(h2, sorted_attrs(m, h2.symbols), n, 0, pos, d1);
                                    lemma_kept_trans(
                                        h,
                                        h2,
                                        attrs_equal(h2, sorted_attrs(m, h2.symbols), n, 0, pos, d1).0,
                                    );
                                }
                            },
                            _ => {},
                        },
                        _ => {},
                    },
                }
            },
        }
    }
}

pub(crate) proof fn lemma_lists_equal<'a>(
    h: Heap<'a>,
    a: Seq<ValueRef>,
    b: Seq<ValueRef>,
    i: nat,
    pos: Pos,
    d: nat,
)
    ensures
        kept(h, lists_equal(h, a, b, i, pos, d).0),
    decreases d, 1nat, a.len() - i,
{
    if !(i >= a.len() || i >= b.len()) {
        lemma_values_equal(h, a[i as int], b[i as int], pos, d);
        let (h1, r) = values_equal(h, a[i as int], b[i as int], pos, d);
        match r {
            Ok(true) => {
                lemma_lists_equal(h1, a, b, i + 1, pos, d);
                lemma_kept_trans(h, h1, lists_equal(h1, a, b, i + 1, pos, d).0);
            },
            _ => {},
        }
    }
}

pub(crate) proof fn lemma_attrs_equal<'a>(
    h: Heap<'a>,
    a: Seq<Attr>,
    b: Map<Symbol, AttrValue>,
    i: nat,
    pos: Pos,
    d: nat,
)
    ensures
        kept(h, attrs_equal(h, a, b, i, pos, d).0),
    decreases d, 1nat, a.len() - i,
{
    if i < a.len() && b.contains_key(a[i as int].name) {
        lemma_values_equal(h, a[i as int].value.value, b[a[i as int].name].value, pos, d);
        let (h1, r) = values_equal(h, a[i as int].value.value, b[a[i as int].name].value, pos, d);
        match r {
            Ok(true) => {
                lemma_attrs_equal(h1, a, b, i + 1, pos, d);
                lemma_kept_trans(h, h1, attrs_equal(h1, a, b, i + 1, pos, d).0);
            },
            _ => {},
        }
    }
}

pub(crate) proof fn lemma_eval_binop<'a>(h: Heap<'a>, env: EnvRef, b: &'a BinOp, d: nat)
    ensures
        gives_value(h, eval_binop(h, env, b, d)),
    decreases d, 4nat, 0nat,
{
    match b.kind {
        OpKind::App => {
            lemma_eval(h, env, &*b.e1, d);
            let (h1, r) = eval(h, env, &*b.e1, d);
            match r {
                Err(e) => {},
                Ok(f) => {
                    lemma_maybe_thunk(h1, env, &*b.e2);
                    let (h2, arg) = maybe_thunk(h1, env, &*b.e2);
                    lemma_kept_trans(h, h1, h2);
                    lemma_call(h2, f, arg, b.pos, d);
                    let (h3, r3) = call(h2, f, arg, b.pos, d);
                    lemma_kept_trans(h, h2, h3);
                    match r3 {
                        Err(e) => {},
                        Ok(v) => {
                            lemma_force(h3, v, b.pos, d);
                            lemma_kept_trans(h, h3, force(h3, v, b.pos, d).0);
                        },
                    }
                },
            }
        },
        OpKind::Eq | OpKind::NEq => {
            lemma_eval(h, env, &*b.e1, d);
            let (h1, r1) = eval(h, env, &*b.e1, d);
            match r1 {
                Err(e) => {},
                Ok(x) => {
                    lemma_eval(h1, env, &*b.e2, d);
                    let (h2, r2) = eval(h1, env, &*b.e2, d);
                    lemma_kept_trans(h, h1, h2);
                    match r2 {
                        Err(e) => {},
                        Ok(y) => {
                            lemma_values_equal(h2, x, y, b.pos, d);
                            let (h3, r3) = values_equal(h2, x, y, b.pos, d);
                            lemma_kept_trans(h, h2, h3);
                            match r3 {
                                Err(e) => {},
                                Ok(eq) => {
                                    lemma_fresh_after(
                                        h,
                                        h3,
                                        ValueView::Bool(eq == (b.kind == OpKind::Eq)),
                                    );
                                },
                            }
                        },
                    }
                },
            }
        },
        OpKind::And | OpKind::Or | OpKind::Impl => {
            lemma_eval_bool(h, env, &*b.e1, d);
            let (h1, r1) = eval_bool(h, env, &*b.e1, d);
            match r1 {
                Err(e) => {},
                Ok(x) => {
                    lemma_fresh_after(h, h1, ValueView::Bool(false));
                    lemma_fresh_after(h, h1, ValueView::Bool(true));
                    lemma_eval_bool(h1, env, &*b.e2, d);
                    let (h2, r2) = eval_bool(h1, env, &*b.e2, d);
                    lemma_kept_trans(h, h1, h2);
                    match r2 {
                        Err(e) => {},
                        Ok(y) => {
                            lemma_fresh_after(h, h2, ValueView::Bool(y));
                        },
                    }
                },
            }
        },
        OpKind::Update => {
            lemma_eval_attrs(h, env, &*b.e1, d);
            let (h1, r1) = eval_attrs(h, env, &*b.e1, d);
            match r1 {
                Err(e) => {},
                Ok(x) => {
                    lemma_eval_attrs(h1, env, &*b.e2, d);
                    let (h2, r2) = eval_attrs(h1, env, &*b.e2, d);
                    lemma_kept_trans(h, h1, h2);
                    match r2 {
                        Err(e) => {},
                        Ok(y) => {
                            lemma_fresh_after(h, h2, ValueView::Attrs(x.union_prefer_right(y)));
                        },
                    }
                },
            }
        },
        OpKind::ConcatLists => {
            lemma_eval_list(h, env, &*b.e1, d);
            let (h1, r1) = eval_list(h, env, &*b.e1, d);
            match r1 {
                Err(e) => {},
                Ok(x) => {
                    lemma_eval_list(h1, env, &*b.e2, d);
                    let (h2, r2) = eval_list(h1, env, &*b.e2, d);
                    lemma_kept_trans(h, h1, h2);
                    match r2 {
                        Err(e) => {},
                        Ok(y) => {
                            lemma_fresh_after(h, h2, ValueView::List(x + y));
                        },
                    }
                },
            }
        },
    }
}

pub(crate) proof fn lemma_concat_parts<'a>(
    h: Heap<'a>,
    env: EnvRef,
    c: &'a ExprConcatStrings,
    i: nat,
    acc: Gathered,
    d: nat,
)
    ensures
        kept(h, concat_parts(h, env, c, i, acc, d).0),
    decreases d, 1nat, c.exprs@.len() - i,
{
    if i < c.exprs@.len() {
        lemma_eval(h, env, &c.exprs@[i as int], d);
        let (h1, r) = eval(h, env, &c.exprs@[i as int], d);
        match r {
            Err(e) => {},
            Ok(slot) => match h1.value_at(slot) {
                None => {},
                Some(v) => match gather(acc, v, c.force_string) {
                    Err(e) => {},
                    Ok(next) => {
                        lemma_concat_parts(h1, env, c, i + 1, next, d);
                        lemma_kept_trans(h, h1, concat_parts(h1, env, c, i + 1, next, d).0);
                    },
                },
            },
        }
    }
}

pub(crate) proof fn lemma_eval_concat<'a>(h: Heap<'a>, env: EnvRef, c: &'a ExprConcatStrings, d: nat)
    ensures
        gives_value(h, eval_concat(h, env, c, d)),
    decreases d, 2nat, 0nat,
{
    lemma_concat_parts(h, env, c, 0, Gathered::Nothing, d);
    let (h1, r) = concat_parts(h, env, c, 0, Gathered::Nothing, d);
    match r {
        Err(e) => {},
        Ok(acc) => {
            lemma_fresh_after(h, h1, gathered_value(acc));
        },
    }
}

/// Whether `g` has the slots of `h` as they are, and after them only
/// thunks.
pub open spec fn only_defers(h: Heap, g: Heap) -> bool {
    &&& h.values.len() <= g.values.len()
    &&& g.envs == h.envs
    &&& g.symbols == h.symbols
    &&& forall|i: int| 0 <= i < h.values.len() ==> #[trigger] g.values[i] == h.values[i]
    &&& forall|i: int| h.values.len() <= i < g.values.len() ==> #[trigger] g.values[i] is Thunk
}

/// The definitions of a `let` or of an attribute set are deferred: making
/// their slots forces nothing and evaluates nothing. The slots that were
/// there stay as they are, and each new slot holds a thunk.
pub proof fn lemma_definitions_deferred<'a>(
    h: Heap<'a>,
    outer: EnvRef,
    inner: EnvRef,
    attrs: &'a Vec<(Symbol, AttrDef)>,
    i: nat,
    slots: Seq<ValueRef>,
    b: Map<Symbol, AttrValue>,
)
    ensures
        only_defers(h, static_attrs(h, outer, inner, attrs, i, slots, b).0),
    decreases attrs@.len() - i,
{
    if i < attrs@.len() {
        let name = attrs@[i as int].0;
        let def = &attrs@[i as int].1;
        if !b.contains_key(name) {
            let target = if def.inherited {
                outer
            } else {
                inner
            };
            let (h1, slot) = maybe_thunk(h, target, &*def.expr);
            assert(only_defers(h, h1));
            let b1 = b.insert(name, AttrValue { value: slot, pos: def.pos });
            lemma_definitions_deferred(h1, outer, inner, attrs, i + 1, slots.push(slot), b1);
            let g = static_attrs(h1, outer, inner, attrs, i + 1, slots.push(slot), b1).0;
            assert forall|k: int| 0 <= k < h.values.len() implies #[trigger] g.values[k]
                == h.values[k] by {
                assert(g.values[k] == h1.values[k]);
            }
            assert forall|k: int| h.values.len() <= k < g.values.len() implies #[trigger] g.values[k] is Thunk by {
                if k < h1.values.len() {
                    assert(g.values[k] == h1.values[k]);
                }
            }
        }
    }
}

/// The nearer `with` wins: where the attribute set of a `with` frame holds
/// the name of a variable, the lookup gives the slot it holds, whatever
/// the `with` frames around it define.
pub proof fn lemma_nearer_with_wins<'a>(
    h: Heap<'a>,
    env: EnvRef,
    var: ExprVar,
    should_eval: ShouldEval,
    d: nat,
)
    requires
        h.env_at(env) matches Some(frame) && frame.values matches EnvInnerView::HasWithAttrs(b)
            && b.contains_key(var.name),
    ensures
        lookup_with(h, env, var, should_eval, d) == (
            h,
            Ok::<ValueRef, NixError>(h.envs[env as int].values->HasWithAttrs_0[var.name].value),
        ),
{
}

pub(crate) proof fn lemma_lookup_with_pure<'a>(h: Heap<'a>, env: EnvRef, var: ExprVar, d: nat)
    ensures
        lookup_with(h, env, var, ShouldEval::No, d).0 == h,
    decreases env,
{
    match h.env_at(env) {
        None => {},
        Some(frame) => match frame.values {
            EnvInnerView::HasWithAttrs(b) => {
                if !b.contains_key(var.name) && frame.prev_with.0 != 0 {
                    match walk_up(h, env, frame.prev_with.0 as nat) {
                        Some(e) => {
                            lemma_walk_up(h, env, frame.prev_with.0 as nat);
                            lemma_lookup_with_pure(h, e, var, d);
                        },
                        None => {},
                    }
                }
            },
            _ => {},
        },
    }
}

/// A lookup that may not evaluate changes nothing: with `ShouldEval::No`
/// the state stays as it is, whatever the lookup gives.
pub proof fn lemma_lookup_without_evaluation<'a>(h: Heap<'a>, env: EnvRef, var: ExprVar, d: nat)
    ensures
        lookup_var(h, env, var, ShouldEval::No, d).0 == h,
{
    if var.resolved && var.from_with {
        match walk_up(h, env, var.level.0 as nat) {
            Some(e) => {
                lemma_lookup_with_pure(h, e, var, d);
            },
            None => {},
        }
    }
}

/// Forcing a slot that holds an evaluated value changes nothing: a value
/// is computed at most once, however often it is asked for.
pub proof fn lemma_force_evaluated<'a>(h: Heap<'a>, slot: ValueRef, pos: Pos, d: nat)
    requires
        evaluated_at(h, slot),
    ensures
        force(h, slot, pos, d) == (h, Ok::<(), NixError>(())),
{
}

/// Forcing a thunk while it is being forced is an infinite recursion.
pub proof fn lemma_force_black_hole<'a>(h: Heap<'a>, slot: ValueRef, pos: Pos, d: nat)
    requires
        h.value_at(slot) == Some(ValueView::Blackhole),
    ensures
        force(h, slot, pos, d) == (h, Err::<(), _>(NixError::InfiniteRecursion(pos))),
{
}

/// Forces `slot` once for each place of `places` from the place `i` on, in
/// their order: once for each reference that reaches the slot. The first
/// failure ends it.
pub open spec fn force_each<'a>(
    h: Heap<'a>,
    slot: ValueRef,
    places: Seq<Pos>,
    d: nat,
    i: nat,
) -> Step<'a, ()>
    decreases places.len() - i,
{
    if i >= places.len() {
        (h, Ok(()))
    } else {
        let (h1, r) = force(h, slot, places[i as int], d);
        match r {
            Ok(_) => force_each(h1, slot, places, d, i + 1),
            Err(e) => (h1, Err(e)),
        }
    }
}

/// However many references ask for an evaluated value, the state stays as
/// it is.
pub proof fn lemma_force_each_evaluated<'a>(
    h: Heap<'a>,
    slot: ValueRef,
    places: Seq<Pos>,
    d: nat,
    i: nat,
)
    requires
        evaluated_at(h, slot),
    ensures
        force_each(h, slot, places, d, i) == (h, Ok::<(), NixError>(())),
    decreases places.len() - i,
{
    if i < places.len() {
        lemma_force_evaluated(h, slot, places[i as int], d);
        lemma_force_each_evaluated(h, slot, places, d, i + 1);
    }
}

/// A thunk that several references reach is evaluated at most once: to
/// force the slot once for each of them is to force it for the first. Where
/// that succeeds, the others find the value and change nothing.
pub proof fn lemma_evaluated_once<'a>(h: Heap<'a>, slot: ValueRef, places: Seq<Pos>, d: nat)
    requires
        places.len() >= 1,
        countable(force(h, slot, places[0], d).0),
    ensures
        force_each(h, slot, places, d, 0) == force(h, slot, places[0], d),
{
    let (h1, r) = force(h, slot, places[0], d);
    lemma_force(h, slot, places[0], d);
    if r is Ok {
        lemma_force_each_evaluated(h1, slot, places, d, 1);
    }
}

/// Every reference observes the one computed value. Once `slot` holds an
/// evaluated value in `h`, a variable that is bound to `slot` evaluates to
/// that very slot in every state `g` that follows, without changing the
/// state; the slot holds there what it held in `h`; and where such a
/// variable is an element of a list, an argument or a definition, it
/// stands for the slot itself, not for a thunk of its own.
pub proof fn lemma_reference_observes<'a>(
    h: Heap<'a>,
    g: Heap<'a>,
    env: EnvRef,
    e: &'a Expr,
    slot: ValueRef,
    d: nat,
)
    requires
        evaluated_at(h, slot),
        extends(h, g),
        *e matches Expr::Var(v) && v.resolved && !v.from_with && lookup_static(g, env, v) == Some(
            slot,
        ),
        d > 0,
    ensures
        eval(g, env, e, d) == (g, Ok::<ValueRef, NixError>(slot)),
        g.values[slot as int] == h.values[slot as int],
        maybe_thunk(g, env, e) == (g, slot),
{
    lemma_evaluated_kept(h, g, slot);
    match *e {
        Expr::Var(v) => {
            reveal_with_fuel(eval, 2);
            lemma_force_evaluated(g, slot, v.pos, (d - 1) as nat);
            assert(lookup_var(g, env, v, ShouldEval::Yes, (d - 1) as nat) == (
                g,
                Ok::<ValueRef, NixError>(slot),
            ));
        },
        _ => {},
    }
}

} // verus!
