//! Every step of evaluation keeps the state sound, and in a sound state an
//! expression that is resolved for its environment never reaches outside
//! the state.

use crate::attr_set::{enumerates, lemma_sorted_enumeration_exists, sorted_by_text, Attr, AttrValue, ValueRef};
use crate::env::{EnvRef, Level};
use crate::err::NixError;
use crate::eval::ShouldEval;
use crate::heap::{kind_of, EnvInnerView, EnvView, Heap, NixStringView, PrimOpAppView, PrimOpView, ValueView};
use crate::invariants::{
    countable, evaluated_at, extends, lemma_apply_prim, lemma_attr_name, lemma_attrs_equal,
    lemma_call, lemma_call_lambda, lemma_call_prim, lemma_concat_parts, lemma_dynamic_attrs,
    lemma_eval, lemma_eval_attrs, lemma_eval_attrs_literal, lemma_eval_binop, lemma_eval_bool,
    lemma_eval_let, lemma_eval_list, lemma_eval_pos, lemma_force, lemma_force_int,
    lemma_formal_slots, lemma_has_path, lemma_lists_equal, lemma_lookup_in_with, lemma_lookup_var,
    lemma_lookup_with, lemma_maybe_thunk, lemma_name_of, lemma_select_default, lemma_select_path,
    lemma_static_attrs, lemma_thunks, lemma_values_equal, new_frame,
};
use crate::nix_expr::{
    AttrDef, AttrName, BinOp, Expr, ExprAttrs, ExprConcatStrings, ExprLambda, ExprLet,
    ExprOpHasAttr, ExprSelect, ExprVar, OpKind,
};
use crate::pos::Pos;
use crate::primops::PrimOpFun;
use crate::semantics::{
    apply_prim, attr_name, attrs_equal, call, call_lambda, call_prim, concat_parts, duplicate_def,
    dynamic_attrs, eval, eval_attrs, eval_attrs_literal, eval_binop, eval_bool, eval_concat,
    eval_has_attr, eval_let, eval_list, eval_pos, eval_select, force, force_int, formal_slots,
    fresh, gather, gathered_value, has_path, least_unexpected, lemma_walk_up, lists_equal,
    lookup_in_with, lookup_var, lookup_with, maybe_thunk, missing_formal, name_of, prim_result,
    select_default, select_path, sorted_attrs, static_attrs, thunks, values_equal, walk_up,
    Gathered, Step,
};
use crate::soundness::{
    attrs_valid, env_sound, fits_env, frame_fits, frame_shape, in_frame, in_with, lambda_size,
    lemma_attrs_kept, lemma_begin_frame, lemma_finish_frame, lemma_formal_slots_sound,
    lemma_intern_sound, lemma_lookup_static_sound, lemma_maybe_thunk_sound, lemma_push_env_sound,
    lemma_push_value_sound, lemma_put_sound, lemma_shape_kept, lemma_slots_kept,
    lemma_static_attrs_sound, lemma_thunks_sound, lemma_walk_shape, lemma_with_attrs_sound, no_bad,
    ok, ok_attrs, ok_defs, ok_dynamic, ok_exprs, ok_lambda, ok_path, shape, slots_valid, sound,
    value_sound, var_ok, PendingFrame,
};
use crate::symbol_table::Symbol;
use crate::value::{Lambda, Thunk};
use vstd::prelude::*;

verus! {

/// Whether a step from a sound state is sound: if the slots and the
/// environments of the state that it leaves can be numbered, that state is
/// sound, and the result tells of no reference outside the state.
pub open spec fn sound_step<T>(step: (Heap, Result<T, NixError>)) -> bool {
    countable(step.0) ==> sound(step.0) && no_bad(step.1)
}

/// An expression that fits an environment fits it in every state that
/// follows.
pub proof fn lemma_fits_kept(h: Heap, g: Heap, env: EnvRef, e: Expr)
    requires
        extends(h, g),
        fits_env(h, None, env, e),
    ensures
        fits_env(g, None, env, e),
{
    lemma_shape_kept(h, g, None, env);
}

/// Where no name is defined twice, each definition gets its slot.
pub(crate) proof fn lemma_static_attrs_total<'a>(
    h: Heap<'a>,
    outer: EnvRef,
    inner: EnvRef,
    attrs: &'a Vec<(Symbol, AttrDef)>,
    i: nat,
    slots: Seq<ValueRef>,
    b: Map<Symbol, AttrValue>,
    seen: Set<Symbol>,
)
    requires
        duplicate_def(attrs, i, seen) is None,
        forall|name: Symbol| b.contains_key(name) ==> seen.contains(name),
    ensures
        static_attrs(h, outer, inner, attrs, i, slots, b).1 is Ok,
    decreases attrs@.len() - i,
{
    if i < attrs@.len() {
        let name = attrs@[i as int].0;
        let def = &attrs@[i as int].1;
        let target = if def.inherited {
            outer
        } else {
            inner
        };
        let (h1, slot) = maybe_thunk(h, target, &*def.expr);
        let b1 = b.insert(name, AttrValue { value: slot, pos: def.pos });
        lemma_static_attrs_total(
            h1,
            outer,
            inner,
            attrs,
            i + 1,
            slots.push(slot),
            b1,
            seen.insert(name),
        );
    }
}

/// Where no formal without a default is missing, each formal gets its
/// slot.
pub(crate) proof fn lemma_formal_slots_total<'a>(
    h: Heap<'a>,
    env: EnvRef,
    fun: &'a ExprLambda,
    b: Map<Symbol, AttrValue>,
    i: nat,
    slots: Seq<ValueRef>,
)
    requires
        missing_formal(fun, b, i) is None,
    ensures
        formal_slots(h, env, fun, b, i, slots).1 is Ok,
    decreases fun.formals.formals@.len() - i,
{
    if i < fun.formals.formals@.len() {
        let formal = &fun.formals.formals@[i as int];
        if b.contains_key(formal.name) {
            lemma_formal_slots_total(h, env, fun, b, i + 1, slots.push(b[formal.name].value));
        } else {
            match &formal.def {
                Some(d) => {
                    let (h1, slot) = h.push_value(ValueView::Thunk(Thunk { env, expr: &**d }));
                    lemma_formal_slots_total(h1, env, fun, b, i + 1, slots.push(slot));
                },
                None => {},
            }
        }
    }
}

/// Putting an evaluated value that refers to the state only into a new
/// slot is a sound step.
pub(crate) proof fn lemma_fresh_sound<'a>(h: Heap<'a>, v: ValueView<'a>)
    requires
        sound(h),
        value_sound(h, None, v),
    ensures
        sound_step(fresh(h, v)),
{
    if countable(fresh(h, v).0) {
        lemma_push_value_sound(h, None, v);
    }
}

/// Forcing a slot of a sound state is a sound step.
pub proof fn lemma_force_sound<'a>(h: Heap<'a>, slot: ValueRef, pos: Pos, d: nat)
    requires
        sound(h),
        slot < h.values.len(),
    ensures
        sound_step(force(h, slot, pos, d)),
    decreases d, 0nat, 0nat,
{
    let g = force(h, slot, pos, d).0;
    lemma_force(h, slot, pos, d);
    if countable(g) {
        match h.value_at(slot) {
            Some(ValueView::Thunk(t)) => {
                if d > 0 {
                    let d1 = (d - 1) as nat;
                    let h0 = h.put(slot, ValueView::Blackhole);
                    lemma_put_sound(h, None, slot, ValueView::Blackhole);
                    assert(value_sound(h, None, h.values[slot as int]));
                    assert(shape(h0, t.env, None) == shape(h, t.env, None));
                    lemma_eval(h0, t.env, t.expr, d1);
                    let (h1, r) = eval(h0, t.env, t.expr, d1);
                    lemma_eval_sound(h0, t.env, t.expr, d1);
                    lemma_fits_kept(h0, h1, t.env, *t.expr);
                    match r {
                        Ok(v) => match h1.value_at(v) {
                            Some(value) => {
                                lemma_put_sound(h1, None, slot, value);
                            },
                            None => {},
                        },
                        Err(e) => {
                            lemma_put_sound(h1, None, slot, ValueView::Thunk(t));
                        },
                    }
                }
            },
            Some(ValueView::App(a)) => {
                if d > 0 {
                    let d1 = (d - 1) as nat;
                    assert(value_sound(h, None, h.values[slot as int]));
                    lemma_call(h, a.left, a.right, pos, d1);
                    let (h1, r) = call(h, a.left, a.right, pos, d1);
                    lemma_call_sound(h, a.left, a.right, pos, d1);
                    match r {
                        Ok(v) => match h1.value_at(v) {
                            Some(value) => {
                                lemma_put_sound(h1, None, slot, value);
                            },
                            None => {},
                        },
                        Err(e) => {},
                    }
                }
            },
            _ => {},
        }
    }
}

/// Evaluating an expression that fits its environment is a sound step.
pub proof fn lemma_eval_sound<'a>(h: Heap<'a>, env: EnvRef, e: &'a Expr, d: nat)
    requires
        sound(h),
        fits_env(h, None, env, *e),
    ensures
        sound_step(eval(h, env, e, d)),
    decreases d, 0nat, 0nat,
{
    let g = eval(h, env, e, d).0;
    lemma_eval(h, env, e, d);
    let shapes = shape(h, env, None);
    if countable(g) && d > 0 {
        let d1 = (d - 1) as nat;
        match e {
            Expr::Int(n) => {
                lemma_fresh_sound(h, ValueView::Int(*n));
            },
            Expr::Float(f) => {
                lemma_fresh_sound(h, ValueView::Float(*f));
            },
            Expr::Bool(b) => {
                lemma_fresh_sound(h, ValueView::Bool(*b));
            },
            Expr::Null => {
                lemma_fresh_sound(h, ValueView::Null);
            },
            Expr::String(sym) => {
                if *sym < h.symbols.len() {
                    lemma_fresh_sound(
                        h,
                        ValueView::String(
                            NixStringView { s: h.symbols[*sym as int], context: Seq::empty() },
                        ),
                    );
                }
            },
            Expr::Path(p) => {
                lemma_fresh_sound(h, ValueView::Path(p@));
            },
            Expr::Var(v) => {
                lemma_lookup_var(h, env, *v, ShouldEval::Yes, d1);
                let (h1, r) = lookup_var(h, env, *v, ShouldEval::Yes, d1);
                match r {
                    Ok(slot) => {
                        lemma_force(h1, slot, v.pos, d1);
                        lemma_lookup_var_sound(h, env, *v, ShouldEval::Yes, d1);
                        lemma_force_sound(h1, slot, v.pos, d1);
                    },
                    Err(e) => {
                        lemma_lookup_var_sound(h, env, *v, ShouldEval::Yes, d1);
                    },
                }
            },
            Expr::Select(s) => {
                lemma_eval_select_sound(h, env, s, d1);
            },
            Expr::OpHasAttr(x) => {
                lemma_eval_has_attr_sound(h, env, x, d1);
            },
            Expr::Attrs(a) => {
                lemma_eval_attrs_literal_sound(h, env, a, d1);
            },
            Expr::List(items) => {
                lemma_thunks(h, env, items, 0, Seq::empty());
                let (h1, slots) = thunks(h, env, items, 0, Seq::empty());
                lemma_thunks_sound(h, env, items, 0, Seq::empty());
                lemma_fresh_sound(h1, ValueView::List(slots));
            },
            Expr::Lambda(l) => {
                lemma_fresh_sound(h, ValueView::Lambda(Lambda { env, fun: l }));
            },
            Expr::Let(l) => {
                lemma_eval_let_sound(h, env, l, d1);
            },
            Expr::With(w) => {
                let frame = EnvView {
                    up: Some(env),
                    prev_with: w.prev_with,
                    values: EnvInnerView::HasWithExpr(&*w.attrs),
                };
                let (h1, env2) = h.push_env(frame);
                lemma_eval(h1, env2, &*w.body, d1);
                assert(frame_fits(h, frame));
                lemma_push_env_sound(h, frame);
                assert(shape(h1, env2, None) =~= in_with(shapes));
                lemma_eval_sound(h1, env2, &*w.body, d1);
            },
            Expr::If(c) => {
                lemma_eval_bool(h, env, &*c.cond, d1);
                let (h1, r) = eval_bool(h, env, &*c.cond, d1);
                match r {
                    Ok(b) => {
                        let next = if b {
                            &*c.then_
                        } else {
                            &*c.else_
                        };
                        lemma_eval(h1, env, next, d1);
                        lemma_eval_bool_sound(h, env, &*c.cond, d1);
                        lemma_fits_kept(h, h1, env, *next);
                        lemma_eval_sound(h1, env, next, d1);
                    },
                    Err(e) => {
                        lemma_eval_bool_sound(h, env, &*c.cond, d1);
                    },
                }
            },
            Expr::Assert(a) => {
                lemma_eval_bool(h, env, &*a.cond, d1);
                let (h1, r) = eval_bool(h, env, &*a.cond, d1);
                match r {
                    Ok(b) => {
                        if b {
                            lemma_eval(h1, env, &*a.body, d1);
                            lemma_eval_bool_sound(h, env, &*a.cond, d1);
                            lemma_fits_kept(h, h1, env, *a.body);
                            lemma_eval_sound(h1, env, &*a.body, d1);
                        } else {
                            lemma_eval_bool_sound(h, env, &*a.cond, d1);
                        }
                    },
                    Err(e) => {
                        lemma_eval_bool_sound(h, env, &*a.cond, d1);
                    },
                }
            },
            Expr::OpNot(x) => {
                lemma_eval_bool(h, env, &**x, d1);
                let (h1, r) = eval_bool(h, env, &**x, d1);
                match r {
                    Ok(b) => {
                        lemma_eval_bool_sound(h, env, &**x, d1);
                        lemma_fresh_sound(h1, ValueView::Bool(!b));
                    },
                    Err(e) => {
                        lemma_eval_bool_sound(h, env, &**x, d1);
                    },
                }
            },
            Expr::BinOp(b) => {
                lemma_eval_binop_sound(h, env, b, d1);
            },
            Expr::ConcatStrings(c) => {
                lemma_eval_concat_sound(h, env, c, d1);
            },
            Expr::Pos(p) => {
                lemma_eval_pos_sound(h, *p);
            },
        }
    }
}

pub(crate) proof fn lemma_eval_pos_sound<'a>(h: Heap<'a>, pos: Pos)
    requires
        sound(h),
    ensures
        sound_step(eval_pos(h, pos)),
{
    let g = eval_pos(h, pos).0;
    lemma_eval_pos(h, pos);
    if countable(g) {
        match pos {
            Pos::Undefined => {
                lemma_fresh_sound(h, ValueView::Null);
            },
            Pos::Known(p) => {
                if p.file < h.symbols.len() && p.line <= i64::MAX && p.column <= i64::MAX {
                    let v1 = ValueView::String(
                        NixStringView { s: h.symbols[p.file as int], context: Seq::empty() },
                    );
                    let (h1, file) = h.push_value(v1);
                    let (h2, line) = h1.push_value(ValueView::Int(p.line as i64));
                    let (h3, column) = h2.push_value(ValueView::Int(p.column as i64));
                    let (h4, s_file) = h3.intern("file"@);
                    let (h5, s_line) = h4.intern("line"@);
                    let (h6, s_column) = h5.intern("column"@);
                    lemma_push_value_sound(h, None, v1);
                    lemma_push_value_sound(h1, None, ValueView::Int(p.line as i64));
                    lemma_push_value_sound(h2, None, ValueView::Int(p.column as i64));
                    lemma_intern_sound(h3, "file"@);
                    lemma_intern_sound(h4, "line"@);
                    lemma_intern_sound(h5, "column"@);
                    let m = Map::empty().insert(s_file, AttrValue { value: file, pos }).insert(
                        s_line,
                        AttrValue { value: line, pos },
                    ).insert(s_column, AttrValue { value: column, pos });
                    assert(attrs_valid(h6, m));
                    lemma_fresh_sound(h6, ValueView::Attrs(m));
                }
            },
        }
    }
}

pub(crate) proof fn lemma_eval_bool_sound<'a>(h: Heap<'a>, env: EnvRef, e: &'a Expr, d: nat)
    requires
        sound(h),
        fits_env(h, None, env, *e),
    ensures
        sound_step(eval_bool(h, env, e, d)),
    decreases d, 1nat, 0nat,
{
    lemma_eval(h, env, e, d);
    lemma_eval_sound(h, env, e, d);
}

pub(crate) proof fn lemma_eval_attrs_sound<'a>(h: Heap<'a>, env: EnvRef, e: &'a Expr, d: nat)
    requires
        sound(h),
        fits_env(h, None, env, *e),
    ensures
        sound_step(eval_attrs(h, env, e, d)),
        countable(eval_attrs(h, env, e, d).0) ==> (eval_attrs(h, env, e, d).1 matches Ok(b)
            ==> attrs_valid(eval_attrs(h, env, e, d).0, b)),
    decreases d, 1nat, 0nat,
{
    lemma_eval(h, env, e, d);
    lemma_eval_sound(h, env, e, d);
    let (h1, r) = eval(h, env, e, d);
    if countable(h1) {
        match r {
            Ok(slot) => {
                assert(value_sound(h1, None, h1.values[slot as int]));
            },
            Err(e) => {},
        }
    }
}

pub(crate) proof fn lemma_eval_list_sound<'a>(h: Heap<'a>, env: EnvRef, e: &'a Expr, d: nat)
    requires
        sound(h),
        fits_env(h, None, env, *e),
    ensures
        sound_step(eval_list(h, env, e, d)),
        countable(eval_list(h, env, e, d).0) ==> (eval_list(h, env, e, d).1 matches Ok(items)
            ==> slots_valid(eval_list(h, env, e, d).0, items)),
    decreases d, 1nat, 0nat,
{
    lemma_eval(h, env, e, d);
    lemma_eval_sound(h, env, e, d);
    let (h1, r) = eval(h, env, e, d);
    if countable(h1) {
        match r {
            Ok(slot) => {
                assert(value_sound(h1, None, h1.values[slot as int]));
            },
            Err(e) => {},
        }
    }
}

/// Whether a result that is a slot is a slot of the state.
pub open spec fn slot_valid(step: Step<ValueRef>) -> bool {
    countable(step.0) ==> (step.1 matches Ok(slot) ==> slot < step.0.values.len())
}

/// Looking up a variable that is resolved for its environment is a sound
/// step, and gives a slot of the state.
pub proof fn lemma_lookup_var_sound<'a>(
    h: Heap<'a>,
    env: EnvRef,
    var: ExprVar,
    should_eval: ShouldEval,
    d: nat,
)
    requires
        sound(h),
        env < h.envs.len(),
        var_ok(var, shape(h, env, None)),
    ensures
        sound_step(lookup_var(h, env, var, should_eval, d)),
        slot_valid(lookup_var(h, env, var, should_eval, d)),
    decreases d, 3nat, 0nat,
{
    if !var.from_with {
        lemma_lookup_static_sound(h, None, env, var);
    } else {
        lemma_walk_shape(h, None, env, var.level.0 as nat);
        let e = walk_up(h, env, var.level.0 as nat)->0;
        lemma_lookup_with_sound(h, e, var, should_eval, d);
    }
}

pub(crate) proof fn lemma_lookup_with_sound<'a>(
    h: Heap<'a>,
    env: EnvRef,
    var: ExprVar,
    should_eval: ShouldEval,
    d: nat,
)
    requires
        sound(h),
        env < h.envs.len(),
        !(h.envs[env as int].values is Plain),
    ensures
        sound_step(lookup_with(h, env, var, should_eval, d)),
        slot_valid(lookup_with(h, env, var, should_eval, d)),
    decreases d, 2nat, env,
{
    let g = lookup_with(h, env, var, should_eval, d).0;
    lemma_lookup_with(h, env, var, should_eval, d);
    let frame = h.envs[env as int];
    assert(env_sound(h, None, env));
    if countable(g) {
        match frame.values {
            EnvInnerView::Plain(_) => {},
            EnvInnerView::HasWithAttrs(b) => {
                lemma_lookup_in_with_sound(h, env, b, var, should_eval, d);
            },
            EnvInnerView::HasWithExpr(x) => {
                if should_eval != ShouldEval::No {
                    let up = frame.up->0;
                    lemma_eval_attrs(h, up, x, d);
                    let (h1, r) = eval_attrs(h, up, x, d);
                    match r {
                        Ok(b) => {
                            let h2 = h1.put_env(env, EnvInnerView::HasWithAttrs(b));
                            lemma_lookup_in_with(h2, env, b, var, should_eval, d);
                            lemma_eval_attrs_sound(h, up, x, d);
                            assert(crate::invariants::frame_kept(
                                h.envs[env as int],
                                h1.envs[env as int],
                            ));
                            lemma_with_attrs_sound(h1, env, b);
                            lemma_lookup_in_with_sound(h2, env, b, var, should_eval, d);
                        },
                        Err(e) => {
                            lemma_eval_attrs_sound(h, up, x, d);
                        },
                    }
                }
            },
        }
    }
}

pub(crate) proof fn lemma_lookup_in_with_sound<'a>(
    h: Heap<'a>,
    env: EnvRef,
    b: Map<Symbol, AttrValue>,
    var: ExprVar,
    should_eval: ShouldEval,
    d: nat,
)
    requires
        sound(h),
        env < h.envs.len(),
        !(h.envs[env as int].values is Plain),
        attrs_valid(h, b),
    ensures
        sound_step(lookup_in_with(h, env, b, var, should_eval, d)),
        slot_valid(lookup_in_with(h, env, b, var, should_eval, d)),
    decreases d, 2nat, env, 0nat,
{
    if !b.contains_key(var.name) {
        let frame = h.envs[env as int];
        assert(env_sound(h, None, env));
        if frame.prev_with.0 != 0 {
            let up = frame.up->0;
            let prev = frame.prev_with.0 as nat;
            assert(shape(h, env, None) =~= seq![frame_shape(h, env, None)] + shape(h, up, None));
            assert(shape(h, env, None)[prev as int] == shape(h, up, None)[prev - 1]);
            lemma_walk_shape(h, None, env, prev);
            let e = walk_up(h, env, prev)->0;
            lemma_walk_up(h, env, prev);
            lemma_lookup_with_sound(h, e, var, should_eval, d);
        }
    } else {
        assert(b[var.name].value < h.values.len());
    }
}

pub(crate) proof fn lemma_name_of_sound<'a>(h: Heap<'a>, env: EnvRef, e: &'a Expr, d: nat)
    requires
        sound(h),
        fits_env(h, None, env, *e),
    ensures
        sound_step(name_of(h, env, e, d)),
    decreases d, 1nat, 0nat, 0nat,
{
    lemma_eval(h, env, e, d);
    lemma_eval_sound(h, env, e, d);
    let (h1, r) = eval(h, env, e, d);
    if countable(name_of(h, env, e, d).0) {
        match r {
            Ok(slot) => match h1.value_at(slot) {
                Some(ValueView::String(s)) => {
                    lemma_intern_sound(h1, s.s);
                },
                _ => {},
            },
            Err(e) => {},
        }
    }
}

pub(crate) proof fn lemma_attr_name_sound<'a>(h: Heap<'a>, env: EnvRef, name: &'a AttrName, d: nat)
    requires
        sound(h),
        env < h.envs.len(),
        name.expr matches Some(x) ==> ok(*x, shape(h, env, None)),
    ensures
        sound_step(attr_name(h, env, name, d)),
    decreases d, 1nat, 0nat,
{
    match &name.expr {
        None => {},
        Some(x) => {
            lemma_name_of_sound(h, env, &**x, d);
        },
    }
}

pub(crate) proof fn lemma_select_default_sound<'a>(
    h: Heap<'a>,
    env: EnvRef,
    s: &'a ExprSelect,
    e: NixError,
    d: nat,
)
    requires
        sound(h),
        env < h.envs.len(),
        s.def matches Some(x) ==> ok(*x, shape(h, env, None)),
        e != NixError::BadReference,
    ensures
        sound_step(select_default(h, env, s, e, d)),
    decreases d, 1nat, 0nat,
{
    match &s.def {
        Some(x) => {
            lemma_eval_sound(h, env, &**x, d);
        },
        None => {},
    }
}

pub(crate) proof fn lemma_eval_select_sound<'a>(h: Heap<'a>, env: EnvRef, s: &'a ExprSelect, d: nat)
    requires
        sound(h),
        env < h.envs.len(),
        ok(*s.expr, shape(h, env, None)),
        s.def matches Some(x) ==> ok(*x, shape(h, env, None)),
        ok_path(s.attr_path, shape(h, env, None)),
    ensures
        sound_step(eval_select(h, env, s, d)),
    decreases d, 3nat, 0nat,
{
    lemma_eval(h, env, &*s.expr, d);
    let (h1, r) = eval(h, env, &*s.expr, d);
    match r {
        Ok(slot) => {
            lemma_select_path(h1, env, s, slot, 0, d);
            if countable(select_path(h1, env, s, slot, 0, d).0) {
                lemma_eval_sound(h, env, &*s.expr, d);
                lemma_shape_kept(h, h1, None, env);
                lemma_select_path_sound(h1, env, s, slot, 0, d);
            }
        },
        Err(e) => {
            lemma_eval_sound(h, env, &*s.expr, d);
        },
    }
}

pub(crate) proof fn lemma_select_path_sound<'a>(
    h: Heap<'a>,
    env: EnvRef,
    s: &'a ExprSelect,
    cur: ValueRef,
    i: nat,
    d: nat,
)
    requires
        sound(h),
        env < h.envs.len(),
        s.def matches Some(x) ==> ok(*x, shape(h, env, None)),
        ok_path(s.attr_path, shape(h, env, None)),
        evaluated_at(h, cur),
    ensures
        sound_step(select_path(h, env, s, cur, i, d)),
    decreases d, 2nat, s.attr_path@.len() - i,
{
    let g = select_path(h, env, s, cur, i, d).0;
    lemma_select_path(h, env, s, cur, i, d);
    if i < s.attr_path@.len() {
        let name_expr = &s.attr_path@[i as int];
        lemma_attr_name(h, env, name_expr, d);
        let (h1, r) = attr_name(h, env, name_expr, d);
        match r {
            Err(e) => {
                lemma_attr_name_sound(h, env, name_expr, d);
            },
            Ok(name) => match h1.value_at(cur) {
                None => {
                    if countable(g) {
                    }
                },
                Some(ValueView::Attrs(b)) => {
                    if b.contains_key(name) {
                        lemma_force(h1, b[name].value, s.pos, d);
                        let (h2, r2) = force(h1, b[name].value, s.pos, d);
                        match r2 {
                            Ok(_) => {
                                lemma_select_path(h2, env, s, b[name].value, i + 1, d);
                                if countable(g) {
                                    lemma_attr_name_sound(h, env, name_expr, d);
                                    assert(value_sound(h1, None, h1.values[cur as int]));
                                    lemma_force_sound(h1, b[name].value, s.pos, d);
                                    lemma_shape_kept(h, h1, None, env);
                                    lemma_shape_kept(h1, h2, None, env);
                                    lemma_select_path_sound(h2, env, s, b[name].value, i + 1, d);
                                }
                            },
                            Err(e) => {
                                if countable(g) {
                                    lemma_attr_name_sound(h, env, name_expr, d);
                                    assert(value_sound(h1, None, h1.values[cur as int]));
                                    lemma_force_sound(h1, b[name].value, s.pos, d);
                                }
                            },
                        }
                    } else {
                        let e = NixError::MissingAttr(name, s.pos);
                        lemma_select_default(h1, env, s, e, d);
                        if countable(g) {
                            lemma_attr_name_sound(h, env, name_expr, d);
                            lemma_shape_kept(h, h1, None, env);
                            lemma_select_default_sound(h1, env, s, e, d);
                        }
                    }
                },
                Some(v) => {
                    let e = NixError::Type {
                        expected: crate::err::ValueKind::Attrs,
                        actual: kind_of(v),
                    };
                    lemma_select_default(h1, env, s, e, d);
                    if countable(g) {
                        lemma_attr_name_sound(h, env, name_expr, d);
                        lemma_shape_kept(h, h1, None, env);
                        lemma_select_default_sound(h1, env, s, e, d);
                    }
                },
            },
        }
    }
}

pub(crate) proof fn lemma_eval_has_attr_sound<'a>(
    h: Heap<'a>,
    env: EnvRef,
    x: &'a ExprOpHasAttr,
    d: nat,
)
    requires
        sound(h),
        env < h.envs.len(),
        ok(*x.expr, shape(h, env, None)),
        ok_path(x.attr_path, shape(h, env, None)),
    ensures
        sound_step(eval_has_attr(h, env, x, d)),
    decreases d, 3nat, 0nat,
{
    lemma_eval(h, env, &*x.expr, d);
    let (h1, r) = eval(h, env, &*x.expr, d);
    match r {
        Ok(slot) => {
            lemma_has_path(h1, env, x, slot, 0, d);
            let (h2, r2) = has_path(h1, env, x, slot, 0, d);
            if countable(eval_has_attr(h, env, x, d).0) {
                lemma_eval_sound(h, env, &*x.expr, d);
                lemma_shape_kept(h, h1, None, env);
                lemma_has_path_sound(h1, env, x, slot, 0, d);
                match r2 {
                    Ok(b) => {
                        lemma_fresh_sound(h2, ValueView::Bool(b));
                    },
                    Err(e) => {},
                }
            }
        },
        Err(e) => {
            lemma_eval_sound(h, env, &*x.expr, d);
        },
    }
}

pub(crate) proof fn lemma_has_path_sound<'a>(
    h: Heap<'a>,
    env: EnvRef,
    x: &'a ExprOpHasAttr,
    cur: ValueRef,
    i: nat,
    d: nat,
)
    requires
        sound(h),
        env < h.envs.len(),
        ok_path(x.attr_path, shape(h, env, None)),
        evaluated_at(h, cur),
    ensures
        sound_step(has_path(h, env, x, cur, i, d)),
    decreases d, 2nat, x.attr_path@.len() - i,
{
    let g = has_path(h, env, x, cur, i, d).0;
    lemma_has_path(h, env, x, cur, i, d);
    if i < x.attr_path@.len() {
        let name_expr = &x.attr_path@[i as int];
        lemma_attr_name(h, env, name_expr, d);
        let (h1, r) = attr_name(h, env, name_expr, d);
        match r {
            Err(e) => {
                lemma_attr_name_sound(h, env, name_expr, d);
            },
            Ok(name) => match h1.value_at(cur) {
                Some(ValueView::Attrs(b)) => {
                    if b.contains_key(name) {
                        lemma_force(h1, b[name].value, Pos::Undefined, d);
                        let (h2, r2) = force(h1, b[name].value, Pos::Undefined, d);
                        match r2 {
                            Ok(_) => {
                                lemma_has_path(h2, env, x, b[name].value, i + 1, d);
                                if countable(g) {
                                    lemma_attr_name_sound(h, env, name_expr, d);
                                    assert(value_sound(h1, None, h1.values[cur as int]));
                                    lemma_force_sound(h1, b[name].value, Pos::Undefined, d);
                                    lemma_shape_kept(h, h1, None, env);
                                    lemma_shape_kept(h1, h2, None, env);
                                    lemma_has_path_sound(h2, env, x, b[name].value, i + 1, d);
                                }
                            },
                            Err(e) => {
                                if countable(g) {
                                    lemma_attr_name_sound(h, env, name_expr, d);
                                    assert(value_sound(h1, None, h1.values[cur as int]));
                                    lemma_force_sound(h1, b[name].value, Pos::Undefined, d);
                                }
                            },
                        }
                    } else {
                        lemma_attr_name_sound(h, env, name_expr, d);
                    }
                },
                _ => {
                    lemma_attr_name_sound(h, env, name_expr, d);
                },
            },
        }
    }
}

pub(crate) proof fn lemma_dynamic_attrs_sound<'a>(
    h: Heap<'a>,
    env: EnvRef,
    attrs: &'a ExprAttrs,
    i: nat,
    b: Map<Symbol, AttrValue>,
    d: nat,
)
    requires
        sound(h),
        env < h.envs.len(),
        ok_dynamic(attrs.dynamic_attrs, shape(h, env, None)),
        attrs_valid(h, b),
    ensures
        sound_step(dynamic_attrs(h, env, attrs, i, b, d)),
        countable(dynamic_attrs(h, env, attrs, i, b, d).0) ==> (dynamic_attrs(
            h,
            env,
            attrs,
            i,
            b,
            d,
        ).1 matches Ok(all) ==> attrs_valid(dynamic_attrs(h, env, attrs, i, b, d).0, all)),
    decreases d, 2nat, attrs.dynamic_attrs@.len() - i,
{
    let g = dynamic_attrs(h, env, attrs, i, b, d).0;
    lemma_dynamic_attrs(h, env, attrs, i, b, d);
    if i < attrs.dynamic_attrs@.len() {
        let def = &attrs.dynamic_attrs@[i as int];
        lemma_name_of(h, env, &*def.name_expr, d);
        let (h1, r) = name_of(h, env, &*def.name_expr, d);
        match r {
            Err(e) => {
                lemma_name_of_sound(h, env, &*def.name_expr, d);
            },
            Ok(name) => {
                if !b.contains_key(name) {
                    lemma_maybe_thunk(h1, env, &*def.value_expr);
                    let (h2, slot) = maybe_thunk(h1, env, &*def.value_expr);
                    let b1 = b.insert(name, AttrValue { value: slot, pos: def.pos });
                    lemma_dynamic_attrs(h2, env, attrs, i + 1, b1, d);
                    if countable(g) {
                        lemma_name_of_sound(h, env, &*def.name_expr, d);
                        lemma_shape_kept(h, h1, None, env);
                        lemma_maybe_thunk_sound(h1, None, env, &*def.value_expr);
                        lemma_attrs_kept(h, h2, b);
                        assert(attrs_valid(h2, b1)) by {
                            assert forall|n: Symbol| b1.contains_key(n) implies (
                            #[trigger] b1[n]).value < h2.values.len() by {
                                if n != name {
                                    assert(b[n].value < h2.values.len());
                                }
                            }
                        }
                        assert(shape(h2, env, None) == shape(h1, env, None));
                        lemma_dynamic_attrs_sound(h2, env, attrs, i + 1, b1, d);
                    }
                } else {
                    lemma_name_of_sound(h, env, &*def.name_expr, d);
                }
            },
        }
    }
}

pub(crate) proof fn lemma_eval_attrs_literal_sound<'a>(
    h: Heap<'a>,
    env: EnvRef,
    attrs: &'a ExprAttrs,
    d: nat,
)
    requires
        sound(h),
        env < h.envs.len(),
        ok_attrs(*attrs, shape(h, env, None)),
    ensures
        sound_step(eval_attrs_literal(h, env, attrs, d)),
    decreases d, 3nat, 0nat,
{
    let g = eval_attrs_literal(h, env, attrs, d).0;
    lemma_eval_attrs_literal(h, env, attrs, d);
    let shapes = shape(h, env, None);
    if countable(g) && duplicate_def(&attrs.attrs, 0, Set::empty()) is None {
        let n = attrs.attrs@.len();
        let (h0, inner) = if attrs.recursive {
            h.push_env(new_frame(env))
        } else {
            (h, env)
        };
        lemma_static_attrs(h0, env, inner, &attrs.attrs, 0, Seq::empty(), Map::empty());
        let (h1, r) = static_attrs(h0, env, inner, &attrs.attrs, 0, Seq::empty(), Map::empty());
        lemma_static_attrs_total(
            h0,
            env,
            inner,
            &attrs.attrs,
            0,
            Seq::empty(),
            Map::empty(),
            Set::empty(),
        );
        let (slots, b) = r->Ok_0;
        let h2 = if attrs.recursive {
            h1.put_env(inner, EnvInnerView::Plain(slots))
        } else {
            h1
        };
        lemma_dynamic_attrs(h2, inner, attrs, 0, b, d);
        let (h3, r3) = dynamic_attrs(h2, inner, attrs, 0, b, d);
        if attrs.recursive {
            let pending = PendingFrame { env: inner, size: n };
            lemma_begin_frame(h, env, n);
            lemma_static_attrs_sound(
                h0,
                Some(pending),
                env,
                inner,
                &attrs.attrs,
                0,
                Seq::empty(),
                Map::empty(),
            );
            lemma_finish_frame(h1, pending, slots);
            assert(shape(h2, inner, None) == in_frame(n, shapes));
            assert(attrs_valid(h2, b));
            lemma_dynamic_attrs_sound(h2, inner, attrs, 0, b, d);
        } else {
            lemma_static_attrs_sound(
                h0,
                None,
                env,
                inner,
                &attrs.attrs,
                0,
                Seq::empty(),
                Map::empty(),
            );
            lemma_dynamic_attrs_sound(h2, inner, attrs, 0, b, d);
        }
        match r3 {
            Ok(all) => {
                lemma_fresh_sound(h3, ValueView::Attrs(all));
            },
            Err(e) => {},
        }
    }
}

pub(crate) proof fn lemma_eval_let_sound<'a>(h: Heap<'a>, env: EnvRef, l: &'a ExprLet, d: nat)
    requires
        sound(h),
        env < h.envs.len(),
        ok_defs(
            l.attrs.attrs,
            shape(h, env, None),
            in_frame(l.attrs.attrs@.len(), shape(h, env, None)),
        ),
        ok(*l.body, in_frame(l.attrs.attrs@.len(), shape(h, env, None))),
    ensures
        sound_step(eval_let(h, env, l, d)),
    decreases d, 1nat, 0nat,
{
    let g = eval_let(h, env, l, d).0;
    lemma_eval_let(h, env, l, d);
    let shapes = shape(h, env, None);
    if countable(g) && duplicate_def(&l.attrs.attrs, 0, Set::empty()) is None {
        let n = l.attrs.attrs@.len();
        let (h0, inner) = h.push_env(new_frame(env));
        lemma_static_attrs(h0, env, inner, &l.attrs.attrs, 0, Seq::empty(), Map::empty());
        let (h1, r) = static_attrs(h0, env, inner, &l.attrs.attrs, 0, Seq::empty(), Map::empty());
        lemma_static_attrs_total(
            h0,
            env,
            inner,
            &l.attrs.attrs,
            0,
            Seq::empty(),
            Map::empty(),
            Set::empty(),
        );
        let (slots, b) = r->Ok_0;
        let h2 = h1.put_env(inner, EnvInnerView::Plain(slots));
        lemma_eval(h2, inner, &*l.body, d);
        let pending = PendingFrame { env: inner, size: n };
        lemma_begin_frame(h, env, n);
        lemma_static_attrs_sound(
            h0,
            Some(pending),
            env,
            inner,
            &l.attrs.attrs,
            0,
            Seq::empty(),
            Map::empty(),
        );
        lemma_finish_frame(h1, pending, slots);
        assert(shape(h2, inner, None) == in_frame(n, shapes));
        lemma_eval_sound(h2, inner, &*l.body, d);
    }
}

/// A call of a slot of a sound state with a slot of the state is a sound
/// step.
pub proof fn lemma_call_sound<'a>(h: Heap<'a>, f: ValueRef, arg: ValueRef, pos: Pos, d: nat)
    requires
        sound(h),
        f < h.values.len(),
        arg < h.values.len(),
    ensures
        sound_step(call(h, f, arg, pos, d)),
    decreases d, 3nat, 0nat,
{
    let g = call(h, f, arg, pos, d).0;
    lemma_call(h, f, arg, pos, d);
    lemma_force(h, f, pos, d);
    let (h1, r) = force(h, f, pos, d);
    match r {
        Err(e) => {
            lemma_force_sound(h, f, pos, d);
        },
        Ok(_) => match h1.value_at(f) {
            Some(ValueView::Lambda(l)) => {
                lemma_call_lambda(h1, l, arg, pos, d);
                if countable(g) {
                    lemma_force_sound(h, f, pos, d);
                    assert(value_sound(h1, None, h1.values[f as int]));
                    lemma_call_lambda_sound(h1, l, arg, pos, d);
                }
            },
            Some(ValueView::PrimOp(op)) => {
                lemma_call_prim(h1, op, seq![arg], pos, d);
                if countable(g) {
                    lemma_force_sound(h, f, pos, d);
                    lemma_call_prim_sound(h1, op, seq![arg], pos, d);
                }
            },
            Some(ValueView::PrimOpApp(app)) => {
                lemma_call_prim(h1, app.op, app.args.push(arg), pos, d);
                if countable(g) {
                    lemma_force_sound(h, f, pos, d);
                    assert(value_sound(h1, None, h1.values[f as int]));
                    assert(slots_valid(h1, app.args.push(arg))) by {
                        assert forall|k: int|
                            0 <= k < app.args.push(arg).len() implies #[trigger] app.args.push(
                            arg,
                        )[k] < h1.values.len() by {
                            if k < app.args.len() {
                                assert(app.args[k] < h1.values.len());
                            }
                        }
                    }
                    lemma_call_prim_sound(h1, app.op, app.args.push(arg), pos, d);
                }
            },
            _ => {
                lemma_force_sound(h, f, pos, d);
            },
        },
    }
}

pub(crate) proof fn lemma_call_lambda_sound<'a>(
    h: Heap<'a>,
    l: Lambda<'a>,
    arg: ValueRef,
    pos: Pos,
    d: nat,
)
    requires
        sound(h),
        l.env < h.envs.len(),
        ok_lambda(*l.fun, shape(h, l.env, None)),
        arg < h.values.len(),
    ensures
        sound_step(call_lambda(h, l, arg, pos, d)),
    decreases d, 1nat, 0nat,
{
    let g = call_lambda(h, l, arg, pos, d).0;
    lemma_call_lambda(h, l, arg, pos, d);
    let shapes = shape(h, l.env, None);
    if !l.fun.match_attrs {
        let frame = EnvView {
            up: Some(l.env),
            prev_with: Level(0),
            values: EnvInnerView::Plain(seq![arg]),
        };
        let (h1, inner) = h.push_env(frame);
        lemma_eval(h1, inner, &*l.fun.body, d);
        if countable(g) {
            assert(frame_fits(h, frame));
            lemma_push_env_sound(h, frame);
            assert(shape(h1, inner, None) =~= in_frame(1, shapes));
            lemma_eval_sound(h1, inner, &*l.fun.body, d);
        }
    } else {
        lemma_force(h, arg, pos, d);
        let (h1, r) = force(h, arg, pos, d);
        match r {
            Err(e) => {
                lemma_force_sound(h, arg, pos, d);
            },
            Ok(_) => match h1.value_at(arg) {
                Some(ValueView::Attrs(b)) => {
                    if missing_formal(l.fun, b, 0) is None && !(!l.fun.formals.ellipsis
                        && least_unexpected(l.fun, b, h1.symbols) is Some) {
                        let n = lambda_size(*l.fun);
                        let (h2, inner) = h1.push_env(new_frame(l.env));
                        let base = if l.fun.arg is Some {
                            seq![arg]
                        } else {
                            Seq::empty()
                        };
                        lemma_formal_slots(h2, inner, l.fun, b, 0, base);
                        let (h3, r3) = formal_slots(h2, inner, l.fun, b, 0, base);
                        lemma_formal_slots_total(h2, inner, l.fun, b, 0, base);
                        let slots = r3->Ok_0;
                        let h4 = h3.put_env(inner, EnvInnerView::Plain(slots));
                        lemma_eval(h4, inner, &*l.fun.body, d);
                        if countable(g) {
                            lemma_force_sound(h, arg, pos, d);
                            assert(value_sound(h1, None, h1.values[arg as int]));
                            lemma_shape_kept(h, h1, None, l.env);
                            let pending = PendingFrame { env: inner, size: n };
                            lemma_begin_frame(h1, l.env, n);
                            assert(slots_valid(h2, base));
                            lemma_formal_slots_sound(h2, Some(pending), inner, l.fun, b, 0, base);
                            lemma_finish_frame(h3, pending, slots);
                            assert(shape(h4, inner, None) == in_frame(n, shapes));
                            lemma_eval_sound(h4, inner, &*l.fun.body, d);
                        }
                    } else {
                        lemma_force_sound(h, arg, pos, d);
                    }
                },
                _ => {
                    lemma_force_sound(h, arg, pos, d);
                },
            },
        }
    }
}

pub(crate) proof fn lemma_call_prim_sound<'a>(
    h: Heap<'a>,
    op: PrimOpView,
    args: Seq<ValueRef>,
    pos: Pos,
    d: nat,
)
    requires
        sound(h),
        slots_valid(h, args),
    ensures
        sound_step(call_prim(h, op, args, pos, d)),
    decreases d, 2nat, 0nat,
{
    if args.len() < op.arity {
        lemma_fresh_sound(h, ValueView::PrimOpApp(PrimOpAppView { op, args }));
    } else {
        lemma_apply_prim_sound(h, op.fun, args, pos, d);
    }
}

pub(crate) proof fn lemma_force_int_sound<'a>(h: Heap<'a>, slot: ValueRef, pos: Pos, d: nat)
    requires
        sound(h),
        slot < h.values.len(),
    ensures
        sound_step(force_int(h, slot, pos, d)),
    decreases d, 1nat, 0nat,
{
    lemma_force(h, slot, pos, d);
    lemma_force_sound(h, slot, pos, d);
}

pub(crate) proof fn lemma_apply_prim_sound<'a>(
    h: Heap<'a>,
    fun: PrimOpFun,
    args: Seq<ValueRef>,
    pos: Pos,
    d: nat,
)
    requires
        sound(h),
        slots_valid(h, args),
    ensures
        sound_step(apply_prim(h, fun, args, pos, d)),
    decreases d, 1nat, 1nat,
{
    let g = apply_prim(h, fun, args, pos, d).0;
    lemma_apply_prim(h, fun, args, pos, d);
    if args.len() == 2 {
        assert(args[0] < h.values.len() && args[1] < h.values.len());
        lemma_force_int(h, args[0], pos, d);
        let (h1, r1) = force_int(h, args[0], pos, d);
        match r1 {
            Err(e) => {
                lemma_force_int_sound(h, args[0], pos, d);
            },
            Ok(a) => {
                lemma_force_int(h1, args[1], pos, d);
                let (h2, r2) = force_int(h1, args[1], pos, d);
                if countable(g) {
                    lemma_force_int_sound(h, args[0], pos, d);
                    lemma_force_int_sound(h1, args[1], pos, d);
                    match r2 {
                        Err(e) => {},
                        Ok(b) => match prim_result::<'a>(fun, a, b) {
                            Ok(v) => {
                                lemma_fresh_sound(h2, v);
                            },
                            Err(e) => {},
                        },
                    }
                }
            },
        }
    }
}

/// Comparing two slots of a sound state is a sound step.
pub proof fn lemma_values_equal_sound<'a>(h: Heap<'a>, a: ValueRef, b: ValueRef, pos: Pos, d: nat)
    requires
        sound(h),
        a < h.values.len(),
        b < h.values.len(),
    ensures
        sound_step(values_equal(h, a, b, pos, d)),
    decreases d, 0nat, 0nat,
{
    let g = values_equal(h, a, b, pos, d).0;
    lemma_values_equal(h, a, b, pos, d);
    if d > 0 {
        let d1 = (d - 1) as nat;
        lemma_force(h, a, pos, d1);
        let (h1, r1) = force(h, a, pos, d1);
        match r1 {
            Err(e) => {
                lemma_force_sound(h, a, pos, d1);
            },
            Ok(_) => {
                lemma_force(h1, b, pos, d1);
                let (h2, r2) = force(h1, b, pos, d1);
                match r2 {
                    Err(e) => {
                        if countable(g) {
                            lemma_force_sound(h, a, pos, d1);
                            lemma_force_sound(h1, b, pos, d1);
                        }
                    },
                    Ok(_) => match (h2.value_at(a), h2.value_at(b)) {
                        (Some(x), Some(y)) => match (x, y) {
                            (ValueView::List(m), ValueView::List(n)) => {
                                if m.len() == n.len() {
                                    lemma_lists_equal(h2, m, n, 0, pos, d1);
                                }
                                if countable(g) {
                                    lemma_force_sound(h, a, pos, d1);
                                    lemma_force_sound(h1, b, pos, d1);
                                    assert(value_sound(h2, None, h2.values[a as int]));
                                    assert(value_sound(h2, None, h2.values[b as int]));
                                    if m.len() == n.len() {
                                        lemma_lists_equal_sound(h2, m, n, 0, pos, d1);
                                    }
                                }
                            },
                            (ValueView::Attrs(m), ValueView::Attrs(n)) => {
                                if m.len() == n.len() {
                                    lemma_attrs_equal(h2, sorted_attrs(m, h2.symbols), n, 0, pos, d1);
                                }
                                if countable(g) {
                                    lemma_force_sound(h, a, pos, d1);
                                    lemma_force_sound(h1, b, pos, d1);
                                    assert(value_sound(h2, None, h2.values[a as int]));
                                    assert(value_sound(h2, None, h2.values[b as int]));
                                    if m.len() == n.len() {
                                        lemma_sorted_enumeration_exists(m, h2.symbols);
                                        let s = sorted_attrs(m, h2.symbols);
                                        assert(sorted_by_text(s, h2.symbols) && enumerates(s, m));
                                        assert forall|k: int| 0 <= k < s.len() implies (
                                        #[trigger] s[k]).value.value < h2.values.len() by {
                                            assert(m.contains_key(s[k].name));
                                            assert(m[s[k].name] == s[k].value);
                                        }
                                        lemma_attrs_equal_sound(h2, s, n, 0, pos, d1);
                                    }
                                }
                            },
                            _ => {
                                if countable(g) {
                                    lemma_force_sound(h, a, pos, d1);
                                    lemma_force_sound(h1, b, pos, d1);
                                }
                            },
                        },
                        _ => {
                            if countable(g) {
                                lemma_force_sound(h, a, pos, d1);
                                lemma_force_sound(h1, b, pos, d1);
                            }
                        },
                    },
                }
            },
        }
    }
}

pub(crate) proof fn lemma_lists_equal_sound<'a>(
    h: Heap<'a>,
    a: Seq<ValueRef>,
    b: Seq<ValueRef>,
    i: nat,
    pos: Pos,
    d: nat,
)
    requires
        sound(h),
        slots_valid(h, a),
        slots_valid(h, b),
    ensures
        sound_step(lists_equal(h, a, b, i, pos, d)),
    decreases d, 1nat, a.len() - i,
{
    let g = lists_equal(h, a, b, i, pos, d).0;
    lemma_lists_equal(h, a, b, i, pos, d);
    if !(i >= a.len() || i >= b.len()) {
        assert(a[i as int] < h.values.len() && b[i as int] < h.values.len());
        lemma_values_equal(h, a[i as int], b[i as int], pos, d);
        let (h1, r) = values_equal(h, a[i as int], b[i as int], pos, d);
        match r {
            Ok(true) => {
                lemma_lists_equal(h1, a, b, i + 1, pos, d);
                if countable(g) {
                    lemma_values_equal_sound(h, a[i as int], b[i as int], pos, d);
                    lemma_slots_kept(h, h1, a);
                    lemma_slots_kept(h, h1, b);
                    lemma_lists_equal_sound(h1, a, b, i + 1, pos, d);
                }
            },
            _ => {
                lemma_values_equal_sound(h, a[i as int], b[i as int], pos, d);
            },
        }
    }
}

pub(crate) proof fn lemma_attrs_equal_sound<'a>(
    h: Heap<'a>,
    a: Seq<Attr>,
    b: Map<Symbol, AttrValue>,
    i: nat,
    pos: Pos,
    d: nat,
)
    requires
        sound(h),
        forall|k: int| 0 <= k < a.len() ==> (#[trigger] a[k]).value.value < h.values.len(),
        attrs_valid(h, b),
    ensures
        sound_step(attrs_equal(h, a, b, i, pos, d)),
    decreases d, 1nat, a.len() - i,
{
    let g = attrs_equal(h, a, b, i, pos, d).0;
    lemma_attrs_equal(h, a, b, i, pos, d);
    if i < a.len() && b.contains_key(a[i as int].name) {
        let x = a[i as int].value.value;
        let y = b[a[i as int].name].value;
        assert(x < h.values.len() && y < h.values.len());
        lemma_values_equal(h, x, y, pos, d);
        let (h1, r) = values_equal(h, x, y, pos, d);
        match r {
            Ok(true) => {
                lemma_attrs_equal(h1, a, b, i + 1, pos, d);
                if countable(g) {
                    lemma_values_equal_sound(h, x, y, pos, d);
                    lemma_attrs_kept(h, h1, b);
                    assert forall|k: int| 0 <= k < a.len() implies (#[trigger] a[k]).value.value
                        < h1.values.len() by {
                        assert(a[k].value.value < h.values.len());
                    }
                    lemma_attrs_equal_sound(h1, a, b, i + 1, pos, d);
                }
            },
            _ => {
                lemma_values_equal_sound(h, x, y, pos, d);
            },
        }
    }
}

pub(crate) proof fn lemma_eval_binop_sound<'a>(h: Heap<'a>, env: EnvRef, b: &'a BinOp, d: nat)
    requires
        sound(h),
        env < h.envs.len(),
        ok(*b.e1, shape(h, env, None)),
        ok(*b.e2, shape(h, env, None)),
    ensures
        sound_step(eval_binop(h, env, b, d)),
    decreases d, 4nat, 0nat,
{
    let g = eval_binop(h, env, b, d).0;
    lemma_eval_binop(h, env, b, d);
    match b.kind {
        OpKind::App => {
            lemma_eval(h, env, &*b.e1, d);
            let (h1, r) = eval(h, env, &*b.e1, d);
            match r {
                Err(e) => {
                    lemma_eval_sound(h, env, &*b.e1, d);
                },
                Ok(f) => {
                    lemma_maybe_thunk(h1, env, &*b.e2);
                    let (h2, arg) = maybe_thunk(h1, env, &*b.e2);
                    lemma_call(h2, f, arg, b.pos, d);
                    let (h3, r3) = call(h2, f, arg, b.pos, d);
                    match r3 {
                        Err(e) => {
                            if countable(g) {
                                lemma_eval_sound(h, env, &*b.e1, d);
                                lemma_fits_kept(h, h1, env, *b.e2);
                                lemma_maybe_thunk_sound(h1, None, env, &*b.e2);
                                lemma_call_sound(h2, f, arg, b.pos, d);
                            }
                        },
                        Ok(v) => {
                            lemma_force(h3, v, b.pos, d);
                            if countable(g) {
                                lemma_eval_sound(h, env, &*b.e1, d);
                                lemma_fits_kept(h, h1, env, *b.e2);
                                lemma_maybe_thunk_sound(h1, None, env, &*b.e2);
                                lemma_call_sound(h2, f, arg, b.pos, d);
                                lemma_force_sound(h3, v, b.pos, d);
                            }
                        },
                    }
                },
            }
        },
        OpKind::Eq | OpKind::NEq => {
            lemma_eval(h, env, &*b.e1, d);
            let (h1, r1) = eval(h, env, &*b.e1, d);
            match r1 {
                Err(e) => {
                    lemma_eval_sound(h, env, &*b.e1, d);
                },
                Ok(x) => {
                    lemma_eval(h1, env, &*b.e2, d);
                    let (h2, r2) = eval(h1, env, &*b.e2, d);
                    match r2 {
                        Err(e) => {
                            if countable(g) {
                                lemma_eval_sound(h, env, &*b.e1, d);
                                lemma_fits_kept(h, h1, env, *b.e2);
                                lemma_eval_sound(h1, env, &*b.e2, d);
                            }
                        },
                        Ok(y) => {
                            lemma_values_equal(h2, x, y, b.pos, d);
                            let (h3, r3) = values_equal(h2, x, y, b.pos, d);
                            if countable(g) {
                                lemma_eval_sound(h, env, &*b.e1, d);
                                lemma_fits_kept(h, h1, env, *b.e2);
                                lemma_eval_sound(h1, env, &*b.e2, d);
                                lemma_values_equal_sound(h2, x, y, b.pos, d);
                                match r3 {
                                    Err(e) => {},
                                    Ok(eq) => {
                                        lemma_fresh_sound(
                                            h3,
                                            ValueView::Bool(eq == (b.kind == OpKind::Eq)),
                                        );
                                    },
                                }
                            }
                        },
                    }
                },
            }
        },
        OpKind::And | OpKind::Or | OpKind::Impl => {
            lemma_eval_bool(h, env, &*b.e1, d);
            let (h1, r1) = eval_bool(h, env, &*b.e1, d);
            match r1 {
                Err(e) => {
                    lemma_eval_bool_sound(h, env, &*b.e1, d);
                },
                Ok(x) => {
                    lemma_eval_bool(h1, env, &*b.e2, d);
                    let (h2, r2) = eval_bool(h1, env, &*b.e2, d);
                    if countable(g) {
                        lemma_eval_bool_sound(h, env, &*b.e1, d);
                        lemma_fresh_sound(h1, ValueView::Bool(false));
                        lemma_fresh_sound(h1, ValueView::Bool(true));
                        if !((b.kind == OpKind::And && !x) || (b.kind == OpKind::Or && x) || (b.kind
                            == OpKind::Impl && !x)) {
                            lemma_fits_kept(h, h1, env, *b.e2);
                            lemma_eval_bool_sound(h1, env, &*b.e2, d);
                            match r2 {
                                Err(e) => {},
                                Ok(y) => {
                                    lemma_fresh_sound(h2, ValueView::Bool(y));
                                },
                            }
                        }
                    }
                },
            }
        },
        OpKind::Update => {
            lemma_eval_attrs(h, env, &*b.e1, d);
            let (h1, r1) = eval_attrs(h, env, &*b.e1, d);
            match r1 {
                Err(e) => {
                    lemma_eval_attrs_sound(h, env, &*b.e1, d);
                },
                Ok(x) => {
                    lemma_eval_attrs(h1, env, &*b.e2, d);
                    let (h2, r2) = eval_attrs(h1, env, &*b.e2, d);
                    if countable(g) {
                        lemma_eval_attrs_sound(h, env, &*b.e1, d);
                        lemma_fits_kept(h, h1, env, *b.e2);
                        lemma_eval_attrs_sound(h1, env, &*b.e2, d);
                        match r2 {
                            Err(e) => {},
                            Ok(y) => {
                                lemma_attrs_kept(h1, h2, x);
                                let m = x.union_prefer_right(y);
                                assert(attrs_valid(h2, m)) by {
                                    assert(m.dom() =~= x.dom().union(y.dom()));
                                    assert forall|n: Symbol| m.contains_key(n) implies (
                                    #[trigger] m[n]).value < h2.values.len() by {
                                        if y.contains_key(n) {
                                            assert(y[n].value < h2.values.len());
                                        } else {
                                            assert(x[n].value < h2.values.len());
                                        }
                                    }
                                }
                                lemma_fresh_sound(h2, ValueView::Attrs(m));
                            },
                        }
                    }
                },
            }
        },
        OpKind::ConcatLists => {
            lemma_eval_list(h, env, &*b.e1, d);
            let (h1, r1) = eval_list(h, env, &*b.e1, d);
            match r1 {
                Err(e) => {
                    lemma_eval_list_sound(h, env, &*b.e1, d);
                },
                Ok(x) => {
                    lemma_eval_list(h1, env, &*b.e2, d);
                    let (h2, r2) = eval_list(h1, env, &*b.e2, d);
                    if countable(g) {
                        lemma_eval_list_sound(h, env, &*b.e1, d);
                        lemma_fits_kept(h, h1, env, *b.e2);
                        lemma_eval_list_sound(h1, env, &*b.e2, d);
                        match r2 {
                            Err(e) => {},
                            Ok(y) => {
                                lemma_slots_kept(h1, h2, x);
                                assert(slots_valid(h2, x + y)) by {
                                    assert forall|k: int| 0 <= k < (x + y).len() implies (
                                    #[trigger] (x + y)[k]) < h2.values.len() by {
                                        if k < x.len() {
                                            assert(x[k] < h2.values.len());
                                        } else {
                                            assert(y[k - x.len()] < h2.values.len());
                                        }
                                    }
                                }
                                lemma_fresh_sound(h2, ValueView::List(x + y));
                            },
                        }
                    }
                },
            }
        },
    }
}

pub(crate) proof fn lemma_concat_parts_sound<'a>(
    h: Heap<'a>,
    env: EnvRef,
    c: &'a ExprConcatStrings,
    i: nat,
    acc: Gathered,
    d: nat,
)
    requires
        sound(h),
        env < h.envs.len(),
        ok_exprs(c.exprs, shape(h, env, None)),
    ensures
        sound_step(concat_parts(h, env, c, i, acc, d)),
    decreases d, 1nat, c.exprs@.len() - i,
{
    let g = concat_parts(h, env, c, i, acc, d).0;
    lemma_concat_parts(h, env, c, i, acc, d);
    if i < c.exprs@.len() {
        lemma_eval(h, env, &c.exprs@[i as int], d);
        let (h1, r) = eval(h, env, &c.exprs@[i as int], d);
        match r {
            Err(e) => {
                lemma_eval_sound(h, env, &c.exprs@[i as int], d);
            },
            Ok(slot) => match h1.value_at(slot) {
                None => {
                    lemma_eval_sound(h, env, &c.exprs@[i as int], d);
                },
                Some(v) => match gather(acc, v, c.force_string) {
                    Err(e) => {
                        lemma_eval_sound(h, env, &c.exprs@[i as int], d);
                    },
                    Ok(next) => {
                        lemma_concat_parts(h1, env, c, i + 1, next, d);
                        if countable(g) {
                            lemma_eval_sound(h, env, &c.exprs@[i as int], d);
                            lemma_shape_kept(h, h1, None, env);
                            lemma_concat_parts_sound(h1, env, c, i + 1, next, d);
                        }
                    },
                },
            },
        }
    }
}

pub(crate) proof fn lemma_eval_concat_sound<'a>(
    h: Heap<'a>,
    env: EnvRef,
    c: &'a ExprConcatStrings,
    d: nat,
)
    requires
        sound(h),
        env < h.envs.len(),
        ok_exprs(c.exprs, shape(h, env, None)),
    ensures
        sound_step(eval_concat(h, env, c, d)),
    decreases d, 2nat, 0nat,
{
    lemma_concat_parts(h, env, c, 0, Gathered::Nothing, d);
    let (h1, r) = concat_parts(h, env, c, 0, Gathered::Nothing, d);
    if countable(eval_concat(h, env, c, d).0) {
        lemma_concat_parts_sound(h, env, c, 0, Gathered::Nothing, d);
        match r {
            Err(e) => {},
            Ok(acc) => {
                lemma_fresh_sound(h1, gathered_value(acc));
            },
        }
    }
}

} // verus!
