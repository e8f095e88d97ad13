//! What evaluation means: for each operation of the evaluator, the state
//! it leaves and the result it gives, as a function of the state it starts
//! from.
//!
//! Evaluation is bounded by a depth: each nested evaluation, forcing or
//! comparison has one level less, and at depth zero it fails with
//! `DepthExhausted`.

use crate::attr_set::{enumerates, sorted_by_text, Attr, AttrValue, ValueRef};
use crate::env::{Displ, EnvRef, Level};
use crate::err::{NixError, ValueKind};
use crate::eval::ShouldEval;
use crate::heap::{
    kind_of, EnvInnerView, EnvView, Heap, NixStringView, PrimOpAppView, PrimOpView, ValueView,
};
use crate::nix_expr::{
    AttrDef, AttrName, BinOp, Expr, ExprAttrs, ExprConcatStrings, ExprLambda, ExprLet,
    ExprOpHasAttr, ExprSelect, ExprVar, OpKind,
};
use crate::pos::Pos;
use crate::primops::{PrimOp, PrimOpFun};
use crate::symbol_table::{symbol_less, Symbol};
use crate::value::{App, Lambda, NixFloat, Thunk};
use vstd::prelude::*;

verus! {

/// The state that an operation leaves, and its result.
pub type Step<'a, T> = (Heap<'a>, Result<T, NixError>);

/// The step that puts `v` into a new slot and gives that slot.
pub open spec fn fresh<'a>(h: Heap<'a>, v: ValueView<'a>) -> Step<'a, ValueRef> {
    (h.push_value(v).0, Ok(h.push_value(v).1))
}

/// The environment `n` frames up from `env`. Each frame must have been
/// made after the frame around it.
pub open spec fn walk_up(h: Heap, env: EnvRef, n: nat) -> Option<EnvRef>
    decreases n,
{
    if env >= h.envs.len() {
        None
    } else if n == 0 {
        Some(env)
    } else {
        match h.envs[env as int].up {
            Some(up) => if up < env {
                walk_up(h, up, (n - 1) as nat)
            } else {
                None
            },
            None => None,
        }
    }
}

/// Walking up leads to an environment of the state, and to an earlier one
/// if it walks at all.
pub proof fn lemma_walk_up(h: Heap, env: EnvRef, n: nat)
    ensures
        walk_up(h, env, n) matches Some(e) ==> e < h.envs.len() && e <= env && (n > 0 ==> e
            < env),
    decreases n,
{
    if env < h.envs.len() && n > 0 {
        match h.envs[env as int].up {
            Some(up) => {
                if up < env {
                    lemma_walk_up(h, up, (n - 1) as nat);
                }
            },
            None => {},
        }
    }
}

/// The slot of a variable that resolution has bound to a frame: `level`
/// frames up, at `displ`.
pub open spec fn lookup_static(h: Heap, env: EnvRef, var: ExprVar) -> Option<ValueRef> {
    match walk_up(h, env, var.level.0 as nat) {
        Some(e) => match h.envs[e as int].values {
            EnvInnerView::Plain(slots) => if var.displ.0 < slots.len() {
                Some(slots[var.displ.0 as int])
            } else {
                None
            },
            _ => None,
        },
        None => None,
    }
}

/// The slot that stands for `e` in `env` without evaluating it: the slot of
/// the variable, where `e` is a variable that resolution has bound to a
/// frame; else a new thunk.
pub open spec fn maybe_thunk<'a>(h: Heap<'a>, env: EnvRef, e: &'a Expr) -> (Heap<'a>, ValueRef) {
    match e {
        Expr::Var(v) => if v.resolved && !v.from_with && lookup_static(h, env, *v) is Some {
            (h, lookup_static(h, env, *v)->0)
        } else {
            h.push_value(ValueView::Thunk(Thunk { env, expr: e }))
        },
        _ => h.push_value(ValueView::Thunk(Thunk { env, expr: e })),
    }
}

/// The slots that stand for the expressions of `items` from index `i` on,
/// after `acc`.
pub open spec fn thunks<'a>(
    h: Heap<'a>,
    env: EnvRef,
    items: &'a Vec<Expr>,
    i: nat,
    acc: Seq<ValueRef>,
) -> (Heap<'a>, Seq<ValueRef>)
    decreases items@.len() - i,
{
    if i >= items@.len() {
        (h, acc)
    } else {
        let (h1, slot) = maybe_thunk(h, env, &items@[i as int]);
        thunks(h1, env, items, i + 1, acc.push(slot))
    }
}

/// The slots and the attributes of the definitions of `attrs` from index
/// `i` on, after `slots` and `b`: one slot for each definition, standing
/// for its expression in `outer` if it is inherited and in `inner` if not.
/// Fails where a name is defined twice.
pub open spec fn static_attrs<'a>(
    h: Heap<'a>,
    outer: EnvRef,
    inner: EnvRef,
    attrs: &'a Vec<(Symbol, AttrDef)>,
    i: nat,
    slots: Seq<ValueRef>,
    b: Map<Symbol, AttrValue>,
) -> Step<'a, (Seq<ValueRef>, Map<Symbol, AttrValue>)>
    decreases attrs@.len() - i,
{
    if i >= attrs@.len() {
        (h, Ok((slots, b)))
    } else {
        let name = attrs@[i as int].0;
        let def = &attrs@[i as int].1;
        if b.contains_key(name) {
            (h, Err(NixError::DuplicateAttr(name, def.pos)))
        } else {
            let (h1, slot) = maybe_thunk(
                h,
                if def.inherited {
                    outer
                } else {
                    inner
                },
                &*def.expr,
            );
            static_attrs(
                h1,
                outer,
                inner,
                attrs,
                i + 1,
                slots.push(slot),
                b.insert(name, AttrValue { value: slot, pos: def.pos }),
            )
        }
    }
}

/// The slots of the formals of `fun` from index `i` on, after `slots`: for
/// each formal the slot that `b` holds under its name or, where `b` lacks
/// the name, a new thunk of the default in `env`. Fails where `b` lacks a
/// name that has no default.
pub open spec fn formal_slots<'a>(
    h: Heap<'a>,
    env: EnvRef,
    fun: &'a ExprLambda,
    b: Map<Symbol, AttrValue>,
    i: nat,
    slots: Seq<ValueRef>,
) -> Step<'a, Seq<ValueRef>>
    decreases fun.formals.formals@.len() - i,
{
    if i >= fun.formals.formals@.len() {
        (h, Ok(slots))
    } else {
        let formal = &fun.formals.formals@[i as int];
        if b.contains_key(formal.name) {
            formal_slots(h, env, fun, b, i + 1, slots.push(b[formal.name].value))
        } else {
            match &formal.def {
                Some(d) => {
                    let (h1, slot) = h.push_value(ValueView::Thunk(Thunk { env, expr: &**d }));
                    formal_slots(h1, env, fun, b, i + 1, slots.push(slot))
                },
                None => (h, Err(NixError::MissingFormal(formal.name, fun.pos))),
            }
        }
    }
}

/// The first definition of `attrs` from index `i` on whose name is in
/// `seen` or is the name of a definition between `i` and it, with the
/// position of that definition.
pub open spec fn duplicate_def(attrs: &Vec<(Symbol, AttrDef)>, i: nat, seen: Set<Symbol>) -> Option<
    (Symbol, Pos),
>
    decreases attrs@.len() - i,
{
    if i >= attrs@.len() {
        None
    } else if seen.contains(attrs@[i as int].0) {
        Some((attrs@[i as int].0, attrs@[i as int].1.pos))
    } else {
        duplicate_def(attrs, i + 1, seen.insert(attrs@[i as int].0))
    }
}

/// The first formal of `fun` from index `i` on that has no default and
/// that `b` lacks.
pub open spec fn missing_formal(fun: &ExprLambda, b: Map<Symbol, AttrValue>, i: nat) -> Option<
    Symbol,
>
    decreases fun.formals.formals@.len() - i,
{
    if i >= fun.formals.formals@.len() {
        None
    } else if !b.contains_key(fun.formals.formals@[i as int].name)
        && fun.formals.formals@[i as int].def is None {
        Some(fun.formals.formals@[i as int].name)
    } else {
        missing_formal(fun, b, i + 1)
    }
}

/// Whether `name` is a formal of `fun`.
pub open spec fn is_formal(fun: &ExprLambda, name: Symbol) -> bool {
    exists|i: int| 0 <= i < fun.formals.formals@.len() && #[trigger] fun.formals.formals@[i].name == name
}

/// Whether `b` holds `name`, and `name` is no formal of `fun`.
pub open spec fn unexpected(fun: &ExprLambda, b: Map<Symbol, AttrValue>, name: Symbol) -> bool {
    b.contains_key(name) && !is_formal(fun, name)
}

/// Whether `name` is a name of `b` that is no formal of `fun`, and no
/// such name stands before it in the order of symbols.
pub open spec fn first_unexpected(
    fun: &ExprLambda,
    b: Map<Symbol, AttrValue>,
    symbols: Seq<Seq<char>>,
    name: Symbol,
) -> bool {
    unexpected(fun, b, name) && forall|other: Symbol| #[trigger]
        symbol_less(symbols, other, name) ==> !unexpected(fun, b, other)
}

/// The name of `b` that is no formal of `fun` and stands first among such
/// names in the order of symbols, which for the symbols of the table is the
/// order of their texts.
pub open spec fn least_unexpected(
    fun: &ExprLambda,
    b: Map<Symbol, AttrValue>,
    symbols: Seq<Seq<char>>,
) -> Option<Symbol> {
    if exists|name: Symbol| unexpected(fun, b, name) {
        Some(choose|name: Symbol| first_unexpected(fun, b, symbols, name))
    } else {
        None
    }
}

/// The attributes of `m` in the order of their names, which for the
/// symbols of the table is the order of their texts.
pub open spec fn sorted_attrs(m: Map<Symbol, AttrValue>, symbols: Seq<Seq<char>>) -> Seq<Attr> {
    choose|attrs: Seq<Attr>| sorted_by_text(attrs, symbols) && enumerates(attrs, m)
}

/// `acc` followed by the tags of `more` that `acc` lacks, each once.
pub open spec fn union_context(acc: Seq<Seq<char>>, more: Seq<Seq<char>>, i: nat) -> Seq<Seq<char>>
    decreases more.len() - i,
{
    if i >= more.len() {
        acc
    } else if acc.contains(more[i as int]) {
        union_context(acc, more, i + 1)
    } else {
        union_context(acc.push(more[i as int]), more, i + 1)
    }
}

/// Whether `tag` is one of the tags of `more` from the place `i` on.
pub open spec fn tagged_from(more: Seq<Seq<char>>, i: nat, tag: Seq<char>) -> bool {
    exists|j: int| i <= j < more.len() && more[j] == tag
}

/// The union of two contexts begins with the first of them, holds the tags
/// of both and no others, and holds no tag twice if the first held none
/// twice.
pub proof fn lemma_union_context(acc: Seq<Seq<char>>, more: Seq<Seq<char>>, i: nat)
    ensures
        acc.is_prefix_of(union_context(acc, more, i)),
        forall|tag: Seq<char>|
            union_context(acc, more, i).contains(tag) <==> acc.contains(tag) || #[trigger] tagged_from(
                more,
                i,
                tag,
            ),
        acc.no_duplicates() ==> union_context(acc, more, i).no_duplicates(),
    decreases more.len() - i,
{
    let whole = union_context(acc, more, i);
    if i >= more.len() {
        assert forall|tag: Seq<char>| !tagged_from(more, i, tag) by {}
    } else {
        let t = more[i as int];
        let next = if acc.contains(t) {
            acc
        } else {
            acc.push(t)
        };
        lemma_union_context(next, more, i + 1);
        assert(whole == union_context(next, more, i + 1));
        assert(acc.is_prefix_of(whole)) by {
            assert(acc.is_prefix_of(next));
            assert(whole.subrange(0, acc.len() as int) =~= acc);
        }
        assert forall|tag: Seq<char>|
            whole.contains(tag) <==> acc.contains(tag) || #[trigger] tagged_from(more, i, tag) by {
            assert(whole.contains(tag) <==> next.contains(tag) || tagged_from(more, i + 1, tag));
            if tagged_from(more, i, tag) {
                let j = choose|j: int| i <= j < more.len() && more[j] == tag;
                if j == i {
                    if acc.contains(t) {
                    } else {
                        assert(next[acc.len() as int] == t);
                    }
                    assert(next.contains(tag));
                } else {
                    assert(i + 1 <= j < more.len() && more[j] == tag);
                    assert(tagged_from(more, i + 1, tag));
                }
            }
            if tagged_from(more, i + 1, tag) {
                let j = choose|j: int| i + 1 <= j < more.len() && more[j] == tag;
                assert(i <= j < more.len() && more[j] == tag);
            }
            if next.contains(tag) && !acc.contains(tag) {
                let k = choose|k: int| 0 <= k < next.len() && next[k] == tag;
                if k < acc.len() {
                    assert(acc[k] == tag);
                }
                assert(tag == t);
                assert(i <= i < more.len() && more[i as int] == tag);
            }
            if acc.contains(tag) {
                let k = choose|k: int| 0 <= k < acc.len() && acc[k] == tag;
                assert(next[k] == tag);
            }
        }
        if acc.no_duplicates() {
            assert(next.no_duplicates()) by {
                if !acc.contains(t) {
                    assert forall|a: int, b: int|
                        0 <= a < next.len() && 0 <= b < next.len() && a != b implies next[a]
                        != next[b] by {
                        if a == acc.len() {
                            assert(acc[b] == next[b]);
                        } else if b == acc.len() {
                            assert(acc[a] == next[a]);
                        }
                    }
                }
            }
        }
    }
}

/// Whether the bits of a floating-point number encode no number.
pub open spec fn float_is_nan(bits: u64) -> bool {
    (bits & 0x7ff0_0000_0000_0000) == 0x7ff0_0000_0000_0000 && (bits & 0x000f_ffff_ffff_ffff) != 0
}

/// Whether two floating-point numbers are equal, where what encodes no
/// number equals all that encodes no number, and the two zeros are equal.
pub open spec fn float_eq(a: NixFloat, b: NixFloat) -> bool {
    if float_is_nan(a.bits) {
        float_is_nan(b.bits)
    } else if float_is_nan(b.bits) {
        false
    } else {
        a.bits == b.bits || ((a.bits & 0x7fff_ffff_ffff_ffff) == 0 && (b.bits
            & 0x7fff_ffff_ffff_ffff) == 0)
    }
}

/// The quotient of `a` by `b`, rounded towards zero.
pub open spec fn div_trunc(a: int, b: int) -> int
    recommends
        b != 0,
{
    if a >= 0 {
        if b > 0 {
            a / b
        } else {
            -(a / (-b))
        }
    } else {
        if b > 0 {
            -((-a) / b)
        } else {
            (-a) / (-b)
        }
    }
}

/// What a built-in function gives for two integers.
pub open spec fn prim_result<'a>(fun: PrimOpFun, a: i64, b: i64) -> Result<ValueView<'a>, NixError> {
    match fun {
        PrimOpFun::Sub => if i64::MIN <= a - b <= i64::MAX {
            Ok(ValueView::Int((a - b) as i64))
        } else {
            Err(NixError::IntegerOverflow)
        },
        PrimOpFun::Mul => if i64::MIN <= a * b <= i64::MAX {
            Ok(ValueView::Int((a * b) as i64))
        } else {
            Err(NixError::IntegerOverflow)
        },
        PrimOpFun::Div => if b == 0 {
            Err(NixError::DivisionByZero)
        } else if a == i64::MIN && b == -1 {
            Err(NixError::IntegerOverflow)
        } else {
            Ok(ValueView::Int(div_trunc(a as int, b as int) as i64))
        },
        PrimOpFun::LessThan => Ok(ValueView::Bool(a < b)),
    }
}

/// Binds the built-in functions `ops` from index `i` on in the outermost
/// scope, each under its name, which is interned. Gives the state and the
/// names of the scope after that.
pub open spec fn register_prim_ops<'a>(
    h: Heap<'a>,
    vars: Map<Symbol, Displ>,
    ops: Seq<PrimOp>,
    i: nat,
) -> (Heap<'a>, Map<Symbol, Displ>, Result<(), NixError>)
    decreases ops.len() - i,
{
    if i >= ops.len() {
        (h, vars, Ok(()))
    } else {
        let (h1, name) = h.intern(ops[i as int].name@);
        match h1.define_global(ValueView::PrimOp(ops[i as int]@)) {
            Some((h2, displ)) => register_prim_ops(h2, vars.insert(name, displ), ops, i + 1),
            None => (h1, vars, Err(NixError::BadReference)),
        }
    }
}

/// Forces the value in `slot`: afterwards the slot holds an evaluated
/// value. A thunk is evaluated once: its slot holds a black hole while its
/// expression is evaluated, the value after that; where the evaluation
/// fails, the slot holds the thunk again. A black hole is an infinite
/// recursion, reported at `pos`. An application is carried out and replaced
/// by its result. Any other value stays as it is.
pub open spec fn force<'a>(h: Heap<'a>, slot: ValueRef, pos: Pos, d: nat) -> Step<'a, ()>
    decreases d, 0nat, 0nat,
{
    match h.value_at(slot) {
        None => (h, Err(NixError::BadReference)),
        Some(ValueView::Thunk(t)) => if d == 0 {
            (h, Err(NixError::DepthExhausted))
        } else {
            let (h1, r) = eval(h.put(slot, ValueView::Blackhole), t.env, t.expr, (d - 1) as nat);
            match r {
                Ok(v) => match h1.value_at(v) {
                    Some(value) => (h1.put(slot, value), Ok(())),
                    None => (h1.put(slot, ValueView::Thunk(t)), Err(NixError::BadReference)),
                },
                Err(e) => (h1.put(slot, ValueView::Thunk(t)), Err(e)),
            }
        },
        Some(ValueView::Blackhole) => (h, Err(NixError::InfiniteRecursion(pos))),
        Some(ValueView::App(a)) => if d == 0 {
            (h, Err(NixError::DepthExhausted))
        } else {
            let (h1, r) = call(h, a.left, a.right, pos, (d - 1) as nat);
            match r {
                Ok(v) => match h1.value_at(v) {
                    Some(value) => (h1.put(slot, value), Ok(())),
                    None => (h1, Err(NixError::BadReference)),
                },
                Err(e) => (h1, Err(e)),
            }
        },
        Some(_) => (h, Ok(())),
    }
}

/// Evaluates `e` in `env`. The result is a slot that holds an evaluated
/// value.
pub open spec fn eval<'a>(h: Heap<'a>, env: EnvRef, e: &'a Expr, d: nat) -> Step<'a, ValueRef>
    decreases d, 0nat, 0nat,
{
    if d == 0 {
        (h, Err(NixError::DepthExhausted))
    } else {
        let d1 = (d - 1) as nat;
        match e {
            Expr::Int(n) => fresh(h, ValueView::Int(*n)),
            Expr::Float(f) => fresh(h, ValueView::Float(*f)),
            Expr::Bool(b) => fresh(h, ValueView::Bool(*b)),
            Expr::Null => fresh(h, ValueView::Null),
            Expr::String(sym) => if *sym < h.symbols.len() {
                fresh(
                    h,
                    ValueView::String(
                        NixStringView { s: h.symbols[*sym as int], context: Seq::empty() },
                    ),
                )
            } else {
                (h, Err(NixError::UnknownSymbol(*sym)))
            },
            Expr::Path(p) => fresh(h, ValueView::Path(p@)),
            Expr::Var(v) => {
                let (h1, r) = lookup_var(h, env, *v, ShouldEval::Yes, d1);
                match r {
                    Ok(slot) => {
                        let (h2, r2) = force(h1, slot, v.pos, d1);
                        match r2 {
                            Ok(_) => (h2, Ok(slot)),
                            Err(e) => (h2, Err(e)),
                        }
                    },
                    Err(e) => (h1, Err(e)),
                }
            },
            Expr::Select(s) => eval_select(h, env, s, d1),
            Expr::OpHasAttr(x) => eval_has_attr(h, env, x, d1),
            Expr::Attrs(a) => eval_attrs_literal(h, env, a, d1),
            Expr::List(items) => {
                let (h1, slots) = thunks(h, env, items, 0, Seq::empty());
                fresh(h1, ValueView::List(slots))
            },
            Expr::Lambda(l) => fresh(h, ValueView::Lambda(Lambda { env, fun: l })),
            Expr::Let(l) => eval_let(h, env, l, d1),
            Expr::With(w) => {
                let (h1, env2) = h.push_env(
                    EnvView {
                        up: Some(env),
                        prev_with: w.prev_with,
                        values: EnvInnerView::HasWithExpr(&*w.attrs),
                    },
                );
                eval(h1, env2, &*w.body, d1)
            },
            Expr::If(c) => {
                let (h1, r) = eval_bool(h, env, &*c.cond, d1);
                match r {
                    Ok(b) => eval(
                        h1,
                        env,
                        if b {
                            &*c.then_
                        } else {
                            &*c.else_
                        },
                        d1,
                    ),
                    Err(e) => (h1, Err(e)),
                }
            },
            Expr::Assert(a) => {
                let (h1, r) = eval_bool(h, env, &*a.cond, d1);
                match r {
                    Ok(b) => if b {
                        eval(h1, env, &*a.body, d1)
                    } else {
                        (h1, Err(NixError::AssertionFailed(a.pos)))
                    },
                    Err(e) => (h1, Err(e)),
                }
            },
            Expr::OpNot(x) => {
                let (h1, r) = eval_bool(h, env, &**x, d1);
                match r {
                    Ok(b) => fresh(h1, ValueView::Bool(!b)),
                    Err(e) => (h1, Err(e)),
                }
            },
            Expr::BinOp(b) => eval_binop(h, env, b, d1),
            Expr::ConcatStrings(c) => eval_concat(h, env, c, d1),
            Expr::Pos(p) => eval_pos(h, *p),
        }
    }
}

/// Evaluates `e` in `env` to a boolean.
pub open spec fn eval_bool<'a>(h: Heap<'a>, env: EnvRef, e: &'a Expr, d: nat) -> Step<'a, bool>
    decreases d, 1nat, 0nat,
{
    let (h1, r) = eval(h, env, e, d);
    match r {
        Ok(slot) => match h1.value_at(slot) {
            Some(ValueView::Bool(b)) => (h1, Ok(b)),
            Some(v) => (h1, Err(NixError::Type { expected: ValueKind::Bool, actual: kind_of(v) })),
            None => (h1, Err(NixError::BadReference)),
        },
        Err(e) => (h1, Err(e)),
    }
}

/// Evaluates `e` in `env` to an attribute set.
pub open spec fn eval_attrs<'a>(h: Heap<'a>, env: EnvRef, e: &'a Expr, d: nat) -> Step<
    'a,
    Map<Symbol, AttrValue>,
>
    decreases d, 1nat, 0nat,
{
    let (h1, r) = eval(h, env, e, d);
    match r {
        Ok(slot) => match h1.value_at(slot) {
            Some(ValueView::Attrs(b)) => (h1, Ok(b)),
            Some(v) => (
                h1,
                Err(NixError::Type { expected: ValueKind::Attrs, actual: kind_of(v) }),
            ),
            None => (h1, Err(NixError::BadReference)),
        },
        Err(e) => (h1, Err(e)),
    }
}

/// Evaluates `e` in `env` to a list.
pub open spec fn eval_list<'a>(h: Heap<'a>, env: EnvRef, e: &'a Expr, d: nat) -> Step<
    'a,
    Seq<ValueRef>,
>
    decreases d, 1nat, 0nat,
{
    let (h1, r) = eval(h, env, e, d);
    match r {
        Ok(slot) => match h1.value_at(slot) {
            Some(ValueView::List(items)) => (h1, Ok(items)),
            Some(v) => (h1, Err(NixError::Type { expected: ValueKind::List, actual: kind_of(v) })),
            None => (h1, Err(NixError::BadReference)),
        },
        Err(e) => (h1, Err(e)),
    }
}

/// Finds the slot of the variable `var` from `env`. A variable that was
/// not resolved is a bad reference.
///
/// A variable bound to a frame is read from that frame, without evaluating
/// anything. A variable left to the enclosing `with` expressions is looked
/// up in the attribute set of the nearest `with`, then in that of the
/// `with` around it, and so on; it is undefined if none of them holds it.
pub open spec fn lookup_var<'a>(
    h: Heap<'a>,
    env: EnvRef,
    var: ExprVar,
    should_eval: ShouldEval,
    d: nat,
) -> Step<'a, ValueRef>
    decreases d, 3nat, 0nat,
{
    if !var.resolved {
        (h, Err(NixError::BadReference))
    } else if !var.from_with {
        match lookup_static(h, env, var) {
            Some(slot) => (h, Ok(slot)),
            None => (h, Err(NixError::BadReference)),
        }
    } else {
        match walk_up(h, env, var.level.0 as nat) {
            Some(e) => lookup_with(h, e, var, should_eval, d),
            None => (h, Err(NixError::BadReference)),
        }
    }
}

/// Looks `var` up in the attribute set of the `with` frame `env`, then in
/// those of the `with` frames around it.
///
/// A frame that still holds the expression of its `with` comes to hold the
/// attribute set that the expression evaluates to, in the environment
/// around the frame; with `ShouldEval::No` the lookup fails instead.
pub open spec fn lookup_with<'a>(
    h: Heap<'a>,
    env: EnvRef,
    var: ExprVar,
    should_eval: ShouldEval,
    d: nat,
) -> Step<'a, ValueRef>
    decreases d, 2nat, env,
{
    match h.env_at(env) {
        None => (h, Err(NixError::BadReference)),
        Some(frame) => match frame.values {
            EnvInnerView::Plain(_) => (h, Err(NixError::BadReference)),
            EnvInnerView::HasWithAttrs(b) => lookup_in_with(h, env, b, var, should_eval, d),
            EnvInnerView::HasWithExpr(x) => if should_eval == ShouldEval::No {
                (h, Err(NixError::VarLookupUnevaluated(var.name)))
            } else {
                match frame.up {
                    None => (h, Err(NixError::BadReference)),
                    Some(up) => {
                        let (h1, r) = eval_attrs(h, up, x, d);
                        match r {
                            Ok(b) => lookup_in_with(
                                h1.put_env(env, EnvInnerView::HasWithAttrs(b)),
                                env,
                                b,
                                var,
                                should_eval,
                                d,
                            ),
                            Err(e) => (h1, Err(e)),
                        }
                    },
                }
            },
        },
    }
}

/// Looks `var` up in `b`, the attribute set of the `with` frame `env`, and
/// goes on with the `with` frame around it where `b` lacks the name.
pub open spec fn lookup_in_with<'a>(
    h: Heap<'a>,
    env: EnvRef,
    b: Map<Symbol, AttrValue>,
    var: ExprVar,
    should_eval: ShouldEval,
    d: nat,
) -> Step<'a, ValueRef>
    decreases d, 2nat, env, 0nat,
{
    if b.contains_key(var.name) {
        (h, Ok(b[var.name].value))
    } else {
        match h.env_at(env) {
            None => (h, Err(NixError::BadReference)),
            Some(frame) => if frame.prev_with.0 == 0 {
                (h, Err(NixError::UndefinedVar(var.name, var.pos)))
            } else {
                match walk_up(h, env, frame.prev_with.0 as nat) {
                    Some(e) => {
                        proof {
                            lemma_walk_up(h, env, frame.prev_with.0 as nat);
                        }
                        lookup_with(h, e, var, should_eval, d)
                    },
                    None => (h, Err(NixError::BadReference)),
                }
            },
        }
    }
}

/// The symbol of an attribute name: the written one, or that of the string
/// that its expression evaluates to.
pub open spec fn attr_name<'a>(h: Heap<'a>, env: EnvRef, name: &'a AttrName, d: nat) -> Step<
    'a,
    Symbol,
>
    decreases d, 1nat, 0nat,
{
    match &name.expr {
        None => (h, Ok(name.symbol)),
        Some(x) => name_of(h, env, &**x, d),
    }
}

/// The symbol of the string that `e` evaluates to.
pub open spec fn name_of<'a>(h: Heap<'a>, env: EnvRef, e: &'a Expr, d: nat) -> Step<'a, Symbol>
    decreases d, 1nat, 0nat, 0nat,
{
    let (h1, r) = eval(h, env, e, d);
    match r {
        Ok(slot) => match h1.value_at(slot) {
            Some(ValueView::String(s)) => (h1.intern(s.s).0, Ok(h1.intern(s.s).1)),
            Some(v) => (
                h1,
                Err(NixError::Type { expected: ValueKind::String, actual: kind_of(v) }),
            ),
            None => (h1, Err(NixError::BadReference)),
        },
        Err(e) => (h1, Err(e)),
    }
}

/// Evaluates a selection: the expression, then the path from it.
pub open spec fn eval_select<'a>(h: Heap<'a>, env: EnvRef, s: &'a ExprSelect, d: nat) -> Step<
    'a,
    ValueRef,
>
    decreases d, 3nat, 0nat,
{
    let (h1, r) = eval(h, env, &*s.expr, d);
    match r {
        Ok(slot) => select_path(h1, env, s, slot, 0, d),
        Err(e) => (h1, Err(e)),
    }
}

/// What a selection gives where its path cannot be followed: the value of
/// its default, or the failure `e` if it has none.
pub open spec fn select_default<'a>(
    h: Heap<'a>,
    env: EnvRef,
    s: &'a ExprSelect,
    e: NixError,
    d: nat,
) -> Step<'a, ValueRef>
    decreases d, 1nat, 0nat,
{
    match &s.def {
        Some(x) => eval(h, env, &**x, d),
        None => (h, Err(e)),
    }
}

/// Follows the path of a selection from its component `i` on, starting from
/// the evaluated value in `cur`. Each value on the way is forced.
pub open spec fn select_path<'a>(
    h: Heap<'a>,
    env: EnvRef,
    s: &'a ExprSelect,
    cur: ValueRef,
    i: nat,
    d: nat,
) -> Step<'a, ValueRef>
    decreases d, 2nat, s.attr_path@.len() - i,
{
    if i >= s.attr_path@.len() {
        (h, Ok(cur))
    } else {
        let (h1, r) = attr_name(h, env, &s.attr_path@[i as int], d);
        match r {
            Err(e) => (h1, Err(e)),
            Ok(name) => match h1.value_at(cur) {
                None => (h1, Err(NixError::BadReference)),
                Some(ValueView::Attrs(b)) => if b.contains_key(name) {
                    let (h2, r2) = force(h1, b[name].value, s.pos, d);
                    match r2 {
                        Ok(_) => select_path(h2, env, s, b[name].value, i + 1, d),
                        Err(e) => (h2, Err(e)),
                    }
                } else {
                    select_default(h1, env, s, NixError::MissingAttr(name, s.pos), d)
                },
                Some(v) => select_default(
                    h1,
                    env,
                    s,
                    NixError::Type { expected: ValueKind::Attrs, actual: kind_of(v) },
                    d,
                ),
            },
        }
    }
}

/// Evaluates the test whether a value has an attribute path.
pub open spec fn eval_has_attr<'a>(h: Heap<'a>, env: EnvRef, x: &'a ExprOpHasAttr, d: nat) -> Step<
    'a,
    ValueRef,
>
    decreases d, 3nat, 0nat,
{
    let (h1, r) = eval(h, env, &*x.expr, d);
    match r {
        Ok(slot) => {
            let (h2, r2) = has_path(h1, env, x, slot, 0, d);
            match r2 {
                Ok(b) => fresh(h2, ValueView::Bool(b)),
                Err(e) => (h2, Err(e)),
            }
        },
        Err(e) => (h1, Err(e)),
    }
}

/// Whether the path of the test can be followed from its component `i` on,
/// starting from the evaluated value in `cur`.
pub open spec fn has_path<'a>(
    h: Heap<'a>,
    env: EnvRef,
    x: &'a ExprOpHasAttr,
    cur: ValueRef,
    i: nat,
    d: nat,
) -> Step<'a, bool>
    decreases d, 2nat, x.attr_path@.len() - i,
{
    if i >= x.attr_path@.len() {
        (h, Ok(true))
    } else {
        let (h1, r) = attr_name(h, env, &x.attr_path@[i as int], d);
        match r {
            Err(e) => (h1, Err(e)),
            Ok(name) => match h1.value_at(cur) {
                None => (h1, Err(NixError::BadReference)),
                Some(ValueView::Attrs(b)) => if b.contains_key(name) {
                    let (h2, r2) = force(h1, b[name].value, Pos::Undefined, d);
                    match r2 {
                        Ok(_) => has_path(h2, env, x, b[name].value, i + 1, d),
                        Err(e) => (h2, Err(e)),
                    }
                } else {
                    (h1, Ok(false))
                },
                Some(_) => (h1, Ok(false)),
            },
        }
    }
}

/// The attributes of `b` and those with computed names of `attrs` from
/// index `i` on. The values stay deferred; the names are evaluated. Fails
/// where a computed name is already defined.
pub open spec fn dynamic_attrs<'a>(
    h: Heap<'a>,
    env: EnvRef,
    attrs: &'a ExprAttrs,
    i: nat,
    b: Map<Symbol, AttrValue>,
    d: nat,
) -> Step<'a, Map<Symbol, AttrValue>>
    decreases d, 2nat, attrs.dynamic_attrs@.len() - i,
{
    if i >= attrs.dynamic_attrs@.len() {
        (h, Ok(b))
    } else {
        let def = &attrs.dynamic_attrs@[i as int];
        let (h1, r) = name_of(h, env, &*def.name_expr, d);
        match r {
            Err(e) => (h1, Err(e)),
            Ok(name) => if b.contains_key(name) {
                (h1, Err(NixError::DuplicateAttr(name, def.pos)))
            } else {
                let (h2, slot) = maybe_thunk(h1, env, &*def.value_expr);
                dynamic_attrs(
                    h2,
                    env,
                    attrs,
                    i + 1,
                    b.insert(name, AttrValue { value: slot, pos: def.pos }),
                    d,
                )
            },
        }
    }
}

/// Evaluates an attribute set literal. A set that defines a written name
/// twice fails before anything is made. Each definition becomes a deferred
/// value; in a recursive set the definitions see each other through a new
/// frame, whose slots are those of the written names in their order.
pub open spec fn eval_attrs_literal<'a>(h: Heap<'a>, env: EnvRef, attrs: &'a ExprAttrs, d: nat) -> Step<
    'a,
    ValueRef,
>
    decreases d, 3nat, 0nat,
{
    match duplicate_def(&attrs.attrs, 0, Set::empty()) {
        Some((name, pos)) => (h, Err(NixError::DuplicateAttr(name, pos))),
        None => {
            let (h0, inner) = if attrs.recursive {
                h.push_env(
                    EnvView {
                        up: Some(env),
                        prev_with: Level(0),
                        values: EnvInnerView::Plain(Seq::empty()),
                    },
                )
            } else {
                (h, env)
            };
            let (h1, r) = static_attrs(
                h0,
                env,
                inner,
                &attrs.attrs,
                0,
                Seq::empty(),
                Map::empty(),
            );
            match r {
                Err(e) => (h1, Err(e)),
                Ok((slots, b)) => {
                    let h2 = if attrs.recursive {
                        h1.put_env(inner, EnvInnerView::Plain(slots))
                    } else {
                        h1
                    };
                    let (h3, r3) = dynamic_attrs(h2, inner, attrs, 0, b, d);
                    match r3 {
                        Ok(all) => fresh(h3, ValueView::Attrs(all)),
                        Err(e) => (h3, Err(e)),
                    }
                },
            }
        },
    }
}

/// Evaluates a `let`: the body, in a new frame whose slots are those of
/// the definitions in their order. A `let` that defines a name twice fails
/// before anything is made.
pub open spec fn eval_let<'a>(h: Heap<'a>, env: EnvRef, l: &'a ExprLet, d: nat) -> Step<
    'a,
    ValueRef,
>
    decreases d, 1nat, 0nat,
{
    match duplicate_def(&l.attrs.attrs, 0, Set::empty()) {
        Some((name, pos)) => (h, Err(NixError::DuplicateAttr(name, pos))),
        None => {
            let (h0, inner) = h.push_env(
                EnvView {
                    up: Some(env),
                    prev_with: Level(0),
                    values: EnvInnerView::Plain(Seq::empty()),
                },
            );
            let (h1, r) = static_attrs(
                h0,
                env,
                inner,
                &l.attrs.attrs,
                0,
                Seq::empty(),
                Map::empty(),
            );
            match r {
                Err(e) => (h1, Err(e)),
                Ok((slots, b)) => eval(
                    h1.put_env(inner, EnvInnerView::Plain(slots)),
                    inner,
                    &*l.body,
                    d,
                ),
            }
        },
    }
}

/// Calls the value in `f` with the argument in `arg`. The argument stays
/// deferred unless the function takes a set.
pub open spec fn call<'a>(h: Heap<'a>, f: ValueRef, arg: ValueRef, pos: Pos, d: nat) -> Step<
    'a,
    ValueRef,
>
    decreases d, 3nat, 0nat,
{
    let (h1, r) = force(h, f, pos, d);
    match r {
        Err(e) => (h1, Err(e)),
        Ok(_) => match h1.value_at(f) {
            None => (h1, Err(NixError::BadReference)),
            Some(ValueView::Lambda(l)) => call_lambda(h1, l, arg, pos, d),
            Some(ValueView::PrimOp(op)) => call_prim(h1, op, seq![arg], pos, d),
            Some(ValueView::PrimOpApp(app)) => call_prim(h1, app.op, app.args.push(arg), pos, d),
            Some(v) => (h1, Err(NixError::NotAFunction(kind_of(v)))),
        },
    }
}

/// Calls a function. A function of one name binds it to the argument. A
/// function that takes a set binds each formal to the attribute of its
/// name, or to its default, deferred in the new frame; the argument must
/// hold each formal without a default and, unless the function has an
/// ellipsis, nothing but formals, or the call fails before the frame is
/// made.
pub open spec fn call_lambda<'a>(h: Heap<'a>, l: Lambda<'a>, arg: ValueRef, pos: Pos, d: nat) -> Step<
    'a,
    ValueRef,
>
    decreases d, 1nat, 0nat,
{
    if !l.fun.match_attrs {
        let (h1, inner) = h.push_env(
            EnvView {
                up: Some(l.env),
                prev_with: Level(0),
                values: EnvInnerView::Plain(seq![arg]),
            },
        );
        eval(h1, inner, &*l.fun.body, d)
    } else {
        let (h1, r) = force(h, arg, pos, d);
        match r {
            Err(e) => (h1, Err(e)),
            Ok(_) => match h1.value_at(arg) {
                None => (h1, Err(NixError::BadReference)),
                Some(ValueView::Attrs(b)) => match missing_formal(l.fun, b, 0) {
                    Some(name) => (h1, Err(NixError::MissingFormal(name, l.fun.pos))),
                    None => if !l.fun.formals.ellipsis && least_unexpected(
                        l.fun,
                        b,
                        h1.symbols,
                    ) is Some {
                        (
                            h1,
                            Err(
                                NixError::UnexpectedArg(
                                    least_unexpected(l.fun, b, h1.symbols)->0,
                                    l.fun.pos,
                                ),
                            ),
                        )
                    } else {
                        let (h2, inner) = h1.push_env(
                            EnvView {
                                up: Some(l.env),
                                prev_with: Level(0),
                                values: EnvInnerView::Plain(Seq::empty()),
                            },
                        );
                        let (h3, r3) = formal_slots(
                            h2,
                            inner,
                            l.fun,
                            b,
                            0,
                            if l.fun.arg is Some {
                                seq![arg]
                            } else {
                                Seq::empty()
                            },
                        );
                        match r3 {
                            Err(e) => (h3, Err(e)),
                            Ok(slots) => eval(
                                h3.put_env(inner, EnvInnerView::Plain(slots)),
                                inner,
                                &*l.fun.body,
                                d,
                            ),
                        }
                    },
                },
                Some(v) => (
                    h1,
                    Err(NixError::Type { expected: ValueKind::Attrs, actual: kind_of(v) }),
                ),
            },
        }
    }
}

/// Gives a built-in function the arguments `args`: the result, if these are
/// all it takes; else the function with the arguments it has so far.
pub open spec fn call_prim<'a>(h: Heap<'a>, op: PrimOpView, args: Seq<ValueRef>, pos: Pos, d: nat) -> Step<
    'a,
    ValueRef,
>
    decreases d, 2nat, 0nat,
{
    if args.len() < op.arity {
        fresh(h, ValueView::PrimOpApp(PrimOpAppView { op, args }))
    } else {
        apply_prim(h, op.fun, args, pos, d)
    }
}

/// Forces the value in `slot` to an integer.
pub open spec fn force_int<'a>(h: Heap<'a>, slot: ValueRef, pos: Pos, d: nat) -> Step<'a, i64>
    decreases d, 1nat, 0nat,
{
    let (h1, r) = force(h, slot, pos, d);
    match r {
        Err(e) => (h1, Err(e)),
        Ok(_) => match h1.value_at(slot) {
            Some(ValueView::Int(n)) => (h1, Ok(n)),
            Some(v) => (h1, Err(NixError::Type { expected: ValueKind::Int, actual: kind_of(v) })),
            None => (h1, Err(NixError::BadReference)),
        },
    }
}

/// Carries out a built-in function. Each takes two integers, which it
/// forces in their order.
pub open spec fn apply_prim<'a>(h: Heap<'a>, fun: PrimOpFun, args: Seq<ValueRef>, pos: Pos, d: nat) -> Step<
    'a,
    ValueRef,
>
    decreases d, 1nat, 1nat,
{
    if args.len() != 2 {
        (h, Err(NixError::CallArity { takes: 2, given: args.len() as usize }))
    } else {
        let (h1, r1) = force_int(h, args[0], pos, d);
        match r1 {
            Err(e) => (h1, Err(e)),
            Ok(a) => {
                let (h2, r2) = force_int(h1, args[1], pos, d);
                match r2 {
                    Err(e) => (h2, Err(e)),
                    Ok(b) => match prim_result(fun, a, b) {
                        Ok(v) => fresh(h2, v),
                        Err(e) => (h2, Err(e)),
                    },
                }
            },
        }
    }
}

/// Whether the values in `a` and `b` are equal, forcing as much of them as
/// the comparison reads. Values of different kinds are unequal, and so are
/// functions. Lists are equal if they are as long as each other and equal
/// at each index; sets, if they hold as many names as each other and each
/// name of the first is in the second with an equal value. The context of a
/// string is not compared.
pub open spec fn values_equal<'a>(h: Heap<'a>, a: ValueRef, b: ValueRef, pos: Pos, d: nat) -> Step<
    'a,
    bool,
>
    decreases d, 0nat, 0nat,
{
    if d == 0 {
        (h, Err(NixError::DepthExhausted))
    } else {
        let d1 = (d - 1) as nat;
        let (h1, r1) = force(h, a, pos, d1);
        match r1 {
            Err(e) => (h1, Err(e)),
            Ok(_) => {
                let (h2, r2) = force(h1, b, pos, d1);
                match r2 {
                    Err(e) => (h2, Err(e)),
                    Ok(_) => match (h2.value_at(a), h2.value_at(b)) {
                        (Some(x), Some(y)) => match (x, y) {
                            (ValueView::Int(m), ValueView::Int(n)) => (h2, Ok(m == n)),
                            (ValueView::Bool(m), ValueView::Bool(n)) => (h2, Ok(m == n)),
                            (ValueView::String(m), ValueView::String(n)) => (h2, Ok(m.s == n.s)),
                            (ValueView::Path(m), ValueView::Path(n)) => (h2, Ok(m == n)),
                            (ValueView::Null, ValueView::Null) => (h2, Ok(true)),
                            (ValueView::Float(m), ValueView::Float(n)) => (h2, Ok(float_eq(m, n))),
                            (ValueView::List(m), ValueView::List(n)) => if m.len() != n.len() {
                                (h2, Ok(false))
                            } else {
                                lists_equal(h2, m, n, 0, pos, d1)
                            },
                            (ValueView::Attrs(m), ValueView::Attrs(n)) => if m.len() != n.len() {
                                (h2, Ok(false))
                            } else {
                                attrs_equal(h2, sorted_attrs(m, h2.symbols), n, 0, pos, d1)
                            },
                            _ => (h2, Ok(false)),
                        },
                        _ => (h2, Err(NixError::BadReference)),
                    },
                }
            },
        }
    }
}

/// Whether two lists of one length are equal from index `i` on.
pub open spec fn lists_equal<'a>(
    h: Heap<'a>,
    a: Seq<ValueRef>,
    b: Seq<ValueRef>,
    i: nat,
    pos: Pos,
    d: nat,
) -> Step<'a, bool>
    decreases d, 1nat, a.len() - i,
{
    if i >= a.len() || i >= b.len() {
        (h, Ok(true))
    } else {
        let (h1, r) = values_equal(h, a[i as int], b[i as int], pos, d);
        match r {
            Ok(true) => lists_equal(h1, a, b, i + 1, pos, d),
            _ => (h1, r),
        }
    }
}

/// Whether each of the attributes `a` from index `i` on is in `b` with an
/// equal value.
pub open spec fn attrs_equal<'a>(
    h: Heap<'a>,
    a: Seq<Attr>,
    b: Map<Symbol, AttrValue>,
    i: nat,
    pos: Pos,
    d: nat,
) -> Step<'a, bool>
    decreases d, 1nat, a.len() - i,
{
    if i >= a.len() {
        (h, Ok(true))
    } else if !b.contains_key(a[i as int].name) {
        (h, Ok(false))
    } else {
        let (h1, r) = values_equal(h, a[i as int].value.value, b[a[i as int].name].value, pos, d);
        match r {
            Ok(true) => attrs_equal(h1, a, b, i + 1, pos, d),
            _ => (h1, r),
        }
    }
}

/// Evaluates a binary operation. The logical operators evaluate their
/// second operand only where the first leaves the result open. The update
/// of a set by another takes each name from the second set where both hold
/// it, and keeps the deferred values of both as they are.
pub open spec fn eval_binop<'a>(h: Heap<'a>, env: EnvRef, b: &'a BinOp, d: nat) -> Step<
    'a,
    ValueRef,
>
    decreases d, 4nat, 0nat,
{
    match b.kind {
        OpKind::App => {
            let (h1, r) = eval(h, env, &*b.e1, d);
            match r {
                Err(e) => (h1, Err(e)),
                Ok(f) => {
                    let (h2, arg) = maybe_thunk(h1, env, &*b.e2);
                    let (h3, r3) = call(h2, f, arg, b.pos, d);
                    match r3 {
                        Err(e) => (h3, Err(e)),
                        Ok(v) => {
                            let (h4, r4) = force(h3, v, b.pos, d);
                            match r4 {
                                Err(e) => (h4, Err(e)),
                                Ok(_) => (h4, Ok(v)),
                            }
                        },
                    }
                },
            }
        },
        OpKind::Eq | OpKind::NEq => {
            let (h1, r1) = eval(h, env, &*b.e1, d);
            match r1 {
                Err(e) => (h1, Err(e)),
                Ok(x) => {
                    let (h2, r2) = eval(h1, env, &*b.e2, d);
                    match r2 {
                        Err(e) => (h2, Err(e)),
                        Ok(y) => {
                            let (h3, r3) = values_equal(h2, x, y, b.pos, d);
                            match r3 {
                                Err(e) => (h3, Err(e)),
                                Ok(eq) => fresh(h3, ValueView::Bool(eq == (b.kind == OpKind::Eq))),
                            }
                        },
                    }
                },
            }
        },
        OpKind::And | OpKind::Or | OpKind::Impl => {
            let (h1, r1) = eval_bool(h, env, &*b.e1, d);
            match r1 {
                Err(e) => (h1, Err(e)),
                Ok(x) => if b.kind == OpKind::And && !x {
                    fresh(h1, ValueView::Bool(false))
                } else if b.kind == OpKind::Or && x {
                    fresh(h1, ValueView::Bool(true))
                } else if b.kind == OpKind::Impl && !x {
                    fresh(h1, ValueView::Bool(true))
                } else {
                    let (h2, r2) = eval_bool(h1, env, &*b.e2, d);
                    match r2 {
                        Err(e) => (h2, Err(e)),
                        Ok(y) => fresh(h2, ValueView::Bool(y)),
                    }
                },
            }
        },
        OpKind::Update => {
            let (h1, r1) = eval_attrs(h, env, &*b.e1, d);
            match r1 {
                Err(e) => (h1, Err(e)),
                Ok(x) => {
                    let (h2, r2) = eval_attrs(h1, env, &*b.e2, d);
                    match r2 {
                        Err(e) => (h2, Err(e)),
                        Ok(y) => fresh(h2, ValueView::Attrs(x.union_prefer_right(y))),
                    }
                },
            }
        },
        OpKind::ConcatLists => {
            let (h1, r1) = eval_list(h, env, &*b.e1, d);
            match r1 {
                Err(e) => (h1, Err(e)),
                Ok(x) => {
                    let (h2, r2) = eval_list(h1, env, &*b.e2, d);
                    match r2 {
                        Err(e) => (h2, Err(e)),
                        Ok(y) => fresh(h2, ValueView::List(x + y)),
                    }
                },
            }
        },
    }
}

/// What a concatenation has gathered.
pub enum Gathered {
    /// Nothing yet.
    Nothing,
    /// A sum of integers.
    Sum(i64),
    /// A text with its context; `path` tells whether the first part was a
    /// path.
    Text { s: Seq<char>, context: Seq<Seq<char>>, path: bool },
}

/// `acc` with the evaluated value `v` added as the next part.
pub open spec fn gather(acc: Gathered, v: ValueView, force_string: bool) -> Result<
    Gathered,
    NixError,
> {
    match acc {
        Gathered::Nothing => match v {
            ValueView::Int(n) => if force_string {
                Err(NixError::Type { expected: ValueKind::String, actual: ValueKind::Int })
            } else {
                Ok(Gathered::Sum(n))
            },
            ValueView::String(s) => Ok(
                Gathered::Text {
                    s: s.s,
                    context: union_context(Seq::empty(), s.context, 0),
                    path: false,
                },
            ),
            ValueView::Path(p) => Ok(
                Gathered::Text { s: p, context: Seq::empty(), path: !force_string },
            ),
            _ => Err(NixError::Type { expected: ValueKind::String, actual: kind_of(v) }),
        },
        Gathered::Sum(sum) => match v {
            ValueView::Int(n) => if i64::MIN <= sum + n <= i64::MAX {
                Ok(Gathered::Sum((sum + n) as i64))
            } else {
                Err(NixError::IntegerOverflow)
            },
            _ => Err(NixError::Type { expected: ValueKind::Int, actual: kind_of(v) }),
        },
        Gathered::Text { s, context, path } => match v {
            ValueView::String(t) => Ok(
                Gathered::Text { s: s + t.s, context: union_context(context, t.context, 0), path },
            ),
            ValueView::Path(p) => Ok(Gathered::Text { s: s + p, context, path }),
            _ => Err(NixError::Type { expected: ValueKind::String, actual: kind_of(v) }),
        },
    }
}

/// The value of what a concatenation has gathered.
pub open spec fn gathered_value<'a>(acc: Gathered) -> ValueView<'a> {
    match acc {
        Gathered::Nothing => ValueView::String(
            NixStringView { s: Seq::empty(), context: Seq::empty() },
        ),
        Gathered::Sum(n) => ValueView::Int(n),
        Gathered::Text { s, context, path } => if path {
            ValueView::Path(s)
        } else {
            ValueView::String(NixStringView { s, context })
        },
    }
}

/// Evaluates the parts of a concatenation from index `i` on and adds them
/// to `acc`.
pub open spec fn concat_parts<'a>(
    h: Heap<'a>,
    env: EnvRef,
    c: &'a ExprConcatStrings,
    i: nat,
    acc: Gathered,
    d: nat,
) -> Step<'a, Gathered>
    decreases d, 1nat, c.exprs@.len() - i,
{
    if i >= c.exprs@.len() {
        (h, Ok(acc))
    } else {
        let (h1, r) = eval(h, env, &c.exprs@[i as int], d);
        match r {
            Err(e) => (h1, Err(e)),
            Ok(slot) => match h1.value_at(slot) {
                None => (h1, Err(NixError::BadReference)),
                Some(v) => match gather(acc, v, c.force_string) {
                    Err(e) => (h1, Err(e)),
                    Ok(next) => concat_parts(h1, env, c, i + 1, next, d),
                },
            },
        }
    }
}

/// Evaluates a concatenation. Where the first part is an integer and no
/// string is asked for, the parts are integers and the result is their
/// sum. Else the parts are strings and paths; the result holds their texts
/// in order and the union of their contexts, and is a path where the first
/// part is one and no string is asked for.
pub open spec fn eval_concat<'a>(h: Heap<'a>, env: EnvRef, c: &'a ExprConcatStrings, d: nat) -> Step<
    'a,
    ValueRef,
>
    decreases d, 2nat, 0nat,
{
    let (h1, r) = concat_parts(h, env, c, 0, Gathered::Nothing, d);
    match r {
        Err(e) => (h1, Err(e)),
        Ok(acc) => fresh(h1, gathered_value(acc)),
    }
}

/// The value of a position: nothing for an unknown one; for a known one the
/// set of its file, line and column.
pub open spec fn eval_pos<'a>(h: Heap<'a>, pos: Pos) -> Step<'a, ValueRef> {
    match pos {
        Pos::Undefined => fresh(h, ValueView::Null),
        Pos::Known(p) => if p.file >= h.symbols.len() {
            (h, Err(NixError::UnknownSymbol(p.file)))
        } else if p.line > i64::MAX || p.column > i64::MAX {
            (h, Err(NixError::IntegerOverflow))
        } else {
            let (h1, file) = h.push_value(
                ValueView::String(
                    NixStringView { s: h.symbols[p.file as int], context: Seq::empty() },
                ),
            );
            let (h2, line) = h1.push_value(ValueView::Int(p.line as i64));
            let (h3, column) = h2.push_value(ValueView::Int(p.column as i64));
            let (h4, s_file) = h3.intern("file"@);
            let (h5, s_line) = h4.intern("line"@);
            let (h6, s_column) = h5.intern("column"@);
            fresh(
                h6,
                ValueView::Attrs(
                    Map::empty().insert(s_file, AttrValue { value: file, pos }).insert(
                        s_line,
                        AttrValue { value: line, pos },
                    ).insert(s_column, AttrValue { value: column, pos }),
                ),
            )
        },
    }
}

} // verus!
