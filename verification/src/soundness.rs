//! Resolution and evaluation agree: an expression that was resolved
//! against the static chain of the environment it is evaluated in never
//! reaches outside the evaluator's state.

use crate::attr_set::{AttrValue, ValueRef};
use crate::env::{EnvRef, Level};
use crate::heap::{EnvInnerView, EnvView, Heap, ValueView};
use crate::invariants::{countable, extends, frame_kept};
use crate::nix_expr::{
    AttrDef, AttrName, DynamicAttrDef, Expr, ExprAttrs, ExprLambda, ExprVar, Formal,
};
use crate::err::NixError;
use crate::invariants::{lemma_formal_slots, lemma_static_attrs, lemma_thunks};
use crate::semantics::{
    formal_slots, lemma_walk_up, lookup_static, maybe_thunk, static_attrs, thunks, walk_up,
};
use crate::value::Thunk;
use crate::symbol_table::Symbol;
use vstd::prelude::*;

verus! {

/// The shape of a frame: whether it is the frame of a `with`, and how many
/// slots it holds if it is not.
pub struct FrameShape {
    pub is_with: bool,
    pub size: nat,
}

/// A frame that is being made: its index, and the number of slots that it
/// is going to hold.
pub struct PendingFrame {
    pub env: EnvRef,
    pub size: nat,
}

/// The frame that is being made, if there is one.
pub type Pending = Option<PendingFrame>;

/// The shape of the frame at `env`. A frame that is being made has the
/// shape that it is going to have.
pub open spec fn frame_shape(h: Heap, env: EnvRef, pending: Pending) -> FrameShape {
    if pending matches Some(p) && p.env == env {
        FrameShape { is_with: false, size: pending->0.size }
    } else {
        match h.envs[env as int].values {
            EnvInnerView::Plain(slots) => FrameShape { is_with: false, size: slots.len() },
            _ => FrameShape { is_with: true, size: 0 },
        }
    }
}

/// The shapes of the frames of the chain that begins at `env`, innermost
/// first.
pub open spec fn shape(h: Heap, env: EnvRef, pending: Pending) -> Seq<FrameShape>
    decreases env,
{
    if env >= h.envs.len() {
        Seq::empty()
    } else {
        match h.envs[env as int].up {
            Some(up) => if up < env {
                seq![frame_shape(h, env, pending)] + shape(h, up, pending)
            } else {
                seq![frame_shape(h, env, pending)]
            },
            None => seq![frame_shape(h, env, pending)],
        }
    }
}

/// `shapes` with the shape of a frame of `size` slots as the innermost.
pub open spec fn in_frame(size: nat, shapes: Seq<FrameShape>) -> Seq<FrameShape> {
    seq![FrameShape { is_with: false, size }] + shapes
}

/// `shapes` with the shape of the frame of a `with` as the innermost.
pub open spec fn in_with(shapes: Seq<FrameShape>) -> Seq<FrameShape> {
    seq![FrameShape { is_with: true, size: 0 }] + shapes
}

/// Whether the coordinates of a variable lead to a slot, or to the frame
/// of a `with`, within a chain of the shapes `shapes`.
pub open spec fn var_ok(v: ExprVar, shapes: Seq<FrameShape>) -> bool {
    &&& v.resolved
    &&& v.level.0 < shapes.len()
    &&& if v.from_with {
        shapes[v.level.0 as int].is_with
    } else {
        !shapes[v.level.0 as int].is_with && v.displ.0 < shapes[v.level.0 as int].size
    }
}

/// Whether the distance `prev` leads from the frame of a `with`, which
/// stands within `shapes`, to the frame of a `with`, or is zero.
pub open spec fn prev_ok(prev: Level, shapes: Seq<FrameShape>) -> bool {
    prev.0 == 0 || (prev.0 - 1 < shapes.len() && shapes[prev.0 - 1].is_with)
}

/// The number of slots of the frame that a call of `l` makes.
pub open spec fn lambda_size(l: ExprLambda) -> nat {
    if !l.match_attrs {
        1
    } else if l.arg is Some {
        l.formals.formals@.len() + 1
    } else {
        l.formals.formals@.len()
    }
}

/// Whether the computed names of a path are resolved for `shapes`.
pub open spec fn ok_path(path: Vec<AttrName>, shapes: Seq<FrameShape>) -> bool
    decreases path,
{
    forall|i: int|
        0 <= i < path@.len() ==> ((#[trigger] path@[i]).expr matches Some(x) ==> ok(*x, shapes))
}

/// Whether each of a list of expressions is resolved for `shapes`.
pub open spec fn ok_exprs(exprs: Vec<Expr>, shapes: Seq<FrameShape>) -> bool
    decreases exprs,
{
    forall|i: int| 0 <= i < exprs@.len() ==> ok(#[trigger] exprs@[i], shapes)
}

/// Whether the definitions with written names are resolved: the inherited
/// ones for `outer`, the others for `inner`.
pub open spec fn ok_defs(
    defs: Vec<(Symbol, AttrDef)>,
    outer: Seq<FrameShape>,
    inner: Seq<FrameShape>,
) -> bool
    decreases defs,
{
    forall|i: int|
        0 <= i < defs@.len() ==> ok(
            *(#[trigger] defs@[i]).1.expr,
            if defs@[i].1.inherited {
                outer
            } else {
                inner
            },
        )
}

/// Whether the definitions with computed names are resolved for `inner`.
pub open spec fn ok_dynamic(defs: Vec<DynamicAttrDef>, inner: Seq<FrameShape>) -> bool
    decreases defs,
{
    forall|i: int|
        0 <= i < defs@.len() ==> ok(*(#[trigger] defs@[i]).name_expr, inner) && ok(
            *defs@[i].value_expr,
            inner,
        )
}

/// Whether the defaults of a list of formals are resolved for `inner`.
pub open spec fn ok_formals(formals: Vec<Formal>, inner: Seq<FrameShape>) -> bool
    decreases formals,
{
    forall|i: int|
        0 <= i < formals@.len() ==> ((#[trigger] formals@[i]).def matches Some(d) ==> ok(
            *d,
            inner,
        ))
}

/// Whether a function is resolved for `shapes`: its body, and the defaults
/// of its formals if it takes a set, for the frame that a call makes.
pub open spec fn ok_lambda(l: ExprLambda, shapes: Seq<FrameShape>) -> bool
    decreases l,
{
    let inner = in_frame(lambda_size(l), shapes);
    ok(*l.body, inner) && (l.match_attrs ==> ok_formals(l.formals.formals, inner))
}

/// Whether the definitions of a set literal are resolved for `shapes`.
pub open spec fn ok_attrs(a: ExprAttrs, shapes: Seq<FrameShape>) -> bool
    decreases a,
{
    let inner = if a.recursive {
        in_frame(a.attrs@.len(), shapes)
    } else {
        shapes
    };
    ok_defs(a.attrs, shapes, inner) && ok_dynamic(a.dynamic_attrs, inner)
}

/// Whether `e` is resolved for an environment whose chain has the shapes
/// `shapes`: each variable of `e` is marked as resolved, and its level and
/// displacement lead to a slot, or its level to the frame of a `with`, in
/// the chain as it stands when the variable is evaluated.
pub open spec fn ok(e: Expr, shapes: Seq<FrameShape>) -> bool
    decreases e,
{
    match e {
        Expr::Var(v) => var_ok(v, shapes),
        Expr::Select(s) => {
            &&& ok(*s.expr, shapes)
            &&& (s.def matches Some(d) ==> ok(*d, shapes))
            &&& ok_path(s.attr_path, shapes)
        },
        Expr::OpHasAttr(x) => ok(*x.expr, shapes) && ok_path(x.attr_path, shapes),
        Expr::Attrs(a) => ok_attrs(a, shapes),
        Expr::List(items) => ok_exprs(items, shapes),
        Expr::Lambda(l) => ok_lambda(l, shapes),
        Expr::Let(l) => {
            let inner = in_frame(l.attrs.attrs@.len(), shapes);
            ok_defs(l.attrs.attrs, shapes, inner) && ok(*l.body, inner)
        },
        Expr::With(w) => {
            &&& prev_ok(w.prev_with, shapes)
            &&& ok(*w.attrs, shapes)
            &&& ok(*w.body, in_with(shapes))
        },
        Expr::If(c) => ok(*c.cond, shapes) && ok(*c.then_, shapes) && ok(*c.else_, shapes),
        Expr::Assert(a) => ok(*a.cond, shapes) && ok(*a.body, shapes),
        Expr::OpNot(x) => ok(*x, shapes),
        Expr::BinOp(b) => ok(*b.e1, shapes) && ok(*b.e2, shapes),
        Expr::ConcatStrings(c) => ok_exprs(c.exprs, shapes),
        _ => true,
    }
}

/// Whether `e` can be evaluated in `env`: the environment is one of the
/// state, and `e` is resolved for its chain.
pub open spec fn fits_env(h: Heap, pending: Pending, env: EnvRef, e: Expr) -> bool {
    env < h.envs.len() && ok(e, shape(h, env, pending))
}

/// Whether an attribute set holds finitely many names, and each slot that
/// it holds is a slot of the state.
pub open spec fn attrs_valid(h: Heap, b: Map<Symbol, AttrValue>) -> bool {
    &&& b.dom().finite()
    &&& forall|name: Symbol| b.contains_key(name) ==> (#[trigger] b[name]).value < h.values.len()
}

/// Whether each of a list of slots is a slot of the state.
pub open spec fn slots_valid(h: Heap, slots: Seq<ValueRef>) -> bool {
    forall|i: int| 0 <= i < slots.len() ==> #[trigger] slots[i] < h.values.len()
}

/// Whether a value refers to slots and environments of the state only, and
/// what it defers or closes over is resolved for its environment.
pub open spec fn value_sound(h: Heap, pending: Pending, v: ValueView) -> bool {
    match v {
        ValueView::List(items) => slots_valid(h, items),
        ValueView::Attrs(b) => attrs_valid(h, b),
        ValueView::Thunk(t) => fits_env(h, pending, t.env, *t.expr),
        ValueView::App(a) => a.left < h.values.len() && a.right < h.values.len(),
        ValueView::Lambda(l) => l.env < h.envs.len() && ok_lambda(
            *l.fun,
            shape(h, l.env, pending),
        ),
        ValueView::PrimOpApp(p) => slots_valid(h, p.args),
        _ => true,
    }
}

/// Whether a frame refers to slots and environments of the state only,
/// stands after the frame around it, and, if it is the frame of a `with`,
/// holds an expression that is resolved for the chain around it and a
/// distance that leads to the frame of a `with`.
pub open spec fn env_sound(h: Heap, pending: Pending, env: EnvRef) -> bool {
    let frame = h.envs[env as int];
    &&& frame.up matches Some(up) ==> up < env
    &&& match frame.values {
        EnvInnerView::Plain(slots) => slots_valid(h, slots),
        EnvInnerView::HasWithAttrs(b) => {
            &&& attrs_valid(h, b)
            &&& frame.up matches Some(up) && prev_ok(frame.prev_with, shape(h, up, pending))
        },
        EnvInnerView::HasWithExpr(x) => {
            &&& frame.up matches Some(up) && prev_ok(frame.prev_with, shape(h, up, pending))
                && ok(*x, shape(h, up, pending))
        },
    }
}

/// Whether the state is sound: its slots and environments can be numbered,
/// and each value and each frame is sound. A frame that is being made
/// holds no slots yet, and no frame stands within it.
pub open spec fn sound_with(h: Heap, pending: Pending) -> bool {
    &&& countable(h)
    &&& h.symbols.no_duplicates()
    &&& forall|i: int| 0 <= i < h.values.len() ==> value_sound(h, pending, #[trigger] h.values[i])
    &&& forall|e: EnvRef| e < h.envs.len() ==> #[trigger] env_sound(h, pending, e)
    &&& pending matches Some(p) ==> {
        &&& p.env < h.envs.len()
        &&& h.envs[p.env as int].values == EnvInnerView::Plain(Seq::<ValueRef>::empty())
        &&& forall|e: EnvRef| e < h.envs.len() ==> (#[trigger] h.envs[e as int]).up != Some(p.env)
    }
}

/// Whether the state is sound.
pub open spec fn sound(h: Heap) -> bool {
    sound_with(h, None)
}

/// Whether `g` has the slots and the environments of `h`, and perhaps
/// more, and each chain of `h` has in `g` the shapes that it has in `h`.
pub open spec fn stable(h: Heap, g: Heap, pending: Pending) -> bool {
    &&& h.values.len() <= g.values.len()
    &&& h.envs.len() <= g.envs.len()
    &&& forall|e: EnvRef|
        e < h.envs.len() ==> #[trigger] shape(g, e, pending) == shape(h, e, pending)
}

/// Chains keep their shapes in a state that follows.
pub proof fn lemma_shape_kept(h: Heap, g: Heap, pending: Pending, env: EnvRef)
    requires
        extends(h, g),
        env < h.envs.len(),
    ensures
        shape(g, env, pending) == shape(h, env, pending),
    decreases env,
{
    assert(frame_kept(h.envs[env as int], g.envs[env as int]));
    match h.envs[env as int].up {
        Some(up) => {
            if up < env {
                lemma_shape_kept(h, g, pending, up);
            }
        },
        None => {},
    }
}

/// A sound value stays sound in a stable state.
pub proof fn lemma_value_kept(h: Heap, g: Heap, pending: Pending, v: ValueView)
    requires
        stable(h, g, pending),
        value_sound(h, pending, v),
    ensures
        value_sound(g, pending, v),
{
    match v {
        ValueView::List(items) => {
            assert forall|i: int| 0 <= i < items.len() implies #[trigger] items[i]
                < g.values.len() by {
                assert(items[i] < h.values.len());
            }
        },
        ValueView::Attrs(b) => {
            assert forall|name: Symbol| b.contains_key(name) implies (#[trigger] b[name]).value
                < g.values.len() by {
                assert(b[name].value < h.values.len());
            }
        },
        ValueView::Thunk(t) => {
            assert(shape(g, t.env, pending) == shape(h, t.env, pending));
        },
        ValueView::Lambda(l) => {
            assert(shape(g, l.env, pending) == shape(h, l.env, pending));
        },
        ValueView::PrimOpApp(p) => {
            assert forall|i: int| 0 <= i < p.args.len() implies #[trigger] p.args[i]
                < g.values.len() by {
                assert(p.args[i] < h.values.len());
            }
        },
        _ => {},
    }
}

/// Walking up a chain reaches the frame of each level of its shape, and
/// the chain from there has the rest of the shape.
pub proof fn lemma_walk_shape(h: Heap, pending: Pending, env: EnvRef, n: nat)
    requires
        n < shape(h, env, pending).len(),
    ensures
        walk_up(h, env, n) matches Some(e) && e < h.envs.len() && e <= env && frame_shape(
            h,
            e,
            pending,
        ) == shape(h, env, pending)[n as int] && shape(h, e, pending) =~= shape(
            h,
            env,
            pending,
        ).skip(n as int),
    decreases n,
{
    if n > 0 {
        let up = h.envs[env as int].up->0;
        lemma_walk_shape(h, pending, up, (n - 1) as nat);
        let e = walk_up(h, up, (n - 1) as nat)->0;
        assert(shape(h, env, pending).skip(n as int) =~= shape(h, up, pending).skip(n - 1));
    } else {
        assert(shape(h, env, pending).skip(0) =~= shape(h, env, pending));
    }
}

/// The shape of a chain depends on the environments alone.
pub proof fn lemma_shape_same_envs(h: Heap, g: Heap, pending: Pending, env: EnvRef)
    requires
        g.envs == h.envs,
    ensures
        shape(g, env, pending) == shape(h, env, pending),
    decreases env,
{
    if env < h.envs.len() {
        match h.envs[env as int].up {
            Some(up) => {
                if up < env {
                    lemma_shape_same_envs(h, g, pending, up);
                }
            },
            None => {},
        }
    }
}

/// A chain that does not begin at the frame that is being made does not
/// reach it, and has the shape that it has without it.
pub proof fn lemma_shape_off_pending(h: Heap, pending: PendingFrame, env: EnvRef)
    requires
        env != pending.env,
        forall|e: EnvRef| e < h.envs.len() ==> (#[trigger] h.envs[e as int]).up != Some(pending.env),
    ensures
        shape(h, env, Some(pending)) == shape(h, env, None),
    decreases env,
{
    if env < h.envs.len() {
        match h.envs[env as int].up {
            Some(up) => {
                if up < env {
                    lemma_shape_off_pending(h, pending, up);
                }
            },
            None => {},
        }
    }
}

/// A state with the same environments and no fewer slots is stable.
pub proof fn lemma_same_envs_stable(h: Heap, g: Heap, pending: Pending)
    requires
        g.envs == h.envs,
        h.values.len() <= g.values.len(),
    ensures
        stable(h, g, pending),
{
    assert forall|e: EnvRef| e < h.envs.len() implies #[trigger] shape(g, e, pending) == shape(
        h,
        e,
        pending,
    ) by {
        lemma_shape_same_envs(h, g, pending, e);
    }
}

/// A sound frame stays sound where the environments stay and the slots
/// become no fewer.
proof fn lemma_env_kept(h: Heap, g: Heap, pending: Pending, env: EnvRef)
    requires
        g.envs == h.envs,
        h.values.len() <= g.values.len(),
        env < h.envs.len(),
        env_sound(h, pending, env),
    ensures
        env_sound(g, pending, env),
{
    let frame = h.envs[env as int];
    match frame.up {
        Some(up) => {
            lemma_shape_same_envs(h, g, pending, up);
        },
        None => {},
    }
    match frame.values {
        EnvInnerView::Plain(slots) => {
            assert forall|i: int| 0 <= i < slots.len() implies #[trigger] slots[i]
                < g.values.len() by {
                assert(slots[i] < h.values.len());
            }
        },
        EnvInnerView::HasWithAttrs(b) => {
            assert forall|name: Symbol| b.contains_key(name) implies (#[trigger] b[name]).value
                < g.values.len() by {
                assert(b[name].value < h.values.len());
            }
        },
        EnvInnerView::HasWithExpr(x) => {},
    }
}

/// Putting a sound value into a new slot keeps the state sound.
pub proof fn lemma_push_value_sound(h: Heap, pending: Pending, v: ValueView)
    requires
        sound_with(h, pending),
        value_sound(h, pending, v),
        countable(h.push_value(v).0),
    ensures
        sound_with(h.push_value(v).0, pending),
        stable(h, h.push_value(v).0, pending),
        h.push_value(v).1 == h.values.len(),
{
    let g = h.push_value(v).0;
    lemma_same_envs_stable(h, g, pending);
    assert forall|i: int| 0 <= i < g.values.len() implies value_sound(
        g,
        pending,
        #[trigger] g.values[i],
    ) by {
        if i < h.values.len() {
            assert(g.values[i] == h.values[i]);
            lemma_value_kept(h, g, pending, h.values[i]);
        } else {
            lemma_value_kept(h, g, pending, v);
        }
    }
    assert forall|e: EnvRef| e < g.envs.len() implies #[trigger] env_sound(g, pending, e) by {
        assert(env_sound(h, pending, e));
        lemma_env_kept(h, g, pending, e);
    }
}

/// Putting a sound value into a slot keeps the state sound.
pub proof fn lemma_put_sound(h: Heap, pending: Pending, slot: ValueRef, v: ValueView)
    requires
        sound_with(h, pending),
        value_sound(h, pending, v),
    ensures
        sound_with(h.put(slot, v), pending),
        stable(h, h.put(slot, v), pending),
{
    let g = h.put(slot, v);
    lemma_same_envs_stable(h, g, pending);
    assert forall|i: int| 0 <= i < g.values.len() implies value_sound(
        g,
        pending,
        #[trigger] g.values[i],
    ) by {
        if i == slot {
            lemma_value_kept(h, g, pending, v);
        } else {
            assert(g.values[i] == h.values[i]);
            lemma_value_kept(h, g, pending, h.values[i]);
        }
    }
    assert forall|e: EnvRef| e < g.envs.len() implies #[trigger] env_sound(g, pending, e) by {
        assert(env_sound(h, pending, e));
        lemma_env_kept(h, g, pending, e);
    }
}

/// Interning keeps the state sound.
pub proof fn lemma_intern_sound(h: Heap, text: Seq<char>)
    requires
        sound(h),
    ensures
        sound(h.intern(text).0),
        stable(h, h.intern(text).0, None),
{
    let g = h.intern(text).0;
    lemma_same_envs_stable(h, g, None);
    assert forall|i: int| 0 <= i < g.values.len() implies value_sound(
        g,
        None,
        #[trigger] g.values[i],
    ) by {
        lemma_value_kept(h, g, None, h.values[i]);
    }
    assert forall|e: EnvRef| e < g.envs.len() implies #[trigger] env_sound(g, None, e) by {
        assert(env_sound(h, None, e));
        lemma_env_kept(h, g, None, e);
    }
}

/// Whether a frame can be added to the state: it stands around an
/// environment of the state, and what it holds is sound.
pub open spec fn frame_fits(h: Heap, frame: EnvView) -> bool {
    &&& frame.up matches Some(up) && up < h.envs.len()
    &&& match frame.values {
        EnvInnerView::Plain(slots) => slots_valid(h, slots),
        EnvInnerView::HasWithAttrs(b) => attrs_valid(h, b) && prev_ok(
            frame.prev_with,
            shape(h, frame.up->0, None),
        ),
        EnvInnerView::HasWithExpr(x) => ok(*x, shape(h, frame.up->0, None)) && prev_ok(
            frame.prev_with,
            shape(h, frame.up->0, None),
        ),
    }
}

/// The shape of a chain does not depend on the environments after those of
/// the chain.
proof fn lemma_shape_prefix(h: Heap, g: Heap, pending: Pending, env: EnvRef)
    requires
        h.envs.len() <= g.envs.len(),
        forall|e: int| 0 <= e < h.envs.len() ==> g.envs[e] == #[trigger] h.envs[e],
        env < h.envs.len(),
    ensures
        shape(g, env, pending) == shape(h, env, pending),
    decreases env,
{
    assert(g.envs[env as int] == h.envs[env as int]);
    match h.envs[env as int].up {
        Some(up) => {
            if up < env {
                lemma_shape_prefix(h, g, pending, up);
            }
        },
        None => {},
    }
}

/// Adding a frame that fits keeps the state sound, and the chain that
/// begins at the new frame has its shape before that of the chain around
/// it.
pub proof fn lemma_push_env_sound(h: Heap, frame: EnvView)
    requires
        sound(h),
        frame_fits(h, frame),
        countable(h.push_env(frame).0),
    ensures
        sound(h.push_env(frame).0),
        stable(h, h.push_env(frame).0, None),
        h.push_env(frame).1 == h.envs.len(),
        shape(h.push_env(frame).0, h.push_env(frame).1, None) == seq![
            frame_shape(h.push_env(frame).0, h.push_env(frame).1, None),
        ] + shape(h, frame.up->0, None),
{
    let g = h.push_env(frame).0;
    let new = h.push_env(frame).1;
    let up = frame.up->0;
    assert forall|e: EnvRef| e < h.envs.len() implies #[trigger] shape(g, e, None) == shape(
        h,
        e,
        None,
    ) by {
        lemma_shape_prefix(h, g, None, e);
    }
    assert(g.values == h.values);
    assert forall|i: int| 0 <= i < g.values.len() implies value_sound(
        g,
        None,
        #[trigger] g.values[i],
    ) by {
        lemma_value_kept(h, g, None, h.values[i]);
    }
    assert forall|e: EnvRef| e < g.envs.len() implies #[trigger] env_sound(g, None, e) by {
        if e < h.envs.len() {
            assert(env_sound(h, None, e));
            assert(g.envs[e as int] == h.envs[e as int]);
            match h.envs[e as int].up {
                Some(u) => {
                    assert(shape(g, u, None) == shape(h, u, None));
                },
                None => {},
            }
        } else {
            assert(g.envs[e as int] == frame);
            assert(shape(g, up, None) == shape(h, up, None));
        }
    }
    assert(shape(g, up, None) == shape(h, up, None));
}

/// The frame of a `with` that comes to hold an attribute set keeps the
/// state sound.
pub proof fn lemma_with_attrs_sound(h: Heap, env: EnvRef, b: Map<Symbol, AttrValue>)
    requires
        sound(h),
        env < h.envs.len(),
        !(h.envs[env as int].values is Plain),
        attrs_valid(h, b),
    ensures
        sound(h.put_env(env, EnvInnerView::HasWithAttrs(b))),
        stable(h, h.put_env(env, EnvInnerView::HasWithAttrs(b)), None),
{
    let g = h.put_env(env, EnvInnerView::HasWithAttrs(b));
    assert forall|e: EnvRef| e < h.envs.len() implies #[trigger] shape(g, e, None) == shape(
        h,
        e,
        None,
    ) by {
        lemma_shape_with_kept(h, env, b, e);
    }
    assert forall|i: int| 0 <= i < g.values.len() implies value_sound(
        g,
        None,
        #[trigger] g.values[i],
    ) by {
        lemma_value_kept(h, g, None, h.values[i]);
    }
    assert forall|e: EnvRef| e < g.envs.len() implies #[trigger] env_sound(g, None, e) by {
        assert(env_sound(h, None, e));
        match h.envs[e as int].up {
            Some(u) => {
                assert(shape(g, u, None) == shape(h, u, None));
            },
            None => {},
        }
    }
}

proof fn lemma_shape_with_kept(h: Heap, env: EnvRef, b: Map<Symbol, AttrValue>, from: EnvRef)
    requires
        env < h.envs.len(),
        !(h.envs[env as int].values is Plain),
    ensures
        shape(h.put_env(env, EnvInnerView::HasWithAttrs(b)), from, None) == shape(h, from, None),
    decreases from,
{
    if from < h.envs.len() {
        match h.envs[from as int].up {
            Some(up) => {
                if up < from {
                    lemma_shape_with_kept(h, env, b, up);
                }
            },
            None => {},
        }
    }
}

/// Beginning a frame of `size` slots around `up` keeps the state sound,
/// with the new frame as the one that is being made.
pub proof fn lemma_begin_frame(h: Heap, up: EnvRef, size: nat)
    requires
        sound(h),
        up < h.envs.len(),
        countable(h.push_env(crate::invariants::new_frame(up)).0),
    ensures
        ({
            let g = h.push_env(crate::invariants::new_frame(up)).0;
            let inner = h.push_env(crate::invariants::new_frame(up)).1;
            let pending = Some(PendingFrame { env: inner, size });
            &&& inner == h.envs.len()
            &&& sound_with(g, pending)
            &&& shape(g, inner, pending) == in_frame(size, shape(h, up, None))
            &&& forall|e: EnvRef|
                e < h.envs.len() ==> #[trigger] shape(g, e, pending) == shape(h, e, None)
            &&& g.values == h.values
        }),
{
    let frame = crate::invariants::new_frame(up);
    let g = h.push_env(frame).0;
    let inner = h.push_env(frame).1;
    let p = PendingFrame { env: inner, size };
    let pending = Some(p);
    assert(frame_fits(h, frame));
    lemma_push_env_sound(h, frame);
    assert forall|e: EnvRef| e < g.envs.len() implies (#[trigger] g.envs[e as int]).up != Some(
        inner,
    ) by {
        assert(env_sound(g, None, e));
    }
    assert forall|e: EnvRef| e < h.envs.len() implies #[trigger] shape(g, e, pending) == shape(
        h,
        e,
        None,
    ) by {
        lemma_shape_off_pending(g, p, e);
        assert(shape(g, e, None) == shape(h, e, None));
    }
    assert(shape(g, up, pending) == shape(h, up, None));
    assert forall|i: int| 0 <= i < g.values.len() implies value_sound(
        g,
        pending,
        #[trigger] g.values[i],
    ) by {
        let v = g.values[i];
        assert(value_sound(g, None, v));
        match v {
            ValueView::Thunk(t) => {
                assert(t.env < h.envs.len()) by {
                    assert(value_sound(h, None, h.values[i]));
                }
                assert(shape(g, t.env, pending) == shape(h, t.env, None));
                assert(shape(g, t.env, None) == shape(h, t.env, None));
            },
            ValueView::Lambda(l) => {
                assert(l.env < h.envs.len()) by {
                    assert(value_sound(h, None, h.values[i]));
                }
                assert(shape(g, l.env, pending) == shape(h, l.env, None));
                assert(shape(g, l.env, None) == shape(h, l.env, None));
            },
            _ => {},
        }
    }
    assert forall|e: EnvRef| e < g.envs.len() implies #[trigger] env_sound(g, pending, e) by {
        assert(env_sound(g, None, e));
        match g.envs[e as int].up {
            Some(u) => {
                assert(u < e);
                assert(shape(g, u, pending) == shape(h, u, None));
                assert(shape(g, u, None) == shape(h, u, None));
            },
            None => {},
        }
    }
}

/// Letting the frame that is being made hold its slots makes the state
/// sound, and each chain has the shape that it was going to have.
pub proof fn lemma_finish_frame(h: Heap, pending: PendingFrame, slots: Seq<ValueRef>)
    requires
        sound_with(h, Some(pending)),
        slots.len() == pending.size,
        slots_valid(h, slots),
    ensures
        sound(h.put_env(pending.env, EnvInnerView::Plain(slots))),
        forall|e: EnvRef|
            e < h.envs.len() ==> #[trigger] shape(
                h.put_env(pending.env, EnvInnerView::Plain(slots)),
                e,
                None,
            ) == shape(h, e, Some(pending)),
{
    let g = h.put_env(pending.env, EnvInnerView::Plain(slots));
    assert forall|e: EnvRef| e < h.envs.len() implies #[trigger] shape(g, e, None) == shape(
        h,
        e,
        Some(pending),
    ) by {
        lemma_shape_finished(h, pending, slots, e);
    }
    assert forall|i: int| 0 <= i < g.values.len() implies value_sound(
        g,
        None,
        #[trigger] g.values[i],
    ) by {
        let v = g.values[i];
        assert(value_sound(h, Some(pending), h.values[i]));
        match v {
            ValueView::Thunk(t) => {
                assert(shape(g, t.env, None) == shape(h, t.env, Some(pending)));
            },
            ValueView::Lambda(l) => {
                assert(shape(g, l.env, None) == shape(h, l.env, Some(pending)));
            },
            _ => {},
        }
    }
    assert forall|e: EnvRef| e < g.envs.len() implies #[trigger] env_sound(g, None, e) by {
        assert(env_sound(h, Some(pending), e));
        match h.envs[e as int].up {
            Some(u) => {
                assert(shape(g, u, None) == shape(h, u, Some(pending)));
            },
            None => {},
        }
    }
}

proof fn lemma_shape_finished(h: Heap, pending: PendingFrame, slots: Seq<ValueRef>, from: EnvRef)
    requires
        pending.env < h.envs.len(),
        h.envs[pending.env as int].values is Plain,
        slots.len() == pending.size,
    ensures
        shape(h.put_env(pending.env, EnvInnerView::Plain(slots)), from, None) == shape(
            h,
            from,
            Some(pending),
        ),
    decreases from,
{
    if from < h.envs.len() {
        match h.envs[from as int].up {
            Some(up) => {
                if up < from {
                    lemma_shape_finished(h, pending, slots, up);
                }
            },
            None => {},
        }
    }
}

/// Whether the state is being set up: it has the outermost frame alone,
/// and holds no deferred expression and no function yet.
pub open spec fn setting_up(h: Heap) -> bool {
    &&& h.envs.len() == 1
    &&& h.envs[0].up is None
    &&& h.envs[0].values is Plain
    &&& forall|i: int|
        0 <= i < h.values.len() ==> !((#[trigger] h.values[i]) is Thunk) && !(h.values[i] is Lambda)
}

/// Binding a global while the state is being set up keeps the state sound:
/// the outermost frame has one slot more, and the global has the
/// displacement of that slot.
pub proof fn lemma_define_global_sound(h: Heap, v: ValueView)
    requires
        sound(h),
        setting_up(h),
        value_sound(h, None, v),
        !(v is Thunk),
        !(v is Lambda),
        h.values.len() < usize::MAX,
        h.envs[0].values->Plain_0.len() < usize::MAX,
    ensures
        h.define_global(v) matches Some((g, displ)) && sound(g) && setting_up(g) && shape(
            g,
            0,
            None,
        ) == seq![FrameShape { is_with: false, size: shape(h, 0, None)[0].size + 1 }] && displ.0
            == shape(h, 0, None)[0].size,
{
    let slots = h.envs[0].values->Plain_0;
    let (h1, slot) = h.push_value(v);
    lemma_push_value_sound(h, None, v);
    let g = h1.put_env(0, EnvInnerView::Plain(slots.push(slot)));
    assert(env_sound(h1, None, 0));
    assert(slots_valid(g, slots.push(slot))) by {
        assert forall|i: int| 0 <= i < slots.push(slot).len() implies #[trigger] slots.push(
            slot,
        )[i] < g.values.len() by {
            if i < slots.len() {
                assert(slots[i] < h1.values.len());
            }
        }
    }
    assert forall|i: int| 0 <= i < g.values.len() implies value_sound(
        g,
        None,
        #[trigger] g.values[i],
    ) by {
        let x = g.values[i];
        assert(value_sound(h1, None, h1.values[i]));
        assert(!(x is Thunk) && !(x is Lambda)) by {
            if i < h.values.len() {
                assert(h1.values[i] == h.values[i]);
            }
        }
    }
    assert forall|e: EnvRef| e < g.envs.len() implies #[trigger] env_sound(g, None, e) by {
        assert(e == 0);
    }
}

/// Whether a result is none that tells of a reference outside the state.
pub open spec fn no_bad<T>(r: Result<T, NixError>) -> bool {
    !(r matches Err(NixError::BadReference))
}

/// A variable that is resolved to a frame of the chain of `env` has a slot
/// there, and the slot is one of the state.
pub proof fn lemma_lookup_static_sound(h: Heap, pending: Pending, env: EnvRef, v: ExprVar)
    requires
        sound_with(h, pending),
        pending is None,
        var_ok(v, shape(h, env, pending)),
        !v.from_with,
    ensures
        lookup_static(h, env, v) matches Some(slot) && slot < h.values.len(),
{
    lemma_walk_shape(h, pending, env, v.level.0 as nat);
    let e = walk_up(h, env, v.level.0 as nat)->0;
    assert(env_sound(h, pending, e));
}

/// A slot that the lookup of a variable in its frame gives is one of the
/// state.
proof fn lemma_lookup_static_valid(h: Heap, pending: Pending, env: EnvRef, v: ExprVar)
    requires
        sound_with(h, pending),
    ensures
        lookup_static(h, env, v) matches Some(slot) ==> slot < h.values.len(),
{
    lemma_walk_up(h, env, v.level.0 as nat);
    match walk_up(h, env, v.level.0 as nat) {
        Some(e) => {
            assert(env_sound(h, pending, e));
        },
        None => {},
    }
}

/// Deferring an expression that fits keeps the state sound and gives a
/// slot of the state.
pub proof fn lemma_maybe_thunk_sound<'a>(h: Heap<'a>, pending: Pending, env: EnvRef, e: &'a Expr)
    requires
        sound_with(h, pending),
        fits_env(h, pending, env, *e),
        countable(maybe_thunk(h, env, e).0),
    ensures
        sound_with(maybe_thunk(h, env, e).0, pending),
        stable(h, maybe_thunk(h, env, e).0, pending),
        maybe_thunk(h, env, e).0.envs == h.envs,
        maybe_thunk(h, env, e).1 < maybe_thunk(h, env, e).0.values.len(),
{
    let v = ValueView::Thunk(Thunk { env, expr: e });
    lemma_same_envs_stable(h, h, pending);
    match e {
        Expr::Var(x) => {
            lemma_lookup_static_valid(h, pending, env, *x);
            if !(x.resolved && !x.from_with && lookup_static(h, env, *x) is Some) {
                lemma_push_value_sound(h, pending, v);
            }
        },
        _ => {
            lemma_push_value_sound(h, pending, v);
        },
    }
}

/// Stability goes on from state to state.
pub proof fn lemma_stable_trans(h: Heap, g: Heap, k: Heap, pending: Pending)
    requires
        stable(h, g, pending),
        stable(g, k, pending),
    ensures
        stable(h, k, pending),
{
    assert forall|e: EnvRef| e < h.envs.len() implies #[trigger] shape(k, e, pending) == shape(
        h,
        e,
        pending,
    ) by {
        assert(shape(g, e, pending) == shape(h, e, pending));
        assert(shape(k, e, pending) == shape(g, e, pending));
    }
}

/// Slots of a state are slots of a state that is no smaller.
pub proof fn lemma_slots_kept(h: Heap, g: Heap, slots: Seq<ValueRef>)
    requires
        h.values.len() <= g.values.len(),
        slots_valid(h, slots),
    ensures
        slots_valid(g, slots),
{
    assert forall|i: int| 0 <= i < slots.len() implies #[trigger] slots[i] < g.values.len() by {
        assert(slots[i] < h.values.len());
    }
}

/// The slots of an attribute set of a state are slots of a state that is
/// no smaller.
pub proof fn lemma_attrs_kept(h: Heap, g: Heap, b: Map<Symbol, AttrValue>)
    requires
        h.values.len() <= g.values.len(),
        attrs_valid(h, b),
    ensures
        attrs_valid(g, b),
{
    assert forall|name: Symbol| b.contains_key(name) implies (#[trigger] b[name]).value
        < g.values.len() by {
        assert(b[name].value < h.values.len());
    }
}

/// Deferring the expressions of a list keeps the state sound and gives
/// slots of the state.
pub proof fn lemma_thunks_sound<'a>(
    h: Heap<'a>,
    env: EnvRef,
    items: &'a Vec<Expr>,
    i: nat,
    acc: Seq<ValueRef>,
)
    requires
        sound(h),
        env < h.envs.len(),
        ok_exprs(*items, shape(h, env, None)),
        slots_valid(h, acc),
        countable(thunks(h, env, items, i, acc).0),
    ensures
        sound(thunks(h, env, items, i, acc).0),
        stable(h, thunks(h, env, items, i, acc).0, None),
        slots_valid(thunks(h, env, items, i, acc).0, thunks(h, env, items, i, acc).1),
    decreases items@.len() - i,
{
    if i < items@.len() {
        let (h1, slot) = maybe_thunk(h, env, &items@[i as int]);
        lemma_thunks(h1, env, items, i + 1, acc.push(slot));
        lemma_maybe_thunk_sound(h, None, env, &items@[i as int]);
        lemma_slots_kept(h, h1, acc);
        assert(slots_valid(h1, acc.push(slot))) by {
            assert forall|k: int| 0 <= k < acc.push(slot).len() implies #[trigger] acc.push(
                slot,
            )[k] < h1.values.len() by {
                if k < acc.len() {
                    assert(acc[k] < h1.values.len());
                }
            }
        }
        assert(shape(h1, env, None) == shape(h, env, None));
        lemma_thunks_sound(h1, env, items, i + 1, acc.push(slot));
        lemma_stable_trans(h, h1, thunks(h, env, items, i, acc).0, None);
    } else {
        lemma_same_envs_stable(h, h, None);
    }
}

/// Deferring the definitions of a set or of a `let` keeps the state sound
/// and gives one slot of the state for each definition.
pub proof fn lemma_static_attrs_sound<'a>(
    h: Heap<'a>,
    pending: Pending,
    outer: EnvRef,
    inner: EnvRef,
    attrs: &'a Vec<(Symbol, AttrDef)>,
    i: nat,
    slots: Seq<ValueRef>,
    b: Map<Symbol, AttrValue>,
)
    requires
        sound_with(h, pending),
        outer < h.envs.len(),
        inner < h.envs.len(),
        ok_defs(*attrs, shape(h, outer, pending), shape(h, inner, pending)),
        slots_valid(h, slots),
        attrs_valid(h, b),
        slots.len() == i,
        i <= attrs@.len(),
        countable(static_attrs(h, outer, inner, attrs, i, slots, b).0),
    ensures
        ({
            let (g, r) = static_attrs(h, outer, inner, attrs, i, slots, b);
            &&& sound_with(g, pending)
            &&& stable(h, g, pending)
            &&& g.envs == h.envs
            &&& no_bad(r)
            &&& r matches Ok((all, m)) ==> slots_valid(g, all) && attrs_valid(g, m) && all.len()
                == attrs@.len()
        }),
    decreases attrs@.len() - i,
{
    if i < attrs@.len() {
        let name = attrs@[i as int].0;
        let def = &attrs@[i as int].1;
        if !b.contains_key(name) {
            let target = if def.inherited {
                outer
            } else {
                inner
            };
            let (h1, slot) = maybe_thunk(h, target, &*def.expr);
            let b1 = b.insert(name, AttrValue { value: slot, pos: def.pos });
            lemma_static_attrs(h1, outer, inner, attrs, i + 1, slots.push(slot), b1);
            lemma_maybe_thunk_sound(h, pending, target, &*def.expr);
            lemma_slots_kept(h, h1, slots);
            lemma_attrs_kept(h, h1, b);
            assert(slots_valid(h1, slots.push(slot))) by {
                assert forall|k: int| 0 <= k < slots.push(slot).len() implies #[trigger] slots.push(
                    slot,
                )[k] < h1.values.len() by {
                    if k < slots.len() {
                        assert(slots[k] < h1.values.len());
                    }
                }
            }
            assert(attrs_valid(h1, b1)) by {
                assert forall|n: Symbol| b1.contains_key(n) implies (#[trigger] b1[n]).value
                    < h1.values.len() by {
                    if n != name {
                        assert(b[n].value < h1.values.len());
                    }
                }
            }
            assert(shape(h1, outer, pending) == shape(h, outer, pending));
            assert(shape(h1, inner, pending) == shape(h, inner, pending));
            lemma_static_attrs_sound(h1, pending, outer, inner, attrs, i + 1, slots.push(slot), b1);
            lemma_stable_trans(
                h,
                h1,
                static_attrs(h, outer, inner, attrs, i, slots, b).0,
                pending,
            );
        } else {
            lemma_same_envs_stable(h, h, pending);
        }
    } else {
        lemma_same_envs_stable(h, h, pending);
    }
}

/// Making the slots of the formals of a function keeps the state sound
/// and gives one slot of the state for each formal.
pub proof fn lemma_formal_slots_sound<'a>(
    h: Heap<'a>,
    pending: Pending,
    env: EnvRef,
    fun: &'a ExprLambda,
    b: Map<Symbol, AttrValue>,
    i: nat,
    slots: Seq<ValueRef>,
)
    requires
        sound_with(h, pending),
        env < h.envs.len(),
        ok_formals(fun.formals.formals, shape(h, env, pending)),
        slots_valid(h, slots),
        attrs_valid(h, b),
        i <= fun.formals.formals@.len(),
        countable(formal_slots(h, env, fun, b, i, slots).0),
    ensures
        ({
            let (g, r) = formal_slots(h, env, fun, b, i, slots);
            &&& sound_with(g, pending)
            &&& stable(h, g, pending)
            &&& g.envs == h.envs
            &&& no_bad(r)
            &&& r matches Ok(all) ==> slots_valid(g, all) && all.len() == slots.len()
                + fun.formals.formals@.len() - i
        }),
    decreases fun.formals.formals@.len() - i,
{
    if i < fun.formals.formals@.len() {
        let formal = &fun.formals.formals@[i as int];
        if b.contains_key(formal.name) {
            let slot = b[formal.name].value;
            assert(slots_valid(h, slots.push(slot))) by {
                assert forall|k: int| 0 <= k < slots.push(slot).len() implies #[trigger] slots.push(
                    slot,
                )[k] < h.values.len() by {
                    if k < slots.len() {
                        assert(slots[k] < h.values.len());
                    }
                }
            }
            lemma_formal_slots_sound(h, pending, env, fun, b, i + 1, slots.push(slot));
        } else {
            match &formal.def {
                Some(d) => {
                    let v = ValueView::Thunk(Thunk { env, expr: &**d });
                    let (h1, slot) = h.push_value(v);
                    lemma_formal_slots(h1, env, fun, b, i + 1, slots.push(slot));
                    lemma_push_value_sound(h, pending, v);
                    lemma_slots_kept(h, h1, slots);
                    lemma_attrs_kept(h, h1, b);
                    assert(slots_valid(h1, slots.push(slot))) by {
                        assert forall|k: int|
                            0 <= k < slots.push(slot).len() implies #[trigger] slots.push(slot)[k]
                            < h1.values.len() by {
                            if k < slots.len() {
                                assert(slots[k] < h1.values.len());
                            }
                        }
                    }
                    assert(shape(h1, env, pending) == shape(h, env, pending));
                    lemma_formal_slots_sound(h1, pending, env, fun, b, i + 1, slots.push(slot));
                    lemma_stable_trans(h, h1, formal_slots(h, env, fun, b, i, slots).0, pending);
                },
                None => {
                    lemma_same_envs_stable(h, h, pending);
                },
            }
        }
    } else {
        lemma_same_envs_stable(h, h, pending);
    }
}

} // verus!
