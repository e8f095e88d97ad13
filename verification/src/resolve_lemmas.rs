//! What holds of resolution, whatever the expression.

use crate::env::{lemma_innermost_binding, lemma_nearest_with, resolve, Displ, StaticFrame};
use crate::nix_expr::ExprLambda;
use crate::resolve::{
    attrs_vars, formals_vars, lambda_arg_vars, nests_attrs, nests_exprs, nests_formals,
    nests_path, nests_within,
};
use crate::soundness::{
    in_frame, in_with, lambda_size, ok, ok_attrs, ok_defs, ok_dynamic, ok_exprs, ok_formals,
    ok_lambda, ok_path, FrameShape,
};
use crate::nix_expr::{AttrDef, AttrName, DynamicAttrDef, Expr, ExprAttrs, Formal};
use crate::resolve::{
    attrs_frame, closed, closed_attrs, closed_exprs, closed_formals, closed_path, lambda_frame,
    push_frame, resolved, resolved_attrs, resolved_def, resolved_dynamic, resolved_exprs,
    resolved_formal, resolved_formals, resolved_name, resolved_path, unbound, unbound_attrs,
    unbound_defs, unbound_dynamic, unbound_exprs, unbound_formals, unbound_path, with_frame,
};
use crate::symbol_table::Symbol;
use vstd::prelude::*;

verus! {

/// Whether each variable among the computed names of a path is marked as
/// resolved.
pub open spec fn all_resolved_path(path: Vec<AttrName>) -> bool
    decreases path,
{
    forall|i: int|
        0 <= i < path@.len() ==> ((#[trigger] path@[i]).expr matches Some(x) ==> all_resolved(*x))
}

/// Whether each variable of a list of expressions is marked as resolved.
pub open spec fn all_resolved_exprs(exprs: Vec<Expr>) -> bool
    decreases exprs,
{
    forall|i: int| 0 <= i < exprs@.len() ==> all_resolved(#[trigger] exprs@[i])
}

/// Whether each variable of the definitions of a set is marked as
/// resolved.
pub open spec fn all_resolved_attrs(attrs: ExprAttrs) -> bool
    decreases attrs,
{
    &&& forall|i: int|
        0 <= i < attrs.attrs@.len() ==> all_resolved(*(#[trigger] attrs.attrs@[i]).1.expr)
    &&& forall|i: int|
        0 <= i < attrs.dynamic_attrs@.len() ==> all_resolved(
            *(#[trigger] attrs.dynamic_attrs@[i]).name_expr,
        ) && all_resolved(*attrs.dynamic_attrs@[i].value_expr)
}

/// Whether each variable of the defaults of a list of formals is marked as
/// resolved.
pub open spec fn all_resolved_formals(formals: Vec<Formal>) -> bool
    decreases formals,
{
    forall|i: int|
        0 <= i < formals@.len() ==> ((#[trigger] formals@[i]).def matches Some(d) ==> all_resolved(
            *d,
        ))
}

/// Whether each variable of `e` is marked as resolved. The defaults of the
/// formals of a function that takes no set are not read, and not counted.
pub open spec fn all_resolved(e: Expr) -> bool
    decreases e,
{
    match e {
        Expr::Var(v) => v.resolved,
        Expr::Select(s) => {
            &&& all_resolved(*s.expr)
            &&& (s.def matches Some(d) ==> all_resolved(*d))
            &&& all_resolved_path(s.attr_path)
        },
        Expr::OpHasAttr(x) => all_resolved(*x.expr) && all_resolved_path(x.attr_path),
        Expr::Attrs(a) => all_resolved_attrs(a),
        Expr::List(items) => all_resolved_exprs(items),
        Expr::Lambda(l) => all_resolved(*l.body) && (l.match_attrs ==> all_resolved_formals(
            l.formals.formals,
        )),
        Expr::Let(l) => all_resolved_attrs(*l.attrs) && all_resolved(*l.body),
        Expr::With(w) => all_resolved(*w.attrs) && all_resolved(*w.body),
        Expr::If(c) => all_resolved(*c.cond) && all_resolved(*c.then_) && all_resolved(*c.else_),
        Expr::Assert(a) => all_resolved(*a.cond) && all_resolved(*a.body),
        Expr::OpNot(x) => all_resolved(*x),
        Expr::BinOp(b) => all_resolved(*b.e1) && all_resolved(*b.e2),
        Expr::ConcatStrings(c) => all_resolved_exprs(c.exprs),
        _ => true,
    }
}

proof fn lemma_path_marked(before: Vec<AttrName>, after: Vec<AttrName>, frames: Seq<StaticFrame>)
    requires
        resolved_path(before, after, frames),
    ensures
        all_resolved_path(after),
    decreases before, 1int,
{
    assert forall|i: int| 0 <= i < after@.len() implies ((#[trigger] after@[i]).expr matches Some(
        x,
    ) ==> all_resolved(*x)) by {
        assert(resolved_name(before@[i], after@[i], frames));
        match before@[i].expr {
            Some(x) => {
                lemma_resolved_marks_all(*x, *after@[i].expr->0, frames);
            },
            None => {},
        }
    }
}

proof fn lemma_exprs_marked(before: Vec<Expr>, after: Vec<Expr>, frames: Seq<StaticFrame>)
    requires
        resolved_exprs(before, after, frames),
    ensures
        all_resolved_exprs(after),
    decreases before, 1int,
{
    assert forall|i: int| 0 <= i < after@.len() implies all_resolved(#[trigger] after@[i]) by {
        assert(resolved(before@[i], after@[i], frames));
        lemma_resolved_marks_all(before@[i], after@[i], frames);
    }
}

proof fn lemma_attrs_marked(
    before: ExprAttrs,
    after: ExprAttrs,
    frames: Seq<StaticFrame>,
    inner: Seq<StaticFrame>,
    assign: bool,
)
    requires
        resolved_attrs(before, after, frames, inner, assign),
    ensures
        all_resolved_attrs(after),
    decreases before, 1int,
{
    assert forall|i: int| 0 <= i < after.attrs@.len() implies all_resolved(
        *(#[trigger] after.attrs@[i]).1.expr,
    ) by {
        assert(resolved_def(before.attrs@[i], after.attrs@[i], i, frames, inner, assign));
        lemma_resolved_marks_all(
            *before.attrs@[i].1.expr,
            *after.attrs@[i].1.expr,
            if before.attrs@[i].1.inherited {
                frames
            } else {
                inner
            },
        );
    }
    assert forall|i: int| 0 <= i < after.dynamic_attrs@.len() implies all_resolved(
        *(#[trigger] after.dynamic_attrs@[i]).name_expr,
    ) && all_resolved(*after.dynamic_attrs@[i].value_expr) by {
        assert(resolved_dynamic(before.dynamic_attrs@[i], after.dynamic_attrs@[i], inner));
        lemma_resolved_marks_all(
            *before.dynamic_attrs@[i].name_expr,
            *after.dynamic_attrs@[i].name_expr,
            inner,
        );
        lemma_resolved_marks_all(
            *before.dynamic_attrs@[i].value_expr,
            *after.dynamic_attrs@[i].value_expr,
            inner,
        );
    }
}

proof fn lemma_formals_marked(before: Vec<Formal>, after: Vec<Formal>, inner: Seq<StaticFrame>)
    requires
        resolved_formals(before, after, inner),
    ensures
        all_resolved_formals(after),
    decreases before, 1int,
{
    assert forall|i: int| 0 <= i < after@.len() implies ((#[trigger] after@[i]).def matches Some(
        d,
    ) ==> all_resolved(*d)) by {
        assert(resolved_formal(before@[i], after@[i], inner));
        match before@[i].def {
            Some(d) => {
                lemma_resolved_marks_all(*d, *after@[i].def->0, inner);
            },
            None => {},
        }
    }
}

/// Resolution leaves no variable unmarked: in the tree that resolution of
/// `before` against `frames` leaves, each variable is marked as resolved.
///
/// With the contract of `Expr::bind_vars` this gives: an expression with no
/// free variable within the chain resolves, and each of its variables ends
/// marked as resolved.
pub proof fn lemma_resolved_marks_all(before: Expr, after: Expr, frames: Seq<StaticFrame>)
    requires
        resolved(before, after, frames),
    ensures
        all_resolved(after),
    decreases before, 0int,
{
    match before {
        Expr::Var(v) => {},
        Expr::Select(s) => {
            let t = after->Select_0;
            lemma_resolved_marks_all(*s.expr, *t.expr, frames);
            match s.def {
                Some(d) => {
                    lemma_resolved_marks_all(*d, *t.def->0, frames);
                },
                None => {},
            }
            lemma_path_marked(s.attr_path, t.attr_path, frames);
        },
        Expr::OpHasAttr(x) => {
            let t = after->OpHasAttr_0;
            lemma_resolved_marks_all(*x.expr, *t.expr, frames);
            lemma_path_marked(x.attr_path, t.attr_path, frames);
        },
        Expr::Attrs(a) => {
            let t = after->Attrs_0;
            lemma_attrs_marked(
                a,
                t,
                frames,
                if a.recursive {
                    crate::resolve::push_frame(crate::resolve::attrs_frame(a), frames)
                } else {
                    frames
                },
                a.recursive,
            );
        },
        Expr::List(items) => {
            lemma_exprs_marked(items, after->List_0, frames);
        },
        Expr::Lambda(l) => {
            let t = after->Lambda_0;
            let inner = crate::resolve::push_frame(crate::resolve::lambda_frame(l), frames);
            lemma_resolved_marks_all(*l.body, *t.body, inner);
            if l.match_attrs {
                lemma_formals_marked(l.formals.formals, t.formals.formals, inner);
            }
        },
        Expr::Let(l) => {
            let t = after->Let_0;
            let inner = crate::resolve::push_frame(crate::resolve::attrs_frame(*l.attrs), frames);
            lemma_attrs_marked(*l.attrs, *t.attrs, frames, inner, true);
            lemma_resolved_marks_all(*l.body, *t.body, inner);
        },
        Expr::With(w) => {
            let t = after->With_0;
            lemma_resolved_marks_all(*w.attrs, *t.attrs, frames);
            lemma_resolved_marks_all(
                *w.body,
                *t.body,
                crate::resolve::push_frame(crate::resolve::with_frame(), frames),
            );
        },
        Expr::If(c) => {
            let t = after->If_0;
            lemma_resolved_marks_all(*c.cond, *t.cond, frames);
            lemma_resolved_marks_all(*c.then_, *t.then_, frames);
            lemma_resolved_marks_all(*c.else_, *t.else_, frames);
        },
        Expr::Assert(a) => {
            let t = after->Assert_0;
            lemma_resolved_marks_all(*a.cond, *t.cond, frames);
            lemma_resolved_marks_all(*a.body, *t.body, frames);
        },
        Expr::OpNot(x) => {
            lemma_resolved_marks_all(*x, *after->OpNot_0, frames);
        },
        Expr::BinOp(b) => {
            let t = after->BinOp_0;
            lemma_resolved_marks_all(*b.e1, *t.e1, frames);
            lemma_resolved_marks_all(*b.e2, *t.e2, frames);
        },
        Expr::ConcatStrings(c) => {
            lemma_exprs_marked(c.exprs, after->ConcatStrings_0.exprs, frames);
        },
        _ => {},
    }
}

proof fn lemma_unbound_path(path: Vec<AttrName>, i: nat, frames: Seq<StaticFrame>)
    ensures
        i == 0 ==> (unbound_path(path, 0, frames) is None <==> closed_path(path, frames)),
        unbound_path(path, i, frames) is None <==> forall|j: int|
            i <= j < path@.len() ==> ((#[trigger] path@[j]).expr matches Some(x) ==> closed(
                *x,
                frames,
            )),
    decreases path, path@.len() - i,
{
    if i < path@.len() {
        match path@[i as int].expr {
            Some(x) => {
                lemma_free_variable(*x, frames);
            },
            None => {},
        }
        lemma_unbound_path(path, i + 1, frames);
    }
}

proof fn lemma_unbound_exprs(exprs: Vec<Expr>, i: nat, frames: Seq<StaticFrame>)
    ensures
        i == 0 ==> (unbound_exprs(exprs, 0, frames) is None <==> closed_exprs(exprs, frames)),
        unbound_exprs(exprs, i, frames) is None <==> forall|j: int|
            i <= j < exprs@.len() ==> closed(#[trigger] exprs@[j], frames),
    decreases exprs, exprs@.len() - i,
{
    if i < exprs@.len() {
        lemma_free_variable(exprs@[i as int], frames);
        lemma_unbound_exprs(exprs, i + 1, frames);
    }
}

proof fn lemma_unbound_defs(
    defs: Vec<(Symbol, AttrDef)>,
    i: nat,
    frames: Seq<StaticFrame>,
    inner: Seq<StaticFrame>,
)
    ensures
        unbound_defs(defs, i, frames, inner) is None <==> forall|j: int|
            i <= j < defs@.len() ==> closed(
                *(#[trigger] defs@[j]).1.expr,
                if defs@[j].1.inherited {
                    frames
                } else {
                    inner
                },
            ),
    decreases defs, defs@.len() - i,
{
    if i < defs@.len() {
        lemma_free_variable(
            *defs@[i as int].1.expr,
            if defs@[i as int].1.inherited {
                frames
            } else {
                inner
            },
        );
        lemma_unbound_defs(defs, i + 1, frames, inner);
    }
}

proof fn lemma_unbound_dynamic(defs: Vec<DynamicAttrDef>, i: nat, inner: Seq<StaticFrame>)
    ensures
        unbound_dynamic(defs, i, inner) is None <==> forall|j: int|
            i <= j < defs@.len() ==> closed(*(#[trigger] defs@[j]).name_expr, inner) && closed(
                *defs@[j].value_expr,
                inner,
            ),
    decreases defs, defs@.len() - i,
{
    if i < defs@.len() {
        lemma_free_variable(*defs@[i as int].name_expr, inner);
        lemma_free_variable(*defs@[i as int].value_expr, inner);
        lemma_unbound_dynamic(defs, i + 1, inner);
    }
}

proof fn lemma_unbound_formals(formals: Vec<Formal>, i: nat, inner: Seq<StaticFrame>)
    ensures
        i == 0 ==> (unbound_formals(formals, 0, inner) is None <==> closed_formals(
            formals,
            inner,
        )),
        unbound_formals(formals, i, inner) is None <==> forall|j: int|
            i <= j < formals@.len() ==> ((#[trigger] formals@[j]).def matches Some(d) ==> closed(
                *d,
                inner,
            )),
    decreases formals, formals@.len() - i,
{
    if i < formals@.len() {
        match formals@[i as int].def {
            Some(d) => {
                lemma_free_variable(*d, inner);
            },
            None => {},
        }
        lemma_unbound_formals(formals, i + 1, inner);
    }
}

proof fn lemma_unbound_attrs(attrs: ExprAttrs, frames: Seq<StaticFrame>, inner: Seq<StaticFrame>)
    ensures
        unbound_attrs(attrs, frames, inner) is None <==> closed_attrs(attrs, frames, inner),
    decreases attrs, 0int,
{
    lemma_unbound_defs(attrs.attrs, 0, frames, inner);
    lemma_unbound_dynamic(attrs.dynamic_attrs, 0, inner);
}

/// An expression has a first free variable exactly if it is not closed:
/// resolution fails on the expressions with a free variable, and on no
/// others.
pub proof fn lemma_free_variable(e: Expr, frames: Seq<StaticFrame>)
    ensures
        unbound(e, frames) is None <==> closed(e, frames),
    decreases e,
{
    match e {
        Expr::Select(s) => {
            lemma_free_variable(*s.expr, frames);
            match s.def {
                Some(d) => {
                    lemma_free_variable(*d, frames);
                },
                None => {},
            }
            lemma_unbound_path(s.attr_path, 0, frames);
        },
        Expr::OpHasAttr(x) => {
            lemma_free_variable(*x.expr, frames);
            lemma_unbound_path(x.attr_path, 0, frames);
        },
        Expr::Attrs(a) => {
            lemma_unbound_attrs(
                a,
                frames,
                if a.recursive {
                    push_frame(attrs_frame(a), frames)
                } else {
                    frames
                },
            );
        },
        Expr::List(items) => {
            lemma_unbound_exprs(items, 0, frames);
        },
        Expr::Lambda(l) => {
            let inner = push_frame(lambda_frame(l), frames);
            lemma_unbound_formals(l.formals.formals, 0, inner);
            lemma_free_variable(*l.body, inner);
        },
        Expr::Let(l) => {
            let inner = push_frame(attrs_frame(*l.attrs), frames);
            lemma_unbound_attrs(*l.attrs, frames, inner);
            lemma_free_variable(*l.body, inner);
        },
        Expr::With(w) => {
            lemma_free_variable(*w.attrs, frames);
            lemma_free_variable(*w.body, push_frame(with_frame(), frames));
        },
        Expr::If(c) => {
            lemma_free_variable(*c.cond, frames);
            lemma_free_variable(*c.then_, frames);
            lemma_free_variable(*c.else_, frames);
        },
        Expr::Assert(a) => {
            lemma_free_variable(*a.cond, frames);
            lemma_free_variable(*a.body, frames);
        },
        Expr::OpNot(x) => {
            lemma_free_variable(*x, frames);
        },
        Expr::BinOp(b) => {
            lemma_free_variable(*b.e1, frames);
            lemma_free_variable(*b.e2, frames);
        },
        Expr::ConcatStrings(c) => {
            lemma_unbound_exprs(c.exprs, 0, frames);
        },
        _ => {},
    }
}

/// Whether the frames of a static chain fit the shapes of a chain of
/// environments: there are as many; the frame of a `with` stands where the
/// shape of one does, and binds nothing; and each displacement that
/// another frame gives is that of a slot.
pub open spec fn frames_fit(frames: Seq<StaticFrame>, shapes: Seq<FrameShape>) -> bool {
    &&& frames.len() == shapes.len()
    &&& forall|i: int|
        0 <= i < frames.len() ==> (#[trigger] frames[i]).is_with == shapes[i].is_with
    &&& forall|i: int, name: Symbol|
        0 <= i < frames.len() && (#[trigger] frames[i].vars.contains_key(name))
            ==> !frames[i].is_with && frames[i].vars[name].0 < shapes[i].size
}

proof fn lemma_attrs_vars_bound(attrs: Seq<(Symbol, AttrDef)>, n: int, name: Symbol)
    requires
        0 <= n <= attrs.len() <= usize::MAX,
        attrs_vars(attrs, n).contains_key(name),
    ensures
        attrs_vars(attrs, n)[name].0 < n,
    decreases n,
{
    if n > 0 {
        if attrs[n - 1].0 != name {
            lemma_attrs_vars_bound(attrs, n - 1, name);
        }
    }
}

proof fn lemma_formals_vars_bound(
    vars: Map<Symbol, Displ>,
    formals: Seq<Formal>,
    n: int,
    base: int,
    name: Symbol,
)
    requires
        0 <= n <= formals.len() <= usize::MAX,
        0 <= base <= 1,
        forall|x: Symbol| vars.contains_key(x) ==> (#[trigger] vars[x]).0 < base,
        formals_vars(vars, formals, n, base).contains_key(name),
    ensures
        formals_vars(vars, formals, n, base)[name].0 < base + n,
    decreases n,
{
    if n > 0 {
        if formals[n - 1].name != name {
            lemma_formals_vars_bound(vars, formals, n - 1, base, name);
        }
    }
}

proof fn lemma_frame_fits(
    frame: StaticFrame,
    size: nat,
    frames: Seq<StaticFrame>,
    shapes: Seq<FrameShape>,
)
    requires
        frames_fit(frames, shapes),
        !frame.is_with,
        forall|name: Symbol| frame.vars.contains_key(name) ==> (#[trigger] frame.vars[name]).0
            < size,
    ensures
        frames_fit(push_frame(frame, frames), in_frame(size, shapes)),
{
    let f2 = push_frame(frame, frames);
    let s2 = in_frame(size, shapes);
    assert forall|i: int| 0 <= i < f2.len() implies (#[trigger] f2[i]).is_with
        == s2[i].is_with by {
        if i > 0 {
            assert(f2[i] == frames[i - 1]);
        }
    }
    assert forall|i: int, name: Symbol|
        0 <= i < f2.len() && (#[trigger] f2[i].vars.contains_key(name)) implies !f2[i].is_with
        && f2[i].vars[name].0 < s2[i].size by {
        if i > 0 {
            assert(f2[i] == frames[i - 1]);
            assert(frames[i - 1].vars.contains_key(name));
        }
    }
}

proof fn lemma_with_fits(frames: Seq<StaticFrame>, shapes: Seq<FrameShape>)
    requires
        frames_fit(frames, shapes),
    ensures
        frames_fit(push_frame(with_frame(), frames), in_with(shapes)),
{
    let f2 = push_frame(with_frame(), frames);
    let s2 = in_with(shapes);
    assert forall|i: int| 0 <= i < f2.len() implies (#[trigger] f2[i]).is_with
        == s2[i].is_with by {
        if i > 0 {
            assert(f2[i] == frames[i - 1]);
        }
    }
    assert forall|i: int, name: Symbol|
        0 <= i < f2.len() && (#[trigger] f2[i].vars.contains_key(name)) implies !f2[i].is_with
        && f2[i].vars[name].0 < s2[i].size by {
        if i > 0 {
            assert(f2[i] == frames[i - 1]);
            assert(frames[i - 1].vars.contains_key(name));
        }
    }
}

proof fn lemma_attrs_frame_fits(a: ExprAttrs, frames: Seq<StaticFrame>, shapes: Seq<FrameShape>)
    requires
        frames_fit(frames, shapes),
    ensures
        frames_fit(push_frame(attrs_frame(a), frames), in_frame(a.attrs@.len(), shapes)),
{
    let frame = attrs_frame(a);
    assert(a.attrs@.len() == a.attrs.len());
    assert forall|name: Symbol| frame.vars.contains_key(name) implies (
    #[trigger] frame.vars[name]).0 < a.attrs@.len() by {
        lemma_attrs_vars_bound(a.attrs@, a.attrs@.len() as int, name);
    }
    lemma_frame_fits(frame, a.attrs@.len(), frames, shapes);
}

proof fn lemma_lambda_frame_fits(l: ExprLambda, frames: Seq<StaticFrame>, shapes: Seq<FrameShape>)
    requires
        frames_fit(frames, shapes),
    ensures
        frames_fit(push_frame(lambda_frame(l), frames), in_frame(lambda_size(l), shapes)),
{
    let frame = lambda_frame(l);
    let base: int = if l.arg is Some {
        1
    } else {
        0
    };
    assert(l.formals.formals@.len() == l.formals.formals.len());
    assert forall|name: Symbol| frame.vars.contains_key(name) implies (
    #[trigger] frame.vars[name]).0 < lambda_size(l) by {
        if l.match_attrs {
            lemma_formals_vars_bound(
                lambda_arg_vars(l),
                l.formals.formals@,
                l.formals.formals@.len() as int,
                base,
                name,
            );
        }
    }
    lemma_frame_fits(frame, lambda_size(l), frames, shapes);
}

proof fn lemma_path_fits(
    before: Vec<AttrName>,
    after: Vec<AttrName>,
    frames: Seq<StaticFrame>,
    shapes: Seq<FrameShape>,
    h: nat,
)
    requires
        resolved_path(before, after, frames),
        frames_fit(frames, shapes),
        nests_path(before, h),
        frames.len() + h <= usize::MAX,
    ensures
        ok_path(after, shapes),
    decreases before, 1int,
{
    assert forall|i: int| 0 <= i < after@.len() implies ((#[trigger] after@[i]).expr matches Some(
        x,
    ) ==> ok(*x, shapes)) by {
        assert(resolved_name(before@[i], after@[i], frames));
        match before@[i].expr {
            Some(x) => {
                lemma_resolved_fits(*x, *after@[i].expr->0, frames, shapes, h);
            },
            None => {},
        }
    }
}

proof fn lemma_exprs_fit(
    before: Vec<Expr>,
    after: Vec<Expr>,
    frames: Seq<StaticFrame>,
    shapes: Seq<FrameShape>,
    h: nat,
)
    requires
        resolved_exprs(before, after, frames),
        frames_fit(frames, shapes),
        nests_exprs(before, h),
        frames.len() + h <= usize::MAX,
    ensures
        ok_exprs(after, shapes),
    decreases before, 1int,
{
    assert forall|i: int| 0 <= i < after@.len() implies ok(#[trigger] after@[i], shapes) by {
        assert(resolved(before@[i], after@[i], frames));
        assert(nests_within(before@[i], h));
        lemma_resolved_fits(before@[i], after@[i], frames, shapes, h);
    }
}

proof fn lemma_attrs_fit(
    before: ExprAttrs,
    after: ExprAttrs,
    frames: Seq<StaticFrame>,
    inner: Seq<StaticFrame>,
    assign: bool,
    shapes: Seq<FrameShape>,
    inner_shapes: Seq<FrameShape>,
    h: nat,
)
    requires
        resolved_attrs(before, after, frames, inner, assign),
        frames_fit(frames, shapes),
        frames_fit(inner, inner_shapes),
        nests_attrs(before, h),
        frames.len() + h <= usize::MAX,
        inner.len() + h <= usize::MAX,
    ensures
        after.attrs@.len() == before.attrs@.len(),
        after.recursive == before.recursive,
        ok_defs(after.attrs, shapes, inner_shapes),
        ok_dynamic(after.dynamic_attrs, inner_shapes),
    decreases before, 1int,
{
    assert forall|i: int| 0 <= i < after.attrs@.len() implies ok(
        *(#[trigger] after.attrs@[i]).1.expr,
        if after.attrs@[i].1.inherited {
            shapes
        } else {
            inner_shapes
        },
    ) by {
        assert(resolved_def(before.attrs@[i], after.attrs@[i], i, frames, inner, assign));
        assert(nests_within(*before.attrs@[i].1.expr, h));
        if before.attrs@[i].1.inherited {
            lemma_resolved_fits(
                *before.attrs@[i].1.expr,
                *after.attrs@[i].1.expr,
                frames,
                shapes,
                h,
            );
        } else {
            lemma_resolved_fits(
                *before.attrs@[i].1.expr,
                *after.attrs@[i].1.expr,
                inner,
                inner_shapes,
                h,
            );
        }
    }
    assert forall|i: int| 0 <= i < after.dynamic_attrs@.len() implies ok(
        *(#[trigger] after.dynamic_attrs@[i]).name_expr,
        inner_shapes,
    ) && ok(*after.dynamic_attrs@[i].value_expr, inner_shapes) by {
        assert(resolved_dynamic(before.dynamic_attrs@[i], after.dynamic_attrs@[i], inner));
        assert(nests_within(*before.dynamic_attrs@[i].name_expr, h));
        assert(nests_within(*before.dynamic_attrs@[i].value_expr, h));
        lemma_resolved_fits(
            *before.dynamic_attrs@[i].name_expr,
            *after.dynamic_attrs@[i].name_expr,
            inner,
            inner_shapes,
            h,
        );
        lemma_resolved_fits(
            *before.dynamic_attrs@[i].value_expr,
            *after.dynamic_attrs@[i].value_expr,
            inner,
            inner_shapes,
            h,
        );
    }
}

proof fn lemma_formals_fit(
    before: Vec<Formal>,
    after: Vec<Formal>,
    inner: Seq<StaticFrame>,
    inner_shapes: Seq<FrameShape>,
    h: nat,
)
    requires
        resolved_formals(before, after, inner),
        frames_fit(inner, inner_shapes),
        nests_formals(before, h),
        inner.len() + h <= usize::MAX,
    ensures
        after@.len() == before@.len(),
        ok_formals(after, inner_shapes),
    decreases before, 1int,
{
    assert forall|i: int| 0 <= i < after@.len() implies ((#[trigger] after@[i]).def matches Some(
        d,
    ) ==> ok(*d, inner_shapes)) by {
        assert(resolved_formal(before@[i], after@[i], inner));
        match before@[i].def {
            Some(d) => {
                assert(nests_within(*d, h));
                lemma_resolved_fits(*d, *after@[i].def->0, inner, inner_shapes, h);
            },
            None => {},
        }
    }
}

/// What resolution leaves can be evaluated: the tree that resolution of
/// `before` against `frames` leaves is resolved for every chain of
/// environments whose shapes the frames fit.
pub proof fn lemma_resolution_fits(
    before: Expr,
    after: Expr,
    frames: Seq<StaticFrame>,
    shapes: Seq<FrameShape>,
)
    requires
        resolved(before, after, frames),
        frames_fit(frames, shapes),
        crate::resolve::fits(before, frames.len()),
    ensures
        ok(after, shapes),
{
    let h = choose|h: nat| #[trigger] nests_within(before, h) && frames.len() + h <= usize::MAX;
    lemma_resolved_fits(before, after, frames, shapes, h);
}

/// The tree that resolution of `before` against `frames` leaves is
/// resolved for every chain of environments whose shapes the frames fit,
/// where the scopes of `before` nest at most `h` deep and can be counted on
/// top of the frames.
pub proof fn lemma_resolved_fits(
    before: Expr,
    after: Expr,
    frames: Seq<StaticFrame>,
    shapes: Seq<FrameShape>,
    h: nat,
)
    requires
        resolved(before, after, frames),
        frames_fit(frames, shapes),
        nests_within(before, h),
        frames.len() + h <= usize::MAX,
    ensures
        ok(after, shapes),
    decreases before, 0int,
{
    match before {
        Expr::Var(v) => {
            lemma_innermost_binding(frames, v.name);
            lemma_nearest_with(frames);
            match resolve(frames, v.name) {
                crate::env::Resolution::Bound { level, displ } => {
                    assert(frames[level as int].vars.contains_key(v.name));
                },
                _ => {},
            }
        },
        Expr::Select(s) => {
            let t = after->Select_0;
            lemma_resolved_fits(*s.expr, *t.expr, frames, shapes, h);
            match s.def {
                Some(d) => {
                    lemma_resolved_fits(*d, *t.def->0, frames, shapes, h);
                },
                None => {},
            }
            lemma_path_fits(s.attr_path, t.attr_path, frames, shapes, h);
        },
        Expr::OpHasAttr(x) => {
            let t = after->OpHasAttr_0;
            lemma_resolved_fits(*x.expr, *t.expr, frames, shapes, h);
            lemma_path_fits(x.attr_path, t.attr_path, frames, shapes, h);
        },
        Expr::Attrs(a) => {
            let t = after->Attrs_0;
            if a.recursive {
                let inner = push_frame(attrs_frame(a), frames);
                lemma_attrs_frame_fits(a, frames, shapes);
                lemma_attrs_fit(
                    a,
                    t,
                    frames,
                    inner,
                    true,
                    shapes,
                    in_frame(a.attrs@.len(), shapes),
                    (h - 1) as nat,
                );
            } else {
                lemma_attrs_fit(a, t, frames, frames, false, shapes, shapes, h);
            }
            assert(t.recursive == a.recursive);
            assert(ok_attrs(t, shapes));
        },
        Expr::List(items) => {
            lemma_exprs_fit(items, after->List_0, frames, shapes, h);
        },
        Expr::Lambda(l) => {
            let t = after->Lambda_0;
            let inner = push_frame(lambda_frame(l), frames);
            let inner_shapes = in_frame(lambda_size(l), shapes);
            lemma_lambda_frame_fits(l, frames, shapes);
            lemma_resolved_fits(*l.body, *t.body, inner, inner_shapes, (h - 1) as nat);
            if l.match_attrs {
                lemma_formals_fit(
                    l.formals.formals,
                    t.formals.formals,
                    inner,
                    inner_shapes,
                    (h - 1) as nat,
                );
            }
            assert(lambda_size(t) == lambda_size(l));
            assert(ok(*t.body, in_frame(lambda_size(t), shapes)));
            assert(ok_lambda(t, shapes));
        },
        Expr::Let(l) => {
            let t = after->Let_0;
            let inner = push_frame(attrs_frame(*l.attrs), frames);
            let inner_shapes = in_frame(l.attrs.attrs@.len(), shapes);
            lemma_attrs_frame_fits(*l.attrs, frames, shapes);
            lemma_attrs_fit(
                *l.attrs,
                *t.attrs,
                frames,
                inner,
                true,
                shapes,
                inner_shapes,
                (h - 1) as nat,
            );
            lemma_resolved_fits(*l.body, *t.body, inner, inner_shapes, (h - 1) as nat);
        },
        Expr::With(w) => {
            let t = after->With_0;
            lemma_nearest_with(frames);
            lemma_with_fits(frames, shapes);
            lemma_resolved_fits(*w.attrs, *t.attrs, frames, shapes, (h - 1) as nat);
            lemma_resolved_fits(
                *w.body,
                *t.body,
                push_frame(with_frame(), frames),
                in_with(shapes),
                (h - 1) as nat,
            );
        },
        Expr::If(c) => {
            let t = after->If_0;
            lemma_resolved_fits(*c.cond, *t.cond, frames, shapes, h);
            lemma_resolved_fits(*c.then_, *t.then_, frames, shapes, h);
            lemma_resolved_fits(*c.else_, *t.else_, frames, shapes, h);
        },
        Expr::Assert(a) => {
            let t = after->Assert_0;
            lemma_resolved_fits(*a.cond, *t.cond, frames, shapes, h);
            lemma_resolved_fits(*a.body, *t.body, frames, shapes, h);
        },
        Expr::OpNot(x) => {
            lemma_resolved_fits(*x, *after->OpNot_0, frames, shapes, h);
        },
        Expr::BinOp(b) => {
            let t = after->BinOp_0;
            lemma_resolved_fits(*b.e1, *t.e1, frames, shapes, h);
            lemma_resolved_fits(*b.e2, *t.e2, frames, shapes, h);
        },
        Expr::ConcatStrings(c) => {
            lemma_exprs_fit(c.exprs, after->ConcatStrings_0.exprs, frames, shapes, h);
        },
        _ => {},
    }
}

} // verus!
