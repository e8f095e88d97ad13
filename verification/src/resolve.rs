//! What static resolution means: which expressions resolve against a chain
//! of static frames, and what the resolved tree holds.

use crate::env::{
    bound_names, has_with, lemma_nearest_with, lemma_resolve_total, nearest_with, Displ, Level,
    StaticEnv, StaticFrame, Vars,
};
use crate::err::{NixError, NixResult};
use crate::nix_expr::{AttrDef, AttrName, DynamicAttrDef, Expr, ExprAttrs, ExprLambda, Formal};
use crate::pos::Pos;
use crate::symbol_table::Symbol;
use std::collections::HashMap;
use vstd::prelude::*;
use vstd::std_specs::vec::axiom_vec_index_decreases;

verus! {

/// Whether `name` can be referred to from within the chain `frames`: some
/// frame binds it, or a `with` may define it at evaluation time.
pub open spec fn in_scope(frames: Seq<StaticFrame>, name: Symbol) -> bool {
    bound_names(frames).contains(name) || has_with(frames)
}

/// The names of the first `n` attributes, each with its index as
/// displacement. Where a name occurs twice, the later index holds.
pub open spec fn attrs_vars(attrs: Seq<(Symbol, AttrDef)>, n: int) -> Map<Symbol, Displ>
    decreases n,
{
    if n <= 0 {
        Map::empty()
    } else {
        attrs_vars(attrs, n - 1).insert(attrs[n - 1].0, Displ((n - 1) as usize))
    }
}

/// The frame that a recursive attribute set, or a `let`, puts around its
/// definitions.
pub open spec fn attrs_frame(attrs: ExprAttrs) -> StaticFrame {
    StaticFrame { is_with: false, vars: attrs_vars(attrs.attrs@, attrs.attrs@.len() as int) }
}

/// `vars` with the names of the first `n` formals added, the formal at index
/// `i` at the displacement `base + i`.
pub open spec fn formals_vars(
    vars: Map<Symbol, Displ>,
    formals: Seq<Formal>,
    n: int,
    base: int,
) -> Map<Symbol, Displ>
    decreases n,
{
    if n <= 0 {
        vars
    } else {
        formals_vars(vars, formals, n - 1, base).insert(
            formals[n - 1].name,
            Displ((base + n - 1) as usize),
        )
    }
}

/// The names that a function binds by itself, before its formals.
pub open spec fn lambda_arg_vars(lambda: ExprLambda) -> Map<Symbol, Displ> {
    match lambda.arg {
        Some(arg) => Map::empty().insert(arg, Displ(0)),
        None => Map::empty(),
    }
}

/// The frame that a function puts around its body: the argument's name, if
/// it has one, at displacement zero, and after it the formals, if the
/// function takes a set.
pub open spec fn lambda_frame(lambda: ExprLambda) -> StaticFrame {
    let base: int = if lambda.arg is Some {
        1
    } else {
        0
    };
    StaticFrame {
        is_with: false,
        vars: if lambda.match_attrs {
            formals_vars(
                lambda_arg_vars(lambda),
                lambda.formals.formals@,
                lambda.formals.formals@.len() as int,
                base,
            )
        } else {
            lambda_arg_vars(lambda)
        },
    }
}

/// The frame that a `with` puts around its body. It binds no names.
pub open spec fn with_frame() -> StaticFrame {
    StaticFrame { is_with: true, vars: Map::empty() }
}

/// `frames` with `frame` as the new innermost frame.
pub open spec fn push_frame(frame: StaticFrame, frames: Seq<StaticFrame>) -> Seq<StaticFrame> {
    seq![frame] + frames
}

/// What resolution writes into a `with` that stands within `frames`: the
/// distance from the frame of this `with` to that of the nearest `with`
/// around it, or zero if there is none.
pub open spec fn prev_with_in(frames: Seq<StaticFrame>) -> Level {
    match nearest_with(frames) {
        Some(level) => Level((level + 1) as usize),
        None => Level(0),
    }
}

/// Whether the computed names of an attribute path are closed.
pub open spec fn closed_path(path: Vec<AttrName>, frames: Seq<StaticFrame>) -> bool
    decreases path,
{
    forall|i: int|
        0 <= i < path@.len() ==> ((#[trigger] path@[i]).expr matches Some(x) ==> closed(
            *x,
            frames,
        ))
}

/// Whether each expression of a list is closed.
pub open spec fn closed_exprs(exprs: Vec<Expr>, frames: Seq<StaticFrame>) -> bool
    decreases exprs,
{
    forall|i: int| 0 <= i < exprs@.len() ==> closed(#[trigger] exprs@[i], frames)
}

/// Whether the defaults of the formals of a function are closed.
pub open spec fn closed_formals(formals: Vec<Formal>, inner: Seq<StaticFrame>) -> bool
    decreases formals,
{
    forall|i: int|
        0 <= i < formals@.len() ==> ((#[trigger] formals@[i]).def matches Some(d) ==> closed(
            *d,
            inner,
        ))
}

/// Whether the definitions of an attribute set are closed: the inherited
/// ones within `frames`, the others within `inner`.
pub open spec fn closed_attrs(
    attrs: ExprAttrs,
    frames: Seq<StaticFrame>,
    inner: Seq<StaticFrame>,
) -> bool
    decreases attrs,
{
    &&& forall|i: int|
        0 <= i < attrs.attrs@.len() ==> closed(
            *(#[trigger] attrs.attrs@[i]).1.expr,
            if attrs.attrs@[i].1.inherited {
                frames
            } else {
                inner
            },
        )
    &&& forall|i: int|
        0 <= i < attrs.dynamic_attrs@.len() ==> closed(
            *(#[trigger] attrs.dynamic_attrs@[i]).name_expr,
            inner,
        ) && closed(*attrs.dynamic_attrs@[i].value_expr, inner)
}

/// Whether `e` has no free variable within the chain `frames`: each
/// variable of `e` is bound by a construct of `e` that encloses it, is bound
/// by a frame of `frames`, or stands within a `with`, of `e` or of `frames`.
pub open spec fn closed(e: Expr, frames: Seq<StaticFrame>) -> bool
    decreases e,
{
    match e {
        Expr::Var(v) => in_scope(frames, v.name),
        Expr::Select(s) => {
            &&& closed(*s.expr, frames)
            &&& (s.def matches Some(d) ==> closed(*d, frames))
            &&& closed_path(s.attr_path, frames)
        },
        Expr::OpHasAttr(h) => closed(*h.expr, frames) && closed_path(h.attr_path, frames),
        Expr::Attrs(a) => closed_attrs(
            a,
            frames,
            if a.recursive {
                push_frame(attrs_frame(a), frames)
            } else {
                frames
            },
        ),
        Expr::List(items) => closed_exprs(items, frames),
        Expr::Lambda(l) => {
            let inner = push_frame(lambda_frame(l), frames);
            &&& closed(*l.body, inner)
            &&& l.match_attrs ==> closed_formals(l.formals.formals, inner)
        },
        Expr::Let(l) => {
            let inner = push_frame(attrs_frame(*l.attrs), frames);
            closed_attrs(*l.attrs, frames, inner) && closed(*l.body, inner)
        },
        Expr::With(w) => closed(*w.attrs, frames) && closed(
            *w.body,
            push_frame(with_frame(), frames),
        ),
        Expr::If(c) => closed(*c.cond, frames) && closed(*c.then_, frames) && closed(
            *c.else_,
            frames,
        ),
        Expr::Assert(a) => closed(*a.cond, frames) && closed(*a.body, frames),
        Expr::OpNot(x) => closed(*x, frames),
        Expr::BinOp(b) => closed(*b.e1, frames) && closed(*b.e2, frames),
        Expr::ConcatStrings(c) => closed_exprs(c.exprs, frames),
        _ => true,
    }
}

/// The first of two findings.
pub open spec fn first_of(a: Option<(Symbol, Pos)>, b: Option<(Symbol, Pos)>) -> Option<
    (Symbol, Pos),
> {
    if a is Some {
        a
    } else {
        b
    }
}

/// The failure that resolution gives for the first free variable found, or
/// success if none was found.
pub open spec fn outcome(found: Option<(Symbol, Pos)>) -> NixResult<()> {
    match found {
        Some((name, pos)) => Err(NixError::UndefinedVar(name, pos)),
        None => Ok(()),
    }
}

/// The first free variable among the computed names of `path` from index
/// `i` on.
pub open spec fn unbound_path(path: Vec<AttrName>, i: nat, frames: Seq<StaticFrame>) -> Option<
    (Symbol, Pos),
>
    decreases path, path@.len() - i,
{
    if i >= path@.len() {
        None
    } else {
        first_of(
            match path@[i as int].expr {
                Some(x) => unbound(*x, frames),
                None => None,
            },
            unbound_path(path, i + 1, frames),
        )
    }
}

/// The first free variable of the expressions of `exprs` from index `i`
/// on.
pub open spec fn unbound_exprs(exprs: Vec<Expr>, i: nat, frames: Seq<StaticFrame>) -> Option<
    (Symbol, Pos),
>
    decreases exprs, exprs@.len() - i,
{
    if i >= exprs@.len() {
        None
    } else {
        first_of(unbound(exprs@[i as int], frames), unbound_exprs(exprs, i + 1, frames))
    }
}

/// The first free variable of the definitions `defs` from index `i` on:
/// of an inherited one within `frames`, of another within `inner`.
pub open spec fn unbound_defs(
    defs: Vec<(Symbol, AttrDef)>,
    i: nat,
    frames: Seq<StaticFrame>,
    inner: Seq<StaticFrame>,
) -> Option<(Symbol, Pos)>
    decreases defs, defs@.len() - i,
{
    if i >= defs@.len() {
        None
    } else {
        first_of(
            unbound(
                *defs@[i as int].1.expr,
                if defs@[i as int].1.inherited {
                    frames
                } else {
                    inner
                },
            ),
            unbound_defs(defs, i + 1, frames, inner),
        )
    }
}

/// The first free variable of the definitions with computed names `defs`
/// from index `i` on: of each its name, then its value.
pub open spec fn unbound_dynamic(defs: Vec<DynamicAttrDef>, i: nat, inner: Seq<StaticFrame>) -> Option<
    (Symbol, Pos),
>
    decreases defs, defs@.len() - i,
{
    if i >= defs@.len() {
        None
    } else {
        first_of(
            unbound(*defs@[i as int].name_expr, inner),
            first_of(
                unbound(*defs@[i as int].value_expr, inner),
                unbound_dynamic(defs, i + 1, inner),
            ),
        )
    }
}

/// The first free variable of the defaults of `formals` from index `i` on.
pub open spec fn unbound_formals(formals: Vec<Formal>, i: nat, inner: Seq<StaticFrame>) -> Option<
    (Symbol, Pos),
>
    decreases formals, formals@.len() - i,
{
    if i >= formals@.len() {
        None
    } else {
        first_of(
            match formals@[i as int].def {
                Some(d) => unbound(*d, inner),
                None => None,
            },
            unbound_formals(formals, i + 1, inner),
        )
    }
}

/// The first free variable of the definitions of a set: of those with
/// written names, then of those with computed names.
pub open spec fn unbound_attrs(attrs: ExprAttrs, frames: Seq<StaticFrame>, inner: Seq<StaticFrame>) -> Option<
    (Symbol, Pos),
>
    decreases attrs,
{
    first_of(
        unbound_defs(attrs.attrs, 0, frames, inner),
        unbound_dynamic(attrs.dynamic_attrs, 0, inner),
    )
}

/// The first free variable of `e` within the chain `frames`, with its name
/// and position, in the order in which resolution walks the tree: each
/// construct before what it encloses, and what it encloses in the order in
/// which it is written.
pub open spec fn unbound(e: Expr, frames: Seq<StaticFrame>) -> Option<(Symbol, Pos)>
    decreases e,
{
    match e {
        Expr::Var(v) => if in_scope(frames, v.name) {
            None
        } else {
            Some((v.name, v.pos))
        },
        Expr::Select(s) => first_of(
            unbound(*s.expr, frames),
            first_of(
                match s.def {
                    Some(d) => unbound(*d, frames),
                    None => None,
                },
                unbound_path(s.attr_path, 0, frames),
            ),
        ),
        Expr::OpHasAttr(x) => first_of(
            unbound(*x.expr, frames),
            unbound_path(x.attr_path, 0, frames),
        ),
        Expr::Attrs(a) => unbound_attrs(
            a,
            frames,
            if a.recursive {
                push_frame(attrs_frame(a), frames)
            } else {
                frames
            },
        ),
        Expr::List(items) => unbound_exprs(items, 0, frames),
        Expr::Lambda(l) => {
            let inner = push_frame(lambda_frame(l), frames);
            first_of(
                if l.match_attrs {
                    unbound_formals(l.formals.formals, 0, inner)
                } else {
                    None
                },
                unbound(*l.body, inner),
            )
        },
        Expr::Let(l) => {
            let inner = push_frame(attrs_frame(*l.attrs), frames);
            first_of(unbound_attrs(*l.attrs, frames, inner), unbound(*l.body, inner))
        },
        Expr::With(w) => first_of(
            unbound(*w.attrs, frames),
            unbound(*w.body, push_frame(with_frame(), frames)),
        ),
        Expr::If(c) => first_of(
            unbound(*c.cond, frames),
            first_of(unbound(*c.then_, frames), unbound(*c.else_, frames)),
        ),
        Expr::Assert(a) => first_of(unbound(*a.cond, frames), unbound(*a.body, frames)),
        Expr::OpNot(x) => unbound(*x, frames),
        Expr::BinOp(b) => first_of(unbound(*b.e1, frames), unbound(*b.e2, frames)),
        Expr::ConcatStrings(c) => unbound_exprs(c.exprs, 0, frames),
        _ => None,
    }
}

/// Whether `after` is the attribute path `before` with its computed names
/// resolved within `frames`.
pub open spec fn resolved_path(
    before: Vec<AttrName>,
    after: Vec<AttrName>,
    frames: Seq<StaticFrame>,
) -> bool
    decreases before,
{
    &&& after@.len() == before@.len()
    &&& forall|i: int|
        0 <= i < before@.len() ==> resolved_name(#[trigger] before@[i], after@[i], frames)
}

/// Whether `after` is the attribute name `before`, resolved within
/// `frames`.
pub open spec fn resolved_name(before: AttrName, after: AttrName, frames: Seq<StaticFrame>) -> bool
    decreases before,
{
    &&& after.symbol == before.symbol
    &&& match before.expr {
        Some(x) => after.expr matches Some(y) && resolved(*x, *y, frames),
        None => after.expr is None,
    }
}

/// Whether `after` holds the expressions of `before`, each resolved within
/// `frames`.
pub open spec fn resolved_exprs(before: Vec<Expr>, after: Vec<Expr>, frames: Seq<StaticFrame>) -> bool
    decreases before,
{
    &&& after@.len() == before@.len()
    &&& forall|i: int|
        0 <= i < before@.len() ==> resolved(#[trigger] before@[i], after@[i], frames)
}

/// Whether `after` is the definition `before` of the attribute at `index`,
/// resolved: within `frames` if it is inherited, within `inner` if not. With
/// `assign`, the definition gets its index as displacement.
pub open spec fn resolved_def(
    before: (Symbol, AttrDef),
    after: (Symbol, AttrDef),
    index: int,
    frames: Seq<StaticFrame>,
    inner: Seq<StaticFrame>,
    assign: bool,
) -> bool
    decreases before,
{
    &&& after.0 == before.0
    &&& after.1.inherited == before.1.inherited
    &&& after.1.pos == before.1.pos
    &&& after.1.displ == if assign {
        Displ(index as usize)
    } else {
        before.1.displ
    }
    &&& resolved(
        *before.1.expr,
        *after.1.expr,
        if before.1.inherited {
            frames
        } else {
            inner
        },
    )
}

/// Whether `after` is the definition `before` of an attribute with a
/// computed name, resolved within `inner`.
pub open spec fn resolved_dynamic(
    before: DynamicAttrDef,
    after: DynamicAttrDef,
    inner: Seq<StaticFrame>,
) -> bool
    decreases before,
{
    &&& after.pos == before.pos
    &&& resolved(*before.name_expr, *after.name_expr, inner)
    &&& resolved(*before.value_expr, *after.value_expr, inner)
}

/// Whether `after` is the attribute set `before` with its definitions
/// resolved: the inherited ones within `frames`, the others within `inner`.
pub open spec fn resolved_attrs(
    before: ExprAttrs,
    after: ExprAttrs,
    frames: Seq<StaticFrame>,
    inner: Seq<StaticFrame>,
    assign: bool,
) -> bool
    decreases before,
{
    &&& after.recursive == before.recursive
    &&& after.attrs@.len() == before.attrs@.len()
    &&& after.dynamic_attrs@.len() == before.dynamic_attrs@.len()
    &&& forall|i: int|
        0 <= i < before.attrs@.len() ==> resolved_def(
            #[trigger] before.attrs@[i],
            after.attrs@[i],
            i,
            frames,
            inner,
            assign,
        )
    &&& forall|i: int|
        0 <= i < before.dynamic_attrs@.len() ==> resolved_dynamic(
            #[trigger] before.dynamic_attrs@[i],
            after.dynamic_attrs@[i],
            inner,
        )
}

/// Whether `after` is the formal `before` with its default resolved within
/// `inner`.
pub open spec fn resolved_formal(before: Formal, after: Formal, inner: Seq<StaticFrame>) -> bool
    decreases before,
{
    &&& after.name == before.name
    &&& match before.def {
        Some(d) => after.def matches Some(d2) && resolved(*d, *d2, inner),
        None => after.def is None,
    }
}

/// Whether `after` holds the formals of `before`, their defaults resolved
/// within `inner`.
pub open spec fn resolved_formals(before: Vec<Formal>, after: Vec<Formal>, inner: Seq<StaticFrame>) -> bool
    decreases before,
{
    &&& after@.len() == before@.len()
    &&& forall|i: int|
        0 <= i < before@.len() ==> resolved_formal(#[trigger] before@[i], after@[i], inner)
}

/// Whether `after` is the tree `before` as resolution against the chain
/// `frames` leaves it: the same tree, in which each variable holds where
/// its name is found from the frames around it, each definition of a
/// recursive set or of a `let` holds its displacement, and each `with`
/// holds the distance to the `with` around it. In particular each variable
/// of `after` is marked as resolved.
pub open spec fn resolved(before: Expr, after: Expr, frames: Seq<StaticFrame>) -> bool
    decreases before,
{
    match before {
        Expr::Var(v) => after == Expr::Var(v.resolved_in(frames)) && !(crate::env::resolve(
            frames,
            v.name,
        ) is Unbound),
        Expr::Select(s) => {
            &&& after matches Expr::Select(t)
            &&& t.pos == s.pos
            &&& resolved(*s.expr, *t.expr, frames)
            &&& match s.def {
                Some(d) => t.def matches Some(d2) && resolved(*d, *d2, frames),
                None => t.def is None,
            }
            &&& resolved_path(s.attr_path, t.attr_path, frames)
        },
        Expr::OpHasAttr(h) => {
            &&& after matches Expr::OpHasAttr(t)
            &&& resolved(*h.expr, *t.expr, frames)
            &&& resolved_path(h.attr_path, t.attr_path, frames)
        },
        Expr::Attrs(a) => {
            &&& after matches Expr::Attrs(t)
            &&& resolved_attrs(
                a,
                t,
                frames,
                if a.recursive {
                    push_frame(attrs_frame(a), frames)
                } else {
                    frames
                },
                a.recursive,
            )
        },
        Expr::List(items) => after matches Expr::List(t) && resolved_exprs(items, t, frames),
        Expr::Lambda(l) => {
            let inner = push_frame(lambda_frame(l), frames);
            &&& after matches Expr::Lambda(t)
            &&& t.pos == l.pos
            &&& t.name == l.name
            &&& t.arg == l.arg
            &&& t.match_attrs == l.match_attrs
            &&& t.formals.ellipsis == l.formals.ellipsis
            &&& resolved(*l.body, *t.body, inner)
            &&& if l.match_attrs {
                resolved_formals(l.formals.formals, t.formals.formals, inner)
            } else {
                t.formals.formals == l.formals.formals
            }
        },
        Expr::Let(l) => {
            let inner = push_frame(attrs_frame(*l.attrs), frames);
            &&& after matches Expr::Let(t)
            &&& resolved_attrs(*l.attrs, *t.attrs, frames, inner, true)
            &&& resolved(*l.body, *t.body, inner)
        },
        Expr::With(w) => {
            &&& after matches Expr::With(t)
            &&& t.pos == w.pos
            &&& t.prev_with == prev_with_in(frames)
            &&& resolved(*w.attrs, *t.attrs, frames)
            &&& resolved(*w.body, *t.body, push_frame(with_frame(), frames))
        },
        Expr::If(c) => {
            &&& after matches Expr::If(t)
            &&& resolved(*c.cond, *t.cond, frames)
            &&& resolved(*c.then_, *t.then_, frames)
            &&& resolved(*c.else_, *t.else_, frames)
        },
        Expr::Assert(a) => {
            &&& after matches Expr::Assert(t)
            &&& t.pos == a.pos
            &&& resolved(*a.cond, *t.cond, frames)
            &&& resolved(*a.body, *t.body, frames)
        },
        Expr::OpNot(x) => after matches Expr::OpNot(y) && resolved(*x, *y, frames),
        Expr::BinOp(b) => {
            &&& after matches Expr::BinOp(t)
            &&& t.kind == b.kind
            &&& t.pos == b.pos
            &&& resolved(*b.e1, *t.e1, frames)
            &&& resolved(*b.e2, *t.e2, frames)
        },
        Expr::ConcatStrings(c) => {
            &&& after matches Expr::ConcatStrings(t)
            &&& t.pos == c.pos
            &&& t.force_string == c.force_string
            &&& resolved_exprs(c.exprs, t.exprs, frames)
        },
        _ => after == before,
    }
}

/// Whether the computed names of an attribute path nest at most `h` deep.
pub open spec fn nests_path(path: Vec<AttrName>, h: nat) -> bool
    decreases path,
{
    forall|i: int|
        0 <= i < path@.len() ==> ((#[trigger] path@[i]).expr matches Some(x) ==> nests_within(
            *x,
            h,
        ))
}

/// Whether each expression of a list nests at most `h` deep.
pub open spec fn nests_exprs(exprs: Vec<Expr>, h: nat) -> bool
    decreases exprs,
{
    forall|i: int| 0 <= i < exprs@.len() ==> nests_within(#[trigger] exprs@[i], h)
}

/// Whether the defaults of the formals of a function nest at most `h` deep.
pub open spec fn nests_formals(formals: Vec<Formal>, h: nat) -> bool
    decreases formals,
{
    forall|i: int|
        0 <= i < formals@.len() ==> ((#[trigger] formals@[i]).def matches Some(d) ==> nests_within(
            *d,
            h,
        ))
}

/// Whether the definitions of an attribute set nest at most `h` deep.
pub open spec fn nests_attrs(attrs: ExprAttrs, h: nat) -> bool
    decreases attrs,
{
    &&& forall|i: int|
        0 <= i < attrs.attrs@.len() ==> nests_within(*(#[trigger] attrs.attrs@[i]).1.expr, h)
    &&& forall|i: int|
        0 <= i < attrs.dynamic_attrs@.len() ==> nests_within(
            *(#[trigger] attrs.dynamic_attrs@[i]).name_expr,
            h,
        ) && nests_within(*attrs.dynamic_attrs@[i].value_expr, h)
}

/// Whether the constructs of `e` that put a frame around what they enclose
/// (recursive sets, `let`, functions, `with`) nest at most `h` deep.
pub open spec fn nests_within(e: Expr, h: nat) -> bool
    decreases e,
{
    match e {
        Expr::Select(s) => {
            &&& nests_within(*s.expr, h)
            &&& (s.def matches Some(d) ==> nests_within(*d, h))
            &&& nests_path(s.attr_path, h)
        },
        Expr::OpHasAttr(x) => nests_within(*x.expr, h) && nests_path(x.attr_path, h),
        Expr::Attrs(a) => if a.recursive {
            h > 0 && nests_attrs(a, (h - 1) as nat)
        } else {
            nests_attrs(a, h)
        },
        Expr::List(items) => nests_exprs(items, h),
        Expr::Lambda(l) => {
            &&& h > 0
            &&& nests_within(*l.body, (h - 1) as nat)
            &&& nests_formals(l.formals.formals, (h - 1) as nat)
        },
        Expr::Let(l) => {
            &&& h > 0
            &&& nests_attrs(*l.attrs, (h - 1) as nat)
            &&& nests_within(*l.body, (h - 1) as nat)
        },
        Expr::With(w) => {
            &&& h > 0
            &&& nests_within(*w.attrs, (h - 1) as nat)
            &&& nests_within(*w.body, (h - 1) as nat)
        },
        Expr::If(c) => nests_within(*c.cond, h) && nests_within(*c.then_, h) && nests_within(
            *c.else_,
            h,
        ),
        Expr::Assert(a) => nests_within(*a.cond, h) && nests_within(*a.body, h),
        Expr::OpNot(x) => nests_within(*x, h),
        Expr::BinOp(b) => nests_within(*b.e1, h) && nests_within(*b.e2, h),
        Expr::ConcatStrings(c) => nests_exprs(c.exprs, h),
        _ => true,
    }
}

/// Whether the frames of `e` fit on top of a chain of `depth` frames
/// without the levels leaving the range of the machine's integers.
pub open spec fn fits(e: Expr, depth: nat) -> bool {
    exists|h: nat| #[trigger] nests_within(e, h) && depth + h <= usize::MAX
}

/// Whether `after` is the attribute name `before`, up to what resolution
/// writes.
pub open spec fn annotated_name(before: AttrName, after: AttrName) -> bool
    decreases before,
{
    &&& after.symbol == before.symbol
    &&& match before.expr {
        Some(x) => after.expr matches Some(y) && annotated(*x, *y),
        None => after.expr is None,
    }
}

/// Whether `after` is the attribute path `before`, up to what resolution
/// writes.
pub open spec fn annotated_path(before: Vec<AttrName>, after: Vec<AttrName>) -> bool
    decreases before,
{
    &&& after@.len() == before@.len()
    &&& forall|i: int| 0 <= i < before@.len() ==> annotated_name(#[trigger] before@[i], after@[i])
}

/// Whether `after` holds the expressions of `before`, up to what
/// resolution writes.
pub open spec fn annotated_exprs(before: Vec<Expr>, after: Vec<Expr>) -> bool
    decreases before,
{
    &&& after@.len() == before@.len()
    &&& forall|i: int| 0 <= i < before@.len() ==> annotated(#[trigger] before@[i], after@[i])
}

/// Whether `after` is the definition `before`, up to its displacement and
/// what resolution writes into its expression.
pub open spec fn annotated_def(before: (Symbol, AttrDef), after: (Symbol, AttrDef)) -> bool
    decreases before,
{
    &&& after.0 == before.0
    &&& after.1.inherited == before.1.inherited
    &&& after.1.pos == before.1.pos
    &&& annotated(*before.1.expr, *after.1.expr)
}

/// Whether `after` is the definition with a computed name `before`, up to
/// what resolution writes.
pub open spec fn annotated_dynamic(before: DynamicAttrDef, after: DynamicAttrDef) -> bool
    decreases before,
{
    &&& after.pos == before.pos
    &&& annotated(*before.name_expr, *after.name_expr)
    &&& annotated(*before.value_expr, *after.value_expr)
}

/// Whether `after` is the attribute set `before`, up to what resolution
/// writes.
pub open spec fn annotated_attrs(before: ExprAttrs, after: ExprAttrs) -> bool
    decreases before,
{
    &&& after.recursive == before.recursive
    &&& after.attrs@.len() == before.attrs@.len()
    &&& after.dynamic_attrs@.len() == before.dynamic_attrs@.len()
    &&& forall|i: int|
        0 <= i < before.attrs@.len() ==> annotated_def(#[trigger] before.attrs@[i], after.attrs@[i])
    &&& forall|i: int|
        0 <= i < before.dynamic_attrs@.len() ==> annotated_dynamic(
            #[trigger] before.dynamic_attrs@[i],
            after.dynamic_attrs@[i],
        )
}

/// Whether `after` is the formal `before`, up to what resolution writes
/// into its default.
pub open spec fn annotated_formal(before: Formal, after: Formal) -> bool
    decreases before,
{
    &&& after.name == before.name
    &&& match before.def {
        Some(d) => after.def matches Some(d2) && annotated(*d, *d2),
        None => after.def is None,
    }
}

/// Whether `after` holds the formals of `before`, up to what resolution
/// writes.
pub open spec fn annotated_formals(before: Vec<Formal>, after: Vec<Formal>) -> bool
    decreases before,
{
    &&& after@.len() == before@.len()
    &&& forall|i: int| 0 <= i < before@.len() ==> annotated_formal(#[trigger] before@[i], after@[i])
}

/// Whether `after` is the tree `before` up to what resolution writes: the
/// two have the same shape, the same names, positions and literals, and
/// differ at most in the resolution fields of variables (`resolved`,
/// `from_with`, `level`, `displ`), in the displacements of definitions, and
/// in the distance that a `with` holds to the `with` around it.
pub open spec fn annotated(before: Expr, after: Expr) -> bool
    decreases before,
{
    match before {
        Expr::Var(v) => after matches Expr::Var(w) && w.pos == v.pos && w.name == v.name,
        Expr::Select(s) => {
            &&& after matches Expr::Select(t)
            &&& t.pos == s.pos
            &&& annotated(*s.expr, *t.expr)
            &&& match s.def {
                Some(d) => t.def matches Some(d2) && annotated(*d, *d2),
                None => t.def is None,
            }
            &&& annotated_path(s.attr_path, t.attr_path)
        },
        Expr::OpHasAttr(h) => {
            &&& after matches Expr::OpHasAttr(t)
            &&& annotated(*h.expr, *t.expr)
            &&& annotated_path(h.attr_path, t.attr_path)
        },
        Expr::Attrs(a) => after matches Expr::Attrs(t) && annotated_attrs(a, t),
        Expr::List(items) => after matches Expr::List(t) && annotated_exprs(items, t),
        Expr::Lambda(l) => {
            &&& after matches Expr::Lambda(t)
            &&& t.pos == l.pos
            &&& t.name == l.name
            &&& t.arg == l.arg
            &&& t.match_attrs == l.match_attrs
            &&& t.formals.ellipsis == l.formals.ellipsis
            &&& annotated_formals(l.formals.formals, t.formals.formals)
            &&& annotated(*l.body, *t.body)
        },
        Expr::Let(l) => {
            &&& after matches Expr::Let(t)
            &&& annotated_attrs(*l.attrs, *t.attrs)
            &&& annotated(*l.body, *t.body)
        },
        Expr::With(w) => {
            &&& after matches Expr::With(t)
            &&& t.pos == w.pos
            &&& annotated(*w.attrs, *t.attrs)
            &&& annotated(*w.body, *t.body)
        },
        Expr::If(c) => {
            &&& after matches Expr::If(t)
            &&& annotated(*c.cond, *t.cond)
            &&& annotated(*c.then_, *t.then_)
            &&& annotated(*c.else_, *t.else_)
        },
        Expr::Assert(a) => {
            &&& after matches Expr::Assert(t)
            &&& t.pos == a.pos
            &&& annotated(*a.cond, *t.cond)
            &&& annotated(*a.body, *t.body)
        },
        Expr::OpNot(x) => after matches Expr::OpNot(y) && annotated(*x, *y),
        Expr::BinOp(b) => {
            &&& after matches Expr::BinOp(t)
            &&& t.kind == b.kind
            &&& t.pos == b.pos
            &&& annotated(*b.e1, *t.e1)
            &&& annotated(*b.e2, *t.e2)
        },
        Expr::ConcatStrings(c) => {
            &&& after matches Expr::ConcatStrings(t)
            &&& t.pos == c.pos
            &&& t.force_string == c.force_string
            &&& annotated_exprs(c.exprs, t.exprs)
        },
        _ => after == before,
    }
}

proof fn lemma_annotated_path_same(path: Vec<AttrName>)
    ensures
        annotated_path(path, path),
        forall|i: int| 0 <= i < path@.len() ==> annotated_name(#[trigger] path@[i], path@[i]),
    decreases path, 1int,
{
    assert forall|i: int| 0 <= i < path@.len() implies annotated_name(
        #[trigger] path@[i],
        path@[i],
    ) by {
        match path@[i].expr {
            Some(x) => {
                lemma_annotated_same(*x);
            },
            None => {},
        }
    }
}

proof fn lemma_annotated_exprs_same(exprs: Vec<Expr>)
    ensures
        annotated_exprs(exprs, exprs),
        forall|i: int| 0 <= i < exprs@.len() ==> annotated(#[trigger] exprs@[i], exprs@[i]),
    decreases exprs, 1int,
{
    assert forall|i: int| 0 <= i < exprs@.len() implies annotated(
        #[trigger] exprs@[i],
        exprs@[i],
    ) by {
        lemma_annotated_same(exprs@[i]);
    }
}

proof fn lemma_annotated_attrs_same(attrs: ExprAttrs)
    ensures
        annotated_attrs(attrs, attrs),
        forall|i: int|
            0 <= i < attrs.attrs@.len() ==> annotated_def(
                #[trigger] attrs.attrs@[i],
                attrs.attrs@[i],
            ),
        forall|i: int|
            0 <= i < attrs.dynamic_attrs@.len() ==> annotated_dynamic(
                #[trigger] attrs.dynamic_attrs@[i],
                attrs.dynamic_attrs@[i],
            ),
    decreases attrs, 1int,
{
    assert forall|i: int| 0 <= i < attrs.attrs@.len() implies annotated_def(
        #[trigger] attrs.attrs@[i],
        attrs.attrs@[i],
    ) by {
        lemma_annotated_same(*attrs.attrs@[i].1.expr);
    }
    assert forall|i: int| 0 <= i < attrs.dynamic_attrs@.len() implies annotated_dynamic(
        #[trigger] attrs.dynamic_attrs@[i],
        attrs.dynamic_attrs@[i],
    ) by {
        lemma_annotated_same(*attrs.dynamic_attrs@[i].name_expr);
        lemma_annotated_same(*attrs.dynamic_attrs@[i].value_expr);
    }
}

proof fn lemma_annotated_formals_same(formals: Vec<Formal>)
    ensures
        annotated_formals(formals, formals),
        forall|i: int|
            0 <= i < formals@.len() ==> annotated_formal(#[trigger] formals@[i], formals@[i]),
    decreases formals, 1int,
{
    assert forall|i: int| 0 <= i < formals@.len() implies annotated_formal(
        #[trigger] formals@[i],
        formals@[i],
    ) by {
        match formals@[i].def {
            Some(d) => {
                lemma_annotated_same(*d);
            },
            None => {},
        }
    }
}

/// A tree is itself up to what resolution writes.
pub proof fn lemma_annotated_same(e: Expr)
    ensures
        annotated(e, e),
    decreases e, 0int,
{
    match e {
        Expr::Select(s) => {
            lemma_annotated_same(*s.expr);
            match s.def {
                Some(d) => {
                    lemma_annotated_same(*d);
                },
                None => {},
            }
            lemma_annotated_path_same(s.attr_path);
        },
        Expr::OpHasAttr(x) => {
            lemma_annotated_same(*x.expr);
            lemma_annotated_path_same(x.attr_path);
        },
        Expr::Attrs(a) => {
            lemma_annotated_attrs_same(a);
        },
        Expr::List(items) => {
            lemma_annotated_exprs_same(items);
        },
        Expr::Lambda(l) => {
            lemma_annotated_formals_same(l.formals.formals);
            lemma_annotated_same(*l.body);
        },
        Expr::Let(l) => {
            lemma_annotated_attrs_same(*l.attrs);
            lemma_annotated_same(*l.body);
        },
        Expr::With(w) => {
            lemma_annotated_same(*w.attrs);
            lemma_annotated_same(*w.body);
        },
        Expr::If(c) => {
            lemma_annotated_same(*c.cond);
            lemma_annotated_same(*c.then_);
            lemma_annotated_same(*c.else_);
        },
        Expr::Assert(a) => {
            lemma_annotated_same(*a.cond);
            lemma_annotated_same(*a.body);
        },
        Expr::OpNot(x) => {
            lemma_annotated_same(*x);
        },
        Expr::BinOp(b) => {
            lemma_annotated_same(*b.e1);
            lemma_annotated_same(*b.e2);
        },
        Expr::ConcatStrings(c) => {
            lemma_annotated_exprs_same(c.exprs);
        },
        _ => {},
    }
}

/// The frame of a recursive set or of a `let`, around `up`.
fn attrs_static_env<'a>(attrs: &ExprAttrs, up: &'a StaticEnv<'a>) -> (env: StaticEnv<'a>)
    ensures
        env.frames() == push_frame(attrs_frame(*attrs), up.frames()),
{
    broadcast use vstd::std_specs::hash::group_hash_axioms;

    let mut vars: Vars = HashMap::new();
    let n = attrs.attrs.len();
    let mut i: usize = 0;
    while i < n
        invariant
            n == attrs.attrs@.len(),
            i <= n,
            vars@ == attrs_vars(attrs.attrs@, i as int),
        decreases n - i,
    {
        vars.insert(attrs.attrs[i].0, Displ(i));
        i += 1;
    }
    StaticEnv { is_with: false, up: Some(up), vars }
}

/// The frame of a function, around `up`.
fn lambda_static_env<'a>(lambda: &ExprLambda, up: &'a StaticEnv<'a>) -> (env: StaticEnv<'a>)
    ensures
        env.frames() == push_frame(lambda_frame(*lambda), up.frames()),
{
    broadcast use vstd::std_specs::hash::group_hash_axioms;

    let mut vars: Vars = HashMap::new();
    let mut base: usize = 0;
    match lambda.arg {
        Some(arg) => {
            vars.insert(arg, Displ(0));
            base = 1;
        },
        None => {},
    }
    if lambda.match_attrs {
        let n = lambda.formals.formals.len();
        let mut i: usize = 0;
        while i < n
            invariant
                n == lambda.formals.formals@.len(),
                i <= n,
                base <= 1,
                base == if lambda.arg is Some {
                    1int
                } else {
                    0int
                },
                vars@ == formals_vars(
                    lambda_arg_vars(*lambda),
                    lambda.formals.formals@,
                    i as int,
                    base as int,
                ),
            decreases n - i,
        {
            vars.insert(lambda.formals.formals[i].name, Displ(base + i));
            i += 1;
        }
    }
    StaticEnv { is_with: false, up: Some(up), vars }
}

/// The level of the innermost `with` frame of the chain that begins at
/// `env`.
fn nearest_with_level(env: &StaticEnv) -> (found: Option<usize>)
    requires
        env.depth() <= usize::MAX,
    ensures
        match nearest_with(env.frames()) {
            Some(level) => found == Some(level as usize) && level < env.depth(),
            None => found is None,
        },
    decreases env,
{
    let ghost frames = env.frames();
    proof {
        crate::env::lemma_frames_step(env);
        assert(frames.len() >= 1);
        assert(frames[0].is_with == env.is_with);
        assert(frames.drop_first() =~= frames.skip(1));
    }
    if env.is_with {
        assert(nearest_with(frames) == Some(0nat));
        Some(0)
    } else {
        match env.up {
            None => {
                assert(frames.drop_first().len() == 0);
                assert(nearest_with(frames.drop_first()) is None);
                assert(nearest_with(frames) is None);
                None
            },
            Some(up) => {
                assert(frames.drop_first() == up.frames());
                proof {
                    lemma_nearest_with(up.frames());
                }
                match nearest_with_level(up) {
                    Some(level) => {
                        assert(nearest_with(frames) == Some((level + 1) as nat));
                        Some(level + 1)
                    },
                    None => {
                        assert(nearest_with(frames) is None);
                        None
                    },
                }
            },
        }
    }
}

/// Resolves the computed names of an attribute path.
fn bind_path(path: &mut Vec<AttrName>, env: &StaticEnv) -> (r: NixResult<()>)
    requires
        exists|h: nat| #[trigger] nests_path(*old(path), h) && env.depth() + h <= usize::MAX,
    ensures
        r == outcome(unbound_path(*old(path), 0, env.frames())),
        r is Ok ==> resolved_path(*old(path), *final(path), env.frames()),
        annotated_path(*old(path), *final(path)),
    decreases *old(path),
{
    let ghost h = choose|h: nat| #[trigger]
        nests_path(*old(path), h) && env.depth() + h <= usize::MAX;
    proof {
        lemma_annotated_path_same(*old(path));
    }
    let n = path.len();
    let mut i: usize = 0;
    while i < n
        invariant
            n == path@.len(),
            n == old(path)@.len(),
            i <= n,
            nests_path(*old(path), h),
            env.depth() + h <= usize::MAX,
            unbound_path(*old(path), i as nat, env.frames()) == unbound_path(
                *old(path),
                0,
                env.frames(),
            ),
            forall|j: int|
                0 <= j < i ==> resolved_name(#[trigger] old(path)@[j], path@[j], env.frames()),
            forall|j: int| 0 <= j < n ==> annotated_name(#[trigger] old(path)@[j], path@[j]),
            forall|j: int| i <= j < n ==> path@[j] == #[trigger] old(path)@[j],
        decreases n - i,
    {
        proof {
            axiom_vec_index_decreases(*old(path), i as int);
        }
        let name = &mut path[i];
        match &mut name.expr {
            Some(x) => {
                assert(nests_within(*old(path)@[i as int].expr->0, h));
                match x.bind_vars(env) {
                    Err(e) => {
                        return Err(e);
                    },
                    Ok(()) => {},
                }
            },
            None => {},
        }
        i += 1;
    }
    Ok(())
}

/// Resolves each expression of a list.
fn bind_exprs(exprs: &mut Vec<Expr>, env: &StaticEnv) -> (r: NixResult<()>)
    requires
        exists|h: nat| #[trigger] nests_exprs(*old(exprs), h) && env.depth() + h <= usize::MAX,
    ensures
        r == outcome(unbound_exprs(*old(exprs), 0, env.frames())),
        r is Ok ==> resolved_exprs(*old(exprs), *final(exprs), env.frames()),
        annotated_exprs(*old(exprs), *final(exprs)),
    decreases *old(exprs),
{
    let ghost h = choose|h: nat| #[trigger]
        nests_exprs(*old(exprs), h) && env.depth() + h <= usize::MAX;
    proof {
        lemma_annotated_exprs_same(*old(exprs));
    }
    let n = exprs.len();
    let mut i: usize = 0;
    while i < n
        invariant
            n == exprs@.len(),
            n == old(exprs)@.len(),
            i <= n,
            nests_exprs(*old(exprs), h),
            env.depth() + h <= usize::MAX,
            unbound_exprs(*old(exprs), i as nat, env.frames()) == unbound_exprs(
                *old(exprs),
                0,
                env.frames(),
            ),
            forall|j: int|
                0 <= j < i ==> resolved(#[trigger] old(exprs)@[j], exprs@[j], env.frames()),
            forall|j: int| 0 <= j < n ==> annotated(#[trigger] old(exprs)@[j], exprs@[j]),
            forall|j: int| i <= j < n ==> exprs@[j] == #[trigger] old(exprs)@[j],
        decreases n - i,
    {
        proof {
            axiom_vec_index_decreases(*old(exprs), i as int);
        }
        assert(nests_within(old(exprs)@[i as int], h));
        match exprs[i].bind_vars(env) {
            Err(e) => {
                return Err(e);
            },
            Ok(()) => {},
        }
        i += 1;
    }
    Ok(())
}

/// Resolves the definitions of an attribute set: the inherited ones against
/// `env`, the others against `inner`. With `assign`, each definition with a
/// written name gets its index as displacement.
fn bind_attrs(attrs: &mut ExprAttrs, env: &StaticEnv, inner: &StaticEnv, assign: bool) -> (r:
    NixResult<()>)
    requires
        exists|h: nat| #[trigger]
            nests_attrs(*old(attrs), h) && env.depth() + h <= usize::MAX && inner.depth() + h
                <= usize::MAX,
    ensures
        r == outcome(unbound_attrs(*old(attrs), env.frames(), inner.frames())),
        r is Ok ==> resolved_attrs(
            *old(attrs),
            *final(attrs),
            env.frames(),
            inner.frames(),
            assign,
        ),
        annotated_attrs(*old(attrs), *final(attrs)),
    decreases *old(attrs), 0int,
{
    let ghost h = choose|h: nat| #[trigger]
        nests_attrs(*old(attrs), h) && env.depth() + h <= usize::MAX && inner.depth() + h
            <= usize::MAX;
    proof {
        lemma_annotated_attrs_same(*old(attrs));
    }
    let n = attrs.attrs.len();
    let mut i: usize = 0;
    while i < n
        invariant
            n == attrs.attrs@.len(),
            n == old(attrs).attrs@.len(),
            i <= n,
            attrs.recursive == old(attrs).recursive,
            attrs.dynamic_attrs == old(attrs).dynamic_attrs,
            nests_attrs(*old(attrs), h),
            env.depth() + h <= usize::MAX,
            inner.depth() + h <= usize::MAX,
            attrs.attrs@.len() == old(attrs).attrs@.len(),
            unbound_defs(old(attrs).attrs, i as nat, env.frames(), inner.frames())
                == unbound_defs(old(attrs).attrs, 0, env.frames(), inner.frames()),
            forall|j: int|
                0 <= j < i ==> resolved_def(
                    #[trigger] old(attrs).attrs@[j],
                    attrs.attrs@[j],
                    j,
                    env.frames(),
                    inner.frames(),
                    assign,
                ),
            forall|j: int| i <= j < n ==> attrs.attrs@[j] == #[trigger] old(attrs).attrs@[j],
            forall|j: int|
                0 <= j < old(attrs).attrs@.len() ==> annotated_def(
                    #[trigger] old(attrs).attrs@[j],
                    attrs.attrs@[j],
                ),
            forall|j: int|
                0 <= j < old(attrs).dynamic_attrs@.len() ==> annotated_dynamic(
                    #[trigger] old(attrs).dynamic_attrs@[j],
                    attrs.dynamic_attrs@[j],
                ),
        decreases n - i,
    {
        proof {
            axiom_vec_index_decreases(old(attrs).attrs, i as int);
        }
        assert(nests_within(*old(attrs).attrs@[i as int].1.expr, h));
        let def = &mut attrs.attrs[i];
        if assign {
            def.1.displ = Displ(i);
        }
        let r = if def.1.inherited {
            def.1.expr.bind_vars(env)
        } else {
            def.1.expr.bind_vars(inner)
        };
        match r {
            Err(e) => {
                return Err(e);
            },
            Ok(()) => {},
        }
        i += 1;
    }
    let m = attrs.dynamic_attrs.len();
    let mut k: usize = 0;
    while k < m
        invariant
            m == attrs.dynamic_attrs@.len(),
            m == old(attrs).dynamic_attrs@.len(),
            k <= m,
            attrs.recursive == old(attrs).recursive,
            attrs.attrs@.len() == old(attrs).attrs@.len(),
            nests_attrs(*old(attrs), h),
            inner.depth() + h <= usize::MAX,
            unbound_defs(old(attrs).attrs, 0, env.frames(), inner.frames()) is None,
            unbound_dynamic(old(attrs).dynamic_attrs, k as nat, inner.frames())
                == unbound_dynamic(old(attrs).dynamic_attrs, 0, inner.frames()),
            forall|j: int|
                0 <= j < old(attrs).attrs@.len() ==> resolved_def(
                    #[trigger] old(attrs).attrs@[j],
                    attrs.attrs@[j],
                    j,
                    env.frames(),
                    inner.frames(),
                    assign,
                ),
            forall|j: int|
                0 <= j < k ==> resolved_dynamic(
                    #[trigger] old(attrs).dynamic_attrs@[j],
                    attrs.dynamic_attrs@[j],
                    inner.frames(),
                ),
            forall|j: int|
                k <= j < m ==> attrs.dynamic_attrs@[j] == #[trigger] old(attrs).dynamic_attrs@[j],
            forall|j: int|
                0 <= j < old(attrs).attrs@.len() ==> annotated_def(
                    #[trigger] old(attrs).attrs@[j],
                    attrs.attrs@[j],
                ),
            forall|j: int|
                0 <= j < old(attrs).dynamic_attrs@.len() ==> annotated_dynamic(
                    #[trigger] old(attrs).dynamic_attrs@[j],
                    attrs.dynamic_attrs@[j],
                ),
        decreases m - k,
    {
        proof {
            axiom_vec_index_decreases(old(attrs).dynamic_attrs, k as int);
        }
        assert(nests_within(*old(attrs).dynamic_attrs@[k as int].name_expr, h));
        assert(nests_within(*old(attrs).dynamic_attrs@[k as int].value_expr, h));
        let def = &mut attrs.dynamic_attrs[k];
        match def.name_expr.bind_vars(inner) {
            Err(e) => {
                return Err(e);
            },
            Ok(()) => {},
        }
        match def.value_expr.bind_vars(inner) {
            Err(e) => {
                return Err(e);
            },
            Ok(()) => {},
        }
        k += 1;
    }
    Ok(())
}

/// Resolves the defaults of the formals of a function against the frame of
/// the function.
fn bind_formals(formals: &mut Vec<Formal>, inner: &StaticEnv) -> (r: NixResult<()>)
    requires
        exists|h: nat| #[trigger] nests_formals(*old(formals), h) && inner.depth() + h <= usize::MAX,
    ensures
        r == outcome(unbound_formals(*old(formals), 0, inner.frames())),
        r is Ok ==> resolved_formals(*old(formals), *final(formals), inner.frames()),
        annotated_formals(*old(formals), *final(formals)),
    decreases *old(formals),
{
    let ghost h = choose|h: nat| #[trigger]
        nests_formals(*old(formals), h) && inner.depth() + h <= usize::MAX;
    proof {
        lemma_annotated_formals_same(*old(formals));
    }
    let n = formals.len();
    let mut i: usize = 0;
    while i < n
        invariant
            n == formals@.len(),
            n == old(formals)@.len(),
            i <= n,
            inner.depth() + h <= usize::MAX,
            nests_formals(*old(formals), h),
            unbound_formals(*old(formals), i as nat, inner.frames()) == unbound_formals(
                *old(formals),
                0,
                inner.frames(),
            ),
            forall|j: int|
                0 <= j < i ==> resolved_formal(
                    #[trigger] old(formals)@[j],
                    formals@[j],
                    inner.frames(),
                ),
            forall|j: int| 0 <= j < n ==> annotated_formal(#[trigger] old(formals)@[j], formals@[j]),
            forall|j: int| i <= j < n ==> formals@[j] == #[trigger] old(formals)@[j],
        decreases n - i,
    {
        proof {
            axiom_vec_index_decreases(*old(formals), i as int);
        }
        let formal = &mut formals[i];
        match &mut formal.def {
            Some(d) => {
                assert(nests_within(*old(formals)@[i as int].def->0, h));
                match d.bind_vars(inner) {
                    Err(e) => {
                        return Err(e);
                    },
                    Ok(()) => {},
                }
            },
            None => {},
        }
        i += 1;
    }
    Ok(())
}

impl ExprAttrs {
    /// Resolves the definitions of the set against the static chain that
    /// begins at `env`. A recursive set puts one frame around its
    /// definitions, which binds the written names of the set; inherited
    /// definitions are resolved outside that frame.
    pub fn bind_vars(&mut self, env: &StaticEnv) -> (r: NixResult<()>)
        requires
            fits(Expr::Attrs(*old(self)), env.depth()),
        ensures
            r == outcome(unbound(Expr::Attrs(*old(self)), env.frames())),
            r is Ok <==> closed(Expr::Attrs(*old(self)), env.frames()),
            r is Ok ==> resolved(Expr::Attrs(*old(self)), Expr::Attrs(*final(self)), env.frames()),
            annotated(Expr::Attrs(*old(self)), Expr::Attrs(*final(self))),
        decreases *old(self), 1int,
    {
        proof {
            crate::resolve_lemmas::lemma_free_variable(Expr::Attrs(*old(self)), env.frames());
        }
        let ghost h = choose|h: nat| #[trigger]
            nests_within(Expr::Attrs(*old(self)), h) && env.depth() + h <= usize::MAX;
        if self.recursive {
            let inner = attrs_static_env(self, env);
            assert(nests_attrs(*old(self), (h - 1) as nat));
            bind_attrs(self, env, &inner, true)
        } else {
            assert(nests_attrs(*old(self), h));
            bind_attrs(self, env, env, false)
        }
    }
}

impl Expr {
    /// Resolves the tree against the static chain that begins at `env`:
    /// each variable to the innermost frame that binds its name, or to the
    /// nearest `with`. Recursive sets, `let`, functions and `with` each put
    /// one frame around what they enclose.
    ///
    /// Succeeds exactly if the tree has no free variable within the chain.
    /// On failure the tree is left resolved in part. Either way the tree
    /// changes in nothing but what resolution writes: the resolution fields
    /// of variables, the displacements of definitions, and the distance of
    /// each `with` to the `with` around it.
    pub fn bind_vars(&mut self, env: &StaticEnv) -> (r: NixResult<()>)
        requires
            fits(*old(self), env.depth()),
        ensures
            r == outcome(unbound(*old(self), env.frames())),
            r is Ok <==> closed(*old(self), env.frames()),
            r is Ok ==> resolved(*old(self), *final(self), env.frames()),
            annotated(*old(self), *final(self)),
        decreases *old(self),
    {
        proof {
            crate::resolve_lemmas::lemma_free_variable(*old(self), env.frames());
            lemma_annotated_same(*old(self));
        }
        let ghost h = choose|h: nat| #[trigger]
            nests_within(*old(self), h) && env.depth() + h <= usize::MAX;
        match self {
            Expr::Var(v) => {
                proof {
                    lemma_resolve_total(env.frames(), v.name);
                }
                v.bind_vars(env)
            },
            Expr::Select(s) => {
                assert(nests_within(*s.expr, h));
                assert(nests_path(s.attr_path, h));
                match s.expr.bind_vars(env) {
                    Err(e) => {
                        return Err(e);
                    },
                    Ok(()) => {},
                }
                match &mut s.def {
                    Some(d) => {
                        assert(nests_within(**d, h));
                        match d.bind_vars(env) {
                            Err(e) => {
                                return Err(e);
                            },
                            Ok(()) => {},
                        }
                    },
                    None => {},
                }
                bind_path(&mut s.attr_path, env)
            },
            Expr::OpHasAttr(x) => {
                assert(nests_within(*x.expr, h));
                assert(nests_path(x.attr_path, h));
                match x.expr.bind_vars(env) {
                    Err(e) => {
                        return Err(e);
                    },
                    Ok(()) => {},
                }
                bind_path(&mut x.attr_path, env)
            },
            Expr::Attrs(a) => {
                assert(nests_within(Expr::Attrs(*a), h));
                a.bind_vars(env)
            },
            Expr::List(items) => {
                assert(nests_exprs(*items, h));
                bind_exprs(items, env)
            },
            Expr::Lambda(l) => {
                let inner = lambda_static_env(l, env);
                assert(nests_within(*l.body, (h - 1) as nat));
                assert(nests_formals(l.formals.formals, (h - 1) as nat));
                if l.match_attrs {
                    match bind_formals(&mut l.formals.formals, &inner) {
                        Err(e) => {
                            return Err(e);
                        },
                        Ok(()) => {},
                    }
                }
                l.body.bind_vars(&inner)
            },
            Expr::Let(l) => {
                let inner = attrs_static_env(&l.attrs, env);
                assert(nests_attrs(*l.attrs, (h - 1) as nat));
                assert(nests_within(*l.body, (h - 1) as nat));
                match bind_attrs(&mut l.attrs, env, &inner, true) {
                    Err(e) => {
                        return Err(e);
                    },
                    Ok(()) => {},
                }
                l.body.bind_vars(&inner)
            },
            Expr::With(w) => {
                assert(nests_within(*w.attrs, (h - 1) as nat));
                assert(nests_within(*w.body, (h - 1) as nat));
                w.prev_with = match nearest_with_level(env) {
                    Some(level) => Level(level + 1),
                    None => Level(0),
                };
                match w.attrs.bind_vars(env) {
                    Err(e) => {
                        return Err(e);
                    },
                    Ok(()) => {},
                }
                let inner = StaticEnv { is_with: true, up: Some(env), vars: HashMap::new() };
                assert(inner.frames() == push_frame(with_frame(), env.frames()));
                w.body.bind_vars(&inner)
            },
            Expr::If(c) => {
                assert(nests_within(*c.cond, h));
                assert(nests_within(*c.then_, h));
                assert(nests_within(*c.else_, h));
                match c.cond.bind_vars(env) {
                    Err(e) => {
                        return Err(e);
                    },
                    Ok(()) => {},
                }
                match c.then_.bind_vars(env) {
                    Err(e) => {
                        return Err(e);
                    },
                    Ok(()) => {},
                }
                c.else_.bind_vars(env)
            },
            Expr::Assert(a) => {
                assert(nests_within(*a.cond, h));
                assert(nests_within(*a.body, h));
                match a.cond.bind_vars(env) {
                    Err(e) => {
                        return Err(e);
                    },
                    Ok(()) => {},
                }
                a.body.bind_vars(env)
            },
            Expr::OpNot(x) => {
                assert(nests_within(**x, h));
                x.bind_vars(env)
            },
            Expr::BinOp(b) => {
                assert(nests_within(*b.e1, h));
                assert(nests_within(*b.e2, h));
                match b.e1.bind_vars(env) {
                    Err(e) => {
                        return Err(e);
                    },
                    Ok(()) => {},
                }
                b.e2.bind_vars(env)
            },
            Expr::ConcatStrings(c) => {
                assert(nests_exprs(c.exprs, h));
                bind_exprs(&mut c.exprs, env)
            },
            _ => Ok(()),
        }
    }
}

} // verus!
