//! How deep the scopes of an expression nest, computed.

use crate::nix_expr::{AttrDef, AttrName, DynamicAttrDef, Expr, ExprAttrs, Formal};
use crate::resolve::{
    fits, nests_attrs, nests_exprs, nests_formals, nests_path, nests_within,
};
use crate::symbol_table::Symbol;
use vstd::prelude::*;
use vstd::std_specs::vec::axiom_vec_index_decreases;

verus! {

/// Whether `n` is how deep the scopes of `e` nest: `e` nests within the
/// depths from `n` on, and within no depth that the machine's integers hold
/// if there is no `n`.
pub open spec fn nesting_is(e: Expr, n: Option<usize>) -> bool {
    match n {
        Some(k) => forall|h: nat| #[trigger] nests_within(e, h) <==> k <= h,
        None => forall|h: nat| #[trigger] nests_within(e, h) ==> h > usize::MAX,
    }
}

/// Whether the computed names of the first `i` components of `path` nest
/// at most `h` deep.
pub open spec fn path_nests_upto(path: Vec<AttrName>, i: int, h: nat) -> bool {
    forall|j: int|
        0 <= j < i && j < path@.len() ==> ((#[trigger] path@[j]).expr matches Some(x)
            ==> nests_within(*x, h))
}

/// Whether the first `i` expressions of `exprs` nest at most `h` deep.
pub open spec fn exprs_nest_upto(exprs: Vec<Expr>, i: int, h: nat) -> bool {
    forall|j: int| 0 <= j < i && j < exprs@.len() ==> nests_within(#[trigger] exprs@[j], h)
}

/// Whether the first `i` definitions of `defs` nest at most `h` deep.
pub open spec fn defs_nest_upto(defs: Vec<(Symbol, AttrDef)>, i: int, h: nat) -> bool {
    forall|j: int| 0 <= j < i && j < defs@.len() ==> nests_within(*(#[trigger] defs@[j]).1.expr, h)
}

/// Whether the first `i` definitions with computed names nest at most `h`
/// deep.
pub open spec fn dynamic_nest_upto(defs: Vec<DynamicAttrDef>, i: int, h: nat) -> bool {
    forall|j: int|
        0 <= j < i && j < defs@.len() ==> nests_within(*(#[trigger] defs@[j]).name_expr, h)
            && nests_within(*defs@[j].value_expr, h)
}

/// Whether the defaults of the first `i` formals nest at most `h` deep.
pub open spec fn formals_nest_upto(formals: Vec<Formal>, i: int, h: nat) -> bool {
    forall|j: int|
        0 <= j < i && j < formals@.len() ==> ((#[trigger] formals@[j]).def matches Some(d)
            ==> nests_within(*d, h))
}

/// Whether `n` is how deep the first `i` of the computed names of a path nest.
pub open spec fn path_nesting_upto(v: Vec<AttrName>, i: int, n: Option<usize>) -> bool {
    match n {
        Some(k) => forall|h: nat| #[trigger] path_nests_upto(v, i, h) <==> k <= h,
        None => forall|h: nat| #[trigger] path_nests_upto(v, i, h) ==> h > usize::MAX,
    }
}

/// Whether `n` is how deep the computed names of a path nest.
pub open spec fn path_nesting_is(v: Vec<AttrName>, n: Option<usize>) -> bool {
    match n {
        Some(k) => forall|h: nat| #[trigger] nests_path(v, h) <==> k <= h,
        None => forall|h: nat| #[trigger] nests_path(v, h) ==> h > usize::MAX,
    }
}

/// Whether `n` is how deep the first `i` of the expressions of a list nest.
pub open spec fn exprs_nesting_upto(v: Vec<Expr>, i: int, n: Option<usize>) -> bool {
    match n {
        Some(k) => forall|h: nat| #[trigger] exprs_nest_upto(v, i, h) <==> k <= h,
        None => forall|h: nat| #[trigger] exprs_nest_upto(v, i, h) ==> h > usize::MAX,
    }
}

/// Whether `n` is how deep the expressions of a list nest.
pub open spec fn exprs_nesting_is(v: Vec<Expr>, n: Option<usize>) -> bool {
    match n {
        Some(k) => forall|h: nat| #[trigger] nests_exprs(v, h) <==> k <= h,
        None => forall|h: nat| #[trigger] nests_exprs(v, h) ==> h > usize::MAX,
    }
}

/// Whether `n` is how deep the first `i` of the defaults of the formals nest.
pub open spec fn formals_nesting_upto(v: Vec<Formal>, i: int, n: Option<usize>) -> bool {
    match n {
        Some(k) => forall|h: nat| #[trigger] formals_nest_upto(v, i, h) <==> k <= h,
        None => forall|h: nat| #[trigger] formals_nest_upto(v, i, h) ==> h > usize::MAX,
    }
}

/// Whether `n` is how deep the defaults of the formals nest.
pub open spec fn formals_nesting_is(v: Vec<Formal>, n: Option<usize>) -> bool {
    match n {
        Some(k) => forall|h: nat| #[trigger] nests_formals(v, h) <==> k <= h,
        None => forall|h: nat| #[trigger] nests_formals(v, h) ==> h > usize::MAX,
    }
}

/// Whether `n` is how deep the first `i` of the definitions nest.
pub open spec fn defs_nesting_upto(v: Vec<(Symbol, AttrDef)>, i: int, n: Option<usize>) -> bool {
    match n {
        Some(k) => forall|h: nat| #[trigger] defs_nest_upto(v, i, h) <==> k <= h,
        None => forall|h: nat| #[trigger] defs_nest_upto(v, i, h) ==> h > usize::MAX,
    }
}

/// Whether `n` is how deep the first `i` of the definitions with computed names nest.
pub open spec fn dynamic_nesting_upto(v: Vec<DynamicAttrDef>, i: int, n: Option<usize>) -> bool {
    match n {
        Some(k) => forall|h: nat| #[trigger] dynamic_nest_upto(v, i, h) <==> k <= h,
        None => forall|h: nat| #[trigger] dynamic_nest_upto(v, i, h) ==> h > usize::MAX,
    }
}

/// Whether `n` is how deep the definitions of an attribute set nest.
pub open spec fn attrs_nesting_is(v: ExprAttrs, n: Option<usize>) -> bool {
    match n {
        Some(k) => forall|h: nat| #[trigger] nests_attrs(v, h) <==> k <= h,
        None => forall|h: nat| #[trigger] nests_attrs(v, h) ==> h > usize::MAX,
    }
}

/// The greater of two depths; none, if one of them is none.
pub fn deeper(a: Option<usize>, b: Option<usize>) -> (n: Option<usize>)
    ensures
        n == match (a, b) {
            (Some(x), Some(y)) => Some(
                if x >= y {
                    x
                } else {
                    y
                },
            ),
            _ => None::<usize>,
        },
{
    match (a, b) {
        (Some(x), Some(y)) => Some(
            if x >= y {
                x
            } else {
                y
            },
        ),
        _ => None,
    }
}

/// One more than a depth; none, if there is none or it cannot be counted.
pub fn inside(a: Option<usize>) -> (n: Option<usize>)
    ensures
        n == match a {
            Some(x) => if x < usize::MAX {
                Some((x + 1) as usize)
            } else {
                None
            },
            None => None::<usize>,
        },
{
    match a {
        Some(x) => if x < usize::MAX {
            Some(x + 1)
        } else {
            None
        },
        None => None,
    }
}

/// How deep the computed names of a path nest.
fn path_nesting(path: &Vec<AttrName>) -> (n: Option<usize>)
    ensures
        path_nesting_is(*path, n),
    decreases path, 1int,
{
    let mut acc: Option<usize> = Some(0);
    let mut i: usize = 0;
    while i < path.len()
        invariant
            i <= path@.len(),
            path_nesting_upto(*path, i as int, acc),
        decreases path@.len() - i,
    {
        proof {
            axiom_vec_index_decreases(*path, i as int);
        }
        match &path[i].expr {
            Some(x) => {
                let c = x.nesting();
                acc = deeper(acc, c);
                proof {
                    assert forall|h: nat|
                        #[trigger] path_nests_upto(*path, i as int + 1, h) <==> path_nests_upto(
                            *path,
                            i as int,
                            h,
                        ) && nests_within(**x, h) by {
                        if path_nests_upto(*path, i as int + 1, h) {
                            assert(path@[i as int].expr == Some(*x));
                        }
                    }
                    assert(path_nesting_upto(*path, i as int + 1, acc));
                }
            },
            None => {
                proof {
                    assert forall|h: nat|
                        #[trigger] path_nests_upto(*path, i as int + 1, h) <==> path_nests_upto(
                            *path,
                            i as int,
                            h,
                        ) by {}
                    assert(path_nesting_upto(*path, i as int + 1, acc));
                }
            },
        }
        i += 1;
    }
    proof {
        assert forall|h: nat| #[trigger]
            nests_path(*path, h) <==> path_nests_upto(*path, path@.len() as int, h) by {}
        assert(path_nesting_upto(*path, path@.len() as int, acc));
    }
    acc
}

/// How deep the expressions of a list nest.
fn exprs_nesting(exprs: &Vec<Expr>) -> (n: Option<usize>)
    ensures
        exprs_nesting_is(*exprs, n),
    decreases exprs, 1int,
{
    let mut acc: Option<usize> = Some(0);
    let mut i: usize = 0;
    while i < exprs.len()
        invariant
            i <= exprs@.len(),
            exprs_nesting_upto(*exprs, i as int, acc),
        decreases exprs@.len() - i,
    {
        proof {
            axiom_vec_index_decreases(*exprs, i as int);
        }
        let c = exprs[i].nesting();
        acc = deeper(acc, c);
        proof {
            assert forall|h: nat|
                #[trigger] exprs_nest_upto(*exprs, i as int + 1, h) <==> exprs_nest_upto(
                    *exprs,
                    i as int,
                    h,
                ) && nests_within(exprs@[i as int], h) by {}
            assert(exprs_nesting_upto(*exprs, i as int + 1, acc));
        }
        i += 1;
    }
    proof {
        assert forall|h: nat| #[trigger]
            nests_exprs(*exprs, h) <==> exprs_nest_upto(*exprs, exprs@.len() as int, h) by {}
        assert(exprs_nesting_upto(*exprs, exprs@.len() as int, acc));
    }
    acc
}

/// How deep the defaults of the formals nest.
fn formals_nesting(formals: &Vec<Formal>) -> (n: Option<usize>)
    ensures
        formals_nesting_is(*formals, n),
    decreases formals, 1int,
{
    let mut acc: Option<usize> = Some(0);
    let mut i: usize = 0;
    while i < formals.len()
        invariant
            i <= formals@.len(),
            formals_nesting_upto(*formals, i as int, acc),
        decreases formals@.len() - i,
    {
        proof {
            axiom_vec_index_decreases(*formals, i as int);
        }
        match &formals[i].def {
            Some(d) => {
                let c = d.nesting();
                acc = deeper(acc, c);
                proof {
                    assert forall|h: nat|
                        #[trigger] formals_nest_upto(*formals, i as int + 1, h) <==> formals_nest_upto(
                            *formals,
                            i as int,
                            h,
                        ) && nests_within(**d, h) by {
                        if formals_nest_upto(*formals, i as int + 1, h) {
                            assert(formals@[i as int].def == Some(*d));
                        }
                    }
                    assert(formals_nesting_upto(*formals, i as int + 1, acc));
                }
            },
            None => {
                proof {
                    assert forall|h: nat|
                        #[trigger] formals_nest_upto(*formals, i as int + 1, h) <==> formals_nest_upto(
                            *formals,
                            i as int,
                            h,
                        ) by {}
                    assert(formals_nesting_upto(*formals, i as int + 1, acc));
                }
            },
        }
        i += 1;
    }
    proof {
        assert forall|h: nat| #[trigger]
            nests_formals(*formals, h) <==> formals_nest_upto(*formals, formals@.len() as int, h) by {}
        assert(formals_nesting_upto(*formals, formals@.len() as int, acc));
    }
    acc
}

/// How deep the definitions of an attribute set nest.
fn attrs_nesting(attrs: &ExprAttrs) -> (n: Option<usize>)
    ensures
        attrs_nesting_is(*attrs, n),
    decreases attrs, 1int,
{
    let mut acc: Option<usize> = Some(0);
    let mut i: usize = 0;
    while i < attrs.attrs.len()
        invariant
            i <= attrs.attrs@.len(),
            defs_nesting_upto(attrs.attrs, i as int, acc),
        decreases attrs.attrs@.len() - i,
    {
        proof {
            axiom_vec_index_decreases(attrs.attrs, i as int);
        }
        let c = attrs.attrs[i].1.expr.nesting();
        acc = deeper(acc, c);
        proof {
            assert forall|h: nat|
                #[trigger] defs_nest_upto(attrs.attrs, i as int + 1, h) <==> defs_nest_upto(
                    attrs.attrs,
                    i as int,
                    h,
                ) && nests_within(*attrs.attrs@[i as int].1.expr, h) by {}
            assert(defs_nesting_upto(attrs.attrs, i as int + 1, acc));
        }
        i += 1;
    }
    let mut dynamic: Option<usize> = Some(0);
    let mut k: usize = 0;
    while k < attrs.dynamic_attrs.len()
        invariant
            k <= attrs.dynamic_attrs@.len(),
            dynamic_nesting_upto(attrs.dynamic_attrs, k as int, dynamic),
        decreases attrs.dynamic_attrs@.len() - k,
    {
        proof {
            axiom_vec_index_decreases(attrs.dynamic_attrs, k as int);
        }
        let c1 = attrs.dynamic_attrs[k].name_expr.nesting();
        let c2 = attrs.dynamic_attrs[k].value_expr.nesting();
        dynamic = deeper(dynamic, deeper(c1, c2));
        proof {
            assert forall|h: nat|
                #[trigger] dynamic_nest_upto(attrs.dynamic_attrs, k as int + 1, h) <==> dynamic_nest_upto(
                    attrs.dynamic_attrs,
                    k as int,
                    h,
                ) && nests_within(*attrs.dynamic_attrs@[k as int].name_expr, h) && nests_within(
                    *attrs.dynamic_attrs@[k as int].value_expr,
                    h,
                ) by {}
            assert(dynamic_nesting_upto(attrs.dynamic_attrs, k as int + 1, dynamic));
        }
        k += 1;
    }
    proof {
        assert forall|h: nat|
            nests_attrs(*attrs, h) <==> defs_nest_upto(
                attrs.attrs,
                attrs.attrs@.len() as int,
                h,
            ) && dynamic_nest_upto(attrs.dynamic_attrs, attrs.dynamic_attrs@.len() as int, h) by {}
    }
    deeper(acc, dynamic)
}

impl Expr {
    /// How deep the scopes of the expression nest: the least depth within
    /// which they nest; none, if the machine's integers cannot count it.
    pub fn nesting(&self) -> (n: Option<usize>)
        ensures
            nesting_is(*self, n),
        decreases self, 0int,
    {
        match self {
            Expr::Select(s) => {
                let a = s.expr.nesting();
                let b = match &s.def {
                    Some(d) => d.nesting(),
                    None => Some(0),
                };
                let c = path_nesting(&s.attr_path);
                let n = deeper(deeper(a, b), c);
                proof {
                    assert forall|h: nat| #[trigger]
                        nests_within(*self, h) <==> (nests_within(*s.expr, h) && (s.def matches Some(d) ==> nests_within(*d, h)) && nests_path(s.attr_path, h)) by {}
                    assert(nesting_is(*self, n));
                }
                n
            },
            Expr::OpHasAttr(x) => {
                let a = x.expr.nesting();
                let c = path_nesting(&x.attr_path);
                let n = deeper(a, c);
                proof {
                    assert forall|h: nat| #[trigger]
                        nests_within(*self, h) <==> (nests_within(*x.expr, h) && nests_path(x.attr_path, h)) by {}
                    assert(nesting_is(*self, n));
                }
                n
            },
            Expr::Attrs(a) => {
                let c = attrs_nesting(a);
                let n = if a.recursive {
                    inside(c)
                } else {
                    c
                };
                proof {
                    assert forall|h: nat| #[trigger]
                        nests_within(*self, h) <==> (if a.recursive { h > 0 && nests_attrs(*a, (h - 1) as nat) } else { nests_attrs(*a, h) }) by {}
                    assert(nesting_is(*self, n));
                }
                n
            },
            Expr::List(items) => {
                let n = exprs_nesting(items);
                proof {
                    assert forall|h: nat| #[trigger]
                        nests_within(*self, h) <==> (nests_exprs(*items, h)) by {}
                    assert(nesting_is(*self, n));
                }
                n
            },
            Expr::Lambda(l) => {
                let a = l.body.nesting();
                let b = formals_nesting(&l.formals.formals);
                let n = inside(deeper(a, b));
                proof {
                    assert forall|h: nat| #[trigger]
                        nests_within(*self, h) <==> (h > 0 && nests_within(*l.body, (h - 1) as nat) && nests_formals(l.formals.formals, (h - 1) as nat)) by {}
                    assert(nesting_is(*self, n));
                }
                n
            },
            Expr::Let(l) => {
                let a = attrs_nesting(&l.attrs);
                let b = l.body.nesting();
                let n = inside(deeper(a, b));
                proof {
                    assert forall|h: nat| #[trigger]
                        nests_within(*self, h) <==> (h > 0 && nests_attrs(*l.attrs, (h - 1) as nat) && nests_within(*l.body, (h - 1) as nat)) by {}
                    assert(nesting_is(*self, n));
                }
                n
            },
            Expr::With(w) => {
                let a = w.attrs.nesting();
                let b = w.body.nesting();
                let n = inside(deeper(a, b));
                proof {
                    assert forall|h: nat| #[trigger]
                        nests_within(*self, h) <==> (h > 0 && nests_within(*w.attrs, (h - 1) as nat) && nests_within(*w.body, (h - 1) as nat)) by {}
                    assert(nesting_is(*self, n));
                }
                n
            },
            Expr::If(c) => {
                let x = c.cond.nesting();
                let y = c.then_.nesting();
                let z = c.else_.nesting();
                let n = deeper(deeper(x, y), z);
                proof {
                    assert forall|h: nat| #[trigger]
                        nests_within(*self, h) <==> (nests_within(*c.cond, h) && nests_within(*c.then_, h) && nests_within(*c.else_, h)) by {}
                    assert(nesting_is(*self, n));
                }
                n
            },
            Expr::Assert(a) => {
                let x = a.cond.nesting();
                let y = a.body.nesting();
                let n = deeper(x, y);
                proof {
                    assert forall|h: nat| #[trigger]
                        nests_within(*self, h) <==> (nests_within(*a.cond, h) && nests_within(*a.body, h)) by {}
                    assert(nesting_is(*self, n));
                }
                n
            },
            Expr::OpNot(x) => {
                let n = x.nesting();
                proof {
                    assert forall|h: nat| #[trigger]
                        nests_within(*self, h) <==> (nests_within(**x, h)) by {}
                    assert(nesting_is(*self, n));
                }
                n
            },
            Expr::BinOp(b) => {
                let x = b.e1.nesting();
                let y = b.e2.nesting();
                let n = deeper(x, y);
                proof {
                    assert forall|h: nat| #[trigger]
                        nests_within(*self, h) <==> (nests_within(*b.e1, h) && nests_within(*b.e2, h)) by {}
                    assert(nesting_is(*self, n));
                }
                n
            },
            Expr::ConcatStrings(c) => {
                let n = exprs_nesting(&c.exprs);
                proof {
                    assert forall|h: nat| #[trigger]
                        nests_within(*self, h) <==> (nests_exprs(c.exprs, h)) by {}
                    assert(nesting_is(*self, n));
                }
                n
            },
            _ => {
                proof {
                    assert(nesting_is(*self, Some(0usize)));
                }
                Some(0)
            },
        }
    }

    /// Whether the scopes of the expression can be counted on top of
    /// `frames` frames.
    pub fn scopes_fit(&self, frames: Option<usize>) -> (b: bool)
        ensures
            frames matches Some(k) ==> b == fits(*self, k as nat),
            frames is None ==> !b,
    {
        match (frames, self.nesting()) {
            (Some(k), Some(h)) => {
                let b = h <= usize::MAX - k;
                proof {
                    if b {
                        assert(nests_within(*self, h as nat));
                    }
                }
                b
            },
            _ => false,
        }
    }
}

} // verus!
