//! The expression forms: attribute sets, calls, comparison, the binary
//! operators, concatenation.

use crate::attr_set::{enumerates, sorted_by_text, Attr, Bindings, ValueRef};
use crate::err::{NixError, NixResult, ValueKind};
use crate::heap::{string_views, ValueView};
use crate::nix_expr::{AttrDef, ExprLambda};
use crate::pos::Pos;
use crate::primops::PrimOpFun;
use crate::semantics;
use crate::semantics::Gathered;
use crate::symbol_table::{
    lemma_symbol_less_asymmetric, lemma_symbol_less_irreflexive, lemma_symbol_less_total,
    symbol_less, Symbol, SymbolTable,
};
use crate::value::{NixFloat, NixString, Value};
use std::collections::HashSet;
use vstd::prelude::*;
use vstd::string::*;

verus! {

/// What a comparison of two evaluated values has to do.
pub enum Comparison {
    /// Nothing: the result is known.
    Decided(bool),
    /// Compare two lists of one length.
    Lists(Vec<ValueRef>, Vec<ValueRef>),
    /// Look each of the attributes up in the set, and compare.
    Sets(Vec<Attr>, Bindings),
}

/// What a concatenation has gathered.
pub enum Parts {
    Nothing,
    Sum(i64),
    Text { s: String, context: Vec<String>, path: bool },
}

impl View for Parts {
    type V = Gathered;

    open spec fn view(&self) -> Gathered {
        match self {
            Parts::Nothing => Gathered::Nothing,
            Parts::Sum(n) => Gathered::Sum(*n),
            Parts::Text { s, context, path } => Gathered::Text {
                s: s@,
                context: string_views(context@),
                path: *path,
            },
        }
    }
}

/// Whether two floating-point numbers are equal.
pub fn float_eq(a: NixFloat, b: NixFloat) -> (eq: bool)
    ensures
        eq == semantics::float_eq(a, b),
{
    let a_nan = (a.bits & 0x7ff0_0000_0000_0000) == 0x7ff0_0000_0000_0000 && (a.bits
        & 0x000f_ffff_ffff_ffff) != 0;
    let b_nan = (b.bits & 0x7ff0_0000_0000_0000) == 0x7ff0_0000_0000_0000 && (b.bits
        & 0x000f_ffff_ffff_ffff) != 0;
    if a_nan {
        b_nan
    } else if b_nan {
        false
    } else {
        a.bits == b.bits || ((a.bits & 0x7fff_ffff_ffff_ffff) == 0 && (b.bits
            & 0x7fff_ffff_ffff_ffff) == 0)
    }
}

/// The magnitude of an integer.
fn magnitude(a: i64) -> (m: u64)
    ensures
        m == if a >= 0 {
            a as int
        } else {
            -(a as int)
        },
{
    if a >= 0 {
        a as u64
    } else {
        (-(a as i128)) as u64
    }
}

/// What a built-in function gives for two integers.
pub fn prim_result<'a>(fun: PrimOpFun, a: i64, b: i64) -> (r: NixResult<Value<'a>>)
    ensures
        match r {
            Ok(v) => semantics::prim_result(fun, a, b) == Ok::<_, NixError>(v@),
            Err(e) => semantics::prim_result(fun, a, b) == Err::<ValueView<'a>, _>(e),
        },
{
    match fun {
        PrimOpFun::Sub => {
            let wide = a as i128 - b as i128;
            if wide < i64::MIN as i128 || wide > i64::MAX as i128 {
                Err(NixError::IntegerOverflow)
            } else {
                Ok(Value::Int(wide as i64))
            }
        },
        PrimOpFun::Mul => {
            assert(-0x8000_0000_0000_0000 * 0x8000_0000_0000_0000 <= a * b
                <= 0x8000_0000_0000_0000 * 0x8000_0000_0000_0000) by (nonlinear_arith)
                requires
                    -0x8000_0000_0000_0000 <= a < 0x8000_0000_0000_0000,
                    -0x8000_0000_0000_0000 <= b < 0x8000_0000_0000_0000,
            ;
            let wide = a as i128 * b as i128;
            if wide < i64::MIN as i128 || wide > i64::MAX as i128 {
                Err(NixError::IntegerOverflow)
            } else {
                Ok(Value::Int(wide as i64))
            }
        },
        PrimOpFun::Div => {
            if b == 0 {
                Err(NixError::DivisionByZero)
            } else if a == i64::MIN && b == -1 {
                Err(NixError::IntegerOverflow)
            } else {
                let ma = magnitude(a);
                let mb = magnitude(b);
                let q = ma / mb;
                let negative = (a < 0) != (b < 0);
                assert(q <= ma && (mb > 1 && ma > 0 ==> q < ma)) by (nonlinear_arith)
                    requires
                        q == ma as int / mb as int,
                        mb > 0,
                ;
                if negative {
                    Ok(Value::Int((-(q as i128)) as i64))
                } else {
                    Ok(Value::Int(q as i64))
                }
            }
        },
        PrimOpFun::LessThan => Ok(Value::Bool(a < b)),
    }
}

/// Whether `tags` holds the text of `tag`.
fn holds_tag(tags: &Vec<String>, tag: &String) -> (found: bool)
    ensures
        found == string_views(tags@).contains(tag@),
{
    let mut i: usize = 0;
    while i < tags.len()
        invariant
            i <= tags@.len(),
            forall|j: int| 0 <= j < i ==> string_views(tags@)[j] != tag@,
        decreases tags@.len() - i,
    {
        if tags[i] == *tag {
            assert(string_views(tags@)[i as int] == tag@);
            return true;
        }
        i += 1;
    }
    false
}

/// Adds to `acc` the tags of `more` that it lacks, each once: what `acc`
/// held stays in front, and the tags that follow are those of `more` that
/// it lacked.
pub fn union_context(acc: &mut Vec<String>, more: &Vec<String>)
    ensures
        string_views(final(acc)@) == semantics::union_context(
            string_views(old(acc)@),
            string_views(more@),
            0,
        ),
        string_views(old(acc)@).is_prefix_of(string_views(final(acc)@)),
        forall|tag: Seq<char>|
            string_views(final(acc)@).contains(tag) <==> string_views(old(acc)@).contains(tag)
                || #[trigger] semantics::tagged_from(string_views(more@), 0, tag),
        string_views(old(acc)@).no_duplicates() ==> string_views(final(acc)@).no_duplicates(),
{
    proof {
        semantics::lemma_union_context(string_views(old(acc)@), string_views(more@), 0);
    }
    let mut i: usize = 0;
    while i < more.len()
        invariant
            i <= more@.len(),
            semantics::union_context(string_views(acc@), string_views(more@), i as nat)
                == semantics::union_context(string_views(old(acc)@), string_views(more@), 0),
        decreases more@.len() - i,
    {
        if !holds_tag(acc, &more[i]) {
            let ghost before = string_views(acc@);
            acc.push(more[i].clone());
            assert(string_views(acc@) =~= before.push(string_views(more@)[i as int]));
        }
        i += 1;
    }
}

/// `acc` with the evaluated value `v` added as the next part.
pub fn gather(acc: Parts, v: &Value, force_string: bool) -> (r: NixResult<Parts>)
    ensures
        match r {
            Ok(next) => semantics::gather(acc@, v@, force_string) == Ok::<_, NixError>(next@),
            Err(e) => semantics::gather(acc@, v@, force_string) == Err::<Gathered, _>(e),
        },
{
    match acc {
        Parts::Nothing => match v {
            Value::Int(n) => if force_string {
                Err(NixError::Type { expected: ValueKind::String, actual: ValueKind::Int })
            } else {
                Ok(Parts::Sum(*n))
            },
            Value::String(s) => {
                let mut context: Vec<String> = Vec::new();
                assert(string_views(context@) =~= Seq::<Seq<char>>::empty());
                union_context(&mut context, &s.context);
                Ok(Parts::Text { s: s.s.clone(), context, path: false })
            },
            Value::Path(p) => {
                let context: Vec<String> = Vec::new();
                assert(string_views(context@) =~= Seq::<Seq<char>>::empty());
                Ok(Parts::Text { s: p.clone(), context, path: !force_string })
            },
            _ => Err(NixError::Type { expected: ValueKind::String, actual: v.kind() }),
        },
        Parts::Sum(sum) => match v {
            Value::Int(n) => {
                let wide = sum as i128 + *n as i128;
                if wide < i64::MIN as i128 || wide > i64::MAX as i128 {
                    Err(NixError::IntegerOverflow)
                } else {
                    Ok(Parts::Sum(wide as i64))
                }
            },
            _ => Err(NixError::Type { expected: ValueKind::Int, actual: v.kind() }),
        },
        Parts::Text { s, context, path } => match v {
            Value::String(t) => {
                let mut s = s;
                let mut context = context;
                s.append(t.s.as_str());
                union_context(&mut context, &t.context);
                Ok(Parts::Text { s, context, path })
            },
            Value::Path(p) => {
                let mut s = s;
                s.append(p.as_str());
                Ok(Parts::Text { s, context, path })
            },
            _ => Err(NixError::Type { expected: ValueKind::String, actual: v.kind() }),
        },
    }
}

/// The value of what a concatenation has gathered.
pub fn gathered_value<'a>(acc: Parts) -> (v: Value<'a>)
    ensures
        v@ == semantics::gathered_value(acc@),
{
    match acc {
        Parts::Nothing => {
            let context: Vec<String> = Vec::new();
            assert(string_views(context@) =~= Seq::<Seq<char>>::empty());
            Value::String(NixString { s: String::new(), context })
        },
        Parts::Sum(n) => Value::Int(n),
        Parts::Text { s, context, path } => if path {
            Value::Path(s)
        } else {
            Value::String(NixString { s, context })
        },
    }
}

/// The first definition of `attrs` whose name a definition before it has.
pub fn duplicate_def(attrs: &Vec<(Symbol, AttrDef)>) -> (found: Option<(Symbol, Pos)>)
    ensures
        found == semantics::duplicate_def(attrs, 0, Set::empty()),
{
    broadcast use vstd::std_specs::hash::group_hash_axioms;

    let mut seen: HashSet<Symbol> = HashSet::new();
    let mut i: usize = 0;
    while i < attrs.len()
        invariant
            i <= attrs@.len(),
            semantics::duplicate_def(attrs, i as nat, seen@) == semantics::duplicate_def(
                attrs,
                0,
                Set::empty(),
            ),
        decreases attrs@.len() - i,
    {
        let name = attrs[i].0;
        if seen.contains(&name) {
            return Some((name, attrs[i].1.pos));
        }
        seen.insert(name);
        i += 1;
    }
    None
}

/// The first formal of `fun` that has no default and that `b` lacks.
pub fn missing_formal(fun: &ExprLambda, b: &Bindings) -> (found: Option<Symbol>)
    ensures
        found == semantics::missing_formal(fun, b@, 0),
{
    let mut i: usize = 0;
    while i < fun.formals.formals.len()
        invariant
            i <= fun.formals.formals@.len(),
            semantics::missing_formal(fun, b@, i as nat) == semantics::missing_formal(fun, b@, 0),
        decreases fun.formals.formals@.len() - i,
    {
        let formal = &fun.formals.formals[i];
        if b.get(formal.name).is_none() && formal.def.is_none() {
            return Some(formal.name);
        }
        i += 1;
    }
    None
}

/// Whether `name` is a formal of `fun`.
fn is_formal(fun: &ExprLambda, name: Symbol) -> (found: bool)
    ensures
        found == semantics::is_formal(fun, name),
{
    let mut i: usize = 0;
    while i < fun.formals.formals.len()
        invariant
            i <= fun.formals.formals@.len(),
            forall|j: int| 0 <= j < i ==> fun.formals.formals@[j].name != name,
        decreases fun.formals.formals@.len() - i,
    {
        if fun.formals.formals[i].name == name {
            return true;
        }
        i += 1;
    }
    false
}

/// The name of `b` that is no formal of `fun` and stands first among such
/// names in the order of symbols.
pub fn least_unexpected(fun: &ExprLambda, b: &Bindings, symbols: &SymbolTable) -> (found: Option<
    Symbol,
>)
    requires
        symbols.wf(),
    ensures
        found == semantics::least_unexpected(fun, b@, symbols@),
{
    let attrs = b.sorted(symbols);
    let mut i: usize = 0;
    while i < attrs.len()
        invariant
            i <= attrs@.len(),
            symbols.wf(),
            sorted_by_text(attrs@, symbols@),
            enumerates(attrs@, b@),
            forall|j: int| 0 <= j < i ==> semantics::is_formal(fun, attrs@[j].name),
        decreases attrs@.len() - i,
    {
        let name = attrs[i].name;
        if !is_formal(fun, name) {
            proof {
                assert(b@.contains_key(attrs@[i as int].name));
                assert(semantics::unexpected(fun, b@, name));
                assert forall|other: Symbol| #[trigger]
                    symbol_less(symbols@, other, name) implies !semantics::unexpected(
                    fun,
                    b@,
                    other,
                ) by {
                    if b@.contains_key(other) {
                        let j = choose|j: int| 0 <= j < attrs@.len() && attrs@[j].name == other;
                        if j > i {
                            assert(symbol_less(symbols@, attrs@[i as int].name, attrs@[j].name));
                            lemma_symbol_less_asymmetric(symbols@, other, name);
                        } else if j == i {
                            lemma_symbol_less_irreflexive(symbols@, name);
                        }
                    }
                }
                assert(semantics::first_unexpected(fun, b@, symbols@, name));
                let chosen = semantics::least_unexpected(fun, b@, symbols@)->0;
                assert(semantics::first_unexpected(fun, b@, symbols@, chosen));
                if chosen != name {
                    lemma_symbol_less_total(symbols@, chosen, name);
                }
            }
            return Some(name);
        }
        i += 1;
    }
    proof {
        assert forall|name: Symbol| !semantics::unexpected(fun, b@, name) by {
            if b@.contains_key(name) {
                let j = choose|j: int| 0 <= j < attrs@.len() && attrs@[j].name == name;
            }
        }
    }
    None
}

} // verus!
