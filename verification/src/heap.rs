//! The mathematical model of the evaluator's state: what each value slot
//! and each environment holds, as sequences, maps and plain values.

use crate::attr_set::{AttrValue, ValueRef};
use crate::env::{Displ, Env, EnvInner, EnvRef, Level};
use crate::err::ValueKind;
use crate::nix_expr::Expr;
use crate::primops::{PrimOp, PrimOpFun};
use crate::symbol_table::Symbol;
use crate::value::{App, Lambda, NixFloat, NixString, PrimOpApp, Thunk, Value};
use vstd::prelude::*;

verus! {

/// What a string holds.
pub struct NixStringView {
    pub s: Seq<char>,
    pub context: Seq<Seq<char>>,
}

/// What a built-in function holds.
pub struct PrimOpView {
    pub name: Seq<char>,
    pub arity: usize,
    pub fun: PrimOpFun,
}

/// What a partly applied built-in function holds.
pub struct PrimOpAppView {
    pub op: PrimOpView,
    pub args: Seq<ValueRef>,
}

/// What a value holds.
pub enum ValueView<'a> {
    Int(i64),
    Bool(bool),
    String(NixStringView),
    Path(Seq<char>),
    Null,
    Attrs(Map<Symbol, AttrValue>),
    List(Seq<ValueRef>),
    Thunk(Thunk<'a>),
    App(App),
    Lambda(Lambda<'a>),
    Blackhole,
    PrimOp(PrimOpView),
    PrimOpApp(PrimOpAppView),
    External,
    Float(NixFloat),
}

/// What a frame holds.
pub enum EnvInnerView<'a> {
    Plain(Seq<ValueRef>),
    HasWithExpr(&'a Expr),
    HasWithAttrs(Map<Symbol, AttrValue>),
}

/// What an environment holds.
pub struct EnvView<'a> {
    pub up: Option<EnvRef>,
    pub prev_with: Level,
    pub values: EnvInnerView<'a>,
}

/// The state of an evaluator: the interned texts, the value slots and the
/// environments.
pub struct Heap<'a> {
    pub symbols: Seq<Seq<char>>,
    pub values: Seq<ValueView<'a>>,
    pub envs: Seq<EnvView<'a>>,
}

/// The texts of a list of strings.
pub open spec fn string_views(strings: Seq<String>) -> Seq<Seq<char>> {
    Seq::new(strings.len(), |i: int| strings[i]@)
}

impl View for NixString {
    type V = NixStringView;

    open spec fn view(&self) -> NixStringView {
        NixStringView { s: self.s@, context: string_views(self.context@) }
    }
}

impl View for PrimOp {
    type V = PrimOpView;

    open spec fn view(&self) -> PrimOpView {
        PrimOpView { name: self.name@, arity: self.arity, fun: self.fun }
    }
}

impl View for PrimOpApp {
    type V = PrimOpAppView;

    open spec fn view(&self) -> PrimOpAppView {
        PrimOpAppView { op: self.op@, args: self.args@ }
    }
}

impl<'a> View for Value<'a> {
    type V = ValueView<'a>;

    open spec fn view(&self) -> ValueView<'a> {
        match self {
            Value::Int(n) => ValueView::Int(*n),
            Value::Bool(b) => ValueView::Bool(*b),
            Value::String(s) => ValueView::String(s@),
            Value::Path(p) => ValueView::Path(p@),
            Value::Null => ValueView::Null,
            Value::Attrs(b) => ValueView::Attrs(b@),
            Value::List(items) => ValueView::List(items@),
            Value::Thunk(t) => ValueView::Thunk(*t),
            Value::App(a) => ValueView::App(*a),
            Value::Lambda(l) => ValueView::Lambda(*l),
            Value::Blackhole => ValueView::Blackhole,
            Value::PrimOp(p) => ValueView::PrimOp(p@),
            Value::PrimOpApp(p) => ValueView::PrimOpApp(p@),
            Value::External => ValueView::External,
            Value::Float(f) => ValueView::Float(*f),
        }
    }
}

impl<'a> View for EnvInner<'a> {
    type V = EnvInnerView<'a>;

    open spec fn view(&self) -> EnvInnerView<'a> {
        match self {
            EnvInner::Plain(slots) => EnvInnerView::Plain(slots@),
            EnvInner::HasWithExpr(e) => EnvInnerView::HasWithExpr(*e),
            EnvInner::HasWithAttrs(b) => EnvInnerView::HasWithAttrs(b@),
        }
    }
}

impl<'a> View for Env<'a> {
    type V = EnvView<'a>;

    open spec fn view(&self) -> EnvView<'a> {
        EnvView { up: self.up, prev_with: self.prev_with, values: self.values@ }
    }
}

/// What each of a list of values holds.
pub open spec fn value_views<'a>(values: Seq<Value<'a>>) -> Seq<ValueView<'a>> {
    Seq::new(values.len(), |i: int| values[i]@)
}

/// What each of a list of environments holds.
pub open spec fn env_views<'a>(envs: Seq<Env<'a>>) -> Seq<EnvView<'a>> {
    Seq::new(envs.len(), |i: int| envs[i]@)
}

/// The kind of a value.
pub open spec fn kind_of(v: ValueView) -> ValueKind {
    match v {
        ValueView::Int(_) => ValueKind::Int,
        ValueView::Bool(_) => ValueKind::Bool,
        ValueView::String(_) => ValueKind::String,
        ValueView::Path(_) => ValueKind::Path,
        ValueView::Null => ValueKind::Null,
        ValueView::Attrs(_) => ValueKind::Attrs,
        ValueView::List(_) => ValueKind::List,
        ValueView::Thunk(_) => ValueKind::Thunk,
        ValueView::App(_) => ValueKind::App,
        ValueView::Lambda(_) => ValueKind::Function,
        ValueView::Blackhole => ValueKind::Blackhole,
        ValueView::PrimOp(_) => ValueKind::Function,
        ValueView::PrimOpApp(_) => ValueKind::Function,
        ValueView::External => ValueKind::External,
        ValueView::Float(_) => ValueKind::Float,
    }
}

impl<'a> Heap<'a> {
    /// The value in `slot`, if there is such a slot.
    pub open spec fn value_at(self, slot: ValueRef) -> Option<ValueView<'a>> {
        if slot < self.values.len() {
            Some(self.values[slot as int])
        } else {
            None
        }
    }

    /// The environment at `env`, if there is one.
    pub open spec fn env_at(self, env: EnvRef) -> Option<EnvView<'a>> {
        if env < self.envs.len() {
            Some(self.envs[env as int])
        } else {
            None
        }
    }

    /// The state with `v` in a new slot, and that slot.
    pub open spec fn push_value(self, v: ValueView<'a>) -> (Heap<'a>, ValueRef) {
        (
            Heap { symbols: self.symbols, values: self.values.push(v), envs: self.envs },
            self.values.len() as usize,
        )
    }

    /// The state with `v` in `slot`; the same state, if there is no such
    /// slot.
    pub open spec fn put(self, slot: ValueRef, v: ValueView<'a>) -> Heap<'a> {
        if slot < self.values.len() {
            Heap {
                symbols: self.symbols,
                values: self.values.update(slot as int, v),
                envs: self.envs,
            }
        } else {
            self
        }
    }

    /// The state with `env` as a new environment, and its index.
    pub open spec fn push_env(self, env: EnvView<'a>) -> (Heap<'a>, EnvRef) {
        (
            Heap { symbols: self.symbols, values: self.values, envs: self.envs.push(env) },
            self.envs.len() as usize,
        )
    }

    /// The state in which the environment at `env` holds `values`; the same
    /// state, if there is no such environment.
    pub open spec fn put_env(self, env: EnvRef, values: EnvInnerView<'a>) -> Heap<'a> {
        if env < self.envs.len() {
            Heap {
                symbols: self.symbols,
                values: self.values,
                envs: self.envs.update(
                    env as int,
                    EnvView {
                        up: self.envs[env as int].up,
                        prev_with: self.envs[env as int].prev_with,
                        values,
                    },
                ),
            }
        } else {
            self
        }
    }

    /// The state in which the outermost frame has one more slot, which
    /// holds `v`, and the displacement of that slot; nothing, if the
    /// outermost frame holds no slots.
    pub open spec fn define_global(self, v: ValueView<'a>) -> Option<(Heap<'a>, Displ)> {
        match self.env_at(0) {
            Some(frame) => match frame.values {
                EnvInnerView::Plain(slots) => Some(
                    (
                        self.push_value(v).0.put_env(
                            0,
                            EnvInnerView::Plain(slots.push(self.push_value(v).1)),
                        ),
                        Displ(slots.len() as usize),
                    ),
                ),
                _ => None,
            },
            None => None,
        }
    }

    /// The state in which `text` is interned, and its symbol: the symbol it
    /// had, or a new one.
    pub open spec fn intern(self, text: Seq<char>) -> (Heap<'a>, Symbol) {
        if self.symbols.contains(text) {
            (self, self.symbols.index_of(text) as usize)
        } else {
            (
                Heap { symbols: self.symbols.push(text), values: self.values, envs: self.envs },
                self.symbols.len() as usize,
            )
        }
    }
}

} // verus!
