//! Values, evaluated and deferred.

use crate::attr_set::{Bindings, ValueRef};
use crate::env::EnvRef;
use crate::nix_expr::{Expr, ExprLambda};
use crate::primops::PrimOp;
use vstd::prelude::*;

verus! {

/// The integers of the language.
pub type NixInt = i64;

/// A floating-point number of the language, held as the bits of its IEEE 754
/// double-precision encoding.
#[derive(Clone, Copy, Debug)]
pub struct NixFloat {
    pub bits: u64,
}

/// An expression whose evaluation is deferred, with the environment to
/// evaluate it in.
#[derive(Clone, Copy)]
pub struct Thunk<'a> {
    pub env: EnvRef,
    pub expr: &'a Expr,
}

/// The application of the value in slot `left` to that in slot `right`.
#[derive(Clone, Copy, Debug)]
pub struct App {
    pub left: ValueRef,
    pub right: ValueRef,
}

/// A function with the environment it was defined in.
#[derive(Clone, Copy)]
pub struct Lambda<'a> {
    pub env: EnvRef,
    pub fun: &'a ExprLambda,
}

/// A built-in function with the arguments it has been given so far, fewer
/// than it takes.
pub struct PrimOpApp {
    pub op: PrimOp,
    pub args: Vec<ValueRef>,
}

/// A string with its context: the provenance tags that string operations
/// hand on.
#[derive(Debug)]
pub struct NixString {
    pub s: String,
    pub context: Vec<String>,
}

impl NixString {
    /// The string `s` with an empty context.
    pub fn new(s: String) -> (string: NixString)
        ensures
            string.s == s,
            string.context@.len() == 0,
    {
        NixString { s, context: Vec::new() }
    }
}

/// A value. All but `Thunk`, `App` and `Blackhole` are evaluated.
pub enum Value<'a> {
    Int(NixInt),
    Bool(bool),
    String(NixString),
    Path(String),
    Null,
    Attrs(Bindings),
    List(Vec<ValueRef>),
    Thunk(Thunk<'a>),
    App(App),
    Lambda(Lambda<'a>),
    /// Stands in the slot of a thunk while the thunk is forced.
    Blackhole,
    PrimOp(PrimOp),
    PrimOpApp(PrimOpApp),
    External,
    Float(NixFloat),
}

} // verus!
