//! Built-in functions.

use vstd::prelude::*;

verus! {

/// What a built-in function computes.
#[derive(Clone, Copy, Debug, PartialEq, Eq, Structural)]
pub enum PrimOpFun {
    /// The difference of two integers.
    Sub,
    /// The product of two integers.
    Mul,
    /// The quotient of two integers, rounded towards zero.
    Div,
    /// Whether the first of two integers is less than the second.
    LessThan,
}

/// A built-in function: its name, the number of arguments it takes, and
/// what it computes.
#[derive(Debug)]
pub struct PrimOp {
    pub name: String,
    pub arity: usize,
    pub fun: PrimOpFun,
}

/// The built-in functions of an evaluator, in the order of registration.
pub struct RegisterPrimOp {
    pub prim_ops: Vec<PrimOp>,
}

impl RegisterPrimOp {
    /// An empty registry.
    pub fn new() -> (registry: RegisterPrimOp)
        ensures
            registry.prim_ops@.len() == 0,
    {
        RegisterPrimOp { prim_ops: Vec::new() }
    }

    /// Adds `prim_op` after those registered so far.
    pub fn register(&mut self, prim_op: PrimOp)
        ensures
            final(self).prim_ops@ == old(self).prim_ops@.push(prim_op),
    {
        self.prim_ops.push(prim_op)
    }
}

} // verus!
