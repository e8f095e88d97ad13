//! The evaluation core of a lazy, purely functional configuration language:
//! symbol interning, source positions, the expression tree, static scope
//! resolution, the runtime environment chain, thunks, and the evaluator.
//!
//! An expression is built once, resolved once against the static scopes
//! around it (`Expr::bind_vars`), and then evaluated as often as wanted by
//! an `EvalState`, which owns the value slots and the environments.
//! `EvalState::eval_top_level` does both, for an expression whose scopes
//! can be counted on top of those around it; `EvalState::eval_program`
//! tests that first (`Expr::scopes_fit`) and takes every expression.
//!
//! Every executable function in this crate is verified against the contract
//! written in its signature. What evaluation means is defined in
//! `semantics`, over the model of the state in `heap`. What every step of
//! evaluation keeps is proved in `invariants`; that resolution and
//! evaluation agree, so that a resolved expression never reaches outside
//! the state, in `soundness` and `agreement`.

pub mod agreement;
pub mod attr_path;
pub mod attr_set;
pub mod env;
pub mod err;
pub mod eval;
pub mod expr_ext;
pub mod forms;
pub mod heap;
pub mod interp;
pub mod invariants;
pub mod nesting;
pub mod nix_expr;
pub mod ops;
pub mod pos;
pub mod primops;
pub mod resolve;
pub mod resolve_lemmas;
pub mod semantics;
pub mod soundness;
pub mod symbol_table;
pub mod value;

pub use crate::attr_set::Bindings;
pub use crate::err::{NixError, NixResult};
pub use crate::eval::EvalState;
pub use crate::nix_expr::Expr;
pub use crate::symbol_table::{Symbol, SymbolTable};
pub use crate::value::Value;
