//! The failures of resolution and evaluation.

use crate::pos::{decimal, decimal_string, Pos};
use crate::symbol_table::{Symbol, SymbolTable};
use vstd::prelude::*;
use vstd::string::*;

verus! {

/// The runtime kind of a value, as named in type errors.
#[derive(Clone, Copy, Debug, PartialEq, Eq, Structural)]
pub enum ValueKind {
    Int,
    Bool,
    String,
    Path,
    Null,
    Attrs,
    List,
    Thunk,
    App,
    Function,
    Blackhole,
    External,
    Float,
}

/// A failure of resolution or evaluation. Symbols and positions refer to the
/// symbol table of the evaluator that raised the failure.
#[derive(Clone, Copy, Debug, PartialEq, Eq, Structural)]
#[non_exhaustive]
pub enum NixError {
    /// A variable is bound by no enclosing scope, and no `with` encloses it;
    /// or, at evaluation time, no enclosing `with` defines it.
    UndefinedVar(Symbol, Pos),
    /// The variable can only be found by evaluating a `with` whose
    /// attribute set is still unevaluated, and evaluation was not allowed.
    VarLookupUnevaluated(Symbol),
    /// A value of kind `actual` stands where one of kind `expected` is
    /// needed.
    Type { expected: ValueKind, actual: ValueKind },
    /// A thunk was forced while it was being forced.
    InfiniteRecursion(Pos),
    /// A selection names an attribute that the set lacks, and gives no
    /// default.
    MissingAttr(Symbol, Pos),
    /// An attribute set defines a name twice.
    DuplicateAttr(Symbol, Pos),
    /// A function that takes a set was called without a formal that has no
    /// default.
    MissingFormal(Symbol, Pos),
    /// A function that takes a set without an ellipsis was called with an
    /// attribute that is none of its formals.
    UnexpectedArg(Symbol, Pos),
    /// A built-in function was given a number of arguments that it cannot
    /// take.
    CallArity { takes: usize, given: usize },
    /// A value that is no function was called.
    NotAFunction(ValueKind),
    /// The condition of an `assert` is false.
    AssertionFailed(Pos),
    /// Integer arithmetic left the range of the integer type.
    IntegerOverflow,
    /// An integer was divided by zero.
    DivisionByZero,
    /// The nesting of evaluation went beyond the depth that the caller
    /// allowed. This is a failure of resources, not of the program.
    DepthExhausted,
    /// The scopes of the expression nest deeper than the machine's
    /// integers can count on top of the scopes around it.
    ScopesTooDeep,
    /// A string or a position names a symbol that the evaluator's table
    /// lacks.
    UnknownSymbol(Symbol),
    /// A slot, environment, level or displacement points outside the
    /// evaluator's state: the expression was not resolved against the
    /// environment it is evaluated in.
    BadReference,
}

impl ValueKind {
    /// How a message names the kind.
    pub open spec fn phrase_text(self) -> Seq<char> {
        match self {
            ValueKind::Int => "an integer"@,
            ValueKind::Bool => "a boolean"@,
            ValueKind::String => "a string"@,
            ValueKind::Path => "a path"@,
            ValueKind::Null => "null"@,
            ValueKind::Attrs => "a set"@,
            ValueKind::List => "a list"@,
            ValueKind::Thunk => "a thunk"@,
            ValueKind::App => "an application"@,
            ValueKind::Function => "a function"@,
            ValueKind::Blackhole => "a black hole"@,
            ValueKind::External => "an external value"@,
            ValueKind::Float => "a float"@,
        }
    }

    /// How a message names the kind.
    pub fn phrase(self) -> (text: &'static str)
        ensures
            text@ == self.phrase_text(),
    {
        match self {
            ValueKind::Int => "an integer",
            ValueKind::Bool => "a boolean",
            ValueKind::String => "a string",
            ValueKind::Path => "a path",
            ValueKind::Null => "null",
            ValueKind::Attrs => "a set",
            ValueKind::List => "a list",
            ValueKind::Thunk => "a thunk",
            ValueKind::App => "an application",
            ValueKind::Function => "a function",
            ValueKind::Blackhole => "a black hole",
            ValueKind::External => "an external value",
            ValueKind::Float => "a float",
        }
    }
}

/// `before`, the text of `name` and `after`, in this order.
pub open spec fn around(before: Seq<char>, name: Seq<char>, after: Seq<char>) -> Seq<char> {
    before + name + after
}

/// `before`, `first`, `between`, `second` and `after`, in this order.
pub open spec fn around_two(
    before: Seq<char>,
    first: Seq<char>,
    between: Seq<char>,
    second: Seq<char>,
    after: Seq<char>,
) -> Seq<char> {
    before + first + between + second + after
}

fn join(before: &str, name: &str, after: &str) -> (s: String)
    ensures
        s@ == around(before@, name@, after@),
{
    let mut s = String::from_str(before);
    s.append(name);
    s.append(after);
    s
}

fn join_two(before: &str, first: &str, between: &str, second: &str, after: &str) -> (s: String)
    ensures
        s@ == around_two(before@, first@, between@, second@, after@),
{
    let mut s = String::from_str(before);
    s.append(first);
    s.append(between);
    s.append(second);
    s.append(after);
    s
}

impl NixError {
    /// Whether the symbols that the failure names are symbols of `symbols`.
    pub open spec fn within(&self, symbols: &SymbolTable) -> bool {
        match self {
            NixError::UndefinedVar(name, pos) => symbols.has(*name) && pos.within(symbols),
            NixError::VarLookupUnevaluated(name) => symbols.has(*name),
            NixError::InfiniteRecursion(pos) => pos.within(symbols),
            NixError::MissingAttr(name, pos) => symbols.has(*name) && pos.within(symbols),
            NixError::DuplicateAttr(name, pos) => symbols.has(*name) && pos.within(symbols),
            NixError::MissingFormal(name, pos) => symbols.has(*name) && pos.within(symbols),
            NixError::UnexpectedArg(name, pos) => symbols.has(*name) && pos.within(symbols),
            NixError::AssertionFailed(pos) => pos.within(symbols),
            _ => true,
        }
    }

    /// The message of the failure.
    pub open spec fn message_text(&self, symbols: &SymbolTable) -> Seq<char> {
        match self {
            NixError::UndefinedVar(name, pos) => around_two(
                "undefined variable '"@,
                symbols@[*name as int],
                "' at '"@,
                pos.owned(symbols).rendered(),
                "'"@,
            ),
            NixError::VarLookupUnevaluated(name) => around(
                "variable '"@,
                symbols@[*name as int],
                "' was not evaluated"@,
            ),
            NixError::Type { expected, actual } => around_two(
                "type error: value is "@,
                actual.phrase_text(),
                " while "@,
                expected.phrase_text(),
                " was expected"@,
            ),
            NixError::InfiniteRecursion(pos) => around(
                "infinite recursion encountered at '"@,
                pos.owned(symbols).rendered(),
                "'"@,
            ),
            NixError::MissingAttr(name, pos) => around_two(
                "attribute '"@,
                symbols@[*name as int],
                "' missing at '"@,
                pos.owned(symbols).rendered(),
                "'"@,
            ),
            NixError::DuplicateAttr(name, pos) => around_two(
                "attribute '"@,
                symbols@[*name as int],
                "' already defined at '"@,
                pos.owned(symbols).rendered(),
                "'"@,
            ),
            NixError::MissingFormal(name, pos) => around_two(
                "function at '"@,
                pos.owned(symbols).rendered(),
                "' called without required argument '"@,
                symbols@[*name as int],
                "'"@,
            ),
            NixError::UnexpectedArg(name, pos) => around_two(
                "function at '"@,
                pos.owned(symbols).rendered(),
                "' called with unexpected argument '"@,
                symbols@[*name as int],
                "'"@,
            ),
            NixError::CallArity { takes, given } => around_two(
                "built-in function takes "@,
                decimal(*takes as nat),
                " arguments but was given "@,
                decimal(*given as nat),
                ""@,
            ),
            NixError::NotAFunction(kind) => around(
                "attempt to call something which is not a function but "@,
                kind.phrase_text(),
                ""@,
            ),
            NixError::AssertionFailed(pos) => around(
                "assertion failed at '"@,
                pos.owned(symbols).rendered(),
                "'"@,
            ),
            NixError::IntegerOverflow => "integer overflow"@,
            NixError::DivisionByZero => "division by zero"@,
            NixError::DepthExhausted => "evaluation depth exhausted"@,
            NixError::UnknownSymbol(_) => "symbol of another evaluator"@,
            NixError::ScopesTooDeep => "scopes nest too deep"@,
            NixError::BadReference => "reference outside the evaluator's state"@,
        }
    }

    /// Renders the message of the failure, with the names of its symbols
    /// as `symbols` has them.
    pub fn message(&self, symbols: &SymbolTable) -> (s: String)
        requires
            self.within(symbols),
        ensures
            s@ == self.message_text(symbols),
    {
        match self {
            NixError::UndefinedVar(name, pos) => join_two(
                "undefined variable '",
                symbols.name(*name).as_str(),
                "' at '",
                pos.to_string(symbols).as_str(),
                "'",
            ),
            NixError::VarLookupUnevaluated(name) => join(
                "variable '",
                symbols.name(*name).as_str(),
                "' was not evaluated",
            ),
            NixError::Type { expected, actual } => join_two(
                "type error: value is ",
                actual.phrase(),
                " while ",
                expected.phrase(),
                " was expected",
            ),
            NixError::InfiniteRecursion(pos) => join(
                "infinite recursion encountered at '",
                pos.to_string(symbols).as_str(),
                "'",
            ),
            NixError::MissingAttr(name, pos) => join_two(
                "attribute '",
                symbols.name(*name).as_str(),
                "' missing at '",
                pos.to_string(symbols).as_str(),
                "'",
            ),
            NixError::DuplicateAttr(name, pos) => join_two(
                "attribute '",
                symbols.name(*name).as_str(),
                "' already defined at '",
                pos.to_string(symbols).as_str(),
                "'",
            ),
            NixError::MissingFormal(name, pos) => join_two(
                "function at '",
                pos.to_string(symbols).as_str(),
                "' called without required argument '",
                symbols.name(*name).as_str(),
                "'",
            ),
            NixError::UnexpectedArg(name, pos) => join_two(
                "function at '",
                pos.to_string(symbols).as_str(),
                "' called with unexpected argument '",
                symbols.name(*name).as_str(),
                "'",
            ),
            NixError::CallArity { takes, given } => join_two(
                "built-in function takes ",
                decimal_string(*takes).as_str(),
                " arguments but was given ",
                decimal_string(*given).as_str(),
                "",
            ),
            NixError::NotAFunction(kind) => join(
                "attempt to call something which is not a function but ",
                kind.phrase(),
                "",
            ),
            NixError::AssertionFailed(pos) => join(
                "assertion failed at '",
                pos.to_string(symbols).as_str(),
                "'",
            ),
            NixError::IntegerOverflow => String::from_str("integer overflow"),
            NixError::DivisionByZero => String::from_str("division by zero"),
            NixError::DepthExhausted => String::from_str("evaluation depth exhausted"),
            NixError::UnknownSymbol(_) => String::from_str("symbol of another evaluator"),
            NixError::ScopesTooDeep => String::from_str("scopes nest too deep"),
            NixError::BadReference => String::from_str("reference outside the evaluator's state"),
        }
    }
}

/// The result of resolution or evaluation.
pub type NixResult<T> = Result<T, NixError>;

} // verus!
