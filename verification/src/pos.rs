//! Source positions, attached to expression nodes and carried by failures.

use crate::symbol_table::{Symbol, SymbolTable};
use vstd::prelude::*;
use vstd::string::*;

verus! {

/// The character of a decimal digit.
pub open spec fn digit_char(d: int) -> char
    recommends
        0 <= d < 10,
{
    if d == 0 {
        '0'
    } else if d == 1 {
        '1'
    } else if d == 2 {
        '2'
    } else if d == 3 {
        '3'
    } else if d == 4 {
        '4'
    } else if d == 5 {
        '5'
    } else if d == 6 {
        '6'
    } else if d == 7 {
        '7'
    } else if d == 8 {
        '8'
    } else {
        '9'
    }
}

/// The decimal numeral of `n`, without leading zeros.
pub open spec fn decimal(n: nat) -> Seq<char>
    decreases n,
{
    if n < 10 {
        seq![digit_char(n as int)]
    } else {
        decimal(n / 10).push(digit_char((n % 10) as int))
    }
}

fn digit_str(d: usize) -> (s: &'static str)
    requires
        d < 10,
    ensures
        s@ == seq![digit_char(d as int)],
{
    proof {
        reveal_strlit("0");
        reveal_strlit("1");
        reveal_strlit("2");
        reveal_strlit("3");
        reveal_strlit("4");
        reveal_strlit("5");
        reveal_strlit("6");
        reveal_strlit("7");
        reveal_strlit("8");
        reveal_strlit("9");
    }
    let s = if d == 0 {
        "0"
    } else if d == 1 {
        "1"
    } else if d == 2 {
        "2"
    } else if d == 3 {
        "3"
    } else if d == 4 {
        "4"
    } else if d == 5 {
        "5"
    } else if d == 6 {
        "6"
    } else if d == 7 {
        "7"
    } else if d == 8 {
        "8"
    } else {
        "9"
    };
    assert(s@ =~= seq![digit_char(d as int)]);
    s
}

/// Writes `n` as a decimal numeral.
pub fn decimal_string(n: usize) -> (s: String)
    ensures
        s@ == decimal(n as nat),
    decreases n,
{
    if n < 10 {
        String::from_str(digit_str(n))
    } else {
        let mut s = decimal_string(n / 10);
        s.append(digit_str(n % 10));
        assert(s@ =~= decimal(n as nat));
        s
    }
}

/// A known position whose file is a symbol of the evaluator's table.
#[derive(Clone, Copy, Debug, PartialEq, Eq, Structural)]
pub struct KnownPos {
    pub file: Symbol,
    /// Counted from 1.
    pub line: usize,
    /// Counted from 1.
    pub column: usize,
}

/// A known position that carries its file name itself, so that it can
/// outlive the symbol table.
#[derive(Debug)]
pub struct OwnedKnownPos {
    pub file: String,
    pub line: usize,
    pub column: usize,
}

/// Where in the source text an expression stands, if that is known.
#[derive(Clone, Copy, Debug, PartialEq, Eq, Structural)]
pub enum Pos {
    Undefined,
    Known(KnownPos),
}

/// A position that carries its file name itself.
#[derive(Debug)]
pub enum OwnedPos {
    Undefined,
    Known(OwnedKnownPos),
}

/// The text shown for a position that is not known.
pub open spec fn undefined_position_text() -> Seq<char> {
    "undefined position"@
}

impl KnownPos {
    /// The same position with the file's symbol replaced by its text.
    pub open spec fn owned(&self, symbols: &SymbolTable) -> OwnedKnownPos {
        OwnedKnownPos { file: symbols.text(self.file), line: self.line, column: self.column }
    }

    /// Resolves the file's symbol to its text.
    pub fn to_owned(&self, symbols: &SymbolTable) -> (pos: OwnedKnownPos)
        requires
            symbols.has(self.file),
        ensures
            pos == self.owned(symbols),
            pos.file@ == symbols@[self.file as int],
            pos.line == self.line,
            pos.column == self.column,
    {
        OwnedKnownPos {
            file: symbols.name(self.file).clone(),
            line: self.line,
            column: self.column,
        }
    }

    /// Renders the position as `file:line:column`.
    pub fn to_string(&self, symbols: &SymbolTable) -> (s: String)
        requires
            symbols.has(self.file),
        ensures
            s@ == self.owned(symbols).rendered(),
    {
        self.to_owned(symbols).to_string()
    }
}

impl OwnedKnownPos {
    /// The text `file:line:column`.
    pub open spec fn rendered(&self) -> Seq<char> {
        self.file@ + seq![':'] + decimal(self.line as nat) + seq![':'] + decimal(
            self.column as nat,
        )
    }

    /// Renders the position as `file:line:column`.
    pub fn to_string(&self) -> (s: String)
        ensures
            s@ == self.rendered(),
    {
        proof {
            reveal_strlit(":");
        }
        let mut s = self.file.clone();
        s.append(":");
        s.append(decimal_string(self.line).as_str());
        s.append(":");
        s.append(decimal_string(self.column).as_str());
        assert(s@ =~= self.rendered());
        s
    }
}

impl Pos {
    /// The same position with the file's symbol replaced by its text.
    pub open spec fn owned(&self, symbols: &SymbolTable) -> OwnedPos {
        match self {
            Pos::Undefined => OwnedPos::Undefined,
            Pos::Known(pos) => OwnedPos::Known(pos.owned(symbols)),
        }
    }

    /// Whether the file of the position, if it has one, is a symbol of
    /// `symbols`.
    pub open spec fn within(&self, symbols: &SymbolTable) -> bool {
        match self {
            Pos::Undefined => true,
            Pos::Known(pos) => symbols.has(pos.file),
        }
    }

    /// Resolves the file's symbol to its text.
    pub fn to_owned(&self, symbols: &SymbolTable) -> (pos: OwnedPos)
        requires
            self.within(symbols),
        ensures
            pos == self.owned(symbols),
    {
        match self {
            Pos::Undefined => OwnedPos::Undefined,
            Pos::Known(pos) => OwnedPos::Known(pos.to_owned(symbols)),
        }
    }

    /// Renders the position as `file:line:column`, or as
    /// `undefined position`.
    pub fn to_string(&self, symbols: &SymbolTable) -> (s: String)
        requires
            self.within(symbols),
        ensures
            s@ == self.owned(symbols).rendered(),
    {
        self.to_owned(symbols).to_string()
    }
}

impl OwnedPos {
    /// The text shown for the position.
    pub open spec fn rendered(&self) -> Seq<char> {
        match self {
            OwnedPos::Undefined => undefined_position_text(),
            OwnedPos::Known(pos) => pos.rendered(),
        }
    }

    /// Renders the position as `file:line:column`, or as
    /// `undefined position`.
    pub fn to_string(&self) -> (s: String)
        ensures
            s@ == self.rendered(),
    {
        match self {
            OwnedPos::Undefined => String::from_str("undefined position"),
            OwnedPos::Known(pos) => pos.to_string(),
        }
    }
}

} // verus!
