//! Interning of identifier and string-key text.

use vstd::prelude::*;
use vstd::std_specs::iter::IteratorSpec;
use vstd::string::*;

verus! {

/// A handle for an interned string. Two symbols of one table are equal
/// exactly when their texts are equal, and they are ordered by their
/// texts (see `symbol_less`), not by the order in which they were interned.
pub type Symbol = usize;

/// Whether the text `a` stands before the text `b` in the order of the
/// dictionary: at the first place where they differ `a` has the lesser
/// character, or `a` ends there and `b` does not.
pub open spec fn text_less(a: Seq<char>, b: Seq<char>) -> bool
    decreases a.len(),
{
    if b.len() == 0 {
        false
    } else if a.len() == 0 {
        true
    } else if a[0] != b[0] {
        (a[0] as int) < (b[0] as int)
    } else {
        text_less(a.drop_first(), b.drop_first())
    }
}

/// No text stands before itself.
pub proof fn lemma_text_less_irreflexive(a: Seq<char>)
    ensures
        !text_less(a, a),
    decreases a.len(),
{
    if a.len() > 0 {
        lemma_text_less_irreflexive(a.drop_first());
    }
}

/// What stands before a text that stands before a third, stands before the
/// third.
pub proof fn lemma_text_less_transitive(a: Seq<char>, b: Seq<char>, c: Seq<char>)
    requires
        text_less(a, b),
        text_less(b, c),
    ensures
        text_less(a, c),
    decreases a.len(),
{
    if a.len() > 0 && a[0] == b[0] && b[0] == c[0] {
        lemma_text_less_transitive(a.drop_first(), b.drop_first(), c.drop_first());
    }
}

/// Of two texts that differ, one stands before the other.
pub proof fn lemma_text_less_total(a: Seq<char>, b: Seq<char>)
    ensures
        a == b || text_less(a, b) || text_less(b, a),
    decreases a.len(),
{
    if a.len() > 0 && b.len() > 0 && a[0] == b[0] {
        lemma_text_less_total(a.drop_first(), b.drop_first());
        if a.drop_first() == b.drop_first() {
            assert(a =~= seq![a[0]] + a.drop_first());
            assert(b =~= seq![b[0]] + b.drop_first());
        }
    } else if a.len() == 0 && b.len() == 0 {
        assert(a =~= b);
    } else if a.len() > 0 && b.len() > 0 {
        assert((a[0] as int) != (b[0] as int));
    }
}

/// The order of symbols: a symbol of the table stands before another if
/// its text stands before the other's in the order of the dictionary. A
/// handle that the table did not hand out stands after every symbol of the
/// table, and such handles stand in their own order.
pub open spec fn symbol_less(symbols: Seq<Seq<char>>, a: Symbol, b: Symbol) -> bool {
    if a < symbols.len() {
        if b < symbols.len() {
            text_less(symbols[a as int], symbols[b as int])
        } else {
            true
        }
    } else {
        b >= symbols.len() && a < b
    }
}

/// No symbol stands before itself.
pub proof fn lemma_symbol_less_irreflexive(symbols: Seq<Seq<char>>, a: Symbol)
    ensures
        !symbol_less(symbols, a, a),
{
    if a < symbols.len() {
        lemma_text_less_irreflexive(symbols[a as int]);
    }
}

/// The order of symbols goes on from symbol to symbol.
pub proof fn lemma_symbol_less_transitive(symbols: Seq<Seq<char>>, a: Symbol, b: Symbol, c: Symbol)
    requires
        symbol_less(symbols, a, b),
        symbol_less(symbols, b, c),
    ensures
        symbol_less(symbols, a, c),
{
    if a < symbols.len() && b < symbols.len() && c < symbols.len() {
        lemma_text_less_transitive(symbols[a as int], symbols[b as int], symbols[c as int]);
    }
}

/// Of two symbols, at most one stands before the other.
pub proof fn lemma_symbol_less_asymmetric(symbols: Seq<Seq<char>>, a: Symbol, b: Symbol)
    requires
        symbol_less(symbols, a, b),
    ensures
        !symbol_less(symbols, b, a),
{
    if symbol_less(symbols, b, a) {
        lemma_symbol_less_transitive(symbols, a, b, a);
        lemma_symbol_less_irreflexive(symbols, a);
    }
}

/// Where the table interns no text twice, one of two different symbols
/// stands before the other.
pub proof fn lemma_symbol_less_total(symbols: Seq<Seq<char>>, a: Symbol, b: Symbol)
    requires
        symbols.no_duplicates(),
        a != b,
    ensures
        symbol_less(symbols, a, b) || symbol_less(symbols, b, a),
{
    if a < symbols.len() && b < symbols.len() {
        lemma_text_less_total(symbols[a as int], symbols[b as int]);
    }
}

/// Whether the text `a` stands before the text `b` in the order of the
/// dictionary.
pub fn text_before(a: &str, b: &str) -> (before: bool)
    ensures
        before == text_less(a@, b@),
{
    let mut x = a.chars();
    let mut y = b.chars();
    proof {
        axiom_spec_iter(a);
        axiom_spec_iter(b);
    }
    loop
        invariant
            text_less(x.remaining(), y.remaining()) == text_less(a@, b@),
            x.obeys_prophetic_iter_laws(),
            y.obeys_prophetic_iter_laws(),
            x.decrease() is Some,
            y.decrease() is Some,
        decreases x.decrease()->0,
    {
        proof {
            broadcast use next_postcondition;

        }
        match y.next() {
            None => {
                return false;
            },
            Some(d) => match x.next() {
                None => {
                    return true;
                },
                Some(c) => {
                    if c != d {
                        return c < d;
                    }
                },
            },
        }
    }
}

/// Owns the text behind every symbol. Entries are never removed, so a symbol
/// stays valid for as long as the table lives.
pub struct SymbolTable {
    names: Vec<String>,
}

impl View for SymbolTable {
    type V = Seq<Seq<char>>;

    /// The interned texts, indexed by symbol.
    closed spec fn view(&self) -> Seq<Seq<char>> {
        Seq::new(self.names@.len(), |i: int| self.names@[i]@)
    }
}

impl SymbolTable {
    /// No text is interned twice.
    pub open spec fn wf(&self) -> bool {
        self@.no_duplicates()
    }

    /// Whether `sym` was handed out by this table.
    pub open spec fn has(&self, sym: Symbol) -> bool {
        (sym as int) < self@.len()
    }

    /// The text behind `sym`.
    pub closed spec fn text(&self, sym: Symbol) -> String
        recommends
            self.has(sym),
    {
        self.names@[sym as int]
    }

    /// The stored text of a symbol is the one the view shows.
    pub broadcast proof fn lemma_text_view(&self, sym: Symbol)
        requires
            self.has(sym),
        ensures
            #[trigger] self.text(sym)@ == self@[sym as int],
    {
    }

    /// An empty table.
    pub fn new() -> (table: SymbolTable)
        ensures
            table@ == Seq::<Seq<char>>::empty(),
            table.wf(),
    {
        let table = SymbolTable { names: Vec::new() };
        assert(table@ =~= Seq::<Seq<char>>::empty());
        table
    }

    /// The number of interned texts.
    pub fn len(&self) -> (n: usize)
        ensures
            n == self@.len(),
    {
        self.names.len()
    }

    /// The symbol of `s`, if `s` has been interned.
    pub fn lookup(&self, s: &String) -> (found: Option<Symbol>)
        ensures
            match found {
                Some(sym) => self.has(sym) && self@[sym as int] == s@ && forall|j: int|
                    0 <= j < sym ==> self@[j] != s@,
                None => !self@.contains(s@),
            },
    {
        let mut i: usize = 0;
        while i < self.names.len()
            invariant
                i <= self.names@.len(),
                forall|j: int| 0 <= j < i ==> self@[j] != s@,
            decreases self.names@.len() - i,
        {
            if self.names[i] == *s {
                return Some(i);
            }
            i += 1;
        }
        None
    }

    /// Interns `s`: returns the symbol that `s` already has, or adds `s` to
    /// the table and returns its new symbol. Interning equal text again
    /// returns the same symbol and leaves the table as it is.
    pub fn create(&mut self, s: String) -> (sym: Symbol)
        requires
            old(self).wf(),
        ensures
            final(self).wf(),
            final(self).has(sym),
            final(self)@[sym as int] == s@,
            old(self)@.contains(s@) ==> final(self)@ == old(self)@ && sym == old(self)@.index_of(
                s@,
            ),
            !old(self)@.contains(s@) ==> final(self)@ == old(self)@.push(s@) && sym == old(
                self,
            )@.len(),
    {
        match self.lookup(&s) {
            Some(sym) => {
                proof {
                    let k = old(self)@.index_of(s@);
                    assert(old(self)@[sym as int] == s@);
                    assert(old(self)@.contains(s@));
                    assert(k == sym);
                }
                sym
            },
            None => {
                let sym = self.names.len();
                self.names.push(s);
                assert(self@ =~= old(self)@.push(s@));
                assert(self@.no_duplicates()) by {
                    assert forall|i: int, j: int|
                        0 <= i < self@.len() && 0 <= j < self@.len() && i != j implies self@[i]
                        != self@[j] by {
                        if i < old(self)@.len() && j < old(self)@.len() {
                            assert(old(self)@[i] != old(self)@[j]);
                        } else if i < old(self)@.len() {
                            assert(old(self)@.contains(old(self)@[i]));
                        } else {
                            assert(old(self)@.contains(old(self)@[j]));
                        }
                    }
                }
                sym
            },
        }
    }

    /// Whether `a` stands before `b` in the order of symbols.
    pub fn less(&self, a: Symbol, b: Symbol) -> (before: bool)
        ensures
            before == symbol_less(self@, a, b),
    {
        if a < self.names.len() {
            if b < self.names.len() {
                text_before(self.names[a].as_str(), self.names[b].as_str())
            } else {
                true
            }
        } else {
            b >= self.names.len() && a < b
        }
    }

    /// The text of `sym`.
    pub fn name(&self, sym: Symbol) -> (text: &String)
        requires
            self.has(sym),
        ensures
            *text == self.text(sym),
            text@ == self@[sym as int],
    {
        &self.names[sym]
    }
}

} // verus!
