//! Attribute sets: maps from symbols to value slots, enumerated in the order
//! of the texts of their names.

use crate::pos::Pos;
use crate::symbol_table::{
    lemma_symbol_less_asymmetric, lemma_symbol_less_irreflexive, lemma_symbol_less_total,
    lemma_symbol_less_transitive, symbol_less, Symbol, SymbolTable,
};
use std::collections::HashMap;
use vstd::prelude::*;
use vstd::std_specs::hash::*;
use vstd::std_specs::iter::IteratorSpec;

verus! {

broadcast use vstd::std_specs::hash::group_hash_axioms;

/// The slot of a value in the evaluator's state.
pub type ValueRef = usize;

/// What an attribute set holds under a name: the slot of the value, and
/// where the attribute was defined.
#[derive(Clone, Copy, Debug, PartialEq, Eq, Structural)]
pub struct AttrValue {
    pub value: ValueRef,
    pub pos: Pos,
}

/// One attribute of a set.
#[derive(Clone, Copy, Debug, PartialEq, Eq, Structural)]
pub struct Attr {
    pub name: Symbol,
    pub value: AttrValue,
}

impl Attr {
    /// Whether the attribute stands before `other` in the order of their
    /// names.
    pub fn precedes(&self, other: &Attr, symbols: &SymbolTable) -> (before: bool)
        ensures
            before == symbol_less(symbols@, self.name, other.name),
    {
        symbols.less(self.name, other.name)
    }
}

/// An attribute set. Each name occurs at most once.
pub struct Bindings(pub HashMap<Symbol, AttrValue>);

/// Whether the attributes stand in the order of their names: each name
/// stands before the next in the order of symbols, which for the symbols of
/// the table is the order of their texts.
pub open spec fn sorted_by_text(attrs: Seq<Attr>, symbols: Seq<Seq<char>>) -> bool {
    forall|i: int, j: int|
        0 <= i < j < attrs.len() ==> symbol_less(symbols, attrs[i].name, attrs[j].name)
}

/// Whether `attrs` holds exactly the entries of `map`.
pub open spec fn enumerates(attrs: Seq<Attr>, map: Map<Symbol, AttrValue>) -> bool {
    &&& forall|i: int|
        0 <= i < attrs.len() ==> map.contains_key(#[trigger] attrs[i].name) && map[attrs[i].name]
            == attrs[i].value
    &&& forall|name: Symbol| #[trigger]
        map.contains_key(name) ==> exists|i: int| 0 <= i < attrs.len() && attrs[i].name == name
}

/// A map has one enumeration in the order of its names, whatever the order
/// in which its entries were inserted: two sorted sequences that hold
/// exactly the entries of one map are equal.
pub proof fn lemma_sorted_enumeration_unique(
    a: Seq<Attr>,
    b: Seq<Attr>,
    map: Map<Symbol, AttrValue>,
    symbols: Seq<Seq<char>>,
)
    requires
        sorted_by_text(a, symbols),
        sorted_by_text(b, symbols),
        enumerates(a, map),
        enumerates(b, map),
    ensures
        a == b,
    decreases a.len(),
{
    if a.len() == 0 {
        if b.len() > 0 {
            assert(map.contains_key(b[0].name));
        }
        assert(a =~= b);
    } else if b.len() == 0 {
        assert(map.contains_key(a[0].name));
    } else {
        // Both begin with the least name of the map.
        assert(map.contains_key(a[0].name));
        let i = choose|i: int| 0 <= i < b.len() && b[i].name == a[0].name;
        assert(map.contains_key(b[0].name));
        let j = choose|j: int| 0 <= j < a.len() && a[j].name == b[0].name;
        assert(a[0].name == b[0].name) by {
            if i > 0 {
                assert(symbol_less(symbols, b[0].name, b[i].name));
                if j > 0 {
                    assert(symbol_less(symbols, a[0].name, a[j].name));
                    lemma_symbol_less_asymmetric(symbols, a[0].name, b[0].name);
                } else {
                    lemma_symbol_less_irreflexive(symbols, a[0].name);
                }
            }
        }
        let rest = map.remove(a[0].name);
        let a1 = a.drop_first();
        let b1 = b.drop_first();
        assert(enumerates(a1, rest)) by {
            assert forall|k: int| 0 <= k < a1.len() implies rest.contains_key(
                #[trigger] a1[k].name,
            ) && rest[a1[k].name] == a1[k].value by {
                assert(a1[k] == a[k + 1]);
                assert(symbol_less(symbols, a[0].name, a[k + 1].name));
                lemma_symbol_less_irreflexive(symbols, a[0].name);
            }
            assert forall|name: Symbol| #[trigger] rest.contains_key(name) implies exists|k: int|
                0 <= k < a1.len() && a1[k].name == name by {
                assert(map.contains_key(name));
                let k = choose|k: int| 0 <= k < a.len() && a[k].name == name;
                assert(a1[k - 1] == a[k]);
            }
        }
        assert(enumerates(b1, rest)) by {
            assert forall|k: int| 0 <= k < b1.len() implies rest.contains_key(
                #[trigger] b1[k].name,
            ) && rest[b1[k].name] == b1[k].value by {
                assert(b1[k] == b[k + 1]);
                assert(symbol_less(symbols, b[0].name, b[k + 1].name));
                lemma_symbol_less_irreflexive(symbols, b[0].name);
            }
            assert forall|name: Symbol| #[trigger] rest.contains_key(name) implies exists|k: int|
                0 <= k < b1.len() && b1[k].name == name by {
                assert(map.contains_key(name));
                let k = choose|k: int| 0 <= k < b.len() && b[k].name == name;
                assert(b1[k - 1] == b[k]);
            }
        }
        assert(sorted_by_text(a1, symbols)) by {
            assert forall|x: int, y: int| 0 <= x < y < a1.len() implies symbol_less(
                symbols,
                a1[x].name,
                a1[y].name,
            ) by {
                assert(a1[x] == a[x + 1] && a1[y] == a[y + 1]);
            }
        }
        assert(sorted_by_text(b1, symbols)) by {
            assert forall|x: int, y: int| 0 <= x < y < b1.len() implies symbol_less(
                symbols,
                b1[x].name,
                b1[y].name,
            ) by {
                assert(b1[x] == b[x + 1] && b1[y] == b[y + 1]);
            }
        }
        lemma_sorted_enumeration_unique(a1, b1, rest, symbols);
        assert(a[0] == b[0]);
        assert(a =~= seq![a[0]] + a1);
        assert(b =~= seq![b[0]] + b1);
    }
}

/// `attrs` with `a` put before the first attribute whose name stands after
/// its own.
pub open spec fn placed(attrs: Seq<Attr>, a: Attr, symbols: Seq<Seq<char>>) -> Seq<Attr>
    decreases attrs.len(),
{
    if attrs.len() == 0 {
        seq![a]
    } else if symbol_less(symbols, a.name, attrs[0].name) {
        seq![a] + attrs
    } else {
        seq![attrs[0]] + placed(attrs.drop_first(), a, symbols)
    }
}

/// The index before which `placed` puts `a`.
pub open spec fn place_of(attrs: Seq<Attr>, a: Attr, symbols: Seq<Seq<char>>) -> int
    decreases attrs.len(),
{
    if attrs.len() == 0 {
        0
    } else if symbol_less(symbols, a.name, attrs[0].name) {
        0
    } else {
        1 + place_of(attrs.drop_first(), a, symbols)
    }
}

/// `placed` puts the attribute at its place: after the attributes whose
/// names stand before its own, before those whose names stand after.
pub proof fn lemma_place(attrs: Seq<Attr>, a: Attr, symbols: Seq<Seq<char>>)
    requires
        symbols.no_duplicates(),
        sorted_by_text(attrs, symbols),
        forall|i: int| 0 <= i < attrs.len() ==> attrs[i].name != a.name,
    ensures
        0 <= place_of(attrs, a, symbols) <= attrs.len(),
        forall|i: int|
            0 <= i < place_of(attrs, a, symbols) ==> symbol_less(symbols, attrs[i].name, a.name),
        forall|i: int|
            place_of(attrs, a, symbols) <= i < attrs.len() ==> symbol_less(
                symbols,
                a.name,
                attrs[i].name,
            ),
        placed(attrs, a, symbols) == attrs.take(place_of(attrs, a, symbols)).push(a) + attrs.skip(
            place_of(attrs, a, symbols),
        ),
    decreases attrs.len(),
{
    let k = place_of(attrs, a, symbols);
    if attrs.len() == 0 {
        assert(placed(attrs, a, symbols) =~= attrs.take(k).push(a) + attrs.skip(k));
    } else if symbol_less(symbols, a.name, attrs[0].name) {
        assert(placed(attrs, a, symbols) =~= attrs.take(k).push(a) + attrs.skip(k));
        assert forall|i: int| k <= i < attrs.len() implies symbol_less(
            symbols,
            a.name,
            attrs[i].name,
        ) by {
            if i > 0 {
                assert(symbol_less(symbols, attrs[0].name, attrs[i].name));
                lemma_symbol_less_transitive(symbols, a.name, attrs[0].name, attrs[i].name);
            }
        }
    } else {
        let rest = attrs.drop_first();
        assert forall|x: int, y: int| 0 <= x < y < rest.len() implies symbol_less(
            symbols,
            rest[x].name,
            rest[y].name,
        ) by {
            assert(rest[x] == attrs[x + 1] && rest[y] == attrs[y + 1]);
        }
        assert forall|i: int| 0 <= i < rest.len() implies rest[i].name != a.name by {
            assert(rest[i] == attrs[i + 1]);
        }
        lemma_place(rest, a, symbols);
        let j = place_of(rest, a, symbols);
        assert(k == j + 1);
        assert(attrs[0].name != a.name);
        lemma_symbol_less_total(symbols, a.name, attrs[0].name);
        assert forall|i: int| 0 <= i < k implies symbol_less(symbols, attrs[i].name, a.name) by {
            if i > 0 {
                assert(rest[i - 1] == attrs[i]);
            }
        }
        assert forall|i: int| k <= i < attrs.len() implies symbol_less(
            symbols,
            a.name,
            attrs[i].name,
        ) by {
            assert(rest[i - 1] == attrs[i]);
        }
        assert(placed(attrs, a, symbols) =~= attrs.take(k).push(a) + attrs.skip(k)) by {
            assert(placed(attrs, a, symbols) == seq![attrs[0]] + placed(rest, a, symbols));
            assert(placed(rest, a, symbols) == rest.take(j).push(a) + rest.skip(j));
            assert(rest.take(j) =~= attrs.subrange(1, k));
            assert(rest.skip(j) =~= attrs.skip(k));
        }
    }
}

/// Placing an attribute with a new name into the enumeration of a map
/// gives the enumeration of the map with the attribute.
pub proof fn lemma_placed(
    attrs: Seq<Attr>,
    a: Attr,
    map: Map<Symbol, AttrValue>,
    symbols: Seq<Seq<char>>,
)
    requires
        symbols.no_duplicates(),
        sorted_by_text(attrs, symbols),
        enumerates(attrs, map),
        !map.contains_key(a.name),
    ensures
        sorted_by_text(placed(attrs, a, symbols), symbols),
        enumerates(placed(attrs, a, symbols), map.insert(a.name, a.value)),
{
    assert forall|i: int| 0 <= i < attrs.len() implies attrs[i].name != a.name by {
        assert(map.contains_key(attrs[i].name));
    }
    lemma_place(attrs, a, symbols);
    let k = place_of(attrs, a, symbols);
    let p = placed(attrs, a, symbols);
    let m = map.insert(a.name, a.value);
    assert(p.len() == attrs.len() + 1);
    assert forall|i: int| 0 <= i < p.len() implies (#[trigger] p[i]) == (if i < k {
        attrs[i]
    } else if i == k {
        a
    } else {
        attrs[i - 1]
    }) by {}
    assert forall|x: int, y: int| 0 <= x < y < p.len() implies symbol_less(
        symbols,
        p[x].name,
        p[y].name,
    ) by {
        if y < k {
            assert(symbol_less(symbols, attrs[x].name, attrs[y].name));
        } else if y == k {
        } else if x < k {
            assert(symbol_less(symbols, attrs[x].name, a.name));
            assert(symbol_less(symbols, a.name, attrs[y - 1].name));
            lemma_symbol_less_transitive(symbols, attrs[x].name, a.name, attrs[y - 1].name);
        } else if x == k {
        } else {
            assert(symbol_less(symbols, attrs[x - 1].name, attrs[y - 1].name));
        }
    }
    assert forall|i: int| 0 <= i < p.len() implies m.contains_key(#[trigger] p[i].name)
        && m[p[i].name] == p[i].value by {
        if i < k {
            assert(map.contains_key(attrs[i].name));
        } else if i > k {
            assert(map.contains_key(attrs[i - 1].name));
        }
    }
    assert forall|name: Symbol| #[trigger] m.contains_key(name) implies exists|i: int|
        0 <= i < p.len() && p[i].name == name by {
        if name == a.name {
            assert(p[k].name == name);
        } else {
            assert(map.contains_key(name));
            let j = choose|j: int| 0 <= j < attrs.len() && attrs[j].name == name;
            if j < k {
                assert(p[j].name == name);
            } else {
                assert(p[j + 1].name == name);
            }
        }
    }
}

/// A map of finitely many names has an enumeration in the order of its
/// names, where the table interns no text twice.
pub proof fn lemma_sorted_enumeration_exists(map: Map<Symbol, AttrValue>, symbols: Seq<Seq<char>>)
    requires
        symbols.no_duplicates(),
        map.dom().finite(),
    ensures
        exists|attrs: Seq<Attr>| sorted_by_text(attrs, symbols) && enumerates(attrs, map),
    decreases map.dom().len(),
{
    if map.dom().len() == 0 {
        let attrs = Seq::<Attr>::empty();
        assert forall|name: Symbol| #[trigger] map.contains_key(name) implies exists|i: int|
            0 <= i < attrs.len() && attrs[i].name == name by {
            assert(map.dom().contains(name));
            assert(map.dom().len() > 0);
        }
        assert(sorted_by_text(attrs, symbols) && enumerates(attrs, map));
    } else {
        let name = map.dom().choose();
        assert(map.dom().contains(name));
        let rest = map.remove(name);
        assert(rest.dom() =~= map.dom().remove(name));
        lemma_sorted_enumeration_exists(rest, symbols);
        let s = choose|attrs: Seq<Attr>| sorted_by_text(attrs, symbols) && enumerates(attrs, rest);
        let a = Attr { name, value: map[name] };
        lemma_placed(s, a, rest, symbols);
        assert(rest.insert(name, map[name]) =~= map);
        assert(sorted_by_text(placed(s, a, symbols), symbols) && enumerates(
            placed(s, a, symbols),
            map,
        ));
    }
}

impl View for Bindings {
    type V = Map<Symbol, AttrValue>;

    open spec fn view(&self) -> Map<Symbol, AttrValue> {
        self.0@
    }
}

impl Bindings {
    /// The empty set.
    pub fn new() -> (bindings: Bindings)
        ensures
            bindings@ == Map::<Symbol, AttrValue>::empty(),
    {
        Bindings(HashMap::new())
    }

    /// The number of attributes.
    pub fn len(&self) -> (n: usize)
        ensures
            n == self@.len(),
    {
        self.0.len()
    }

    /// What the set holds under `name`.
    pub fn get(&self, name: Symbol) -> (found: Option<AttrValue>)
        ensures
            found == if self@.contains_key(name) {
                Some(self@[name])
            } else {
                None
            },
    {
        match self.0.get(&name) {
            Some(value) => Some(*value),
            None => None,
        }
    }

    /// Binds `name` to `value`, in place of what `name` was bound to.
    /// Returns what `name` was bound to before.
    pub fn insert(&mut self, name: Symbol, value: AttrValue) -> (previous: Option<AttrValue>)
        ensures
            final(self)@ == old(self)@.insert(name, value),
            previous == if old(self)@.contains_key(name) {
                Some(old(self)@[name])
            } else {
                None
            },
    {
        self.0.insert(name, value)
    }

    /// A copy of the set.
    pub fn duplicate(&self) -> (copy: Bindings)
        ensures
            copy@ == self@,
    {
        Bindings(self.0.clone())
    }

    /// The set that holds the attributes of both sets, and under a name
    /// that both hold what `other` holds.
    pub fn updated(&self, other: &Bindings) -> (merged: Bindings)
        ensures
            merged@ == self@.union_prefer_right(other@),
    {
        let mut merged = self.duplicate();
        let attrs = other.unsorted();
        let mut i: usize = 0;
        while i < attrs.len()
            invariant
                i <= attrs@.len(),
                enumerates(attrs@, other@),
                forall|name: Symbol|
                    merged@.contains_key(name) <==> (self@.contains_key(name) || exists|j: int|
                        0 <= j < i && attrs@[j].name == name),
                forall|name: Symbol| #[trigger]
                    merged@.contains_key(name) ==> merged@[name] == if other@.contains_key(name)
                        && exists|j: int| 0 <= j < i && attrs@[j].name == name {
                        other@[name]
                    } else {
                        self@[name]
                    },
            decreases attrs@.len() - i,
        {
            merged.insert(attrs[i].name, attrs[i].value);
            i += 1;
        }
        assert(merged@ =~= self@.union_prefer_right(other@));
        merged
    }

    /// The attributes in the order in which the map happens to hold them.
    fn unsorted(&self) -> (attrs: Vec<Attr>)
        ensures
            enumerates(attrs@, self@),
            attrs@.len() == self@.len(),
            forall|i: int, j: int|
                0 <= i < j < attrs@.len() ==> attrs@[i].name != attrs@[j].name,
    {
        let mut attrs: Vec<Attr> = Vec::new();
        let ghost entries = spec_hash_map_iter(&self.0).remaining();
        for entry in it: self.0.iter()
            invariant
                entries == it.seq(),
                entries == spec_hash_map_iter(&self.0).remaining(),
                entries.no_duplicates(),
                attrs@.len() == it.index(),
                forall|i: int|
                    0 <= i < attrs@.len() ==> (#[trigger] attrs@[i]) == (Attr {
                        name: *entries[i].0,
                        value: *entries[i].1,
                    }),
        {
            assert(entry == entries[it.index() as int]);
            let ghost before = attrs@;
            attrs.push(Attr { name: *entry.0, value: *entry.1 });
            assert(attrs@ == before.push(Attr { name: *entry.0, value: *entry.1 }));
        }
        proof {
            axiom_spec_hash_map_iter(&self.0);
            assert forall|name: Symbol| #[trigger] self@.contains_key(name) implies exists|i: int|
                0 <= i < attrs@.len() && attrs@[i].name == name by {
                assert(entries.contains((&name, &self@[name])));
                let i = choose|i: int| 0 <= i < entries.len() && entries[i] == (&name, &self@[name]);
                assert(attrs@[i].name == name);
            }
            assert forall|i: int, j: int| 0 <= i < j < attrs@.len() implies attrs@[i].name
                != attrs@[j].name by {
                if attrs@[i].name == attrs@[j].name {
                    assert(self@.contains_key(*entries[i].0));
                    assert(self@.contains_key(*entries[j].0));
                    assert(*entries[i].1 == self@[*entries[i].0]);
                    assert(*entries[j].1 == self@[*entries[j].0]);
                    assert(entries[i] == entries[j]);
                }
            }
        }
        attrs
    }

    /// The attributes in the order of their names, which for the symbols of
    /// `symbols` is the order of their texts. The result depends on the set
    /// and on the texts alone, not on the order in which the attributes
    /// were inserted or the names interned.
    pub fn sorted(&self, symbols: &SymbolTable) -> (attrs: Vec<Attr>)
        requires
            symbols.wf(),
        ensures
            sorted_by_text(attrs@, symbols@),
            enumerates(attrs@, self@),
            attrs@.len() == self@.len(),
    {
        let mut attrs = self.unsorted();
        let n = attrs.len();
        let mut i: usize = 1;
        // Insertion sort: the first `i` attributes are in order.
        while i < n
            invariant
                symbols.wf(),
                n == attrs@.len(),
                n == self@.len(),
                1 <= i || n == 0,
                i <= n || n == 0,
                enumerates(attrs@, self@),
                forall|x: int, y: int|
                    0 <= x < y < attrs@.len() ==> attrs@[x].name != attrs@[y].name,
                forall|x: int, y: int|
                    0 <= x < y < i ==> symbol_less(symbols@, attrs@[x].name, attrs@[y].name),
            decreases n - i,
        {
            let mut j: usize = i;
            while j > 0 && attrs[j].precedes(&attrs[j - 1], symbols)
                invariant
                    symbols.wf(),
                    n == attrs@.len(),
                    n == self@.len(),
                    j <= i < n,
                    enumerates(attrs@, self@),
                    forall|x: int, y: int|
                        0 <= x < y < attrs@.len() ==> attrs@[x].name != attrs@[y].name,
                    forall|x: int, y: int|
                        0 <= x < y <= i && x != j && y != j ==> symbol_less(
                            symbols@,
                            attrs@[x].name,
                            attrs@[y].name,
                        ),
                    forall|y: int|
                        j < y <= i ==> symbol_less(
                            symbols@,
                            attrs@[j as int].name,
                            (#[trigger] attrs@[y]).name,
                        ),
                decreases j,
            {
                let ghost before = attrs@;
                let lower = attrs[j - 1];
                let upper = attrs[j];
                attrs.set(j - 1, upper);
                attrs.set(j, lower);
                proof {
                    assert forall|name: Symbol| #[trigger] self@.contains_key(name) implies exists|
                        k: int,
                    |
                        0 <= k < attrs@.len() && attrs@[k].name == name by {
                        let k = choose|k: int| 0 <= k < before.len() && before[k].name == name;
                        if k == j {
                            assert(attrs@[j - 1].name == name);
                        } else if k == j - 1 {
                            assert(attrs@[j as int].name == name);
                        } else {
                            assert(attrs@[k].name == name);
                        }
                    }
                    assert forall|x: int, y: int| 0 <= x < y < attrs@.len() implies attrs@[x].name
                        != attrs@[y].name by {
                        let px = if x == j { j - 1 } else if x == j - 1 { j as int } else { x };
                        let py = if y == j { j - 1 } else if y == j - 1 { j as int } else { y };
                        assert(attrs@[x] == before[px] && attrs@[y] == before[py]);
                        if px < py {
                            assert(before[px].name != before[py].name);
                        } else {
                            assert(before[py].name != before[px].name);
                        }
                    }
                    assert forall|x: int, y: int|
                        0 <= x < y <= i && x != j - 1 && y != j - 1 implies symbol_less(
                        symbols@,
                        attrs@[x].name,
                        attrs@[y].name,
                    ) by {
                        if y == j {
                            assert(symbol_less(symbols@, before[x].name, before[j - 1].name));
                        } else if x == j {
                            assert(symbol_less(symbols@, before[j - 1].name, before[y].name));
                        } else {
                            assert(symbol_less(symbols@, before[x].name, before[y].name));
                        }
                    }
                    assert forall|y: int| j - 1 < y <= i implies symbol_less(
                        symbols@,
                        attrs@[j - 1].name,
                        (#[trigger] attrs@[y]).name,
                    ) by {
                        if y > j {
                            assert(symbol_less(symbols@, before[j as int].name, before[y].name));
                        }
                    }
                }
                j -= 1;
            }
            proof {
                assert forall|x: int, y: int| 0 <= x < y < i + 1 implies symbol_less(
                    symbols@,
                    attrs@[x].name,
                    attrs@[y].name,
                ) by {
                    if y == j && x < j {
                        lemma_symbol_less_total(
                            symbols@,
                            attrs@[j - 1].name,
                            attrs@[j as int].name,
                        );
                        if x < j - 1 {
                            assert(symbol_less(symbols@, attrs@[x].name, attrs@[j - 1].name));
                            lemma_symbol_less_transitive(
                                symbols@,
                                attrs@[x].name,
                                attrs@[j - 1].name,
                                attrs@[j as int].name,
                            );
                        }
                    }
                }
            }
            i += 1;
        }
        attrs
    }
}

} // verus!
