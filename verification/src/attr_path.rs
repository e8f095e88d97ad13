//! The textual attribute path: components separated by dots, where a
//! component is a bare run of characters or a double-quoted string that may
//! hold dots.

use vstd::prelude::*;
use vstd::string::*;

verus! {

/// Why a text is not an attribute path.
#[derive(Clone, Copy, Debug, PartialEq, Eq, Structural)]
pub enum AttrPathError {
    /// The text is empty.
    EmptyPath,
    /// A bare component is empty: a dot stands first, last, or beside
    /// another dot.
    EmptyComponent,
    /// A component opens a quote that is never closed.
    UnterminatedQuote,
    /// A closing quote is followed by something other than a dot.
    UnexpectedAfterQuote,
}

/// The first index at or after `from` at which `s` holds `c`, or the length
/// of `s` if there is none.
pub open spec fn find_char(s: Seq<char>, c: char, from: int) -> int
    decreases s.len() - from,
{
    if from >= s.len() {
        s.len() as int
    } else if s[from] == c {
        from
    } else {
        find_char(s, c, from + 1)
    }
}

/// Puts `first` in front of the components that follow it, if those were
/// read without failure.
pub open spec fn prepend(first: Seq<char>, rest: Result<Seq<Seq<char>>, AttrPathError>) -> Result<
    Seq<Seq<char>>,
    AttrPathError,
> {
    match rest {
        Ok(components) => Ok(seq![first] + components),
        Err(e) => Err(e),
    }
}

/// The components of `s` from index `start` on, where a component begins.
///
/// A component that begins with a quote runs to the next quote, which must be
/// followed by a dot or by the end of the text. Any other component runs to
/// the next dot or to the end of the text, and must not be empty.
pub open spec fn components_from(s: Seq<char>, start: int) -> Result<Seq<Seq<char>>, AttrPathError>
    decreases s.len() - start,
{
    if start < 0 || start >= s.len() {
        Err(AttrPathError::EmptyComponent)
    } else if s[start] == '"' {
        let close = find_char(s, '"', start + 1);
        if close >= s.len() {
            Err(AttrPathError::UnterminatedQuote)
        } else if close + 1 == s.len() {
            Ok(seq![s.subrange(start + 1, close)])
        } else if s[close + 1] != '.' {
            Err(AttrPathError::UnexpectedAfterQuote)
        } else {
            proof {
                lemma_find_char(s, '"', start + 1);
            }
            prepend(s.subrange(start + 1, close), components_from(s, close + 2))
        }
    } else {
        let end = find_char(s, '.', start);
        if end == start {
            Err(AttrPathError::EmptyComponent)
        } else if end >= s.len() {
            Ok(seq![s.subrange(start, end)])
        } else {
            proof {
                lemma_find_char(s, '.', start);
            }
            prepend(s.subrange(start, end), components_from(s, end + 1))
        }
    }
}

/// The components of the attribute path `s`, or the reason why `s` is none.
pub open spec fn attr_path_components(s: Seq<char>) -> Result<Seq<Seq<char>>, AttrPathError> {
    if s.len() == 0 {
        Err(AttrPathError::EmptyPath)
    } else {
        components_from(s, 0)
    }
}

/// The texts of a list of string slices.
pub open spec fn texts(components: Seq<&str>) -> Seq<Seq<char>> {
    Seq::new(components.len(), |i: int| components[i]@)
}

/// `find_char` stays within the text and finds the first occurrence.
pub proof fn lemma_find_char(s: Seq<char>, c: char, from: int)
    requires
        0 <= from <= s.len(),
    ensures
        from <= find_char(s, c, from) <= s.len(),
        find_char(s, c, from) < s.len() ==> s[find_char(s, c, from)] == c,
        forall|i: int| from <= i < find_char(s, c, from) ==> s[i] != c,
    decreases s.len() - from,
{
    if from < s.len() && s[from] != c {
        lemma_find_char(s, c, from + 1);
    }
}

/// Whether a component can be written without quotes: it is not empty,
/// does not begin with a quote and holds no dot.
pub open spec fn is_bare(component: Seq<char>) -> bool {
    component.len() > 0 && component[0] != '"' && !component.contains('.')
}

/// Whether a component can be written at all: without quotes, or between
/// quotes, for which it must hold none.
pub open spec fn writable(component: Seq<char>) -> bool {
    is_bare(component) || !component.contains('"')
}

/// A component as it is written in a path: as it stands if it can be
/// written without quotes, else between quotes.
pub open spec fn written(component: Seq<char>) -> Seq<char> {
    if is_bare(component) {
        component
    } else {
        seq!['"'] + component + seq!['"']
    }
}

/// The path that is written for a list of components.
pub open spec fn written_path(components: Seq<Seq<char>>) -> Seq<char>
    decreases components.len(),
{
    if components.len() == 0 {
        Seq::empty()
    } else if components.len() == 1 {
        written(components[0])
    } else {
        written(components[0]) + seq!['.'] + written_path(components.drop_first())
    }
}

/// Where `c` stands at `from + k` and nowhere between `from` and there, or
/// nowhere from `from` on with `from + k` the end, the search from `from`
/// ends at `from + k`.
pub proof fn lemma_find_char_at(s: Seq<char>, c: char, from: int, k: int)
    requires
        0 <= from,
        0 <= k,
        from + k <= s.len(),
        forall|j: int| from <= j < from + k ==> s[j] != c,
        from + k == s.len() || s[from + k] == c,
    ensures
        find_char(s, c, from) == from + k,
    decreases k,
{
    if k > 0 {
        lemma_find_char_at(s, c, from + 1, k - 1);
    }
}

proof fn lemma_round_trip_from(prefix: Seq<char>, components: Seq<Seq<char>>)
    requires
        components.len() > 0,
        forall|i: int| 0 <= i < components.len() ==> writable(#[trigger] components[i]),
    ensures
        components_from(prefix + written_path(components), prefix.len() as int) == Ok::<
            _,
            AttrPathError,
        >(components),
    decreases components.len(),
{
    let c = components[0];
    let w = written(c);
    let rest = components.drop_first();
    let s = prefix + written_path(components);
    let start = prefix.len() as int;
    assert(writable(c));
    assert(components =~= seq![c] + rest);
    if components.len() == 1 {
        assert(s =~= prefix + w);
    } else {
        assert(s =~= prefix + w + seq!['.'] + written_path(rest));
        assert forall|i: int| 0 <= i < rest.len() implies writable(#[trigger] rest[i]) by {
            assert(rest[i] == components[i + 1]);
        }
        lemma_round_trip_from(prefix + w + seq!['.'], rest);
        assert((prefix + w + seq!['.']) + written_path(rest) =~= s);
    }
    if is_bare(c) {
        assert(w == c);
        assert(s[start] == c[0]);
        assert forall|j: int| start <= j < start + c.len() implies s[j] != '.' by {
            assert(s[j] == c[j - start]);
            assert(c.contains(c[j - start]));
        }
        if components.len() > 1 {
            assert(s[start + c.len()] == '.');
        }
        lemma_find_char_at(s, '.', start, c.len() as int);
        assert(s.subrange(start, start + c.len()) =~= c);
    } else {
        assert(w =~= seq!['"'] + c + seq!['"']);
        assert(s[start] == '"');
        assert forall|j: int| start + 1 <= j < start + 1 + c.len() implies s[j] != '"' by {
            assert(s[j] == c[j - start - 1]);
            assert(c.contains(c[j - start - 1]));
        }
        assert(s[start + 1 + c.len()] == '"');
        lemma_find_char_at(s, '"', start + 1, c.len() as int);
        assert(s.subrange(start + 1, start + 1 + c.len()) =~= c);
        if components.len() > 1 {
            assert(s[start + c.len() + 2] == '.');
        }
    }
}

/// Reading a written path gives back its components: for every list,
/// not empty, of components that can be written, the path written for it
/// is split into these components again.
pub proof fn lemma_round_trip(components: Seq<Seq<char>>)
    requires
        components.len() > 0,
        forall|i: int| 0 <= i < components.len() ==> writable(#[trigger] components[i]),
    ensures
        attr_path_components(written_path(components)) == Ok::<_, AttrPathError>(components),
{
    lemma_round_trip_from(Seq::empty(), components);
    assert(Seq::<char>::empty() + written_path(components) =~= written_path(components));
    lemma_written_path_not_empty(components);
}

proof fn lemma_written_path_not_empty(components: Seq<Seq<char>>)
    requires
        components.len() > 0,
    ensures
        written_path(components).len() > 0,
{
    let c = components[0];
    if is_bare(c) {
        assert(written(c).len() > 0);
    } else {
        assert(written(c).len() == c.len() + 2);
    }
}

/// Scans `input` from `from` for the character `c`.
fn scan(input: &str, len: usize, c: char, from: usize) -> (at: usize)
    requires
        len == input@.len(),
        from <= len,
    ensures
        at == find_char(input@, c, from as int),
        from <= at <= len,
{
    let mut i: usize = from;
    while i < len && input.get_char(i) != c
        invariant
            len == input@.len(),
            from <= i <= len,
            find_char(input@, c, from as int) == find_char(input@, c, i as int),
        decreases len - i,
    {
        i += 1;
    }
    proof {
        lemma_find_char(input@, c, from as int);
    }
    i
}

/// Splits an attribute path into its components. Quotes around a component
/// are removed; the text between them is taken as it stands.
///
/// Fails on an empty path, on an empty bare component, and on malformed
/// quoting.
pub fn parse_attr_path<'a>(input: &'a str) -> (parsed: Result<Vec<&'a str>, AttrPathError>)
    ensures
        match parsed {
            Ok(components) => attr_path_components(input@) == Ok::<_, AttrPathError>(
                texts(components@),
            ),
            Err(e) => attr_path_components(input@) == Err::<Seq<Seq<char>>, _>(e),
        },
{
    let len = input.unicode_len();
    if len == 0 {
        return Err(AttrPathError::EmptyPath);
    }
    let mut components: Vec<&'a str> = Vec::new();
    let mut start: usize = 0;
    loop
        invariant
            len == input@.len(),
            len > 0,
            start <= len,
            match components_from(input@, start as int) {
                Ok(rest) => components_from(input@, 0) == Ok::<_, AttrPathError>(
                    texts(components@) + rest,
                ),
                Err(e) => components_from(input@, 0) == Err::<Seq<Seq<char>>, _>(e),
            },
        decreases len - start,
    {
        if start >= len {
            return Err(AttrPathError::EmptyComponent);
        }
        let ghost before = texts(components@);
        if input.get_char(start) == '"' {
            let close = scan(input, len, '"', start + 1);
            if close >= len {
                return Err(AttrPathError::UnterminatedQuote);
            }
            components.push(input.substring_char(start + 1, close));
            assert(texts(components@) =~= before + seq![
                input@.subrange(start as int + 1, close as int),
            ]);
            if close + 1 == len {
                assert(texts(components@) =~= before + seq![
                    input@.subrange(start as int + 1, close as int),
                ]);
                return Ok(components);
            }
            if input.get_char(close + 1) != '.' {
                return Err(AttrPathError::UnexpectedAfterQuote);
            }
            proof {
                let first = input@.subrange(start as int + 1, close as int);
                match components_from(input@, close as int + 2) {
                    Ok(rest) => {
                        assert(before + (seq![first] + rest) =~= texts(components@) + rest);
                    },
                    Err(e) => {},
                }
            }
            start = close + 2;
        } else {
            let end = scan(input, len, '.', start);
            if end == start {
                return Err(AttrPathError::EmptyComponent);
            }
            components.push(input.substring_char(start, end));
            assert(texts(components@) =~= before + seq![
                input@.subrange(start as int, end as int),
            ]);
            if end >= len {
                return Ok(components);
            }
            proof {
                let first = input@.subrange(start as int, end as int);
                match components_from(input@, end as int + 1) {
                    Ok(rest) => {
                        assert(before + (seq![first] + rest) =~= texts(components@) + rest);
                    },
                    Err(e) => {},
                }
            }
            start = end + 1;
        }
    }
}

} // verus!
