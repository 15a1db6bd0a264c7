//! The filter engine: optional predicates over entries, combined with AND,
//! and the validation of filter values given as text.

use vstd::prelude::*;
use crate::analysis::find_char;
use crate::store::{store_invariant, Entry, EntryView, Store};
use crate::text::{chars_of, parse_usize, parsed_usize};
use vstd::string::StrSliceExecFns;

verus! {

/// Why a query could not be answered.
#[derive(Debug, Clone, Copy, PartialEq, Eq, Structural)]
pub enum QueryError {
    /// A filter value does not parse into its expected type.
    ValidationError,
    /// No recognisable phrase was found in a free-text query.
    Unparseable,
    /// Mutually exclusive phrases were found in a free-text query.
    Conflicting,
}

/// A set of optional predicates; an entry must satisfy every one that is present.
#[derive(Debug, Clone, Copy, PartialEq, Eq)]
pub struct Filters {
    pub is_palindrome: Option<bool>,
    pub min_length: Option<usize>,
    pub max_length: Option<usize>,
    pub word_count: Option<usize>,
    pub contains_character: Option<char>,
}

/// Entry `e` satisfies every predicate present in `f`.
pub open spec fn satisfies(f: Filters, e: EntryView) -> bool {
    &&& (f.is_palindrome matches Some(b) ==> e.properties.is_palindrome == b)
    &&& (f.min_length matches Some(m) ==> e.properties.length >= m)
    &&& (f.max_length matches Some(m) ==> e.properties.length <= m)
    &&& (f.word_count matches Some(w) ==> e.properties.word_count == w)
    &&& (f.contains_character matches Some(c) ==> e.value.contains(c))
}

/// The predicate that `f` stands for.
pub open spec fn selects(f: Filters) -> spec_fn(EntryView) -> bool {
    |e: EntryView| satisfies(f, e)
}

/// `true` and `false`, and nothing else, are boolean filter values.
pub open spec fn parsed_bool(s: Seq<char>) -> Option<bool> {
    if s == "true"@ {
        Some(true)
    } else if s == "false"@ {
        Some(false)
    } else {
        None
    }
}

/// A character filter value is exactly one character.
pub open spec fn parsed_char(s: Seq<char>) -> Option<char> {
    if s.len() == 1 {
        Some(s[0])
    } else {
        None
    }
}

/// The text of an optional filter value.
pub open spec fn text_of(o: Option<&str>) -> Option<Seq<char>> {
    match o {
        Some(s) => Some(s@),
        None => None,
    }
}

/// An optional value is valid when it is absent or parses.
pub open spec fn valid_value<T>(o: Option<Seq<char>>, p: Option<T>) -> bool {
    o is None || p is Some
}

/// The parsed value of a present field, or `None` for an absent one.
pub open spec fn field<T>(o: Option<Seq<char>>, p: Option<T>) -> Option<T> {
    if o is Some {
        p
    } else {
        None
    }
}

impl Filters {
    /// No predicate: every entry passes.
    pub fn none() -> (r: Filters)
        ensures
            r.is_palindrome is None,
            r.min_length is None,
            r.max_length is None,
            r.word_count is None,
            r.contains_character is None,
    {
        Filters {
            is_palindrome: None,
            min_length: None,
            max_length: None,
            word_count: None,
            contains_character: None,
        }
    }
}

/// Whether `a` and `b` hold the same characters.
fn same_text(a: &str, b: &str) -> (r: bool)
    ensures
        r == (a@ == b@),
{
    let x = chars_of(a);
    let y = chars_of(b);
    if x.len() != y.len() {
        return false;
    }
    let mut i: usize = 0;
    while i < x.len()
        invariant
            x@ == a@,
            y@ == b@,
            x@.len() == y@.len(),
            i <= x@.len(),
            forall|j: int| 0 <= j < i ==> x@[j] == y@[j],
        decreases x@.len() - i,
    {
        if x[i] != y[i] {
            return false;
        }
        i = i + 1;
    }
    assert(x@ =~= y@);
    true
}

/// A boolean filter value: `true` or `false`.
fn parse_bool(s: &str) -> (r: Option<bool>)
    ensures
        r == parsed_bool(s@),
{
    if same_text(s, "true") {
        Some(true)
    } else if same_text(s, "false") {
        Some(false)
    } else {
        None
    }
}

/// A character filter value: exactly one character.
fn parse_char(s: &str) -> (r: Option<char>)
    ensures
        r == parsed_char(s@),
{
    if s.unicode_len() == 1 {
        Some(s.get_char(0))
    } else {
        None
    }
}

/// Reads filter values given as text. Each present value must parse: a boolean
/// as `true` or `false`, a length or word count as an unsigned integer, a
/// character as exactly one character. Otherwise the result is
/// `ValidationError`.
pub fn parse_filters(
    is_palindrome: Option<&str>,
    min_length: Option<&str>,
    max_length: Option<&str>,
    word_count: Option<&str>,
    contains_character: Option<&str>,
) -> (r: Result<Filters, QueryError>)
    ensures
        ({
            let p = text_of(is_palindrome);
            let lo = text_of(min_length);
            let hi = text_of(max_length);
            let w = text_of(word_count);
            let c = text_of(contains_character);
            let pp = match p { Some(s) => parsed_bool(s), None => None };
            let plo = match lo { Some(s) => parsed_usize(s), None => None };
            let phi = match hi { Some(s) => parsed_usize(s), None => None };
            let pw = match w { Some(s) => parsed_usize(s), None => None };
            let pc = match c { Some(s) => parsed_char(s), None => None };
            let ok = valid_value(p, pp) && valid_value(lo, plo) && valid_value(hi, phi)
                && valid_value(w, pw) && valid_value(c, pc);
            match r {
                Ok(f) => ok && f == (Filters {
                    is_palindrome: field(p, pp),
                    min_length: field(lo, plo),
                    max_length: field(hi, phi),
                    word_count: field(w, pw),
                    contains_character: field(c, pc),
                }),
                Err(e) => !ok && e == QueryError::ValidationError,
            }
        }),
{
    let mut f = Filters::none();
    if let Some(s) = is_palindrome {
        match parse_bool(s) {
            Some(b) => f.is_palindrome = Some(b),
            None => return Err(QueryError::ValidationError),
        }
    }
    if let Some(s) = min_length {
        match parse_usize(s) {
            Some(n) => f.min_length = Some(n),
            None => return Err(QueryError::ValidationError),
        }
    }
    if let Some(s) = max_length {
        match parse_usize(s) {
            Some(n) => f.max_length = Some(n),
            None => return Err(QueryError::ValidationError),
        }
    }
    if let Some(s) = word_count {
        match parse_usize(s) {
            Some(n) => f.word_count = Some(n),
            None => return Err(QueryError::ValidationError),
        }
    }
    if let Some(s) = contains_character {
        match parse_char(s) {
            Some(c) => f.contains_character = Some(c),
            None => return Err(QueryError::ValidationError),
        }
    }
    Ok(f)
}

/// Whether the well-formed entry `e` satisfies every predicate present in `f`.
pub fn entry_matches(f: &Filters, e: &Entry) -> (r: bool)
    requires
        e@.well_formed(),
    ensures
        r == satisfies(*f, e@),
{
    if let Some(b) = f.is_palindrome {
        if e.properties.is_palindrome != b {
            return false;
        }
    }
    if let Some(m) = f.min_length {
        if e.properties.length < m {
            return false;
        }
    }
    if let Some(m) = f.max_length {
        if e.properties.length > m {
            return false;
        }
    }
    if let Some(w) = f.word_count {
        if e.properties.word_count != w {
            return false;
        }
    }
    if let Some(c) = f.contains_character {
        match find_char(&e.properties.character_frequency_map, c) {
            Some(k) => {
                proof {
                    let m = e.properties.character_frequency_map@;
                    assert(m[k as int].0 == c);
                }
            },
            None => {
                return false;
            },
        }
    }
    true
}

impl Store {
    /// The stored entries that satisfy every predicate present in `filters`.
    pub fn list_all(&self, filters: &Filters) -> (r: Vec<Entry>)
        requires
            self.wf(),
        ensures
            r@.map_values(|e: Entry| e@) == self@.filter(selects(*filters)),
    {
        let n = self.len();
        let mut out: Vec<Entry> = Vec::new();
        let mut i: usize = 0;
        while i < n
            invariant
                n == self@.len(),
                i <= n,
                store_invariant(self@),
                out@.map_values(|e: Entry| e@) == self@.subrange(0, i as int).filter(
                    selects(*filters),
                ),
            decreases n - i,
        {
            let e = self.entry(i);
            let ghost pre = self@.subrange(0, i as int);
            proof {
                assert(self@.subrange(0, i + 1) =~= pre.push(e@));
                pre.lemma_filter_push(e@, selects(*filters));
            }
            if entry_matches(filters, &e) {
                let ghost before = out@;
                out.push(e);
                assert(out@.map_values(|e: Entry| e@) =~= before.map_values(|e: Entry| e@).push(
                    self@[i as int],
                ));
            }
            i = i + 1;
        }
        assert(self@.subrange(0, n as int) =~= self@);
        out
    }
}

} // verus!
