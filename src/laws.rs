//! Laws relating the library's operations, proved from their contracts.

use vstd::prelude::*;
use crate::analysis::{content_id, PropertiesView};
use crate::filter::{satisfies, selects, Filters};
use crate::store::{
    create_outcome, delete_outcome, entry_at, get_outcome, holds_id, store_invariant, Entry,
    EntryView, StoreError,
};
use crate::text::trimmed;

verus! {

/// Analysis is deterministic: two analyses of the same text agree on its length,
/// palindrome flag, distinct-character count, word count and content hash, and
/// their frequency tables hold the same (character, count) pairs.
pub proof fn lemma_analysis_deterministic(s: Seq<char>, a: PropertiesView, b: PropertiesView)
    requires
        a.describes(s),
        b.describes(s),
    ensures
        a.length == b.length,
        a.is_palindrome == b.is_palindrome,
        a.unique_characters == b.unique_characters,
        a.word_count == b.word_count,
        a.sha256_hash == b.sha256_hash,
        a.sha256_hash == content_id(s),
        forall|p: (char, usize)|
            a.character_frequency_map.contains(p) <==> b.character_frequency_map.contains(p),
{
    assert forall|p: (char, usize)|
        a.character_frequency_map.contains(p) implies b.character_frequency_map.contains(p) by {
        lemma_frequency_pair(s, a, b, p);
    }
    assert forall|p: (char, usize)|
        b.character_frequency_map.contains(p) implies a.character_frequency_map.contains(p) by {
        lemma_frequency_pair(s, b, a, p);
    }
}

proof fn lemma_frequency_pair(s: Seq<char>, a: PropertiesView, b: PropertiesView, p: (char, usize))
    requires
        a.describes(s),
        b.describes(s),
        a.character_frequency_map.contains(p),
    ensures
        b.character_frequency_map.contains(p),
{
    let fa = a.character_frequency_map;
    let fb = b.character_frequency_map;
    let k = choose|k: int| 0 <= k < fa.len() && fa[k] == p;
    assert(fa[k].0 == p.0);
    assert(s.contains(p.0));
    let j = choose|j: int| 0 <= j < fb.len() && #[trigger] fb[j].0 == p.0;
    assert(fb[j].1 == fa[k].1);
    assert(fb[j] == p);
}

/// Creating the same value twice: the second attempt is a `Conflict` that leaves
/// the store unchanged, and the store then holds exactly one entry for that content.
pub proof fn lemma_create_twice(
    s0: Seq<EntryView>,
    s1: Seq<EntryView>,
    s2: Seq<EntryView>,
    value: Seq<char>,
    r1: Result<Entry, StoreError>,
    r2: Result<Entry, StoreError>,
)
    requires
        store_invariant(s0),
        create_outcome(s0, value, r1, s1),
        r1 is Ok,
        create_outcome(s1, value, r2, s2),
    ensures
        r2 == Err::<Entry, StoreError>(StoreError::Conflict),
        s2 == s1,
        exists|i: int|
            entry_at(s2, content_id(trimmed(value)), i) && forall|j: int|
                entry_at(s2, content_id(trimmed(value)), j) ==> j == i,
{
    let id = content_id(trimmed(value));
    let n = s0.len() as int;
    assert(entry_at(s1, id, n));
    assert forall|j: int| entry_at(s2, id, j) implies j == n by {
        if j < n {
            assert(entry_at(s0, id, j));
        }
    }
}

/// A value created from text with surrounding whitespace is found by looking up
/// its trimmed form.
pub proof fn lemma_create_then_get(
    s0: Seq<EntryView>,
    s1: Seq<EntryView>,
    value: Seq<char>,
    r1: Result<Entry, StoreError>,
    r2: Result<Entry, StoreError>,
)
    requires
        create_outcome(s0, value, r1, s1),
        r1 is Ok,
        get_outcome(s1, trimmed(value), r2),
    ensures
        r2 matches Ok(e) && e@ == r1->Ok_0@ && e@.value == trimmed(value),
{
    let id = content_id(trimmed(value));
    let n = s0.len() as int;
    assert(entry_at(s1, id, n));
    if let Ok(e) = r2 {
        let i = choose|i: int| entry_at(s1, id, i) && e@ == s1[i];
        if i < n {
            assert(entry_at(s0, id, i));
        }
    }
}

/// Deleting a value whose content is not stored is `NotFound` and changes nothing.
pub proof fn lemma_delete_absent(
    s0: Seq<EntryView>,
    s1: Seq<EntryView>,
    value: Seq<char>,
    r: Result<(), StoreError>,
)
    requires
        !holds_id(s0, content_id(value)),
        delete_outcome(s0, value, r, s1),
    ensures
        r == Err::<(), StoreError>(StoreError::NotFound),
        s1 == s0,
{
}

/// Deleting the same value twice: once it succeeded, the second attempt is
/// `NotFound` and changes nothing.
pub proof fn lemma_delete_twice(
    s0: Seq<EntryView>,
    s1: Seq<EntryView>,
    s2: Seq<EntryView>,
    value: Seq<char>,
    r1: Result<(), StoreError>,
    r2: Result<(), StoreError>,
)
    requires
        store_invariant(s0),
        delete_outcome(s0, value, r1, s1),
        r1 is Ok,
        delete_outcome(s1, value, r2, s2),
    ensures
        r2 == Err::<(), StoreError>(StoreError::NotFound),
        s2 == s1,
{
    let id = content_id(value);
    let i = choose|i: int| entry_at(s0, id, i) && s1 == s0.remove(i);
    assert forall|j: int| !entry_at(s1, id, j) by {
        if entry_at(s1, id, j) {
            if j < i {
                assert(s1[j] == s0[j]);
            } else {
                assert(s1[j] == s0[j + 1]);
            }
        }
    }
}

/// Filters combine with AND: an entry is listed exactly when it is stored and
/// satisfies every predicate present.
pub proof fn lemma_listed_iff(s: Seq<EntryView>, f: Filters, e: EntryView)
    ensures
        s.filter(selects(f)).contains(e) <==> (s.contains(e) && satisfies(f, e)),
{
    if s.filter(selects(f)).contains(e) {
        let k = choose|k: int| 0 <= k < s.filter(selects(f)).len() && s.filter(selects(f))[k] == e;
        s.lemma_filter_pred(selects(f), k);
        s.lemma_filter_contains_rev(selects(f), e);
    }
    if s.contains(e) && satisfies(f, e) {
        let k = choose|k: int| 0 <= k < s.len() && s[k] == e;
        s.lemma_filter_contains(selects(f), k);
    }
}

} // verus!
