//! The content-addressed store: entries keyed by the content hash of their value.

use vstd::prelude::*;
use crate::analysis::{analyze_string, content_hash, content_id, Properties, PropertiesView};
use crate::text::{lemma_trimmed_idempotent, trim, trimmed};

verus! {

/// Why a store operation did not take place.
#[derive(Debug, Clone, Copy, PartialEq, Eq, Structural)]
pub enum StoreError {
    /// The value is empty once surrounding whitespace is removed.
    InvalidInput,
    /// An entry with the same content is already stored.
    Conflict,
    /// No entry is stored under the identifier derived from the value.
    NotFound,
}

/// A stored string with its properties.
pub struct Entry {
    pub id: String,
    pub value: String,
    pub properties: Properties,
    pub created_at: String,
}

/// What an entry holds, as mathematical values.
pub struct EntryView {
    pub id: Seq<char>,
    pub value: Seq<char>,
    pub properties: PropertiesView,
    pub created_at: Seq<char>,
}

impl View for Entry {
    type V = EntryView;

    open spec fn view(&self) -> EntryView {
        EntryView {
            id: self.id@,
            value: self.value@,
            properties: self.properties@,
            created_at: self.created_at@,
        }
    }
}

impl EntryView {
    /// The entry is keyed by the hash of its non-empty value and describes it.
    pub open spec fn well_formed(&self) -> bool {
        &&& self.value.len() > 0
        &&& trimmed(self.value) == self.value
        &&& self.id == content_id(self.value)
        &&& self.properties.describes(self.value)
    }
}

impl Entry {
    /// A copy with the same contents.
    pub fn copy(&self) -> (r: Entry)
        ensures
            r@ == self@,
    {
        Entry {
            id: self.id.clone(),
            value: self.value.clone(),
            properties: self.properties.copy(),
            created_at: self.created_at.clone(),
        }
    }
}

/// Entry `i` of `s` has identifier `id`.
pub open spec fn entry_at(s: Seq<EntryView>, id: Seq<char>, i: int) -> bool {
    0 <= i < s.len() && s[i].id == id
}

/// Some entry of `s` has identifier `id`.
pub open spec fn holds_id(s: Seq<EntryView>, id: Seq<char>) -> bool {
    exists|i: int| entry_at(s, id, i)
}

/// What creating `value` on a store holding `old` returns and leaves (`new`):
/// the trimmed value is stored unless it is empty or its content is already there.
pub open spec fn create_outcome(
    old: Seq<EntryView>,
    value: Seq<char>,
    r: Result<Entry, StoreError>,
    new: Seq<EntryView>,
) -> bool {
    let v = trimmed(value);
    match r {
        Ok(e) => {
            &&& v.len() > 0
            &&& !holds_id(old, content_id(v))
            &&& e@.value == v
            &&& e@.id == content_id(v)
            &&& e@.properties.describes(v)
            &&& new == old.push(e@)
        },
        Err(StoreError::InvalidInput) => v.len() == 0 && new == old,
        Err(StoreError::Conflict) => {
            &&& v.len() > 0
            &&& holds_id(old, content_id(v))
            &&& new == old
        },
        Err(StoreError::NotFound) => false,
    }
}

/// What looking up `value`, hashed exactly as given, returns on a store holding `s`.
pub open spec fn get_outcome(s: Seq<EntryView>, value: Seq<char>, r: Result<Entry, StoreError>) -> bool {
    match r {
        Ok(e) => exists|i: int| entry_at(s, content_id(value), i) && e@ == s[i],
        Err(StoreError::NotFound) => !holds_id(s, content_id(value)),
        Err(_) => false,
    }
}

/// What deleting `value`, hashed exactly as given, returns on a store holding
/// `old` and leaves (`new`).
pub open spec fn delete_outcome(
    old: Seq<EntryView>,
    value: Seq<char>,
    r: Result<(), StoreError>,
    new: Seq<EntryView>,
) -> bool {
    match r {
        Ok(()) => exists|i: int| entry_at(old, content_id(value), i) && new == old.remove(i),
        Err(StoreError::NotFound) => !holds_id(old, content_id(value)) && new == old,
        Err(_) => false,
    }
}

/// Relies on `chrono::Utc::now` and `DateTime::to_rfc3339_opts`: the current UTC
/// time as RFC 3339 text with milliseconds and a `Z` suffix.
#[verifier::external_body]
fn now_rfc3339() -> (r: String) {
    chrono::Utc::now().to_rfc3339_opts(chrono::SecondsFormat::Millis, true)
}

/// The map from identifier to entry.
pub struct Store {
    entries: Vec<Entry>,
}

impl View for Store {
    type V = Seq<EntryView>;

    closed spec fn view(&self) -> Seq<EntryView> {
        self.entries@.map_values(|e: Entry| e@)
    }
}

/// Every entry is well formed and no two entries share an identifier.
pub open spec fn store_invariant(s: Seq<EntryView>) -> bool {
    &&& forall|i: int| 0 <= i < s.len() ==> (#[trigger] s[i]).well_formed()
    &&& forall|i: int, j: int| 0 <= i < j < s.len() ==> s[i].id != s[j].id
}

impl Store {
    /// The store's invariant holds.
    pub open spec fn wf(&self) -> bool {
        store_invariant(self@)
    }

    /// An empty store.
    pub fn new() -> (r: Store)
        ensures
            r.wf(),
            r@ == Seq::<EntryView>::empty(),
    {
        let r = Store { entries: Vec::new() };
        assert(r@ =~= Seq::<EntryView>::empty());
        r
    }

    /// The number of stored entries.
    pub fn len(&self) -> (r: usize)
        ensures
            r == self@.len(),
    {
        self.entries.len()
    }

    /// A copy of entry `i`.
    pub fn entry(&self, i: usize) -> (r: Entry)
        requires
            i < self@.len(),
        ensures
            r@ == self@[i as int],
    {
        self.entries[i].copy()
    }

    /// The position of the entry with identifier `id`, if there is one.
    fn position(&self, id: &String) -> (r: Option<usize>)
        ensures
            match r {
                Some(i) => entry_at(self@, id@, i as int),
                None => !holds_id(self@, id@),
            },
    {
        let mut i: usize = 0;
        while i < self.entries.len()
            invariant
                i <= self@.len(),
                self@.len() == self.entries@.len(),
                forall|j: int| 0 <= j < i ==> self@[j].id != id@,
            decreases self@.len() - i,
        {
            if self.entries[i].id == *id {
                return Some(i);
            }
            i = i + 1;
        }
        None
    }

    /// Stores the trimmed `value` with its properties and the given creation
    /// time, unless it is empty or its content is already stored.
    pub fn create_at(&mut self, value: &str, created_at: String) -> (r: Result<Entry, StoreError>)
        requires
            old(self).wf(),
        ensures
            final(self).wf(),
            create_outcome(old(self)@, value@, r, final(self)@),
            r matches Ok(e) ==> e@.created_at == created_at@,
    {
        let v = trim(value);
        if v.is_empty() {
            return Err(StoreError::InvalidInput);
        }
        let props = analyze_string(v);
        let id = props.sha256_hash.clone();
        if self.position(&id).is_some() {
            return Err(StoreError::Conflict);
        }
        let entry = Entry {
            id,
            value: v.to_owned(),
            properties: props,
            created_at,
        };
        let ghost before = self@;
        let stored = entry.copy();
        self.entries.push(stored);
        assert(self@ =~= before.push(entry@));
        assert forall|i: int, j: int| 0 <= i < j < self@.len() implies self@[i].id != self@[j].id by {
            if j == before.len() {
                assert(!entry_at(before, entry@.id, i));
            }
        }
        proof {
            lemma_trimmed_idempotent(value@);
        }
        assert(entry@.well_formed());
        Ok(entry)
    }

    /// Stores the trimmed `value` with its properties, stamped with the current
    /// time, unless it is empty or its content is already stored.
    pub fn create(&mut self, value: &str) -> (r: Result<Entry, StoreError>)
        requires
            old(self).wf(),
        ensures
            final(self).wf(),
            create_outcome(old(self)@, value@, r, final(self)@),
    {
        let now = now_rfc3339();
        self.create_at(value, now)
    }

    /// The entry stored under the content hash of `value`, taken exactly as given.
    pub fn get_by_value(&self, value: &str) -> (r: Result<Entry, StoreError>)
        requires
            self.wf(),
        ensures
            get_outcome(self@, value@, r),
    {
        let id = content_hash(value);
        match self.position(&id) {
            Some(i) => Ok(self.entries[i].copy()),
            None => Err(StoreError::NotFound),
        }
    }

    /// Removes the entry stored under the content hash of `value`, taken exactly as given.
    pub fn delete_by_value(&mut self, value: &str) -> (r: Result<(), StoreError>)
        requires
            old(self).wf(),
        ensures
            final(self).wf(),
            delete_outcome(old(self)@, value@, r, final(self)@),
    {
        let id = content_hash(value);
        match self.position(&id) {
            Some(i) => {
                let ghost before = self@;
                let _ = self.entries.remove(i);
                assert(self@ =~= before.remove(i as int));
                Ok(())
            },
            None => Err(StoreError::NotFound),
        }
    }
}

} // verus!
