//! The key/value store behind a shared cache.
//!
//! The store is an unbounded map from text keys to values: no eviction, an insert replaces
//! the value of its key. Sharing it between threads puts it behind a read/write lock, many
//! readers or one writer, so a reader sees a key either before or after a write, whole.
use vstd::prelude::*;
use vstd::hash_map::StringHashMap;

verus! {

/// An unbounded map from text keys to values.
#[verifier::reject_recursive_types(V)]
pub struct Cache<V> {
    entries: StringHashMap<V>,
}

impl<V> View for Cache<V> {
    type V = Map<Seq<char>, V>;

    closed spec fn view(&self) -> Map<Seq<char>, V> {
        self.entries@
    }
}

impl<V> Cache<V> {
    /// An empty cache.
    pub fn new() -> (r: Self)
        ensures
            r@ == Map::<Seq<char>, V>::empty(),
    {
        Cache { entries: StringHashMap::new() }
    }

    /// The value of `key`, if it has one.
    pub fn get(&self, key: &str) -> (r: Option<&V>)
        ensures
            r matches Some(v) ==> self@.contains_key(key@) && *v == self@[key@],
            r is None ==> !self@.contains_key(key@),
    {
        self.entries.get(key)
    }

    /// Gives `key` the value `value`, replacing the one it had.
    pub fn insert(&mut self, key: &str, value: V)
        ensures
            final(self)@ == old(self)@.insert(key@, value),
    {
        let k = String::from_str(key);
        self.entries.insert(k, value);
    }

    /// The number of keys with a value.
    pub fn len(&self) -> (r: usize)
        ensures
            r == self@.len(),
    {
        self.entries.len()
    }
}

/// After an insert, a read of the same key sees the value written and a read of any other
/// key sees what it saw before.
pub proof fn lemma_read_after_write<V>(m: Map<Seq<char>, V>, k: Seq<char>, v: V, other: Seq<char>)
    requires
        other != k,
    ensures
        m.insert(k, v).contains_key(k),
        m.insert(k, v)[k] == v,
        m.insert(k, v).contains_key(other) == m.contains_key(other),
        m.contains_key(other) ==> m.insert(k, v)[other] == m[other],
{
}

} // verus!
