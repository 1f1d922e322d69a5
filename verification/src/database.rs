//! The store: keys and the bytes held under them.
//!
//! A `Database` is a plain value. The driver shares one among its connections
//! behind a lock and hands the library exclusive access for each command.
use crate::buffer::bytes_view;
use bytes::Bytes;
use vstd::hash_map::StringHashMap;
use vstd::prelude::*;

verus! {

/// A map from keys to byte values.
pub struct Database {
    map: StringHashMap<Bytes>,
}

impl View for Database {
    type V = Map<Seq<char>, Seq<u8>>;

    /// The bytes held under each key.
    closed spec fn view(&self) -> Map<Seq<char>, Seq<u8>> {
        self.map@.map_values(|value: Bytes| bytes_view(value))
    }
}

/// Returns a store that holds nothing.
pub fn new_db() -> (db: Database)
    ensures
        db@ == Map::<Seq<char>, Seq<u8>>::empty(),
{
    let db = Database { map: StringHashMap::new() };
    db
}

impl Database {
    /// Returns the value held under `key`, if any.
    pub fn get(&self, key: &str) -> (value: Option<Bytes>)
        ensures
            match value {
                Some(bytes) => self@.contains_key(key@) && bytes_view(bytes) == self@[key@],
                None => !self@.contains_key(key@),
            },
    {
        match self.map.get(key) {
            Some(bytes) => Some(bytes.clone()),
            None => None,
        }
    }

    /// Puts `value` under `key` and returns the value that was held there before.
    pub fn insert(&mut self, key: String, value: Bytes) -> (previous: Option<Bytes>)
        ensures
            final(self)@ == old(self)@.insert(key@, bytes_view(value)),
            match previous {
                Some(bytes) => old(self)@.contains_key(key@) && bytes_view(bytes) == old(
                    self,
                )@[key@],
                None => !old(self)@.contains_key(key@),
            },
    {
        let previous = self.get(key.as_str());
        self.map.insert(key, value);
        previous
    }
}

} // verus!
