//! The plain in-memory key-value store, with no log attached: the index
//! structure that the write-ahead engine gates.

use vstd::hash_map::StringHashMap;
use vstd::prelude::*;

use crate::error::StoreError;
use crate::replay::index_view;

verus! {

/// A map from keys to value bytes.
pub struct Store {
    db: StringHashMap<Vec<u8>>,
}

impl View for Store {
    type V = Map<Seq<char>, Seq<u8>>;

    closed spec fn view(&self) -> Map<Seq<char>, Seq<u8>> {
        index_view(self.db@)
    }
}

impl Store {
    /// Creates an empty store.
    pub fn new() -> (r: Store)
        ensures
            r@ == Map::<Seq<char>, Seq<u8>>::empty(),
    {
        let r = Store { db: StringHashMap::new() };
        proof {
            assert(r@ =~= Map::<Seq<char>, Seq<u8>>::empty());
        }
        r
    }

    /// Inserts or overwrites the entry under the given key; always
    /// succeeds.
    pub fn set(&mut self, key: String, data: Vec<u8>) -> (r: Result<(), StoreError>)
        ensures
            r is Ok,
            final(self)@ == old(self)@.insert(key@, data@),
    {
        self.db.insert(key, data);
        proof {
            assert(self@ =~= old(self)@.insert(key@, data@));
        }
        Ok(())
    }

    /// Returns the value stored under the key, and `NotFound` when and
    /// only when the key holds nothing.
    pub fn get(&self, key: &str) -> (r: Result<&Vec<u8>, StoreError>)
        ensures
            match r {
                Ok(v) => self@.contains_key(key@) && v@ == self@[key@],
                Err(e) => e == StoreError::NotFound && !self@.contains_key(key@),
            },
    {
        match self.db.get(key) {
            Some(v) => Ok(v),
            None => Err(StoreError::NotFound),
        }
    }

    /// Whether the store holds no entry at all.
    pub fn is_empty(&self) -> (r: bool)
        ensures
            r == self@.dom().is_empty(),
    {
        proof {
            assert(self@.dom() =~= self.db@.dom());
        }
        self.db.is_empty()
    }
}

impl Default for Store {
    fn default() -> (r: Store)
        ensures
            r@ == Map::<Seq<char>, Seq<u8>>::empty(),
    {
        Store::new()
    }
}

} // verus!
