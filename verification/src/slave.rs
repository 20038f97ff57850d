//! A slave: a read-only copy of its master's shard, written only by the
//! master's forwarded writes.

use crate::reply::Reply;
use vstd::hash_map::StringHashMap;
use vstd::prelude::*;

verus! {

/// A slave of a master.
pub struct SlaveServiceS {
    store: StringHashMap<String>,
}

impl View for SlaveServiceS {
    type V = Map<Seq<char>, String>;

    closed spec fn view(&self) -> Map<Seq<char>, String> {
        self.store@
    }
}

impl SlaveServiceS {
    /// A slave holding nothing.
    pub fn new() -> (s: Self)
        ensures
            s@ == Map::<Seq<char>, String>::empty(),
    {
        SlaveServiceS { store: StringHashMap::new() }
    }

    /// The value of `key` in the copy.
    pub fn get_item(&self, key: &str) -> (r: Option<String>)
        ensures
            match r {
                Some(v) => self@.contains_key(key@) && v == self@[key@],
                None => !self@.contains_key(key@),
            },
    {
        match self.store.get(key) {
            Some(v) => Some(v.clone()),
            None => None,
        }
    }

    /// Takes a write forwarded by the master.
    pub fn sync_set_item(&mut self, key: String, value: String) -> (r: Reply)
        ensures
            r == Reply::Synced,
            final(self)@ == old(self)@.insert(key@, value),
    {
        self.store.insert(key, value);
        Reply::Synced
    }
}

} // verus!
