//! A hash map from string keys that also remembers the order in which its
//! keys first arrived, so that its entries can be walked.

use crate::text::views;
use vstd::hash_map::StringHashMap;
use vstd::prelude::*;

verus! {

/// A map from strings to `V` whose keys can be listed.
#[verifier::reject_recursive_types(V)]
pub struct KeyedMap<V> {
    map: StringHashMap<V>,
    order: Vec<String>,
}

impl<V> View for KeyedMap<V> {
    type V = Map<Seq<char>, V>;

    closed spec fn view(&self) -> Map<Seq<char>, V> {
        self.map@
    }
}

impl<V> KeyedMap<V> {
    /// Every key is listed once in `key_order`, and nothing else is.
    pub closed spec fn wf(&self) -> bool {
        &&& views(self.order@).no_duplicates()
        &&& views(self.order@).to_set() == self.map@.dom()
    }

    /// The keys, in the order in which each first arrived.
    pub closed spec fn key_order(&self) -> Seq<Seq<char>> {
        views(self.order@)
    }

    /// Facts that follow from `wf`: the key order lists exactly the keys.
    pub proof fn lemma_key_order(&self)
        requires
            self.wf(),
        ensures
            self.key_order().no_duplicates(),
            forall|k: Seq<char>| #[trigger]
                self@.contains_key(k) <==> self.key_order().contains(k),
            self@.dom().finite(),
            self.key_order().len() == self@.dom().len(),
    {
        let s = self.key_order();
        assert forall|k: Seq<char>| #[trigger] self@.contains_key(k) <==> s.contains(k) by {
            assert(s.to_set().contains(k) <==> s.contains(k));
        }
        s.unique_seq_to_set();
    }

    /// The empty map.
    pub fn new() -> (m: Self)
        ensures
            m.wf(),
            m@ == Map::<Seq<char>, V>::empty(),
            m.key_order() == Seq::<Seq<char>>::empty(),
    {
        let m = KeyedMap { map: StringHashMap::new(), order: Vec::new() };
        assert(views(m.order@) =~= Seq::<Seq<char>>::empty());
        assert(views(m.order@).to_set() =~= Set::<Seq<char>>::empty());
        assert(m.map@.dom() =~= Set::<Seq<char>>::empty());
        m
    }

    /// The number of keys.
    pub fn len(&self) -> (n: usize)
        requires
            self.wf(),
        ensures
            n == self.key_order().len(),
            n == self@.len(),
    {
        proof {
            self.lemma_key_order();
        }
        self.order.len()
    }

    /// The key at position `i` of the key order.
    pub fn key_at(&self, i: usize) -> (k: &String)
        requires
            self.wf(),
            i < self.key_order().len(),
        ensures
            k@ == self.key_order()[i as int],
    {
        &self.order[i]
    }

    /// The value of `k`, if it has one.
    pub fn get(&self, k: &str) -> (r: Option<&V>)
        ensures
            match r {
                Some(v) => self@.contains_key(k@) && *v == self@[k@],
                None => !self@.contains_key(k@),
            },
    {
        self.map.get(k)
    }

    /// Whether `k` has a value.
    pub fn contains_key(&self, k: &str) -> (r: bool)
        ensures
            r == self@.contains_key(k@),
    {
        self.map.contains_key(k)
    }

    /// Gives `k` the value `v`; a new key goes to the end of the key order.
    pub fn insert(&mut self, k: String, v: V)
        requires
            old(self).wf(),
        ensures
            final(self).wf(),
            final(self)@ == old(self)@.insert(k@, v),
            final(self).key_order() == if old(self)@.contains_key(k@) {
                old(self).key_order()
            } else {
                old(self).key_order().push(k@)
            },
    {
        proof {
            self.lemma_key_order();
        }
        if !self.map.contains_key(k.as_str()) {
            let ghost before = views(self.order@);
            self.order.push(k.clone());
            assert(views(self.order@) =~= before.push(k@));
            assert(views(self.order@).to_set() =~= before.to_set().insert(k@)) by {
                assert forall|x: Seq<char>|
                    views(self.order@).to_set().contains(x) == before.to_set().insert(
                        k@,
                    ).contains(x) by {
                    assert(views(self.order@).contains(x) <==> (before.contains(x) || x == k@))
                        by {
                        if views(self.order@).contains(x) {
                            let j = choose|j: int|
                                0 <= j < views(self.order@).len() && views(self.order@)[j]
                                    == x;
                            if j < before.len() {
                                assert(before[j] == x);
                            }
                        }
                        if before.contains(x) {
                            let j = choose|j: int| 0 <= j < before.len() && before[j] == x;
                            assert(views(self.order@)[j] == x);
                        }
                        if x == k@ {
                            assert(views(self.order@)[before.len() as int] == x);
                        }
                    }
                }
            }
            assert(views(self.order@).no_duplicates()) by {
                assert forall|i: int, j: int|
                    0 <= i < views(self.order@).len() && 0 <= j < views(self.order@).len() && i
                        != j implies views(self.order@)[i] != views(self.order@)[j] by {
                    if i < before.len() && j < before.len() {
                    } else if i < before.len() {
                        assert(before.contains(before[i]));
                    } else {
                        assert(before.contains(before[j]));
                    }
                }
            }
        }
        self.map.insert(k, v);
        assert(self.map@.dom() =~= views(self.order@).to_set());
    }
}

} // verus!
