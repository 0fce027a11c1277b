//! The flat key/value map that one directory owns.

use vstd::prelude::*;
use crate::assoc::{
    distinct_keys, find, key_at, lemma_model_at, lemma_model_push, lemma_model_remove,
    lemma_model_step, lemma_model_update, lemma_position_in_range, model, position,
};

verus! {

/// A finite map from key to value, both text. Each key occurs once.
#[derive(Debug)]
pub struct KeyValueMap {
    entries: Vec<(String, String)>,
}

impl View for KeyValueMap {
    type V = Map<Seq<char>, Seq<char>>;

    closed spec fn view(&self) -> Map<Seq<char>, Seq<char>> {
        model(self.entries@)
    }
}

impl KeyValueMap {
    #[verifier::type_invariant]
    spec fn well_formed(self) -> bool {
        distinct_keys(self.entries@)
    }

    /// The empty map.
    pub fn new() -> (r: Self)
        ensures
            r@ == Map::<Seq<char>, Seq<char>>::empty(),
    {
        let r = KeyValueMap { entries: Vec::new() };
        assert(r@ =~= Map::<Seq<char>, Seq<char>>::empty());
        r
    }

    /// The value stored under `key`, if there is one.
    pub fn get(&self, key: &str) -> (r: Option<&String>)
        ensures
            match r {
                Some(v) => self@.contains_key(key@) && self@[key@] == v@,
                None => !self@.contains_key(key@),
            },
    {
        proof {
            use_type_invariant(self);
        }
        let wanted = key.to_owned();
        match find(&self.entries, &wanted) {
            Some(i) => {
                proof {
                    lemma_model_at(self.entries@, i as int);
                }
                Some(&self.entries[i].1)
            },
            None => None,
        }
    }

    /// Stores `value` under `key`, replacing what was there.
    pub fn insert(&mut self, key: String, value: String)
        ensures
            final(self)@ == old(self)@.insert(key@, value@),
    {
        proof {
            use_type_invariant(&*self);
        }
        // The list leaves the map while it changes and comes back whole, so
        // that the map is well formed whenever it can be seen.
        let mut entries: Vec<(String, String)> = Vec::new();
        std::mem::swap(&mut self.entries, &mut entries);
        let ghost before = entries@;
        match find(&entries, &key) {
            Some(i) => {
                entries[i].1 = value;
                proof {
                    lemma_model_update(before, entries@, i as int);
                }
            },
            None => {
                proof {
                    lemma_model_push(before, (key, value));
                }
                entries.push((key, value));
            },
        }
        self.entries = entries;
    }

    /// Forgets `key`; a key that is not stored leaves the map as it is.
    pub fn remove(&mut self, key: &str)
        ensures
            final(self)@ == old(self)@.remove(key@),
    {
        proof {
            use_type_invariant(&*self);
        }
        let wanted = key.to_owned();
        let mut entries: Vec<(String, String)> = Vec::new();
        std::mem::swap(&mut self.entries, &mut entries);
        let ghost before = entries@;
        match find(&entries, &wanted) {
            Some(i) => {
                entries.remove(i);
                proof {
                    lemma_model_remove(before, i as int);
                }
            },
            None => {
                assert(model(before) =~= model(before).remove(key@));
            },
        }
        self.entries = entries;
    }

    /// Adds every pair of `other`; where both maps hold a key, `other`'s value stays.
    pub fn extend(&mut self, other: &KeyValueMap)
        ensures
            final(self)@ == old(self)@.union_prefer_right(other@),
    {
        proof {
            use_type_invariant(other);
        }
        let mut i: usize = 0;
        assert(model(other.entries@.take(0)) =~= Map::<Seq<char>, Seq<char>>::empty());
        assert(self@ =~= old(self)@.union_prefer_right(Map::<Seq<char>, Seq<char>>::empty()));
        while i < other.entries.len()
            invariant
                i <= other.entries@.len(),
                distinct_keys(other.entries@),
                self@ == old(self)@.union_prefer_right(model(other.entries@.take(i as int))),
            decreases other.entries@.len() - i,
        {
            let key = other.entries[i].0.clone();
            let value = other.entries[i].1.clone();
            let ghost seen = model(other.entries@.take(i as int));
            self.insert(key, value);
            proof {
                lemma_model_step(other.entries@, i as int);
                assert(old(self)@.union_prefer_right(seen).insert(key@, value@) =~= old(
                    self,
                )@.union_prefer_right(seen.insert(key@, value@)));
            }
            i += 1;
        }
        assert(other.entries@.take(other.entries@.len() as int) =~= other.entries@);
    }

    /// The pairs of the map, each key once, in no particular order.
    pub fn entries(&self) -> (r: Vec<(String, String)>)
        ensures
            forall|i: int|
                0 <= i < r@.len() ==> self@.contains_key(#[trigger] r@[i].0@) && self@[r@[i].0@]
                    == r@[i].1@,
            forall|i: int, j: int| 0 <= i < j < r@.len() ==> r@[i].0@ != r@[j].0@,
            forall|k: Seq<char>|
                self@.contains_key(k) ==> exists|i: int|
                    0 <= i < r@.len() && #[trigger] r@[i].0@ == k,
    {
        proof {
            use_type_invariant(self);
        }
        let mut out: Vec<(String, String)> = Vec::new();
        let mut i: usize = 0;
        while i < self.entries.len()
            invariant
                i <= self.entries@.len(),
                out@.len() == i,
                forall|j: int| 0 <= j < i ==> out@[j] == self.entries@[j],
            decreases self.entries@.len() - i,
        {
            out.push((self.entries[i].0.clone(), self.entries[i].1.clone()));
            i += 1;
        }
        proof {
            assert(out@ =~= self.entries@);
            assert forall|i: int| 0 <= i < out@.len() implies self@.contains_key(
                #[trigger] out@[i].0@,
            ) && self@[out@[i].0@] == out@[i].1@ by {
                lemma_model_at(self.entries@, i);
            }
            assert forall|i: int, j: int| 0 <= i < j < out@.len() implies out@[i].0@
                != out@[j].0@ by {
                assert(key_at(self.entries@, i) != key_at(self.entries@, j));
            }
            assert forall|k: Seq<char>| self@.contains_key(k) implies exists|i: int|
                0 <= i < out@.len() && #[trigger] out@[i].0@ == k by {
                lemma_position_in_range(self.entries@, k);
                let p = position(self.entries@, k);
                assert(out@[p].0@ == k);
            }
        }
        out
    }
}

} // verus!
