//! The store: for each directory that has one, its own key/value map.

use vstd::prelude::*;
use crate::ancestry::texts;
use crate::assoc::{
    distinct_keys, find, key_at, lemma_model_at, lemma_model_push, lemma_model_update,
    lemma_position_in_range, model, position,
};
use crate::key_values::KeyValueMap;
use crate::resolution::{local, merge_along, store_remove, store_set};

verus! {

/// A finite map from directory path to the key/value map of that directory.
/// Each directory occurs once; a directory need not exist on disk.
///
/// Directories are told apart by their text, so callers hand in normalized
/// paths: one spelling for one directory.
#[derive(Debug)]
pub struct Store {
    dirs: Vec<(String, KeyValueMap)>,
}

impl View for Store {
    type V = Map<Seq<char>, Map<Seq<char>, Seq<char>>>;

    closed spec fn view(&self) -> Map<Seq<char>, Map<Seq<char>, Seq<char>>> {
        model(self.dirs@)
    }
}

impl Store {
    #[verifier::type_invariant]
    spec fn well_formed(self) -> bool {
        distinct_keys(self.dirs@)
    }

    /// The store without any directory.
    pub fn new() -> (r: Self)
        ensures
            r@ == Map::<Seq<char>, Map<Seq<char>, Seq<char>>>::empty(),
    {
        let r = Store { dirs: Vec::new() };
        assert(r@ =~= Map::<Seq<char>, Map<Seq<char>, Seq<char>>>::empty());
        r
    }

    /// The key/value map that `dir` itself owns, if the store has an entry for it.
    pub fn get(&self, dir: &str) -> (r: Option<&KeyValueMap>)
        ensures
            match r {
                Some(m) => self@.contains_key(dir@) && self@[dir@] == m@,
                None => !self@.contains_key(dir@),
            },
    {
        proof {
            use_type_invariant(self);
        }
        let wanted = dir.to_owned();
        match find(&self.dirs, &wanted) {
            Some(i) => {
                proof {
                    lemma_model_at(self.dirs@, i as int);
                }
                Some(&self.dirs[i].1)
            },
            None => None,
        }
    }

    /// The value that `dir` itself defines for `key`; ancestors are not asked.
    pub fn value_at(&self, dir: &str, key: &str) -> (r: Option<&String>)
        ensures
            match r {
                Some(v) => local(self@, dir@).contains_key(key@) && local(self@, dir@)[key@] == v@,
                None => !local(self@, dir@).contains_key(key@),
            },
    {
        match self.get(dir) {
            Some(own) => own.get(key),
            None => None,
        }
    }

    /// Gives `dir` the map `values` as its own, in place of what it had.
    pub fn insert(&mut self, dir: String, values: KeyValueMap)
        ensures
            final(self)@ == old(self)@.insert(dir@, values@),
    {
        proof {
            use_type_invariant(&*self);
        }
        let mut dirs: Vec<(String, KeyValueMap)> = Vec::new();
        std::mem::swap(&mut self.dirs, &mut dirs);
        let ghost before = dirs@;
        match find(&dirs, &dir) {
            Some(i) => {
                dirs[i].1 = values;
                proof {
                    lemma_model_update(before, dirs@, i as int);
                }
            },
            None => {
                proof {
                    lemma_model_push(before, (dir, values));
                }
                dirs.push((dir, values));
            },
        }
        self.dirs = dirs;
    }

    /// Sets `key` to `value` in `dir`'s own map, giving `dir` an entry if it
    /// had none.
    pub fn set(&mut self, dir: String, key: String, value: String)
        ensures
            final(self)@ == store_set(old(self)@, dir@, key@, value@),
    {
        proof {
            use_type_invariant(&*self);
        }
        let mut dirs: Vec<(String, KeyValueMap)> = Vec::new();
        std::mem::swap(&mut self.dirs, &mut dirs);
        let ghost before = dirs@;
        match find(&dirs, &dir) {
            Some(i) => {
                dirs[i].1.insert(key, value);
                proof {
                    lemma_model_at(before, i as int);
                    lemma_model_update(before, dirs@, i as int);
                }
            },
            None => {
                let mut own = KeyValueMap::new();
                own.insert(key, value);
                proof {
                    lemma_model_push(before, (dir, own));
                }
                dirs.push((dir, own));
            },
        }
        self.dirs = dirs;
    }

    /// Removes `key` from `dir`'s own map. Nothing happens where the store has
    /// no entry for `dir` or the entry lacks the key.
    pub fn remove(&mut self, dir: &str, key: &str)
        ensures
            final(self)@ == store_remove(old(self)@, dir@, key@),
    {
        proof {
            use_type_invariant(&*self);
        }
        let wanted = dir.to_owned();
        let mut dirs: Vec<(String, KeyValueMap)> = Vec::new();
        std::mem::swap(&mut self.dirs, &mut dirs);
        let ghost before = dirs@;
        match find(&dirs, &wanted) {
            Some(i) => {
                dirs[i].1.remove(key);
                proof {
                    lemma_model_at(before, i as int);
                    lemma_model_update(before, dirs@, i as int);
                }
            },
            None => {},
        }
        self.dirs = dirs;
    }

    /// The directories that have an entry, each once, in no particular order.
    pub fn directories(&self) -> (r: Vec<String>)
        ensures
            forall|i: int| 0 <= i < r@.len() ==> self@.contains_key(#[trigger] r@[i]@),
            forall|i: int, j: int| 0 <= i < j < r@.len() ==> r@[i]@ != r@[j]@,
            forall|d: Seq<char>|
                self@.contains_key(d) ==> exists|i: int| 0 <= i < r@.len() && #[trigger] r@[i]@ == d,
    {
        proof {
            use_type_invariant(self);
        }
        let mut out: Vec<String> = Vec::new();
        let mut i: usize = 0;
        while i < self.dirs.len()
            invariant
                i <= self.dirs@.len(),
                out@.len() == i,
                forall|j: int| 0 <= j < i ==> out@[j]@ == key_at(self.dirs@, j),
            decreases self.dirs@.len() - i,
        {
            out.push(self.dirs[i].0.clone());
            i += 1;
        }
        proof {
            assert forall|i: int| 0 <= i < out@.len() implies self@.contains_key(
                #[trigger] out@[i]@,
            ) by {
                lemma_model_at(self.dirs@, i);
            }
            assert forall|i: int, j: int| 0 <= i < j < out@.len() implies out@[i]@ != out@[j]@ by {
                assert(key_at(self.dirs@, i) != key_at(self.dirs@, j));
            }
            assert forall|d: Seq<char>| self@.contains_key(d) implies exists|i: int|
                0 <= i < out@.len() && #[trigger] out@[i]@ == d by {
                lemma_position_in_range(self.dirs@, d);
                let p = position(self.dirs@, d);
                assert(out@[p]@ == d);
            }
        }
        out
    }

    /// Merges the maps of the directories of `chain`, from its last element to
    /// its first, so that a directory nearer to the front overrides those
    /// behind it.
    pub fn merged(&self, chain: &Vec<String>) -> (r: KeyValueMap)
        ensures
            r@ == merge_along(self@, texts(chain@)),
    {
        let ghost all = texts(chain@);
        let mut values = KeyValueMap::new();
        let mut i: usize = chain.len();
        assert(all.skip(i as int).len() == 0);
        while i > 0
            invariant
                i <= chain@.len(),
                all == texts(chain@),
                values@ == merge_along(self@, all.skip(i as int)),
            decreases i,
        {
            i -= 1;
            let ghost farther = values@;
            match self.get(chain[i].as_str()) {
                Some(own) => {
                    values.extend(own);
                },
                None => {
                    assert(farther.union_prefer_right(Map::<Seq<char>, Seq<char>>::empty())
                        =~= farther);
                },
            }
            proof {
                let here = all.skip(i as int);
                assert(here[0] == chain@[i as int]@);
                assert(here.drop_first() =~= all.skip(i + 1));
            }
        }
        assert(all.skip(0) =~= all);
        values
    }
}

} // verus!
