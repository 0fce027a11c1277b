//! The projector: a store together with the directory from which it is read
//! and in which it is changed.

use vstd::prelude::*;
use crate::ancestry::{ancestor_chain, parent_dir};
use crate::config::{Config, Operation};
use crate::key_values::KeyValueMap;
use crate::resolution::{
    lookup, lookup_agrees_with_resolved, lookup_unfolds, resolved, store_remove, store_set,
};
use crate::store::Store;

verus! {

/// A store seen from one directory.
#[derive(Debug)]
pub struct Projector {
    config: Config,
    data: Store,
}

/// What the caller has to do after a request was carried out.
#[derive(Debug)]
pub enum Effect {
    /// Show every visible key with its value. Nothing is to be written.
    Values(KeyValueMap),
    /// Show the value, if there is one. Nothing is to be written.
    Value(Option<String>),
    /// The store has changed: write it to the backing file.
    Persist,
}

/// What became of reading the backing file.
#[derive(Debug)]
pub enum Loaded {
    /// There is no such file.
    Absent,
    /// The file is there and could not be read.
    Unreadable,
    /// The file was read and does not hold a store.
    Malformed,
    /// The store that the file holds.
    Store(Store),
}

/// The store that a projector starts from where nothing could be loaded: empty.
pub fn default_data() -> (r: Store)
    ensures
        r@ == Map::<Seq<char>, Map<Seq<char>, Seq<char>>>::empty(),
{
    Store::new()
}

impl Projector {
    /// The model of the store.
    pub closed spec fn store(&self) -> Map<Seq<char>, Map<Seq<char>, Seq<char>>> {
        self.data@
    }

    /// The context that the projector was made with.
    pub closed spec fn settings(&self) -> Config {
        self.config
    }

    /// The directory from which values are resolved and in which they are
    /// changed.
    pub open spec fn directory(&self) -> Seq<char> {
        self.settings().pwd@
    }

    /// The context that the projector was made with.
    pub fn config(&self) -> (r: &Config)
        ensures
            *r == self.settings(),
    {
        &self.config
    }

    /// The store as it stands, for the caller to write out.
    pub fn data(&self) -> (r: &Store)
        ensures
            r@ == self.store(),
    {
        &self.data
    }

    /// Every key visible from the current directory, each with the value of
    /// the nearest directory on the ancestor chain that defines it.
    pub fn get_values(&self) -> (r: KeyValueMap)
        ensures
            r@ == resolved(self.store(), self.directory()),
    {
        let chain = ancestor_chain(self.config.pwd.as_str());
        self.data.merged(&chain)
    }

    /// The value of `key` as seen from the current directory: that of the
    /// nearest directory on the ancestor chain that defines it. It is the
    /// value that `get_values` holds for the key, and `None` exactly where
    /// `get_values` lacks the key.
    pub fn get_value(&self, key: &str) -> (r: Option<&String>)
        ensures
            match r {
                Some(v) => lookup(self.store(), self.directory(), key@) == Some(v@),
                None => lookup(self.store(), self.directory(), key@) is None,
            },
            match r {
                Some(v) => resolved(self.store(), self.directory()).contains_key(key@) && resolved(
                    self.store(),
                    self.directory(),
                )[key@] == v@,
                None => !resolved(self.store(), self.directory()).contains_key(key@),
            },
    {
        proof {
            lookup_agrees_with_resolved(self.data@, self.config.pwd@, key@);
        }
        let mut cur: &str = self.config.pwd.as_str();
        loop
            invariant
                lookup(self.data@, cur@, key@) == lookup(self.data@, self.config.pwd@, key@),
                lookup(self.data@, self.config.pwd@, key@) == resolved(
                    self.data@,
                    self.config.pwd@,
                ).get(key@),
            decreases cur@.len(),
        {
            proof {
                lookup_unfolds(self.data@, cur@, key@);
            }
            match self.data.value_at(cur, key) {
                Some(v) => {
                    return Some(v);
                },
                None => {},
            }
            match parent_dir(cur) {
                Some(p) => {
                    cur = p;
                },
                None => {
                    return None;
                },
            }
        }
    }

    /// Sets `key` to `value` in the current directory's own map, creating the
    /// directory's entry if there was none. No other directory is touched.
    pub fn set_value(&mut self, key: String, value: String)
        ensures
            final(self).store() == store_set(old(self).store(), old(self).directory(), key@, value@),
            final(self).settings() == old(self).settings(),
    {
        let dir = self.config.pwd.clone();
        self.data.set(dir, key, value);
    }

    /// Removes `key` from the current directory's own map. Nothing happens
    /// where the directory has no entry or the entry lacks the key; what the
    /// ancestors define stays visible.
    pub fn remove_value(&mut self, key: &str)
        ensures
            final(self).store() == store_remove(old(self).store(), old(self).directory(), key@),
            final(self).settings() == old(self).settings(),
    {
        self.data.remove(self.config.pwd.as_str(), key);
    }

    /// A projector for `config` over the store that the backing file holds.
    /// A file that is absent, unreadable or malformed is no error: the
    /// projector then starts from the empty store.
    pub fn from_config(config: Config, loaded: Loaded) -> (r: Self)
        ensures
            r.settings() == config,
            r.store() == match loaded {
                Loaded::Store(store) => store@,
                _ => Map::<Seq<char>, Map<Seq<char>, Seq<char>>>::empty(),
            },
    {
        match loaded {
            Loaded::Store(data) => Projector { config, data },
            _ => Projector { config, data: default_data() },
        }
    }

    /// Carries out the request of the projector's context and says what is
    /// left for the caller: something to show, or the changed store to write.
    /// Showing never changes the store; setting and removing always ask for
    /// the store to be written.
    pub fn execute(&mut self) -> (effect: Effect)
        ensures
            final(self).settings() == old(self).settings(),
            match old(self).settings().operation {
                Operation::Print(None) => {
                    &&& final(self).store() == old(self).store()
                    &&& effect matches Effect::Values(values)
                    &&& values@ == resolved(old(self).store(), old(self).directory())
                },
                Operation::Print(Some(key)) => {
                    &&& final(self).store() == old(self).store()
                    &&& effect matches Effect::Value(found)
                    &&& match found {
                        Some(v) => lookup(old(self).store(), old(self).directory(), key@) == Some(
                            v@,
                        ),
                        None => lookup(old(self).store(), old(self).directory(), key@) is None,
                    }
                },
                Operation::Add(key, value) => {
                    &&& effect is Persist
                    &&& final(self).store() == store_set(
                        old(self).store(),
                        old(self).directory(),
                        key@,
                        value@,
                    )
                },
                Operation::Remove(key) => {
                    &&& effect is Persist
                    &&& final(self).store() == store_remove(
                        old(self).store(),
                        old(self).directory(),
                        key@,
                    )
                },
            },
    {
        match &self.config.operation {
            Operation::Print(None) => Effect::Values(self.get_values()),
            Operation::Print(Some(key)) => {
                let found = match self.get_value(key.as_str()) {
                    Some(v) => Some(v.clone()),
                    None => None,
                };
                Effect::Value(found)
            },
            Operation::Add(key, value) => {
                let key = key.clone();
                let value = value.clone();
                self.set_value(key, value);
                Effect::Persist
            },
            Operation::Remove(key) => {
                let key = key.clone();
                self.remove_value(key.as_str());
                Effect::Persist
            },
        }
    }
}

} // verus!
