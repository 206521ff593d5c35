//! The index of live keys.

use vstd::hash_map::StringHashMap;
use vstd::prelude::*;

verus! {

/// The index of live keys: each key with its current value.
pub struct Hash {
    index: StringHashMap<String>,
}

impl View for Hash {
    type V = Map<Seq<char>, Seq<char>>;

    closed spec fn view(&self) -> Map<Seq<char>, Seq<char>> {
        self.index@.map_values(|value: String| value@)
    }
}

impl Default for Hash {
    /// The empty index.
    fn default() -> (index: Hash)
        ensures
            index@ == Map::<Seq<char>, Seq<char>>::empty(),
    {
        let index = Hash { index: StringHashMap::new() };
        assert(index@ =~= Map::<Seq<char>, Seq<char>>::empty());
        index
    }
}

impl Hash {
    /// The value of `key`, if the key is live.
    pub fn get(&self, key: String) -> (r: Option<String>)
        ensures
            match r {
                Some(value) => self@.contains_key(key@) && value@ == self@[key@],
                None => !self@.contains_key(key@),
            },
    {
        match self.index.get(key.as_str()) {
            Some(value) => Some(value.clone()),
            None => None,
        }
    }

    /// Gives `key` the value `value`, whether or not it had one.
    pub fn set(&mut self, key: String, value: String)
        ensures
            final(self)@ == old(self)@.insert(key@, value@),
    {
        self.index.insert(key, value);
        assert(self@ =~= old(self)@.insert(key@, value@));
    }

    /// Removes `key`. Nothing changes when the key is not live.
    pub fn delete(&mut self, key: String)
        ensures
            final(self)@ == old(self)@.remove(key@),
    {
        self.index.remove(key.as_str());
        assert(self@ =~= old(self)@.remove(key@));
    }

    /// Removes every key.
    pub fn clear(&mut self)
        ensures
            final(self)@ == Map::<Seq<char>, Seq<char>>::empty(),
    {
        self.index.clear();
        assert(self@ =~= Map::<Seq<char>, Seq<char>>::empty());
    }
}

} // verus!
