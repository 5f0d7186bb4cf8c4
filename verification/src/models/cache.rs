//! A bounded lookaside cache from a word to its tokenization.  Once full,
//! new entries are dropped rather than evicting old ones; clearing and
//! resizing are explicit administrative operations.

use vstd::prelude::*;
use vstd::hash_map::StringHashMap;

use crate::{Token, TokenView};

verus! {

/// How many words a cache holds unless told otherwise.
pub const DEFAULT_CACHE_CAPACITY: usize = 10000;

/// A bounded word-to-tokens cache.
pub struct Cache {
    pub map: StringHashMap<Vec<Token>>,
    pub capacity: usize,
}

impl Cache {
    /// The cached mapping, as mathematical tokens.
    pub open spec fn view_map(&self) -> Map<Seq<char>, Seq<TokenView>> {
        Map::new(
            |w: Seq<char>| self.map@.contains_key(w),
            |w: Seq<char>| self.map@[w].deep_view(),
        )
    }

    /// The most entries the cache will hold.
    pub open spec fn spec_capacity(&self) -> nat {
        self.capacity as nat
    }

    /// An empty cache with the given capacity.
    pub fn new(capacity: usize) -> (r: Cache)
        ensures
            r.view_map() == Map::<Seq<char>, Seq<TokenView>>::empty(),
            r.spec_capacity() == capacity as nat,
    {
        let r = Cache { map: StringHashMap::new(), capacity };
        proof {
            assert(r.view_map() =~= Map::<Seq<char>, Seq<TokenView>>::empty());
        }
        r
    }

    /// The cached tokenization of a word, if present.
    pub fn get(&self, word: &str) -> (r: Option<&Vec<Token>>)
        ensures
            match r {
                Some(v) => self.view_map().contains_key(word@) && v.deep_view()
                    == self.view_map()[word@],
                None => !self.view_map().contains_key(word@),
            },
    {
        self.map.get(word)
    }

    /// Records a word's tokenization.  A full cache drops the new entry
    /// instead of evicting an old one; a word already present is updated.
    pub fn set(&mut self, word: String, tokens: Vec<Token>)
        ensures
            final(self).spec_capacity() == old(self).spec_capacity(),
            final(self).view_map() == if old(self).view_map().dom().len() < old(
                self,
            ).spec_capacity() || old(self).view_map().contains_key(word@) {
                old(self).view_map().insert(word@, tokens.deep_view())
            } else {
                old(self).view_map()
            },
    {
        proof {
            assert(self.map@.dom() =~= self.view_map().dom());
        }
        let ghost wv = word@;
        if self.map.len() < self.capacity || self.map.contains_key(word.as_str()) {
            self.map.insert(word, tokens);
            proof {
                assert(final(self).view_map() =~~= old(self).view_map().insert(
                    wv,
                    tokens.deep_view(),
                ));
            }
        }
    }

    /// Removes every entry; the capacity stays.
    pub fn clear(&mut self)
        ensures
            final(self).view_map() == Map::<Seq<char>, Seq<TokenView>>::empty(),
            final(self).spec_capacity() == old(self).spec_capacity(),
    {
        self.map.clear();
        proof {
            assert(final(self).view_map() =~= Map::<Seq<char>, Seq<TokenView>>::empty());
        }
    }

    /// Sets a new capacity, dropping every entry if the cache currently
    /// holds more than the new bound.
    pub fn resize(&mut self, capacity: usize)
        ensures
            final(self).spec_capacity() == capacity as nat,
            final(self).view_map() == if old(self).view_map().dom().len() <= capacity as nat {
                old(self).view_map()
            } else {
                Map::<Seq<char>, Seq<TokenView>>::empty()
            },
    {
        proof {
            assert(self.map@.dom() =~= self.view_map().dom());
        }
        self.capacity = capacity;
        if self.map.len() > capacity {
            self.map.clear();
            proof {
                assert(final(self).view_map() =~= Map::<Seq<char>, Seq<TokenView>>::empty());
            }
        }
    }

    /// How many words are cached.
    pub fn len(&self) -> (r: usize)
        ensures
            r == self.view_map().dom().len(),
    {
        proof {
            assert(self.map@.dom() =~= self.view_map().dom());
        }
        self.map.len()
    }
}

} // verus!
