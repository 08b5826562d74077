//! Bounded key/value metadata attached to each token.

use vstd::prelude::*;

use crate::assoc::{
    assoc_map, keys_unique, lemma_assoc_map_dom, lemma_assoc_map_index, lemma_assoc_map_len,
    lemma_assoc_map_push, lemma_assoc_map_remove,
};
use crate::types::{MetadataKey, MetadataValue, TokenId};

verus! {

/// Error of the metadata model.
#[derive(Clone, Copy, PartialEq, Eq, Debug, Structural)]
pub enum MetadataError {
    /// Inserting the entry would push the map past the configured bound.
    MetadataLimitExceeded,
}

/// Metadata map of one token, fixed at mint time from the transition's output
/// spec. Its abstract value is a map from keys to metadata values; the bound on
/// its size is enforced by [`TokenMetadata::set`] and, before minting, by the
/// transition engine.
#[derive(Debug)]
pub struct TokenMetadata {
    pub entries: Vec<(MetadataKey, MetadataValue<TokenId>)>,
}

impl View for TokenMetadata {
    type V = Map<MetadataKey, MetadataValue<TokenId>>;

    open spec fn view(&self) -> Self::V {
        assoc_map(self.entries@)
    }
}

impl Clone for TokenMetadata {
    fn clone(&self) -> (r: Self)
        ensures
            r.entries@ == self.entries@,
            r@ == self@,
            r.wf() == self.wf(),
    {
        let mut copied: Vec<(MetadataKey, MetadataValue<TokenId>)> = Vec::new();
        let mut i: usize = 0;
        while i < self.entries.len()
            invariant
                i <= self.entries@.len(),
                copied@ == self.entries@.take(i as int),
            decreases self.entries@.len() - i,
        {
            copied.push(self.entries[i]);
            proof {
                assert(copied@ =~= self.entries@.take(i + 1));
            }
            i += 1;
        }
        proof {
            assert(copied@ =~= self.entries@);
        }
        TokenMetadata { entries: copied }
    }
}

impl TokenMetadata {
    /// Well-formed: no key occurs twice among the entries.
    pub open spec fn wf(&self) -> bool {
        keys_unique(self.entries@)
    }

    /// The empty metadata map.
    pub fn new() -> (r: Self)
        ensures
            r@ == Map::<MetadataKey, MetadataValue<TokenId>>::empty(),
            r.wf(),
            r.entries@.len() == 0,
    {
        TokenMetadata { entries: Vec::new() }
    }

    /// Number of entries; with `wf`, the cardinality of the map.
    pub fn len(&self) -> (n: usize)
        ensures
            n == self.entries@.len(),
            self.wf() ==> n == self@.len(),
    {
        proof {
            if self.wf() {
                lemma_assoc_map_len(self.entries@);
            }
        }
        self.entries.len()
    }

    /// Index of the entry holding `key`, if any.
    fn find(&self, key: MetadataKey) -> (r: Option<usize>)
        ensures
            match r {
                Some(i) => i < self.entries@.len() && self.entries@[i as int].0 == key,
                None => forall|j: int|
                    0 <= j < self.entries@.len() ==> (#[trigger] self.entries@[j]).0 != key,
            },
    {
        let mut i: usize = 0;
        while i < self.entries.len()
            invariant
                i <= self.entries@.len(),
                forall|j: int| 0 <= j < i ==> (#[trigger] self.entries@[j]).0 != key,
            decreases self.entries@.len() - i,
        {
            if self.entries[i].0 == key {
                return Some(i);
            }
            i += 1;
        }
        None
    }

    /// The value held under `key`, if any.
    pub fn get(&self, key: MetadataKey) -> (r: Option<MetadataValue<TokenId>>)
        requires
            self.wf(),
        ensures
            match r {
                Some(v) => self@.contains_key(key) && v == self@[key],
                None => !self@.contains_key(key),
            },
    {
        proof {
            lemma_assoc_map_dom(self.entries@, key);
        }
        match self.find(key) {
            Some(i) => {
                proof {
                    lemma_assoc_map_index(self.entries@, i as int);
                }
                Some(self.entries[i].1)
            },
            None => None,
        }
    }

    /// Insert or overwrite one entry. Fails with `MetadataLimitExceeded`, and
    /// changes nothing, exactly when the map already holds `max` or more other
    /// keys and `key` is not among them.
    pub fn set(&mut self, key: MetadataKey, value: MetadataValue<TokenId>, max: u32) -> (r: Result<
        (),
        MetadataError,
    >)
        requires
            old(self).wf(),
        ensures
            final(self).wf(),
            old(self)@.contains_key(key) || old(self)@.len() < max ==> r == Ok::<
                (),
                MetadataError,
            >(()) && final(self)@ == old(self)@.insert(key, value),
            !(old(self)@.contains_key(key) || old(self)@.len() < max) ==> r == Err::<
                (),
                MetadataError,
            >(MetadataError::MetadataLimitExceeded) && *final(self) == *old(self),
    {
        proof {
            lemma_assoc_map_len(self.entries@);
            lemma_assoc_map_dom(self.entries@, key);
        }
        let ghost s0 = self.entries@;
        match self.find(key) {
            Some(i) => {
                proof {
                    lemma_assoc_map_remove(s0, i as int);
                }
                let _replaced = self.entries.remove(i);
                proof {
                    lemma_assoc_map_push(self.entries@, (key, value));
                    assert(keys_unique(self.entries@.push((key, value))));
                    assert(assoc_map(s0).remove(key).insert(key, value) =~= assoc_map(s0).insert(
                        key,
                        value,
                    ));
                }
                self.entries.push((key, value));
                Ok(())
            },
            None => {
                if self.entries.len() < max as usize {
                    proof {
                        lemma_assoc_map_push(self.entries@, (key, value));
                        assert(keys_unique(self.entries@.push((key, value))));
                    }
                    self.entries.push((key, value));
                    Ok(())
                } else {
                    Err(MetadataError::MetadataLimitExceeded)
                }
            },
        }
    }
}

} // verus!
