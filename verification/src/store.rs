//! The token store: the sole owner of all token records, keyed by id, with the
//! monotonic mint counter.

use vstd::prelude::*;

use crate::assoc::{
    assoc_map, keys_unique, lemma_assoc_map_dom, lemma_assoc_map_index, lemma_assoc_map_len,
    lemma_assoc_map_push, lemma_assoc_map_remove,
};
use crate::metadata::TokenMetadata;
use crate::types::{MetadataKey, MetadataValue, Role, TokenId};

verus! {

/// Mathematical model of one stored token.
#[verifier::ext_equal]
pub struct TokenView {
    pub id: TokenId,
    pub role: Role,
    pub metadata: Map<MetadataKey, MetadataValue<TokenId>>,
}

/// One ledger record. Created only by the transition engine as a transition
/// output; destroyed only when consumed as a transition input; immutable in
/// between.
#[derive(Debug)]
pub struct Token {
    pub id: TokenId,
    pub role: Role,
    pub metadata: TokenMetadata,
}

impl Token {
    /// Well-formed: the metadata keys are distinct.
    pub open spec fn wf(&self) -> bool {
        self.metadata.wf()
    }
}

impl View for Token {
    type V = TokenView;

    open spec fn view(&self) -> TokenView {
        TokenView { id: self.id, role: self.role, metadata: self.metadata@ }
    }
}

impl Clone for Token {
    fn clone(&self) -> (r: Self)
        ensures
            r@ == self@,
            r.id == self.id,
            r.role == self.role,
            r.metadata.entries@ == self.metadata.entries@,
            r.wf() == self.wf(),
    {
        Token { id: self.id, role: self.role, metadata: self.metadata.clone() }
    }
}

/// Error of the token store.
#[derive(Clone, Copy, PartialEq, Eq, Debug, Structural)]
pub enum StoreError {
    /// The id is already present. Defensive: monotonic id assignment should
    /// make this unreachable; seeing it means the counter invariant broke.
    DuplicateTokenId(TokenId),
    /// No token with the id exists.
    TokenNotFound(TokenId),
}

/// The store. Its abstract value is a map from token id to [`TokenView`];
/// `spec_next` is the mint counter, strictly above every stored id.
#[derive(Debug)]
pub struct TokenStore {
    pub entries: Vec<(TokenId, Token)>,
    pub next: TokenId,
}

impl View for TokenStore {
    type V = Map<TokenId, TokenView>;

    open spec fn view(&self) -> Map<TokenId, TokenView> {
        assoc_map(self.entries@).map_values(|t: Token| t@)
    }
}

impl TokenStore {
    /// The id the next minted token will get.
    pub open spec fn spec_next(&self) -> TokenId {
        self.next
    }

    /// Well-formed: ids are distinct, each entry is keyed by its token's own
    /// id, each token is well-formed, and every id is below the mint counter.
    pub open spec fn wf(&self) -> bool {
        &&& keys_unique(self.entries@)
        &&& forall|i: int|
            0 <= i < self.entries@.len() ==> (#[trigger] self.entries@[i]).1.id
                == self.entries@[i].0
        &&& forall|i: int| 0 <= i < self.entries@.len() ==> (#[trigger] self.entries@[i]).1.wf()
        &&& forall|i: int| 0 <= i < self.entries@.len() ==> (#[trigger] self.entries@[i]).0 < self.next
    }

    /// Every stored id is below the mint counter, so a fresh id never
    /// collides with a stored one.
    pub proof fn lemma_dom_below_next(&self)
        requires
            self.wf(),
        ensures
            forall|k: TokenId| #[trigger] self@.contains_key(k) ==> k < self.spec_next(),
    {
        assert forall|k: TokenId| #[trigger] self@.contains_key(k) implies k < self.next by {
            lemma_assoc_map_dom(self.entries@, k);
            let i = choose|i: int| 0 <= i < self.entries@.len() && (#[trigger] self.entries@[i]).0 == k;
        }
    }

    /// The empty store, with the mint counter at zero.
    pub fn new() -> (r: Self)
        ensures
            r@ == Map::<TokenId, TokenView>::empty(),
            r.spec_next() == 0,
            r.wf(),
    {
        let r = TokenStore { entries: Vec::new(), next: 0 };
        proof {
            assert(r@ =~= Map::<TokenId, TokenView>::empty());
        }
        r
    }

    /// Number of stored tokens.
    pub fn len(&self) -> (n: usize)
        requires
            self.wf(),
        ensures
            n == self@.len(),
    {
        proof {
            lemma_assoc_map_len(self.entries@);
            assert(self@.dom() =~= assoc_map(self.entries@).dom());
        }
        self.entries.len()
    }

    /// Index of the entry holding `id`, if any.
    fn find(&self, id: TokenId) -> (r: Option<usize>)
        ensures
            match r {
                Some(i) => i < self.entries@.len() && self.entries@[i as int].0 == id,
                None => forall|j: int|
                    0 <= j < self.entries@.len() ==> (#[trigger] self.entries@[j]).0 != id,
            },
    {
        let mut i: usize = 0;
        while i < self.entries.len()
            invariant
                i <= self.entries@.len(),
                forall|j: int| 0 <= j < i ==> (#[trigger] self.entries@[j]).0 != id,
            decreases self.entries@.len() - i,
        {
            if self.entries[i].0 == id {
                return Some(i);
            }
            i += 1;
        }
        None
    }

    /// Read a copy of the token under `id`; no side effect.
    pub fn get(&self, id: TokenId) -> (r: Option<Token>)
        requires
            self.wf(),
        ensures
            match r {
                Some(t) => self@.contains_key(id) && t@ == self@[id] && t.wf() && t.id == id,
                None => !self@.contains_key(id),
            },
    {
        proof {
            lemma_assoc_map_dom(self.entries@, id);
        }
        match self.find(id) {
            Some(i) => {
                proof {
                    lemma_assoc_map_index(self.entries@, i as int);
                }
                Some(self.entries[i].1.clone())
            },
            None => None,
        }
    }

    /// Hand out the next token id and advance the counter.
    pub fn next_id(&mut self) -> (id: TokenId)
        requires
            old(self).spec_next() < TokenId::MAX,
        ensures
            id == old(self).spec_next(),
            final(self).spec_next() == old(self).spec_next() + 1,
            final(self)@ == old(self)@,
            final(self).entries@ == old(self).entries@,
            old(self).wf() ==> final(self).wf(),
    {
        let id = self.next;
        self.next = self.next + 1;
        id
    }

    /// Insert a token under its id. Fails with `DuplicateTokenId`, and changes
    /// nothing, exactly when the id is already present.
    pub fn insert(&mut self, token: Token) -> (r: Result<(), StoreError>)
        requires
            old(self).wf(),
            token.wf(),
            token.id < old(self).spec_next(),
        ensures
            final(self).wf(),
            final(self).spec_next() == old(self).spec_next(),
            old(self)@.contains_key(token.id) ==> r == Err::<(), StoreError>(
                StoreError::DuplicateTokenId(token.id),
            ) && *final(self) == *old(self),
            !old(self)@.contains_key(token.id) ==> r == Ok::<(), StoreError>(()) && final(self)@
                == old(self)@.insert(token.id, token@),
    {
        proof {
            lemma_assoc_map_dom(self.entries@, token.id);
        }
        match self.find(token.id) {
            Some(_) => Err(StoreError::DuplicateTokenId(token.id)),
            None => {
                let ghost s0 = self.entries@;
                proof {
                    lemma_assoc_map_push(s0, (token.id, token));
                    assert(keys_unique(s0.push((token.id, token))));
                }
                let id = token.id;
                self.entries.push((id, token));
                proof {
                    assert(self@ =~= old(self)@.insert(token.id, token@));
                }
                Ok(())
            },
        }
    }

    /// Remove and return the token under `id`. Fails with `TokenNotFound`, and
    /// changes nothing, exactly when the id is absent.
    pub fn remove(&mut self, id: TokenId) -> (r: Result<Token, StoreError>)
        requires
            old(self).wf(),
        ensures
            final(self).wf(),
            final(self).spec_next() == old(self).spec_next(),
            old(self)@.contains_key(id) ==> (r matches Ok(t) && t@ == old(self)@[id])
                && final(self)@ == old(self)@.remove(id),
            !old(self)@.contains_key(id) ==> r == Err::<Token, StoreError>(
                StoreError::TokenNotFound(id),
            ) && *final(self) == *old(self),
    {
        proof {
            lemma_assoc_map_dom(self.entries@, id);
        }
        match self.find(id) {
            Some(i) => {
                let ghost s0 = self.entries@;
                proof {
                    lemma_assoc_map_index(s0, i as int);
                    lemma_assoc_map_remove(s0, i as int);
                    s0.remove_ensures(i as int);
                }
                let pair = self.entries.remove(i);
                proof {
                    assert(self@ =~= old(self)@.remove(id));
                }
                Ok(pair.1)
            },
            None => Err(StoreError::TokenNotFound(id)),
        }
    }
}

} // verus!
