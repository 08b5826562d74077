//! The transition engine: validation, then all-or-nothing apply.

use vstd::prelude::*;

use crate::process::{OutputSpec, ProcessIO, ProcessIOView, ProcessValidator};
use crate::store::{Token, TokenStore, TokenView};
use crate::types::{AccountId, ProcessFullyQualifiedId, TokenId};

verus! {

/// Error of a transition. Every failure leaves the token store unchanged.
#[derive(Clone, Copy, PartialEq, Eq, Debug, Structural)]
pub enum TransitionError {
    /// A referenced input token does not exist (also raised for a duplicate
    /// input id, whose token is gone once its first occurrence is consumed).
    TokenNotFound(TokenId),
    /// Defensive: id assignment handed out an id that is already stored.
    /// Unreachable while the store is well-formed.
    DuplicateTokenId(TokenId),
    /// A proposed output's metadata has more than `max` entries.
    MetadataLimitExceeded { count: usize, max: u32 },
    /// The process validator said no; the engine does not know why.
    ValidationRejected(ProcessFullyQualifiedId),
}

/// Every requested input id is in the store.
pub open spec fn all_inputs_present(m: Map<TokenId, TokenView>, ids: Seq<TokenId>) -> bool {
    forall|i: int| 0 <= i < ids.len() ==> m.contains_key(#[trigger] ids[i])
}

/// `i` is the first position whose id is not in the store.
pub open spec fn first_missing_at(m: Map<TokenId, TokenView>, ids: Seq<TokenId>, i: int) -> bool {
    &&& 0 <= i < ids.len()
    &&& !m.contains_key(ids[i])
    &&& forall|j: int| 0 <= j < i ==> m.contains_key(#[trigger] ids[j])
}

/// Every proposed output's metadata holds at most `max` entries.
pub open spec fn outputs_within_bound(specs: Seq<OutputSpec>, max: u32) -> bool {
    forall|i: int| 0 <= i < specs.len() ==> (#[trigger] specs[i]).metadata@.len() <= max
}

/// `i` is the first position whose metadata is over the bound.
pub open spec fn first_oversize_at(specs: Seq<OutputSpec>, max: u32, i: int) -> bool {
    &&& 0 <= i < specs.len()
    &&& specs[i].metadata@.len() > max
    &&& forall|j: int| 0 <= j < i ==> (#[trigger] specs[j]).metadata@.len() <= max
}

/// No input id is requested twice.
pub open spec fn distinct_inputs(ids: Seq<TokenId>) -> bool {
    forall|i: int, j: int| 0 <= i < j < ids.len() ==> ids[i] != ids[j]
}

/// `i` is the first position whose id already occurred earlier.
pub open spec fn first_repeat_at(ids: Seq<TokenId>, i: int) -> bool {
    &&& 0 <= i < ids.len()
    &&& exists|j: int| 0 <= j < i && ids[j] == ids[i]
    &&& forall|j: int, k: int| 0 <= j < k < i ==> ids[j] != ids[k]
}

/// The input views handed to the validator: the stored tokens, in request
/// order, with their ids.
pub open spec fn input_views(m: Map<TokenId, TokenView>, ids: Seq<TokenId>) -> Seq<ProcessIOView> {
    Seq::new(
        ids.len(),
        |i: int| ProcessIOView { id: Some(ids[i]), role: m[ids[i]].role, metadata: m[ids[i]].metadata },
    )
}

/// The output views handed to the validator: the proposed tokens, in request
/// order, with no ids yet.
pub open spec fn output_views(specs: Seq<OutputSpec>) -> Seq<ProcessIOView> {
    Seq::new(
        specs.len(),
        |i: int| ProcessIOView { id: Option::None, role: specs[i].role, metadata: specs[i].metadata@ },
    )
}

/// The ids a commit mints: consecutive, starting at the old counter.
pub open spec fn minted_ids(next: TokenId, n: nat) -> Seq<TokenId> {
    Seq::new(n, |i: int| (next + i) as TokenId)
}

/// The tokens a commit mints, as a map from fresh id to token view.
pub open spec fn minted_map(next: TokenId, specs: Seq<OutputSpec>) -> Map<TokenId, TokenView> {
    Map::new(
        |k: TokenId| next <= k < next + specs.len(),
        |k: TokenId| TokenView { id: k, role: specs[k - next].role, metadata: specs[k - next].metadata@ },
    )
}

/// The store after a committed transition: the inputs removed, the outputs
/// minted under the fresh ids.
pub open spec fn committed(
    m: Map<TokenId, TokenView>,
    next: TokenId,
    ids: Seq<TokenId>,
    specs: Seq<OutputSpec>,
) -> Map<TokenId, TokenView> {
    m.remove_keys(ids.to_set()).union_prefer_right(minted_map(next, specs))
}

/// The full outcome of one transition over the store model `m0` with mint
/// counter `next0`: which result is returned and what the store model `m1`
/// with counter `next1` becomes. `accept` is the validator's verdict on the
/// request's views.
pub open spec fn transition_post(
    m0: Map<TokenId, TokenView>,
    next0: TokenId,
    process: ProcessFullyQualifiedId,
    ids: Seq<TokenId>,
    specs: Seq<OutputSpec>,
    max: u32,
    accept: bool,
    r: Result<Vec<TokenId>, TransitionError>,
    m1: Map<TokenId, TokenView>,
    next1: TokenId,
) -> bool {
    &&& (r is Ok <==> all_inputs_present(m0, ids) && outputs_within_bound(specs, max) && accept
        && distinct_inputs(ids))
    &&& (!all_inputs_present(m0, ids) ==> exists|i: int|
        #[trigger] first_missing_at(m0, ids, i) && r == Err::<Vec<TokenId>, TransitionError>(
            TransitionError::TokenNotFound(ids[i]),
        ))
    &&& (all_inputs_present(m0, ids) && !outputs_within_bound(specs, max) ==> exists|i: int|
        #[trigger] first_oversize_at(specs, max, i) && r == Err::<Vec<TokenId>, TransitionError>(
            TransitionError::MetadataLimitExceeded {
                count: specs[i].metadata@.len() as usize,
                max,
            },
        ))
    &&& (all_inputs_present(m0, ids) && outputs_within_bound(specs, max) && !accept ==> r == Err::<
        Vec<TokenId>,
        TransitionError,
    >(TransitionError::ValidationRejected(process)))
    &&& (all_inputs_present(m0, ids) && outputs_within_bound(specs, max) && accept
        && !distinct_inputs(ids) ==> exists|i: int|
        #[trigger] first_repeat_at(ids, i) && r == Err::<Vec<TokenId>, TransitionError>(
            TransitionError::TokenNotFound(ids[i]),
        ))
    &&& (r is Err ==> m1 == m0 && next1 == next0)
    &&& (r matches Ok(minted) ==> minted@ == minted_ids(next0, specs.len()) && m1 == committed(
        m0,
        next0,
        ids,
        specs,
    ) && next1 == next0 + specs.len())
}

/// Monotonic ids: within one committed transition the minted ids rise in mint
/// order, and every id minted by a later transition — one whose mint counter
/// has moved at or past the earlier one's end, as every committed transition
/// moves it — is strictly greater than every id minted earlier. A minted id
/// is never repeated, even after its token is consumed.
pub proof fn lemma_minted_ids_monotonic(next1: TokenId, n1: nat, next2: TokenId, n2: nat)
    requires
        next1 + n1 <= next2,
        next2 + n2 <= TokenId::MAX,
    ensures
        forall|i: int, j: int|
            0 <= i < j < n1 ==> minted_ids(next1, n1)[i] < minted_ids(next1, n1)[j],
        forall|i: int, j: int|
            0 <= i < n1 && 0 <= j < n2 ==> minted_ids(next1, n1)[i] < minted_ids(next2, n2)[j],
{
}

/// Round trip: minting a token with `first` as the sole output of one
/// committed transition and then consuming it as the sole input of a second
/// committed transition leaves the store as if only the second transition's
/// outputs had been minted over the base store. With an empty base store,
/// exactly the second transition's outputs remain.
pub proof fn lemma_mint_then_consume(
    m: Map<TokenId, TokenView>,
    next: TokenId,
    first: OutputSpec,
    specs: Seq<OutputSpec>,
)
    requires
        !m.contains_key(next),
        next + 1 + specs.len() <= TokenId::MAX,
    ensures
        committed(
            committed(m, next, Seq::<TokenId>::empty(), seq![first]),
            (next + 1) as TokenId,
            seq![next],
            specs,
        ) == committed(m, (next + 1) as TokenId, Seq::<TokenId>::empty(), specs),
{
    let s1: Seq<TokenId> = seq![next];
    let e: Seq<TokenId> = Seq::empty();
    assert(s1.len() == 1 && s1[0] == next);
    assert forall|q: TokenId| #[trigger] s1.contains(q) implies q == next by {
        let i = choose|i: int| 0 <= i < s1.len() && #[trigger] s1[i] == q;
    }
    assert(s1.contains(next));
    assert forall|q: TokenId| !(#[trigger] e.contains(q)) by {
        if e.contains(q) {
            let i = choose|i: int| 0 <= i < e.len() && #[trigger] e[i] == q;
        }
    }
    assert(committed(
        committed(m, next, e, seq![first]),
        (next + 1) as TokenId,
        s1,
        specs,
    ) =~= committed(m, (next + 1) as TokenId, e, specs));
}

/// The transition engine: the validator strategy, injected at construction,
/// and the configured metadata bound.
pub struct TransitionEngine<V: ProcessValidator> {
    pub validator: V,
    pub max_metadata_count: u32,
}

impl<V: ProcessValidator> TransitionEngine<V> {
    /// Build an engine around a validator and a metadata bound.
    pub fn new(validator: V, max_metadata_count: u32) -> (r: Self)
        ensures
            r.validator == validator,
            r.max_metadata_count == max_metadata_count,
    {
        TransitionEngine { validator, max_metadata_count }
    }

    /// Apply one transition: resolve the inputs, check every output's
    /// metadata bound, ask the validator — all without mutating — and only
    /// then atomically consume the inputs and mint the outputs. Any failure
    /// leaves the store exactly as it was, the mint counter too.
    #[verifier::loop_isolation(false)]
    pub fn apply_transition(
        &self,
        store: &mut TokenStore,
        process: ProcessFullyQualifiedId,
        sender: AccountId,
        input_ids: &Vec<TokenId>,
        output_specs: &Vec<OutputSpec>,
    ) -> (r: Result<Vec<TokenId>, TransitionError>)
        requires
            old(store).wf(),
            old(store).spec_next() + output_specs@.len() <= TokenId::MAX,
            forall|i: int| 0 <= i < output_specs@.len() ==> (#[trigger] output_specs@[i]).wf(),
        ensures
            final(store).wf(),
            r is Err ==> *final(store) == *old(store),
            transition_post(
                old(store)@,
                old(store).spec_next(),
                process,
                input_ids@,
                output_specs@,
                self.max_metadata_count,
                self.validator.validate_spec(
                    process,
                    sender,
                    input_views(old(store)@, input_ids@),
                    output_views(output_specs@),
                ),
                r,
                final(store)@,
                final(store).spec_next(),
            ),
    {
        let ghost m0 = old(store)@;
        let ghost next0 = old(store).spec_next();
        proof {
            old(store).lemma_dom_below_next();
        }

        // Step 1: resolve every input, in request order; fail fast on the
        // first id that is not stored.
        let n_in = input_ids.len();
        let mut inputs: Vec<ProcessIO> = Vec::new();
        let mut i: usize = 0;
        while i < n_in
            invariant
                i <= n_in,
                inputs@.len() == i,
                forall|j: int| 0 <= j < i ==> m0.contains_key(#[trigger] input_ids@[j]),
                forall|j: int|
                    0 <= j < i ==> #[trigger] inputs@[j]@ == input_views(m0, input_ids@)[j],
            decreases n_in - i,
        {
            let id = input_ids[i];
            match store.get(id) {
                Some(tok) => {
                    inputs.push(ProcessIO { id: Some(id), role: tok.role, metadata: tok.metadata });
                    proof {
                        assert(inputs@[i as int]@ == input_views(m0, input_ids@)[i as int]);
                    }
                },
                None => {
                    proof {
                        assert(first_missing_at(m0, input_ids@, i as int));
                    }
                    return Err(TransitionError::TokenNotFound(id));
                },
            }
            i += 1;
        }

        // Step 2: check each proposed output's metadata bound, in order, and
        // build the output views.
        let n_out = output_specs.len();
        let mut outputs: Vec<ProcessIO> = Vec::new();
        let mut k: usize = 0;
        while k < n_out
            invariant
                k <= n_out,
                outputs@.len() == k,
                forall|j: int|
                    0 <= j < k ==> (#[trigger] output_specs@[j]).metadata@.len()
                        <= self.max_metadata_count,
                forall|j: int|
                    0 <= j < k ==> #[trigger] outputs@[j]@ == output_views(output_specs@)[j],
            decreases n_out - k,
        {
            let count = output_specs[k].metadata.len();
            if count > self.max_metadata_count as usize {
                proof {
                    assert(first_oversize_at(output_specs@, self.max_metadata_count, k as int));
                }
                return Err(
                    TransitionError::MetadataLimitExceeded {
                        count,
                        max: self.max_metadata_count,
                    },
                );
            }
            outputs.push(
                ProcessIO {
                    id: None,
                    role: output_specs[k].role,
                    metadata: output_specs[k].metadata.clone(),
                },
            );
            proof {
                assert(outputs@[k as int]@ == output_views(output_specs@)[k as int]);
            }
            k += 1;
        }

        // Step 3: the validator's verdict on the full input/output view; no
        // mutation has happened yet.
        proof {
            assert(inputs@.map_values(|p: ProcessIO| p@) =~= input_views(m0, input_ids@));
            assert(outputs@.map_values(|p: ProcessIO| p@) =~= output_views(output_specs@));
        }
        let ok = self.validator.validate_process(process, sender, &inputs, &outputs);
        if !ok {
            return Err(TransitionError::ValidationRejected(process));
        }

        // Step 4: a duplicate input id would fail on its second removal, the
        // token being gone; to keep failure atomic it is detected before
        // anything is removed, and reported as the removal would report it.
        let mut a: usize = 1;
        while a < n_in
            invariant
                forall|j: int, l: int| 0 <= j < l < a ==> input_ids@[j] != input_ids@[l],
            decreases n_in - a,
        {
            let mut b: usize = 0;
            while b < a
                invariant
                    b <= a,
                    forall|j: int| 0 <= j < b ==> input_ids@[j] != input_ids@[a as int],
                decreases a - b,
            {
                if input_ids[b] == input_ids[a] {
                    proof {
                        assert(first_repeat_at(input_ids@, a as int));
                    }
                    return Err(TransitionError::TokenNotFound(input_ids[a]));
                }
                b += 1;
            }
            a += 1;
        }
        proof {
            assert(distinct_inputs(input_ids@));
        }

        // Step 5: commit — the only mutation boundary. First remove every
        // input, in request order.
        let mut c: usize = 0;
        while c < n_in
            invariant
                c <= n_in,
                store.wf(),
                store.spec_next() == next0,
                forall|q: TokenId| #![auto]
                    store@.contains_key(q) <==> (m0.contains_key(q) && !input_ids@.take(
                        c as int,
                    ).contains(q)),
                forall|q: TokenId| #[trigger] store@.contains_key(q) ==> store@[q] == m0[q],
            decreases n_in - c,
        {
            let id = input_ids[c];
            proof {
                if input_ids@.take(c as int).contains(id) {
                    let j = choose|j: int| 0 <= j < c && input_ids@.take(c as int)[j] == id;
                    assert(input_ids@[j] == input_ids@[c as int]);
                    assert(false);
                }
                assert(store@.contains_key(id));
            }
            match store.remove(id) {
                Ok(_) => {},
                Err(_) => {
                    proof {
                        assert(false);
                    }
                    return Err(TransitionError::TokenNotFound(id));
                },
            }
            proof {
                assert forall|q: TokenId| #![auto]
                    input_ids@.take(c as int + 1).contains(q) == (input_ids@.take(
                        c as int,
                    ).contains(q) || q == input_ids@[c as int]) by {
                    if input_ids@.take(c as int + 1).contains(q) {
                        let j = choose|j: int|
                            0 <= j < c + 1 && #[trigger] input_ids@.take(c as int + 1)[j] == q;
                        if j < c {
                            assert(input_ids@.take(c as int)[j] == q);
                        }
                    }
                    if input_ids@.take(c as int).contains(q) {
                        let j = choose|j: int| 0 <= j < c && input_ids@.take(c as int)[j] == q;
                        assert(input_ids@.take(c as int + 1)[j] == q);
                    }
                    if q == input_ids@[c as int] {
                        assert(input_ids@.take(c as int + 1)[c as int] == q);
                    }
                }
            }
            c += 1;
        }
        proof {
            assert(input_ids@.take(n_in as int) =~= input_ids@);
        }

        // Then mint the outputs in order, each under the next fresh id.
        let mut minted: Vec<TokenId> = Vec::new();
        let mut d: usize = 0;
        while d < n_out
            invariant
                d <= n_out,
                store.wf(),
                store.spec_next() == next0 + d,
                minted@.len() == d,
                forall|j: int| 0 <= j < d ==> minted@[j] == next0 + j,
                forall|q: TokenId| #![auto]
                    store@.contains_key(q) <==> ((m0.contains_key(q) && !input_ids@.contains(q))
                        || (next0 <= q < next0 + d)),
                forall|q: TokenId| #![auto]
                    m0.contains_key(q) && !input_ids@.contains(q) ==> store@.contains_key(q)
                        && store@[q] == m0[q],
                forall|j: int| #![auto]
                    0 <= j < d ==> store@[(next0 + j) as TokenId] == (TokenView {
                        id: (next0 + j) as TokenId,
                        role: output_specs@[j].role,
                        metadata: output_specs@[j].metadata@,
                    }),
            decreases n_out - d,
        {
            let id = store.next_id();
            let tok = Token {
                id,
                role: output_specs[d].role,
                metadata: output_specs[d].metadata.clone(),
            };
            proof {
                if store@.contains_key(id) {
                    if m0.contains_key(id) {
                        old(store).lemma_dom_below_next();
                    }
                    assert(false);
                }
                assert(!store@.contains_key(id));
            }
            match store.insert(tok) {
                Ok(_) => {},
                Err(_) => {
                    proof {
                        assert(false);
                    }
                    return Err(TransitionError::DuplicateTokenId(id));
                },
            }
            minted.push(id);
            proof {
                assert(store@[(next0 + d) as TokenId] == (TokenView {
                    id: (next0 + d) as TokenId,
                    role: output_specs@[d as int].role,
                    metadata: output_specs@[d as int].metadata@,
                }));
            }
            d += 1;
        }
        proof {
            assert(minted@ =~= minted_ids(next0, output_specs@.len()));
            assert(store@ =~= committed(m0, next0, input_ids@, output_specs@));
        }
        Ok(minted)
    }
}

} // verus!
