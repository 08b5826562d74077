//! Transition-engine behaviour: scenarios, atomicity, monotonic ids.

use simple_nft::{
    MockProcessValidator, OutputSpec, ProcessFullyQualifiedId, ProcessIdentifier, Role, Token,
    TokenMetadata, TokenStore, TransitionEngine, TransitionError,
};

fn accepting() -> ProcessFullyQualifiedId {
    ProcessFullyQualifiedId { id: ProcessIdentifier::ShouldSucceed, version: 1 }
}

fn rejecting() -> ProcessFullyQualifiedId {
    ProcessFullyQualifiedId { id: ProcessIdentifier::ShouldFail, version: 1 }
}

fn engine() -> TransitionEngine<MockProcessValidator> {
    TransitionEngine::new(MockProcessValidator {}, 4)
}

fn plain_output(role: Role) -> OutputSpec {
    OutputSpec { role, metadata: TokenMetadata::new() }
}

#[test]
fn scenario_a_empty_store_one_output() {
    let mut store = TokenStore::new();
    let eng = engine();
    let r = eng.apply_transition(&mut store, accepting(), 7, &vec![], &vec![plain_output(
        Role::Owner,
    )]);
    assert_eq!(r, Ok(vec![0]));
    assert_eq!(store.len(), 1);
    let t = store.get(0).unwrap();
    assert_eq!(t.id, 0);
    assert_eq!(t.role, Role::Owner);
    assert_eq!(t.metadata.len(), 0);
}

#[test]
fn scenario_b_validator_rejects_store_unchanged() {
    let mut store = TokenStore::new();
    let eng = engine();
    let minted = eng
        .apply_transition(&mut store, accepting(), 7, &vec![], &vec![plain_output(Role::Owner)])
        .unwrap();
    assert_eq!(minted, vec![0]);

    let r = eng.apply_transition(&mut store, rejecting(), 7, &vec![0], &vec![plain_output(
        Role::NotOwner,
    )]);
    assert_eq!(r, Err(TransitionError::ValidationRejected(rejecting())));
    assert_eq!(store.len(), 1);
    let t = store.get(0).unwrap();
    assert_eq!(t.role, Role::Owner);
    assert_eq!(t.metadata.len(), 0);

    // The failed transition leaked no id: the next mint still gets id 1.
    let minted = eng
        .apply_transition(&mut store, accepting(), 7, &vec![], &vec![plain_output(Role::Owner)])
        .unwrap();
    assert_eq!(minted, vec![1]);
}

#[test]
fn scenario_c_missing_input_token() {
    let mut store = TokenStore::new();
    let eng = engine();
    let r = eng.apply_transition(&mut store, accepting(), 7, &vec![5], &vec![]);
    assert_eq!(r, Err(TransitionError::TokenNotFound(5)));
    assert_eq!(store.len(), 0);
}

#[test]
fn scenario_d_metadata_over_limit() {
    let mut store = TokenStore::new();
    let eng = engine();
    eng.apply_transition(&mut store, accepting(), 7, &vec![], &vec![plain_output(Role::Owner)])
        .unwrap();

    // Five entries, one past the configured bound of four; the validator
    // would have accepted, yet nothing is removed or minted.
    let mut metadata = TokenMetadata::new();
    for key in 0..5u64 {
        metadata.set(key, simple_nft::MetadataValue::Literal(key as u8), 5).unwrap();
    }
    let r = eng.apply_transition(&mut store, accepting(), 7, &vec![0], &vec![OutputSpec {
        role: Role::Owner,
        metadata,
    }]);
    assert_eq!(r, Err(TransitionError::MetadataLimitExceeded { count: 5, max: 4 }));
    assert_eq!(store.len(), 1);
    assert!(store.get(0).is_some());
}

#[test]
fn duplicate_input_id_fails_atomically() {
    let mut store = TokenStore::new();
    let eng = engine();
    eng.apply_transition(&mut store, accepting(), 7, &vec![], &vec![plain_output(Role::Owner)])
        .unwrap();

    // The duplicate would vanish with its first removal, so the transition
    // reports the second reference as not found — and removes nothing.
    let r = eng.apply_transition(&mut store, accepting(), 7, &vec![0, 0], &vec![]);
    assert_eq!(r, Err(TransitionError::TokenNotFound(0)));
    assert_eq!(store.len(), 1);
    assert!(store.get(0).is_some());
}

#[test]
fn round_trip_mint_then_consume() {
    let mut store = TokenStore::new();
    let eng = engine();
    let minted = eng
        .apply_transition(&mut store, accepting(), 7, &vec![], &vec![plain_output(Role::Owner)])
        .unwrap();
    assert_eq!(minted, vec![0]);

    let minted = eng
        .apply_transition(&mut store, accepting(), 7, &vec![0], &vec![
            plain_output(Role::Owner),
            plain_output(Role::NotOwner),
        ])
        .unwrap();
    assert_eq!(minted, vec![1, 2]);

    // Exactly the second transition's outputs remain.
    assert_eq!(store.len(), 2);
    assert!(store.get(0).is_none());
    assert_eq!(store.get(1).unwrap().role, Role::Owner);
    assert_eq!(store.get(2).unwrap().role, Role::NotOwner);
}

#[test]
fn minted_ids_strictly_increase_and_never_repeat() {
    let mut store = TokenStore::new();
    let eng = engine();
    let a = eng
        .apply_transition(&mut store, accepting(), 7, &vec![], &vec![plain_output(Role::Owner)])
        .unwrap();
    let b = eng
        .apply_transition(&mut store, accepting(), 7, &vec![], &vec![
            plain_output(Role::Owner),
            plain_output(Role::Owner),
        ])
        .unwrap();
    // Consume everything minted so far; the next ids are still fresh.
    let c = eng
        .apply_transition(&mut store, accepting(), 7, &vec![0, 1, 2], &vec![plain_output(
            Role::Owner,
        )])
        .unwrap();
    assert_eq!(a, vec![0]);
    assert_eq!(b, vec![1, 2]);
    assert_eq!(c, vec![3]);
    assert_eq!(store.len(), 1);
    assert!(store.get(3).is_some());
}

#[test]
fn zero_input_zero_output_transition_is_accepted() {
    let mut store = TokenStore::new();
    let eng = engine();
    let r = eng.apply_transition(&mut store, accepting(), 7, &vec![], &vec![]);
    assert_eq!(r, Ok(vec![]));
    assert_eq!(store.len(), 0);
}

#[test]
fn missing_input_reported_before_oversize_output() {
    let mut store = TokenStore::new();
    let eng = engine();
    let mut metadata = TokenMetadata::new();
    for key in 0..5u64 {
        metadata.set(key, simple_nft::MetadataValue::Absent, 5).unwrap();
    }
    let r = eng.apply_transition(&mut store, accepting(), 7, &vec![9], &vec![OutputSpec {
        role: Role::Owner,
        metadata,
    }]);
    assert_eq!(r, Err(TransitionError::TokenNotFound(9)));
}

#[test]
fn minted_token_carries_the_output_spec() {
    let mut store = TokenStore::new();
    let eng = engine();
    let mut metadata = TokenMetadata::new();
    metadata.set(10, simple_nft::MetadataValue::Literal(42), 4).unwrap();
    metadata.set(11, simple_nft::MetadataValue::TokenIdRef(0), 4).unwrap();
    let minted = eng
        .apply_transition(&mut store, accepting(), 7, &vec![], &vec![OutputSpec {
            role: Role::NotOwner,
            metadata,
        }])
        .unwrap();
    let t = store.get(minted[0]).unwrap();
    assert_eq!(t.role, Role::NotOwner);
    assert_eq!(t.metadata.len(), 2);
    assert_eq!(t.metadata.get(10), Some(simple_nft::MetadataValue::Literal(42)));
    assert_eq!(t.metadata.get(11), Some(simple_nft::MetadataValue::TokenIdRef(0)));
    assert_eq!(t.metadata.get(12), None);
}

#[test]
fn metadata_exactly_at_the_bound_is_accepted() {
    let mut store = TokenStore::new();
    let eng = engine();
    let mut metadata = TokenMetadata::new();
    for key in 0..4u64 {
        metadata.set(key, simple_nft::MetadataValue::Absent, 4).unwrap();
    }
    let r = eng.apply_transition(&mut store, accepting(), 7, &vec![], &vec![OutputSpec {
        role: Role::Owner,
        metadata,
    }]);
    assert_eq!(r, Ok(vec![0]));
    assert_eq!(store.get(0).unwrap().metadata.len(), 4);
}

#[test]
fn store_insert_duplicate_id_is_refused() {
    let mut store = TokenStore::new();
    let id = store.next_id();
    store
        .insert(Token { id, role: Role::Owner, metadata: TokenMetadata::new() })
        .unwrap();
    let r = store.insert(Token { id, role: Role::NotOwner, metadata: TokenMetadata::new() });
    assert_eq!(r, Err(simple_nft::StoreError::DuplicateTokenId(id)));
    assert_eq!(store.len(), 1);
    assert_eq!(store.get(id).unwrap().role, Role::Owner);
}

#[test]
fn store_remove_returns_the_token() {
    let mut store = TokenStore::new();
    let id = store.next_id();
    store
        .insert(Token { id, role: Role::NotOwner, metadata: TokenMetadata::new() })
        .unwrap();
    let t = store.remove(id).unwrap();
    assert_eq!(t.id, id);
    assert_eq!(t.role, Role::NotOwner);
    assert_eq!(store.len(), 0);
    match store.remove(id) {
        Err(e) => assert_eq!(e, simple_nft::StoreError::TokenNotFound(id)),
        Ok(_) => panic!("the token should be gone"),
    }
}
