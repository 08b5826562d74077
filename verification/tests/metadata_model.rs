//! Metadata model behaviour: bounds, overwrites, defaults, value equality.

use simple_nft::{
    ContentHash, MetadataError, MetadataValue, ProcessIdentifier, Role, TokenMetadata,
};

#[test]
fn set_then_get_returns_the_value() {
    let mut m = TokenMetadata::new();
    m.set(1, MetadataValue::Literal(9), 4).unwrap();
    assert_eq!(m.get(1), Some(MetadataValue::Literal(9)));
    assert_eq!(m.get(2), None);
    assert_eq!(m.len(), 1);
}

#[test]
fn set_overwrites_existing_key_even_at_the_bound() {
    let mut m = TokenMetadata::new();
    for key in 0..4u64 {
        m.set(key, MetadataValue::Literal(key as u8), 4).unwrap();
    }
    assert_eq!(m.len(), 4);
    // The key is already present, so overwriting does not grow the map.
    m.set(2, MetadataValue::Absent, 4).unwrap();
    assert_eq!(m.len(), 4);
    assert_eq!(m.get(2), Some(MetadataValue::Absent));
}

#[test]
fn set_past_the_bound_is_refused_and_changes_nothing() {
    let mut m = TokenMetadata::new();
    for key in 0..4u64 {
        m.set(key, MetadataValue::Literal(key as u8), 4).unwrap();
    }
    let r = m.set(4, MetadataValue::Literal(4), 4);
    assert_eq!(r, Err(MetadataError::MetadataLimitExceeded));
    assert_eq!(m.len(), 4);
    assert_eq!(m.get(4), None);
    assert_eq!(m.get(3), Some(MetadataValue::Literal(3)));
}

#[test]
fn defaults_match_the_reference_configuration() {
    assert_eq!(Role::default(), Role::Owner);
    assert_eq!(MetadataValue::<u64>::default(), MetadataValue::Absent);
    assert_eq!(ProcessIdentifier::default(), ProcessIdentifier::ShouldSucceed);
}

#[test]
fn metadata_values_compare_structurally() {
    let h = ContentHash { w0: 1, w1: 2, w2: 3, w3: 4 };
    assert_eq!(MetadataValue::<u64>::File(h), MetadataValue::File(h));
    assert_ne!(
        MetadataValue::<u64>::File(h),
        MetadataValue::File(ContentHash { w0: 0, w1: 2, w2: 3, w3: 4 })
    );
    assert_ne!(MetadataValue::<u64>::Literal(1), MetadataValue::Literal(2));
    assert_eq!(MetadataValue::<u64>::TokenIdRef(8), MetadataValue::TokenIdRef(8));
    assert_ne!(MetadataValue::<u64>::TokenIdRef(8), MetadataValue::Absent);
    // Ordering is structural too: first the variant tag, then the payload.
    assert!(MetadataValue::<u64>::File(h) < MetadataValue::Literal(0));
    assert!(MetadataValue::<u64>::Literal(1) < MetadataValue::Literal(2));
    assert!(MetadataValue::<u64>::TokenIdRef(8) < MetadataValue::Absent);
    assert!(Role::Owner < Role::NotOwner);
}

#[test]
fn all_value_variants_can_be_stored() {
    let mut m = TokenMetadata::new();
    let h = ContentHash { w0: 7, w1: 7, w2: 7, w3: 7 };
    m.set(0, MetadataValue::File(h), 4).unwrap();
    m.set(1, MetadataValue::Literal(255), 4).unwrap();
    m.set(2, MetadataValue::TokenIdRef(0), 4).unwrap();
    m.set(3, MetadataValue::Absent, 4).unwrap();
    assert_eq!(m.len(), 4);
    assert_eq!(m.get(0), Some(MetadataValue::File(h)));
    assert_eq!(m.get(1), Some(MetadataValue::Literal(255)));
    assert_eq!(m.get(2), Some(MetadataValue::TokenIdRef(0)));
    assert_eq!(m.get(3), Some(MetadataValue::Absent));
}
