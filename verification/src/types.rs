//! Plain value types of the ledger.

use vstd::prelude::*;

verus! {

/// Identifier of a token. Assigned by the transition engine from a monotonic
/// counter at mint time and never reused, even after the token is consumed.
pub type TokenId = u64;

/// Account on whose behalf a transition runs. Authentication of the account
/// happens outside the ledger.
pub type AccountId = u64;

/// Key of one metadata entry.
pub type MetadataKey = u64;

/// A 256-bit content hash referring to off-ledger data, held as four 64-bit
/// words. The ledger only stores and compares it.
#[derive(Clone, Copy, PartialEq, Eq, PartialOrd, Ord, Debug, Structural)]
pub struct ContentHash {
    pub w0: u64,
    pub w1: u64,
    pub w2: u64,
    pub w3: u64,
}

/// Access tag attached to a token. The engine does not interpret it; only the
/// process validator does.
#[derive(Clone, Copy, PartialEq, Eq, PartialOrd, Ord, Debug, Structural)]
pub enum Role {
    Owner,
    NotOwner,
}

impl Default for Role {
    /// The default role is `Owner`.
    fn default() -> (r: Self)
        ensures
            r == Role::Owner,
    {
        Role::Owner
    }
}

/// Value of one metadata entry: a content hash, a single inline byte, a
/// reference to another token, or explicit absence.
#[derive(Clone, Copy, PartialEq, Eq, PartialOrd, Ord, Debug, Structural)]
pub enum MetadataValue<T> {
    File(ContentHash),
    Literal(u8),
    TokenIdRef(T),
    Absent,
}

impl<T> Default for MetadataValue<T> {
    /// The default value is explicit absence.
    fn default() -> (r: Self)
        ensures
            r == MetadataValue::<T>::Absent,
    {
        MetadataValue::Absent
    }
}

/// Names which validation rule governs a transition. The reference
/// configuration carries one rule that accepts and one that rejects.
#[derive(Clone, Copy, PartialEq, Eq, Debug, Structural)]
pub enum ProcessIdentifier {
    ShouldSucceed,
    ShouldFail,
}

impl Default for ProcessIdentifier {
    /// The default process is the accepting one.
    fn default() -> (r: Self)
        ensures
            r == ProcessIdentifier::ShouldSucceed,
    {
        ProcessIdentifier::ShouldSucceed
    }
}

/// Fully qualified process id: which validation rule, and which revision of
/// it. The engine passes it through as an opaque lookup key.
#[derive(Clone, Copy, PartialEq, Eq, Debug, Structural)]
pub struct ProcessFullyQualifiedId {
    pub id: ProcessIdentifier,
    pub version: u32,
}

} // verus!
