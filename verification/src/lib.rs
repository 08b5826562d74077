//! A process-validated token ledger.
//!
//! The ledger is a deterministic state-transition core: a transition consumes
//! a set of existing tokens, asks a pluggable process validator for a verdict
//! on the full input/output view, and — only if the verdict is positive —
//! atomically replaces the consumed tokens with newly minted ones, each
//! carrying bounded key/value metadata and a role tag.
//!
//! - [`types`] holds the plain value types: roles, metadata values, process ids.
//! - [`assoc`] gives the map semantics of key/value pair sequences.
//! - [`metadata`] is the bounded metadata map attached to each token.
//! - [`store`] is the token store with its monotonic mint counter.
//! - [`process`] is the validator capability and the transition-time views.
//! - [`engine`] is the transition engine with its atomicity guarantees.

pub mod assoc;
pub mod engine;
pub mod metadata;
pub mod process;
pub mod store;
pub mod types;

pub use engine::{TransitionEngine, TransitionError};
pub use metadata::{MetadataError, TokenMetadata};
pub use process::{MockProcessValidator, OutputSpec, ProcessIO, ProcessValidator};
pub use store::{StoreError, Token, TokenStore, TokenView};
pub use types::{
    AccountId, ContentHash, MetadataKey, MetadataValue, ProcessFullyQualifiedId, ProcessIdentifier,
    Role, TokenId,
};
