//! The process validator capability and the transition-time token views it is
//! shown.

use vstd::prelude::*;

use crate::metadata::TokenMetadata;
use crate::types::{AccountId, MetadataKey, MetadataValue, ProcessFullyQualifiedId,
    ProcessIdentifier, Role, TokenId};

verus! {

/// Mathematical model of one transition-time token view.
#[verifier::ext_equal]
pub struct ProcessIOView {
    pub id: Option<TokenId>,
    pub role: Role,
    pub metadata: Map<MetadataKey, MetadataValue<TokenId>>,
}

/// Transition-time view of one token, as shown to the validator: for an input,
/// the existing token being consumed (with its id); for an output, the
/// proposed role and metadata of a token about to be minted (no id yet — id
/// assignment is the engine's business and not visible to the validator).
#[derive(Debug)]
pub struct ProcessIO {
    pub id: Option<TokenId>,
    pub role: Role,
    pub metadata: TokenMetadata,
}

impl View for ProcessIO {
    type V = ProcessIOView;

    open spec fn view(&self) -> ProcessIOView {
        ProcessIOView { id: self.id, role: self.role, metadata: self.metadata@ }
    }
}

/// Proposed role and metadata of one transition output.
#[derive(Debug)]
pub struct OutputSpec {
    pub role: Role,
    pub metadata: TokenMetadata,
}

impl OutputSpec {
    /// Well-formed: the metadata keys are distinct.
    pub open spec fn wf(&self) -> bool {
        self.metadata.wf()
    }
}

impl Clone for OutputSpec {
    fn clone(&self) -> (r: Self)
        ensures
            r.role == self.role,
            r.metadata@ == self.metadata@,
            r.metadata.entries@ == self.metadata.entries@,
            r.wf() == self.wf(),
    {
        OutputSpec { role: self.role, metadata: self.metadata.clone() }
    }
}

/// The pluggable validation rule: a pure predicate over a process id, the
/// sender, and the proposed input/output views. `validate_spec` is the
/// mathematical verdict; `validate_process` must compute exactly it, which
/// makes every validator deterministic with respect to what it is shown, as
/// replayability of the surrounding ledger demands. The engine treats any
/// implementation as a black box behind this contract.
pub trait ProcessValidator: Sized {
    /// The verdict as a mathematical predicate.
    spec fn validate_spec(
        &self,
        process: ProcessFullyQualifiedId,
        sender: AccountId,
        inputs: Seq<ProcessIOView>,
        outputs: Seq<ProcessIOView>,
    ) -> bool;

    /// Compute the verdict. No mutation, no observable effect.
    fn validate_process(
        &self,
        process: ProcessFullyQualifiedId,
        sender: AccountId,
        inputs: &Vec<ProcessIO>,
        outputs: &Vec<ProcessIO>,
    ) -> (r: bool)
        ensures
            r == self.validate_spec(
                process,
                sender,
                inputs@.map_values(|p: ProcessIO| p@),
                outputs@.map_values(|p: ProcessIO| p@),
            ),
    ;
}

/// Reference validator: accepts exactly the transitions governed by
/// `ProcessIdentifier::ShouldSucceed`, whatever the sender, inputs and
/// outputs.
pub struct MockProcessValidator {}

impl ProcessValidator for MockProcessValidator {
    open spec fn validate_spec(
        &self,
        process: ProcessFullyQualifiedId,
        sender: AccountId,
        inputs: Seq<ProcessIOView>,
        outputs: Seq<ProcessIOView>,
    ) -> bool {
        process.id == ProcessIdentifier::ShouldSucceed
    }

    fn validate_process(
        &self,
        process: ProcessFullyQualifiedId,
        _sender: AccountId,
        _inputs: &Vec<ProcessIO>,
        _outputs: &Vec<ProcessIO>,
    ) -> (r: bool)
    {
        process.id == ProcessIdentifier::ShouldSucceed
    }
}

} // verus!
