//! Error taxonomy and the tagged result types of the public API.

use vstd::prelude::*;

verus! {

/// The kinds of failure an engine operation can report.  No operation
/// aborts the process on a bad input: the offending node is isolated
/// and processing continues for everyone else.
#[derive(Clone, Copy, Debug, PartialEq, Eq, Structural)]
pub enum BftError {
    /// Malformed input, e.g. an empty signature or a zero timestamp.
    ValidationError,
    /// A message from a flagged or newly-flagged Byzantine sender.
    ByzantineRejection,
    /// A missing key or operation.
    NotFound,
    /// A hash, proof or signature mismatch detected on read.
    IntegrityFailure,
    /// Quorum could not be reached.
    ConsensusFailure,
    /// The per-entry recovery attempt counter reached its cap.
    RecoveryExhausted,
}

impl BftError {
    /// A human-readable message for the error kind.
    pub fn message(&self) -> (r: String)
        ensures
            r@ == self.message_spec(),
    {
        match self {
            BftError::ValidationError => "validation error".to_owned(),
            BftError::ByzantineRejection => "byzantine rejection".to_owned(),
            BftError::NotFound => "not found".to_owned(),
            BftError::IntegrityFailure => "integrity failure".to_owned(),
            BftError::ConsensusFailure => "consensus failure".to_owned(),
            BftError::RecoveryExhausted => "recovery exhausted".to_owned(),
        }
    }

    pub open spec fn message_spec(&self) -> Seq<char> {
        match self {
            BftError::ValidationError => "validation error"@,
            BftError::ByzantineRejection => "byzantine rejection"@,
            BftError::NotFound => "not found"@,
            BftError::IntegrityFailure => "integrity failure"@,
            BftError::ConsensusFailure => "consensus failure"@,
            BftError::RecoveryExhausted => "recovery exhausted"@,
        }
    }
}

/// The tagged result returned by the system-management API.
#[derive(Clone, Debug)]
pub enum BftResult<T> {
    Success(T),
    Failure(String),
}

impl<T> BftResult<T> {
    pub fn ok(value: T) -> (r: Self)
        ensures
            r == BftResult::Success(value),
    {
        BftResult::Success(value)
    }

    pub fn err(msg: &str) -> (r: Self)
        ensures
            r matches BftResult::Failure(m) && m@ == msg@,
    {
        BftResult::Failure(msg.to_owned())
    }
}

/// The tagged result returned by the plain record-keeping API.
#[derive(Clone, Debug)]
pub enum BondedResult<T> {
    Success(T),
    Failure(String),
}

impl<T> BondedResult<T> {
    pub fn ok(value: T) -> (r: Self)
        ensures
            r == BondedResult::Success(value),
    {
        BondedResult::Success(value)
    }

    pub fn err(msg: &str) -> (r: Self)
        ensures
            r matches BondedResult::Failure(m) && m@ == msg@,
    {
        BondedResult::Failure(msg.to_owned())
    }
}

} // verus!
