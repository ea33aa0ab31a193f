//! Errors of the membership core.

use vstd::prelude::*;

verus! {

/// Everything that can go wrong in the membership core.
#[derive(Clone, Copy, PartialEq, Eq, Structural, Debug, Hash)]
pub enum Error {
    /// The voter already voted on this proposal.
    DuplicateVote,
    /// The voter is not in the proposal's eligible voter set.
    UnknownVoter,
    /// The vote referenced a proof-chain tip other than the current one;
    /// recoverable by re-voting against the latest state.
    StaleProof,
    /// A signature or hash link of a proof chain does not verify; fatal to
    /// trusting that state.
    InvalidProofChain,
    /// The operation referenced an identity absent from the target section.
    NotAMember,
    /// A split, merge or delivery-group precondition on the member count is
    /// unmet.
    InsufficientMembers,
}

impl Error {
    /// A short description of the error.
    pub fn describe(&self) -> (r: &'static str) {
        match self {
            Error::DuplicateVote => "duplicate vote",
            Error::UnknownVoter => "unknown voter",
            Error::StaleProof => "stale proof",
            Error::InvalidProofChain => "invalid proof chain",
            Error::NotAMember => "not a member",
            Error::InsufficientMembers => "insufficient members",
        }
    }
}

} // verus!
