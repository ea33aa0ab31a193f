//! Membership-and-agreement layer of a sharded peer-to-peer overlay network.
//!
//! The library maintains, for each node, a verifiable view of which peers
//! belong to its local section of the XOR-name address space, drives
//! quorum-based agreement on changes to that view, and selects which peers
//! must forward a message to guarantee resilient delivery.

pub mod consensus;
pub mod crypto;
pub mod delivery_group;
pub mod error;
pub mod id;
pub mod location;
pub mod message_filter;
pub mod name_type;
pub mod prefix;
pub mod relay;
pub mod relocation;
pub mod section;
pub mod timer;

use vstd::prelude::*;

verus! {

/// Quorum is defined as having strictly greater than
/// `QUORUM_NUMERATOR / QUORUM_DENOMINATOR` agreement; using only integer
/// arithmetic a quorum can be checked with
/// `votes * QUORUM_DENOMINATOR > voters * QUORUM_NUMERATOR`.
pub const QUORUM_NUMERATOR: usize = 2;
/// See `QUORUM_NUMERATOR`.
pub const QUORUM_DENOMINATOR: usize = 3;

/// Recommended section size. Nodes are added to a section until it reaches
/// this size; a split happens only if both post-split sections would have at
/// least this number of nodes.
pub const RECOMMENDED_SECTION_SIZE: usize = 60;

/// Number of elders per section.
pub const ELDER_SIZE: usize = 7;

/// Whether `votes` votes out of `voters` eligible voters form a quorum:
/// strictly more than two thirds of the voters agree.
pub open spec fn spec_quorum_reached(votes: nat, voters: nat) -> bool {
    votes * (QUORUM_DENOMINATOR as nat) > voters * (QUORUM_NUMERATOR as nat)
}

/// Returns whether strictly more than two thirds of `voters` have voted.
/// The products are taken in a wider type, so no count can overflow them.
pub fn quorum_reached(votes: usize, voters: usize) -> (r: bool)
    ensures
        r == spec_quorum_reached(votes as nat, voters as nat),
{
    (votes as u128) * (QUORUM_DENOMINATOR as u128) > (voters as u128) * (QUORUM_NUMERATOR as u128)
}

/// Minimum section size: a section that falls below this many members must
/// merge with its sibling.
pub const MIN_SECTION_SIZE: usize = 8;

/// The configuration a host hands the core: the elder target size and
/// the recommended section size that governs splits.
pub struct NetworkParams {
    /// How many elders a section aims to keep.
    pub elder_size: usize,
    /// The member count a section grows to before it may split.
    pub recommended_section_size: usize,
    /// The tenure past which a member becomes due for relocation; handed
    /// to `relocation::select_relocations`.
    pub relocation_age_threshold: u8,
}

impl Default for NetworkParams {
    /// The default parameters mirror the crate-level constants.
    fn default() -> (r: NetworkParams)
        ensures
            r.elder_size == ELDER_SIZE,
            r.recommended_section_size == RECOMMENDED_SECTION_SIZE,
            r.relocation_age_threshold == crate::section::MIN_AGE,
    {
        NetworkParams {
            elder_size: ELDER_SIZE,
            recommended_section_size: RECOMMENDED_SECTION_SIZE,
            relocation_age_threshold: crate::section::MIN_AGE,
        }
    }
}

/// Discards the result of an operation whose outcome does not matter.
pub fn ignore<R, E>(_result: Result<R, E>) {
}

} // verus!
