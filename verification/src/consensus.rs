//! Quorum voting.
//!
//! A proposal collects signed votes from a fixed eligible voter set and is
//! accepted once strictly more than two thirds of the voters have validly
//! voted. Two quorums over the same voter set always share a voter, which is
//! what makes acceptance safe.

use vstd::prelude::*;
use vstd::set_lib::{lemma_len_subset, lemma_set_disjoint_lens};
use crate::error::Error;
use crate::id::{PublicId, keys_equal};
use crate::crypto::verifies;
use crate::spec_quorum_reached;
use crate::quorum_reached;

verus! {

/// The lifecycle of a proposal: it is resolved, one way, exactly once.
#[derive(Clone, Copy, PartialEq, Eq, Structural, Debug)]
pub enum ProposalState {
    /// Still collecting votes.
    Open,
    /// A quorum of voters signed it.
    Accepted,
    /// Its deadline passed without a quorum; it must be resubmitted.
    Expired,
}

/// One recorded vote: who voted and their signature over the payload.
#[derive(Clone, Copy, Debug)]
pub struct Vote {
    /// The voter's identity.
    pub voter: PublicId,
    /// The voter's signature over the proposal payload.
    pub signature: [u8; 64],
}

/// A proposal under vote: a payload, the eligible voter set fixed at
/// creation, and the votes collected so far.
pub struct Proposal {
    /// What is being voted on, as the bytes each voter signs.
    pub payload: Vec<u8>,
    /// The eligible voters, fixed when the proposal was created.
    pub voters: Vec<PublicId>,
    /// The votes recorded so far, at most one per voter.
    pub votes: Vec<Vote>,
    /// Where the proposal stands.
    pub state: ProposalState,
}

/// Whether the keys of `ids` are pairwise distinct.
pub open spec fn distinct_keys(ids: Seq<PublicId>) -> bool {
    forall|i: int, j: int|
        0 <= i < j < ids.len() ==> ids[i].sign_key@ != ids[j].sign_key@
}

/// Whether the voters of `votes` are pairwise distinct, by key.
pub open spec fn distinct_vote_keys(votes: Seq<Vote>) -> bool {
    forall|i: int, j: int|
        0 <= i < j < votes.len() ==> votes[i].voter.sign_key@ != votes[j].voter.sign_key@
}

impl Proposal {
    /// Whether `key` has already voted.
    pub open spec fn spec_has_voted(self, key: Seq<u8>) -> bool {
        exists|i: int| 0 <= i < self.votes.len() && self.votes[i].voter.sign_key@ == key
    }

    /// Whether `key` is eligible to vote.
    pub open spec fn spec_is_voter(self, key: Seq<u8>) -> bool {
        exists|i: int| 0 <= i < self.voters.len() && self.voters[i].sign_key@ == key
    }

    /// Invariants of a proposal: voters and recorded votes are distinct,
    /// every vote is by an eligible voter and carries a signature that
    /// verifies over the payload, and an accepted state reflects a quorum.
    pub open spec fn wf(self) -> bool {
        &&& distinct_keys(self.voters@)
        &&& distinct_vote_keys(self.votes@)
        &&& forall|i: int|
            0 <= i < self.votes.len() ==> self.spec_is_voter(#[trigger] self.votes[i].voter.sign_key@)
        &&& forall|i: int|
            0 <= i < self.votes.len() ==> verifies(
                #[trigger] self.votes[i].voter.sign_key@,
                self.payload@,
                self.votes[i].signature@,
            )
        &&& (self.state == ProposalState::Accepted <==> spec_quorum_reached(
            self.votes.len() as nat,
            self.voters.len() as nat,
        ))
    }

    /// Opens a proposal over `payload` with the eligible voter set `voters`.
    pub fn new(payload: Vec<u8>, voters: Vec<PublicId>) -> (r: Proposal)
        requires
            distinct_keys(voters@),
            voters.len() > 0,
        ensures
            r.wf(),
            r.state == ProposalState::Open,
            r.votes@.len() == 0,
            r.payload@ == payload@,
            r.voters@ == voters@,
    {
        Proposal { payload, voters, votes: Vec::new(), state: ProposalState::Open }
    }

    /// Records a vote by `voter` with `signature` over the payload.
    ///
    /// Fails with `DuplicateVote` if the voter already voted, with
    /// `UnknownVoter` if it is not eligible; a vote whose signature does not
    /// verify is dropped silently, since adversarial peers are expected
    /// traffic. Otherwise the vote is recorded, and the proposal is accepted
    /// as soon as strictly more than two thirds of the voters have voted.
    /// Returns whether the proposal is now accepted.
    pub fn submit_vote(&mut self, voter: &PublicId, signature: &[u8; 64]) -> (r: Result<
        bool,
        Error,
    >)
        requires
            old(self).wf(),
            old(self).state == ProposalState::Open,
        ensures
            final(self).wf(),
            final(self).payload@ == old(self).payload@,
            final(self).voters@ == old(self).voters@,
            old(self).spec_has_voted(voter.sign_key@) <==> r == Result::<bool, Error>::Err(
                Error::DuplicateVote,
            ),
            (!old(self).spec_has_voted(voter.sign_key@) && !old(self).spec_is_voter(
                voter.sign_key@,
            )) <==> r == Result::<bool, Error>::Err(Error::UnknownVoter),
            r is Err ==> *final(self) == *old(self),
            (r is Ok && !verifies(voter.sign_key@, old(self).payload@, signature@))
                ==> *final(self) == *old(self),
            (r is Ok && verifies(voter.sign_key@, old(self).payload@, signature@)) ==> {
                &&& final(self).votes@.len() == old(self).votes@.len() + 1
                &&& final(self).votes@.last().voter == *voter
                &&& final(self).votes@.last().signature@ == signature@
                &&& final(self).votes@.drop_last() == old(self).votes@
                &&& final(self).state == (if spec_quorum_reached(
                    old(self).votes@.len() + 1 as nat,
                    old(self).voters@.len() as nat,
                ) {
                    ProposalState::Accepted
                } else {
                    ProposalState::Open
                })
            },
            r matches Ok(accepted) ==> accepted == (final(self).state == ProposalState::Accepted),
            r is Err ==> (r == Result::<bool, Error>::Err(Error::DuplicateVote) || r == Result::<
                bool,
                Error,
            >::Err(Error::UnknownVoter)),
    {
        let mut i: usize = 0;
        while i < self.votes.len()
            invariant
                *self == *old(self),
                self.wf(),
                i <= self.votes.len(),
                forall|j: int| 0 <= j < i ==> self.votes@[j].voter.sign_key@ != voter.sign_key@,
            decreases self.votes.len() - i,
        {
            if keys_equal(&self.votes[i].voter.sign_key, &voter.sign_key) {
                return Err(Error::DuplicateVote);
            }
            i = i + 1;
        }
        let mut found = false;
        let mut k: usize = 0;
        while k < self.voters.len()
            invariant
                *self == *old(self),
                self.wf(),
                k <= self.voters.len(),
                !found ==> forall|j: int|
                    0 <= j < k ==> self.voters@[j].sign_key@ != voter.sign_key@,
                found ==> self.spec_is_voter(voter.sign_key@),
            decreases self.voters.len() - k,
        {
            if keys_equal(&self.voters[k].sign_key, &voter.sign_key) {
                found = true;
            }
            k = k + 1;
        }
        if !found {
            return Err(Error::UnknownVoter);
        }
        if !voter.verify(&self.payload, signature) {
            return Ok(false);
        }
        let ghost old_votes = self.votes@;
        self.votes.push(Vote { voter: *voter, signature: *signature });
        proof {
            assert(self.votes@.drop_last() =~= old_votes);
        }
        let accepted = quorum_reached(self.votes.len(), self.voters.len());
        if accepted {
            self.state = ProposalState::Accepted;
        }
        Ok(accepted)
    }

    /// Expires an open proposal whose deadline passed; the caller discards
    /// it and the initiator must resubmit. A no-op on a resolved proposal,
    /// so a fired-but-stale timer is harmless.
    pub fn expire(&mut self)
        ensures
            final(self).payload@ == old(self).payload@,
            final(self).voters@ == old(self).voters@,
            final(self).votes@ == old(self).votes@,
            final(self).state == (if old(self).state == ProposalState::Open {
                ProposalState::Expired
            } else {
                old(self).state
            }),
    {
        if matches!(self.state, ProposalState::Open) {
            self.state = ProposalState::Expired;
        }
    }
}

/// Safety of the supermajority rule: any two quorums over one voter set
/// intersect, so two accepted proposals against the same voters share at
/// least one voter.
pub proof fn lemma_quorums_intersect<A>(voters: Set<A>, a: Set<A>, b: Set<A>)
    requires
        voters.finite(),
        a.subset_of(voters),
        b.subset_of(voters),
        spec_quorum_reached(a.len(), voters.len()),
        spec_quorum_reached(b.len(), voters.len()),
    ensures
        exists|x: A| a.contains(x) && b.contains(x),
{
    lemma_len_subset(a, voters);
    lemma_len_subset(b, voters);
    if a.disjoint(b) {
        lemma_set_disjoint_lens(a, b);
        lemma_len_subset(a + b, voters);
        assert((a + b).len() == a.len() + b.len());
        assert(false);
    }
    assert(!a.disjoint(b));
    let x = choose|x: A| a.contains(x) && b.contains(x);
    assert(a.contains(x) && b.contains(x));
}

/// Two accepted proposals over one voter set share at least one voter:
/// the supermajority-safety law at the proposal level. Each accepted
/// proposal holds quorum-many distinct eligible voters, and two quorums
/// over the same voters always intersect.
pub proof fn lemma_accepted_proposals_share_voter(p1: Proposal, p2: Proposal)
    requires
        p1.wf(),
        p2.wf(),
        p1.voters@ == p2.voters@,
        p1.state == ProposalState::Accepted,
        p2.state == ProposalState::Accepted,
    ensures
        exists|k: Seq<u8>| p1.spec_has_voted(k) && p2.spec_has_voted(k),
{
    broadcast use vstd::seq_lib::seq_to_set_is_finite;

    let keys1 = p1.votes@.map_values(|v: Vote| v.voter.sign_key@);
    let keys2 = p2.votes@.map_values(|v: Vote| v.voter.sign_key@);
    let voter_keys = p1.voters@.map_values(|id: PublicId| id.sign_key@);
    assert(keys1.no_duplicates()) by {
        assert forall|i: int, j: int|
            0 <= i < keys1.len() && 0 <= j < keys1.len() && i != j implies keys1[i]
            != keys1[j] by {
            assert(keys1[i] == p1.votes@[i].voter.sign_key@);
            assert(keys1[j] == p1.votes@[j].voter.sign_key@);
        }
    }
    assert(keys2.no_duplicates()) by {
        assert forall|i: int, j: int|
            0 <= i < keys2.len() && 0 <= j < keys2.len() && i != j implies keys2[i]
            != keys2[j] by {
            assert(keys2[i] == p2.votes@[i].voter.sign_key@);
            assert(keys2[j] == p2.votes@[j].voter.sign_key@);
        }
    }
    assert(voter_keys.no_duplicates()) by {
        assert forall|i: int, j: int|
            0 <= i < voter_keys.len() && 0 <= j < voter_keys.len() && i != j implies voter_keys[i]
            != voter_keys[j] by {
            assert(voter_keys[i] == p1.voters@[i].sign_key@);
            assert(voter_keys[j] == p1.voters@[j].sign_key@);
        }
    }
    keys1.unique_seq_to_set();
    keys2.unique_seq_to_set();
    voter_keys.unique_seq_to_set();
    assert(keys1.to_set().subset_of(voter_keys.to_set())) by {
        assert forall|k: Seq<u8>| keys1.to_set().contains(k) implies voter_keys.to_set().contains(
            k,
        ) by {
            let i = choose|i: int| 0 <= i < keys1.len() && keys1[i] == k;
            assert(p1.votes@[i].voter.sign_key@ == k);
            assert(p1.spec_is_voter(k));
            let w = choose|w: int| 0 <= w < p1.voters@.len() && p1.voters@[w].sign_key@ == k;
            assert(voter_keys[w] == k);
            assert(voter_keys.contains(k));
        }
    }
    assert(keys2.to_set().subset_of(voter_keys.to_set())) by {
        assert forall|k: Seq<u8>| keys2.to_set().contains(k) implies voter_keys.to_set().contains(
            k,
        ) by {
            let i = choose|i: int| 0 <= i < keys2.len() && keys2[i] == k;
            assert(p2.votes@[i].voter.sign_key@ == k);
            assert(p2.spec_is_voter(k));
            let w = choose|w: int| 0 <= w < p2.voters@.len() && p2.voters@[w].sign_key@ == k;
            assert(voter_keys[w] == k);
            assert(voter_keys.contains(k));
        }
    }
    lemma_quorums_intersect(voter_keys.to_set(), keys1.to_set(), keys2.to_set());
    let k = choose|k: Seq<u8>| keys1.to_set().contains(k) && keys2.to_set().contains(k);
    let i1 = choose|i1: int| 0 <= i1 < keys1.len() && keys1[i1] == k;
    let i2 = choose|i2: int| 0 <= i2 < keys2.len() && keys2[i2] == k;
    assert(p1.votes@[i1].voter.sign_key@ == k);
    assert(p2.votes@[i2].voter.sign_key@ == k);
    assert(p1.spec_has_voted(k) && p2.spec_has_voted(k));
}

} // verus!
