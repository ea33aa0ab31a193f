//! The section state machine and its signed proof chain.
//!
//! A section's history of elder-set changes is an append-only, hash-linked
//! sequence of signed blocks. Verifying a chain means verifying, block by
//! block, that each block's signature set meets quorum against the previous
//! block's elder set and that its hash link points at the previous block.

use vstd::prelude::*;
use crate::consensus::{Vote, distinct_vote_keys, distinct_keys};
use crate::error::Error;
use crate::prefix::{Prefix, NAME_BITS, lemma_siblings_disjoint};
use crate::{ELDER_SIZE, RECOMMENDED_SECTION_SIZE, MIN_SECTION_SIZE};
use crate::crypto;
use crate::crypto::{hash_of, verifies};
use crate::id::{PublicId, keys_equal};
use crate::name_type::{XorName, distance, closer_to_target_or_equal, bit_at};
use crate::quorum_reached;
use crate::spec_quorum_reached;

verus! {

/// The minimum age a node starts with; tenure is counted above it.
pub const MIN_AGE: u8 = 4;

/// One accepted elder-set change: the new elder set, the hash of the
/// previous block's bytes, and the outgoing elders' signatures over this
/// block's bytes.
pub struct Block {
    /// The accepted change this block records, as the bytes that were
    /// voted on; empty in the genesis block.
    pub payload: Vec<u8>,
    /// The elder set this block installs (unchanged for a member change).
    pub elders: Vec<PublicId>,
    /// SHA-256 of the previous block's bytes; all zero in the genesis block.
    pub prev_hash: [u8; 32],
    /// Signatures over this block's bytes by the previous block's elders.
    pub signatures: Vec<Vote>,
}

/// The byte string that elder keys contribute to a block's bytes.
pub open spec fn elders_bytes(elders: Seq<PublicId>) -> Seq<u8>
    decreases elders.len(),
{
    if elders.len() == 0 {
        Seq::empty()
    } else {
        elders_bytes(elders.drop_last()) + elders.last().sign_key@
    }
}

/// The bytes of a block that are hashed and signed: the previous hash,
/// then the recorded payload, then the elder keys in order.
pub open spec fn spec_block_bytes(prev_hash: Seq<u8>, payload: Seq<u8>, elders: Seq<PublicId>) -> Seq<u8> {
    prev_hash + payload + elders_bytes(elders)
}

/// The all-zero digest that anchors a genesis block.
pub open spec fn zero_hash() -> Seq<u8> {
    Seq::new(32, |i: int| 0u8)
}

/// Serializes the signable part of a block.
pub fn block_bytes(prev_hash: &[u8; 32], payload: &Vec<u8>, elders: &Vec<PublicId>) -> (r: Vec<
    u8,
>)
    ensures
        r@ == spec_block_bytes(prev_hash@, payload@, elders@),
{
    let mut r: Vec<u8> = Vec::new();
    let mut i: usize = 0;
    while i < 32
        invariant
            i <= 32,
            r@ == prev_hash@.take(i as int),
        decreases 32 - i,
    {
        r.push(prev_hash[i]);
        proof {
            assert(r@ =~= prev_hash@.take(i + 1 as int));
        }
        i = i + 1;
    }
    proof {
        assert(prev_hash@.take(32) =~= prev_hash@);
    }
    let mut q: usize = 0;
    while q < payload.len()
        invariant
            q <= payload@.len(),
            r@ == prev_hash@ + payload@.take(q as int),
        decreases payload.len() - q,
    {
        r.push(payload[q]);
        proof {
            assert(r@ =~= prev_hash@ + payload@.take(q + 1 as int));
        }
        q = q + 1;
    }
    proof {
        assert(prev_hash@ + payload@.take(payload@.len() as int) =~= prev_hash@ + payload@);
    }
    let ghost head = prev_hash@ + payload@;
    let mut e: usize = 0;
    while e < elders.len()
        invariant
            e <= elders.len(),
            head == prev_hash@ + payload@,
            r@ == head + elders_bytes(elders@.take(e as int)),
        decreases elders.len() - e,
    {
        let ghost before = r@;
        let key = elders[e].sign_key;
        let mut j: usize = 0;
        while j < 32
            invariant
                j <= 32,
                r@ == before + key@.take(j as int),
            decreases 32 - j,
        {
            r.push(key[j]);
            proof {
                assert(r@ =~= before + key@.take(j + 1 as int));
            }
            j = j + 1;
        }
        proof {
            assert(key@.take(32) =~= key@);
            assert(elders@.take(e + 1 as int).drop_last() =~= elders@.take(e as int));
            assert(elders@.take(e + 1 as int).last() == elders@[e as int]);
            assert(r@ =~= head + elders_bytes(elders@.take(e + 1 as int)));
        }
        e = e + 1;
    }
    proof {
        assert(elders@.take(elders@.len() as int) =~= elders@);
        assert(head + elders_bytes(elders@) =~= spec_block_bytes(prev_hash@, payload@, elders@));
    }
    r
}

/// Whether `key` is the key of some identity in `ids`.
pub open spec fn key_in(ids: Seq<PublicId>, key: Seq<u8>) -> bool {
    exists|i: int| 0 <= i < ids.len() && ids[i].sign_key@ == key
}

/// Whether `b` is a valid successor of `prev`: its hash link points at
/// `prev`'s bytes, its signatures are by distinct elders of `prev`, all of
/// them verify over `b`'s bytes, and they meet quorum against `prev`'s
/// elder set.
pub open spec fn block_signed_ok(prev: Block, b: Block) -> bool {
    &&& b.prev_hash@ == hash_of(spec_block_bytes(prev.prev_hash@, prev.payload@, prev.elders@))
    &&& distinct_vote_keys(b.signatures@)
    &&& forall|i: int|
        0 <= i < b.signatures.len() ==> key_in(
            prev.elders@,
            #[trigger] b.signatures[i].voter.sign_key@,
        )
    &&& forall|i: int|
        0 <= i < b.signatures.len() ==> verifies(
            #[trigger] b.signatures[i].voter.sign_key@,
            spec_block_bytes(b.prev_hash@, b.payload@, b.elders@),
            b.signatures[i].signature@,
        )
    &&& spec_quorum_reached(b.signatures.len() as nat, prev.elders.len() as nat)
}

/// Whether `blocks` is a valid proof chain: it starts at a genesis anchor
/// (all-zero hash link, no signatures) and every later block is a valid
/// successor of the one before it.
pub open spec fn chain_valid(blocks: Seq<Block>) -> bool {
    &&& blocks.len() >= 1
    &&& blocks[0].prev_hash@ == zero_hash()
    &&& blocks[0].payload@.len() == 0
    &&& blocks[0].signatures.len() == 0
    &&& forall|i: int| 1 <= i < blocks.len() ==> block_signed_ok(blocks[i - 1], #[trigger] blocks[i])
}

/// Checks that `b` is a valid successor of `prev`.
fn check_block(prev: &Block, b: &Block) -> (r: bool)
    ensures
        r == block_signed_ok(*prev, *b),
{
    let prev_bytes = block_bytes(&prev.prev_hash, &prev.payload, &prev.elders);
    let expected = crypto::hash(&prev_bytes);
    if !keys_equal(&expected, &b.prev_hash) {
        return false;
    }
    let bytes = block_bytes(&b.prev_hash, &b.payload, &b.elders);
    let mut i: usize = 0;
    while i < b.signatures.len()
        invariant
            i <= b.signatures.len(),
            bytes@ == spec_block_bytes(b.prev_hash@, b.payload@, b.elders@),
            forall|x: int, y: int|
                0 <= x < y < i ==> b.signatures@[x].voter.sign_key@
                    != b.signatures@[y].voter.sign_key@,
            forall|x: int|
                0 <= x < i ==> key_in(prev.elders@, #[trigger] b.signatures@[x].voter.sign_key@),
            forall|x: int|
                0 <= x < i ==> verifies(
                    #[trigger] b.signatures@[x].voter.sign_key@,
                    spec_block_bytes(b.prev_hash@, b.payload@, b.elders@),
                    b.signatures@[x].signature@,
                ),
        decreases b.signatures.len() - i,
    {
        let mut x: usize = 0;
        while x < i
            invariant
                x <= i < b.signatures.len(),
                forall|y: int|
                    0 <= y < x ==> b.signatures@[y].voter.sign_key@
                        != b.signatures@[i as int].voter.sign_key@,
            decreases i - x,
        {
            if keys_equal(&b.signatures[x].voter.sign_key, &b.signatures[i].voter.sign_key) {
                return false;
            }
            x = x + 1;
        }
        let mut found = false;
        let mut k: usize = 0;
        while k < prev.elders.len()
            invariant
                i < b.signatures.len(),
                k <= prev.elders.len(),
                found ==> key_in(prev.elders@, b.signatures@[i as int].voter.sign_key@),
                !found ==> forall|y: int|
                    0 <= y < k ==> prev.elders@[y].sign_key@
                        != b.signatures@[i as int].voter.sign_key@,
            decreases prev.elders.len() - k,
        {
            if keys_equal(&prev.elders[k].sign_key, &b.signatures[i].voter.sign_key) {
                found = true;
            }
            k = k + 1;
        }
        if !found {
            return false;
        }
        if !crypto::verify_detached(&b.signatures[i].signature, &bytes, &b.signatures[i].voter.sign_key) {
            return false;
        }
        i = i + 1;
    }
    quorum_reached(b.signatures.len(), prev.elders.len())
}

/// An append-only, hash-linked, signed record of a section's elder-set
/// history.
pub struct SectionProofChain {
    /// The blocks, oldest first; the first is the genesis anchor.
    pub blocks: Vec<Block>,
}

impl SectionProofChain {
    /// Starts a chain at its genesis anchor attesting `elders`.
    pub fn genesis(elders: Vec<PublicId>) -> (r: SectionProofChain)
        ensures
            chain_valid(r.blocks@),
            r.blocks@.len() == 1,
            r.blocks@[0].elders@ == elders@,
    {
        let prev_hash = [0u8; 32];
        proof {
            assert(prev_hash@ =~= zero_hash());
        }
        let block = Block { payload: Vec::new(), elders, prev_hash, signatures: Vec::new() };
        SectionProofChain { blocks: vec![block] }
    }

    /// Verifies the whole chain, block by block. The result is a function
    /// of the chain's value alone, so verifying twice yields the same
    /// answer.
    pub fn verify(&self) -> (r: bool)
        ensures
            r == chain_valid(self.blocks@),
    {
        if self.blocks.len() == 0 {
            return false;
        }
        let first = &self.blocks[0];
        if first.signatures.len() != 0 || first.payload.len() != 0 {
            return false;
        }
        let zero = [0u8; 32];
        proof {
            assert(zero@ =~= zero_hash());
        }
        if !keys_equal(&first.prev_hash, &zero) {
            return false;
        }
        let mut i: usize = 1;
        while i < self.blocks.len()
            invariant
                1 <= i <= self.blocks.len(),
                self.blocks@.len() >= 1,
                self.blocks@[0].prev_hash@ == zero_hash(),
                self.blocks@[0].payload@.len() == 0,
                self.blocks@[0].signatures.len() == 0,
                forall|j: int|
                    1 <= j < i ==> block_signed_ok(self.blocks@[j - 1], #[trigger] self.blocks@[j]),
            decreases self.blocks.len() - i,
        {
            if !check_block(&self.blocks[i - 1], &self.blocks[i]) {
                return false;
            }
            i = i + 1;
        }
        true
    }

    /// The number of blocks in the chain.
    pub fn len(&self) -> (r: usize)
        ensures
            r == self.blocks@.len(),
    {
        self.blocks.len()
    }

    /// The latest block.
    pub fn tip(&self) -> (r: &Block)
        requires
            self.blocks@.len() >= 1,
        ensures
            r == self.blocks@.last(),
    {
        &self.blocks[self.blocks.len() - 1]
    }

    /// The digest of the latest block's bytes: what the next block's hash
    /// link, and any vote over the current state, must reference.
    pub fn tip_hash(&self) -> (r: [u8; 32])
        requires
            self.blocks@.len() >= 1,
        ensures
            r@ == hash_of(
                spec_block_bytes(
                    self.blocks@.last().prev_hash@,
                    self.blocks@.last().payload@,
                    self.blocks@.last().elders@,
                ),
            ),
    {
        let t = self.tip();
        let bytes = block_bytes(&t.prev_hash, &t.payload, &t.elders);
        crypto::hash(&bytes)
    }
}

/// Appending a valid successor to a valid chain keeps it valid.
pub proof fn lemma_chain_push(blocks: Seq<Block>, b: Block)
    requires
        chain_valid(blocks),
        block_signed_ok(blocks.last(), b),
    ensures
        chain_valid(blocks.push(b)),
{
    let pushed = blocks.push(b);
    assert(pushed[0] == blocks[0]);
    assert forall|i: int| 1 <= i < pushed.len() implies block_signed_ok(
        pushed[i - 1],
        #[trigger] pushed[i],
    ) by {
        if i < blocks.len() {
            assert(pushed[i] == blocks[i]);
            assert(pushed[i - 1] == blocks[i - 1]);
        } else {
            assert(pushed[i] == b);
            assert(pushed[i - 1] == blocks.last());
        }
    }
}

/// Chain verification is deterministic: it depends on the chain's value
/// alone, so equal chains verify alike, and one chain verifies the same
/// way twice.
pub proof fn lemma_verification_deterministic(a: Seq<Block>, b: Seq<Block>)
    requires
        a == b,
    ensures
        chain_valid(a) == chain_valid(b),
{
}

/// One member of a section: its identity, its age in accepted churn events
/// survived, and whether it is flagged unresponsive.
#[derive(Clone, Copy, Debug)]
pub struct MemberInfo {
    /// The member's identity.
    pub id: PublicId,
    /// Churn events survived; tenure for elder promotion.
    pub age: u8,
    /// Whether the member has been unresponsive beyond the allowed window.
    pub unresponsive: bool,
}

/// Whether the keys of `ms` are pairwise distinct.
pub open spec fn distinct_member_keys(ms: Seq<MemberInfo>) -> bool {
    forall|i: int, j: int|
        0 <= i < j < ms.len() ==> ms[i].id.sign_key@ != ms[j].id.sign_key@
}

/// Whether `key` is the key of some member in `ms`.
pub open spec fn member_key_in(ms: Seq<MemberInfo>, key: Seq<u8>) -> bool {
    exists|i: int| 0 <= i < ms.len() && ms[i].id.sign_key@ == key
}

/// A section: the prefix it is responsible for, its members, the elder
/// subset with voting rights, and the proof chain of its elder history.
pub struct Section {
    /// The part of the name space this section owns.
    pub prefix: Prefix,
    /// The members with voting rights; a subset of `members`.
    pub elders: Vec<PublicId>,
    /// All current members.
    pub members: Vec<MemberInfo>,
    /// The signed history of elder-set changes.
    pub chain: SectionProofChain,
}

impl Section {
    /// Invariants of a section: a well-formed prefix, a valid proof chain,
    /// members with distinct keys whose names lie under the prefix, and
    /// elders drawn from the members.
    pub open spec fn wf(self) -> bool {
        &&& self.prefix.wf()
        &&& chain_valid(self.chain.blocks@)
        &&& distinct_member_keys(self.members@)
        &&& forall|i: int|
            0 <= i < self.members.len() ==> (#[trigger] self.members[i].id).wf()
                && self.prefix.spec_matches(self.members[i].id.name@)
        &&& distinct_keys(self.elders@)
        &&& forall|i: int|
            0 <= i < self.elders.len() ==> member_key_in(
                self.members@,
                #[trigger] self.elders[i].sign_key@,
            )
    }

    /// Whether `tip` is the digest of the current chain tip: every mutation
    /// must reference it, which serializes mutations through the chain.
    pub open spec fn tip_ok(self, tip: Seq<u8>) -> bool {
        tip == hash_of(
            spec_block_bytes(
                self.chain.blocks@.last().prev_hash@,
                self.chain.blocks@.last().payload@,
                self.chain.blocks@.last().elders@,
            ),
        )
    }

    /// Looks a member up by key.
    pub fn find_member(&self, key: &[u8; 32]) -> (r: Option<usize>)
        ensures
            match r {
                Some(i) => i < self.members.len() && self.members@[i as int].id.sign_key@ == key@,
                None => !member_key_in(self.members@, key@),
            },
    {
        let mut i: usize = 0;
        while i < self.members.len()
            invariant
                i <= self.members.len(),
                forall|j: int| 0 <= j < i ==> self.members@[j].id.sign_key@ != key@,
            decreases self.members.len() - i,
        {
            if keys_equal(&self.members[i].id.sign_key, key) {
                return Some(i);
            }
            i = i + 1;
        }
        None
    }

    /// Checks that `proof_tip` references the current chain tip.
    fn check_tip(&self, proof_tip: &[u8; 32]) -> (r: bool)
        requires
            self.chain.blocks@.len() >= 1,
        ensures
            r == self.tip_ok(proof_tip@),
    {
        let tip = self.chain.tip_hash();
        keys_equal(&tip, proof_tip)
    }

    /// Inserts `id` into the members, a no-op if it is already one.
    ///
    /// The caller holds a quorum-accepted vote for the change; `proof_tip`
    /// is the chain tip that vote referenced, and the operation fails with
    /// `StaleProof` if it is not the current tip. An accepted insertion is
    /// recorded on the proof chain: a block carrying `payload` and the
    /// unchanged tip elder set, whose `signatures` must be by distinct tip
    /// elders, verify over the block's bytes and meet quorum, else
    /// `InvalidProofChain`. Returns whether the member was new.
    pub fn apply_member_added(
        &mut self,
        id: PublicId,
        age: u8,
        payload: Vec<u8>,
        signatures: Vec<Vote>,
        proof_tip: &[u8; 32],
    ) -> (r: Result<bool, Error>)
        requires
            old(self).wf(),
            id.wf(),
            old(self).prefix.spec_matches(id.name@),
        ensures
            final(self).wf(),
            !old(self).tip_ok(proof_tip@) <==> r == Result::<bool, Error>::Err(Error::StaleProof),
            r is Err ==> *final(self) == *old(self),
            r == Result::<bool, Error>::Ok(false) ==> *final(self) == *old(self),
            (old(self).tip_ok(proof_tip@) && member_key_in(old(self).members@, id.sign_key@))
                <==> r == Result::<bool, Error>::Ok(false),
            (old(self).tip_ok(proof_tip@) && !member_key_in(old(self).members@, id.sign_key@)
                && !churn_ok(
                old(self).chain.blocks@.last(),
                payload@,
                old(self).chain.blocks@.last().elders@,
                signatures@,
            )) <==> r == Result::<bool, Error>::Err(Error::InvalidProofChain),
            r == Result::<bool, Error>::Ok(true) ==> {
                &&& final(self).members@ == old(self).members@.push(
                    MemberInfo { id, age, unresponsive: false },
                )
                &&& final(self).chain.blocks@.len() == old(self).chain.blocks@.len() + 1
                &&& final(self).chain.blocks@.drop_last() == old(self).chain.blocks@
                &&& final(self).chain.blocks@.last().payload@ == payload@
                &&& final(self).chain.blocks@.last().elders@ == old(
                    self,
                ).chain.blocks@.last().elders@
                &&& final(self).chain.blocks@.last().signatures@ == signatures@
                &&& block_signed_ok(
                    old(self).chain.blocks@.last(),
                    final(self).chain.blocks@.last(),
                )
            },
            final(self).elders@ == old(self).elders@,
            final(self).prefix == old(self).prefix,
            r is Err ==> (r == Result::<bool, Error>::Err(Error::StaleProof) || r == Result::<
                bool,
                Error,
            >::Err(Error::InvalidProofChain)),
    {
        if !self.check_tip(proof_tip) {
            return Err(Error::StaleProof);
        }
        match self.find_member(&id.sign_key) {
            Some(_) => Ok(false),
            None => {
                let prev_hash = self.chain.tip_hash();
                let tip_elders = copy_ids(&self.chain.tip().elders);
                let block = Block { payload, elders: tip_elders, prev_hash, signatures };
                if !check_block(self.chain.tip(), &block) {
                    proof {
                        let tip = self.chain.blocks@.last();
                        assert(!churn_ok(tip, block.payload@, tip.elders@, block.signatures@));
                    }
                    return Err(Error::InvalidProofChain);
                }
                proof {
                    let tip = self.chain.blocks@.last();
                    assert(churn_ok(tip, block.payload@, tip.elders@, block.signatures@));
                    lemma_chain_push(self.chain.blocks@, block);
                }
                let ghost oldchain = self.chain.blocks@;
                self.chain.blocks.push(block);
                proof {
                    assert(self.chain.blocks@.drop_last() =~= oldchain);
                }
                self.members.push(MemberInfo { id, age, unresponsive: false });
                proof {
                    assert forall|i: int|
                        0 <= i < self.elders.len() implies member_key_in(
                        self.members@,
                        #[trigger] self.elders[i].sign_key@,
                    ) by {
                        let k = choose|j: int|
                            0 <= j < old(self).members@.len() && old(
                                self,
                            ).members@[j].id.sign_key@ == self.elders[i].sign_key@;
                        assert(self.members@[k].id.sign_key@ == self.elders[i].sign_key@);
                    }
                }
                Ok(true)
            },
        }
    }

    /// Removes the member with `key` from the members and, if present,
    /// from the elders. Fails with `StaleProof` if `proof_tip` is not the
    /// current chain tip. An accepted removal is recorded on the proof
    /// chain: a block carrying `payload` and the unchanged tip elder set,
    /// whose `signatures` must be by distinct tip elders, verify over the
    /// block's bytes and meet quorum, else `InvalidProofChain`. Returns
    /// whether the key was a member. When the elder count falls under its
    /// target, `elder_candidates` names the replacements to vote on.
    pub fn apply_member_removed(
        &mut self,
        key: &[u8; 32],
        payload: Vec<u8>,
        signatures: Vec<Vote>,
        proof_tip: &[u8; 32],
    ) -> (r: Result<bool, Error>)
        requires
            old(self).wf(),
        ensures
            final(self).wf(),
            !old(self).tip_ok(proof_tip@) <==> r == Result::<bool, Error>::Err(Error::StaleProof),
            r is Err ==> *final(self) == *old(self),
            r == Result::<bool, Error>::Ok(false) ==> *final(self) == *old(self),
            (old(self).tip_ok(proof_tip@) && !member_key_in(old(self).members@, key@)) <==> r
                == Result::<bool, Error>::Ok(false),
            (old(self).tip_ok(proof_tip@) && member_key_in(old(self).members@, key@) && !churn_ok(
                old(self).chain.blocks@.last(),
                payload@,
                old(self).chain.blocks@.last().elders@,
                signatures@,
            )) <==> r == Result::<bool, Error>::Err(Error::InvalidProofChain),
            r == Result::<bool, Error>::Ok(true) ==> {
                &&& !member_key_in(final(self).members@, key@)
                &&& exists|i: int|
                    0 <= i < old(self).members@.len() && old(self).members@[i].id.sign_key@ == key@
                        && final(self).members@ == old(self).members@.remove(i)
                &&& final(self).chain.blocks@.len() == old(self).chain.blocks@.len() + 1
                &&& final(self).chain.blocks@.drop_last() == old(self).chain.blocks@
                &&& final(self).chain.blocks@.last().payload@ == payload@
                &&& final(self).chain.blocks@.last().elders@ == old(
                    self,
                ).chain.blocks@.last().elders@
                &&& final(self).chain.blocks@.last().signatures@ == signatures@
                &&& block_signed_ok(
                    old(self).chain.blocks@.last(),
                    final(self).chain.blocks@.last(),
                )
            },
            final(self).prefix == old(self).prefix,
            r is Err ==> (r == Result::<bool, Error>::Err(Error::StaleProof) || r == Result::<
                bool,
                Error,
            >::Err(Error::InvalidProofChain)),
    {
        if !self.check_tip(proof_tip) {
            return Err(Error::StaleProof);
        }
        let found = self.find_member(key);
        match found {
            None => Ok(false),
            Some(i) => {
                let prev_hash = self.chain.tip_hash();
                let tip_elders = copy_ids(&self.chain.tip().elders);
                let block = Block { payload, elders: tip_elders, prev_hash, signatures };
                if !check_block(self.chain.tip(), &block) {
                    proof {
                        let tip = self.chain.blocks@.last();
                        assert(!churn_ok(tip, block.payload@, tip.elders@, block.signatures@));
                    }
                    return Err(Error::InvalidProofChain);
                }
                proof {
                    let tip = self.chain.blocks@.last();
                    assert(churn_ok(tip, block.payload@, tip.elders@, block.signatures@));
                    lemma_chain_push(self.chain.blocks@, block);
                }
                let ghost oldchain = self.chain.blocks@;
                self.chain.blocks.push(block);
                proof {
                    assert(self.chain.blocks@.drop_last() =~= oldchain);
                }
                let ghost oldm = self.members@;
                self.members.remove(i);
                proof {
                    assert forall|j: int|
                        0 <= j < self.members@.len() implies self.members@[j].id.sign_key@ != key@
                        && (#[trigger] self.members@[j]).id.wf() && self.prefix.spec_matches(
                        self.members@[j].id.name@,
                    ) by {
                        if j < i {
                            assert(self.members@[j] == oldm[j]);
                        } else {
                            assert(self.members@[j] == oldm[j + 1]);
                        }
                    }
                    assert forall|j1: int, j2: int|
                        0 <= j1 < j2 < self.members@.len() implies self.members@[j1].id.sign_key@
                        != self.members@[j2].id.sign_key@ by {
                        let k1: int = if j1 < i { j1 } else { j1 + 1 };
                        let k2: int = if j2 < i { j2 } else { j2 + 1 };
                        assert(self.members@[j1] == oldm[k1]);
                        assert(self.members@[j2] == oldm[k2]);
                    }
                    assert forall|j: int|
                        0 <= j < self.elders@.len() implies member_key_in(
                        self.members@,
                        #[trigger] self.elders@[j].sign_key@,
                    ) || self.elders@[j].sign_key@ == key@ by {
                        let w = choose|w: int|
                            0 <= w < oldm.len() && oldm[w].id.sign_key@ == self.elders@[j].sign_key@;
                        if w == i {
                        } else if w < i {
                            assert(self.members@[w] == oldm[w]);
                        } else {
                            assert(self.members@[w - 1] == oldm[w]);
                        }
                    }
                }
                let ghost olde = self.elders@;
                let mut kept: Vec<PublicId> = Vec::new();
                let mut e: usize = 0;
                while e < self.elders.len()
                    invariant
                        e <= self.elders.len(),
                        self.elders@ == olde,
                        distinct_keys(olde),
                        forall|j: int|
                            0 <= j < kept@.len() ==> exists|k: int|
                                0 <= k < e && #[trigger] kept@[j] == olde[k],
                        forall|j: int| 0 <= j < kept@.len() ==> #[trigger] kept@[j].sign_key@ != key@,
                        distinct_keys(kept@),
                    decreases self.elders.len() - e,
                {
                    if !keys_equal(&self.elders[e].sign_key, key) {
                        proof {
                            assert forall|j: int|
                                0 <= j < kept@.len() implies #[trigger] kept@[j].sign_key@
                                != olde[e as int].sign_key@ by {
                                let k = choose|k: int| 0 <= k < e && kept@[j] == olde[k];
                            }
                        }
                        kept.push(self.elders[e]);
                    }
                    e = e + 1;
                }
                self.elders = kept;
                proof {
                    assert forall|j: int|
                        0 <= j < self.elders@.len() implies member_key_in(
                        self.members@,
                        (#[trigger] self.elders@[j]).sign_key@,
                    ) by {
                        let k = choose|k: int| 0 <= k < olde.len() && self.elders@[j] == olde[k];
                        assert(member_key_in(self.members@, olde[k].sign_key@) || olde[k].sign_key@
                            == key@);
                    }
                }
                Ok(true)
            },
        }
    }
}

/// The elder-promotion precedence: `a` precedes `b` when it is older in
/// tenure, or of equal age and XOR-closer to the section midpoint `mid`.
pub open spec fn precedes(a: MemberInfo, b: MemberInfo, mid: Seq<u8>) -> bool {
    a.age > b.age || (a.age == b.age && distance(a.id.name@, mid) <= distance(b.id.name@, mid))
}

/// Decides the elder-promotion precedence of `a` over `b`.
pub fn precedes_exec(a: &MemberInfo, b: &MemberInfo, mid: &XorName) -> (r: bool)
    ensures
        r == precedes(*a, *b, mid@),
{
    if a.age > b.age {
        true
    } else if a.age == b.age {
        closer_to_target_or_equal(&a.id.name, &b.id.name, mid)
    } else {
        false
    }
}

/// Selects the `k` members of `candidates` that come first in the
/// elder-promotion precedence: oldest tenure first, ties broken by XOR
/// distance to `mid`. Returns fewer only if there are fewer candidates;
/// every candidate left out is preceded by everything selected.
pub fn top_by_age(candidates: &Vec<MemberInfo>, mid: &XorName, k: usize) -> (r: Vec<MemberInfo>)
    requires
        distinct_member_keys(candidates@),
    ensures
        r@.len() == vstd::math::min(k as int, candidates@.len() as int),
        distinct_member_keys(r@),
        forall|j: int| 0 <= j < r@.len() ==> candidates@.contains(#[trigger] r@[j]),
        forall|i: int, j: int| 0 <= i < j < r@.len() ==> precedes(r@[i], r@[j], mid@),
        forall|w: int|
            0 <= w < candidates@.len() && !member_key_in(
                r@,
                (#[trigger] candidates@[w]).id.sign_key@,
            ) ==> forall|j: int| 0 <= j < r@.len() ==> precedes(r@[j], candidates@[w], mid@),
{
    let mut pool: Vec<MemberInfo> = Vec::new();
    let mut c: usize = 0;
    while c < candidates.len()
        invariant
            c <= candidates.len(),
            pool@ == candidates@.take(c as int),
        decreases candidates.len() - c,
    {
        pool.push(candidates[c]);
        proof {
            assert(pool@ =~= candidates@.take(c + 1 as int));
        }
        c = c + 1;
    }
    proof {
        assert(candidates@.take(candidates@.len() as int) =~= candidates@);
    }
    proof {
        assert forall|j: int| 0 <= j < pool@.len() implies candidates@.contains(
            #[trigger] pool@[j],
        ) by {
            assert(pool@[j] == candidates@[j]);
        }
    }
    let mut out: Vec<MemberInfo> = Vec::new();
    while out.len() < k && pool.len() > 0
        invariant
            out@.len() + pool@.len() == candidates@.len(),
            out@.len() <= k,
            forall|j: int| 0 <= j < out@.len() ==> candidates@.contains(#[trigger] out@[j]),
            forall|j: int| 0 <= j < pool@.len() ==> candidates@.contains(#[trigger] pool@[j]),
            distinct_member_keys(out@),
            distinct_member_keys(pool@),
            forall|i: int, j: int|
                0 <= i < out@.len() && 0 <= j < pool@.len() ==> #[trigger] out@[i].id.sign_key@
                    != #[trigger] pool@[j].id.sign_key@,
            forall|i: int, j: int| 0 <= i < j < out@.len() ==> precedes(out@[i], out@[j], mid@),
            forall|i: int, j: int|
                0 <= i < out@.len() && 0 <= j < pool@.len() ==> precedes(
                    #[trigger] out@[i],
                    #[trigger] pool@[j],
                    mid@,
                ),
            forall|w: int|
                0 <= w < candidates@.len() ==> member_key_in(
                    out@,
                    (#[trigger] candidates@[w]).id.sign_key@,
                ) || member_key_in(pool@, candidates@[w].id.sign_key@),
            distinct_member_keys(candidates@),
        decreases pool@.len(),
    {
        let mut best: usize = 0;
        let mut t: usize = 1;
        while t < pool.len()
            invariant
                pool@.len() > 0,
                best < t <= pool@.len(),
                forall|j: int| 0 <= j < t ==> precedes(pool@[best as int], #[trigger] pool@[j], mid@),
            decreases pool@.len() - t,
        {
            if precedes_exec(&pool[t], &pool[best], mid) {
                best = t;
            }
            t = t + 1;
        }
        let ghost oldpool = pool@;
        let ghost oldout = out@;
        let m = pool.remove(best);
        out.push(m);
        proof {
            assert(m == oldpool[best as int]);
            assert(out@ == oldout.push(m));
            assert forall|j: int|
                0 <= j < pool@.len() implies candidates@.contains(#[trigger] pool@[j])
                && m.id.sign_key@ != pool@[j].id.sign_key@ && precedes(m, pool@[j], mid@) by {
                if j < best {
                    assert(pool@[j] == oldpool[j]);
                } else {
                    assert(pool@[j] == oldpool[j + 1]);
                }
            }
            assert forall|j1: int, j2: int|
                0 <= j1 < j2 < pool@.len() implies pool@[j1].id.sign_key@
                != pool@[j2].id.sign_key@ by {
                let k1: int = if j1 < best { j1 } else { j1 + 1 };
                let k2: int = if j2 < best { j2 } else { j2 + 1 };
                assert(pool@[j1] == oldpool[k1]);
                assert(pool@[j2] == oldpool[k2]);
            }
            assert forall|w: int|
                0 <= w < candidates@.len() implies member_key_in(
                out@,
                (#[trigger] candidates@[w]).id.sign_key@,
            ) || member_key_in(pool@, candidates@[w].id.sign_key@) by {
                if member_key_in(oldpool, candidates@[w].id.sign_key@) {
                    let p = choose|p: int|
                        0 <= p < oldpool.len() && oldpool[p].id.sign_key@
                            == candidates@[w].id.sign_key@;
                    if p == best {
                        assert(out@.last() == m);
                        assert(member_key_in(out@, candidates@[w].id.sign_key@));
                    } else if p < best {
                        assert(pool@[p] == oldpool[p]);
                        assert(member_key_in(pool@, candidates@[w].id.sign_key@));
                    } else {
                        assert(pool@[p - 1] == oldpool[p]);
                        assert(member_key_in(pool@, candidates@[w].id.sign_key@));
                    }
                } else {
                    let o = choose|o: int|
                        0 <= o < oldout.len() && oldout[o].id.sign_key@
                            == candidates@[w].id.sign_key@;
                    assert(out@[o] == oldout[o]);
                    assert(member_key_in(out@, candidates@[w].id.sign_key@));
                }
            }
        }
    }
    proof {
        assert forall|w: int|
            0 <= w < candidates@.len() && !member_key_in(
            out@,
            (#[trigger] candidates@[w]).id.sign_key@,
        ) implies forall|j: int| 0 <= j < out@.len() ==> precedes(out@[j], candidates@[w], mid@) by {
            assert(member_key_in(pool@, candidates@[w].id.sign_key@));
            let p = choose|p: int|
                0 <= p < pool@.len() && pool@[p].id.sign_key@ == candidates@[w].id.sign_key@;
            assert(candidates@.contains(pool@[p]));
            let w2 = choose|w2: int| 0 <= w2 < candidates@.len() && pool@[p] == candidates@[w2];
            assert(candidates@[w2].id.sign_key@ == candidates@[w].id.sign_key@);
            assert(w2 == w);
            assert(pool@[p] == candidates@[w]);
        }
    }
    out
}

/// The identities of `ms`, in order.
pub fn ids_of(ms: &Vec<MemberInfo>) -> (r: Vec<PublicId>)
    ensures
        r@.len() == ms@.len(),
        forall|i: int| 0 <= i < ms@.len() ==> #[trigger] r@[i] == ms@[i].id,
{
    let mut r: Vec<PublicId> = Vec::new();
    let mut i: usize = 0;
    while i < ms.len()
        invariant
            i <= ms@.len(),
            r@.len() == i,
            forall|j: int| 0 <= j < i ==> #[trigger] r@[j] == ms@[j].id,
        decreases ms.len() - i,
    {
        r.push(ms[i].id);
        i = i + 1;
    }
    r
}

/// Whether a new block carrying `elders` and `sigs` would be a valid
/// successor of `prev`: the outgoing elders' signatures are distinct, each
/// is by an elder of `prev`, each verifies over the new block's bytes, and
/// together they meet quorum against `prev`'s elder set.
pub open spec fn churn_ok(prev: Block, payload: Seq<u8>, elders: Seq<PublicId>, sigs: Seq<
    Vote,
>) -> bool {
    &&& distinct_vote_keys(sigs)
    &&& forall|i: int|
        0 <= i < sigs.len() ==> key_in(prev.elders@, #[trigger] sigs[i].voter.sign_key@)
    &&& forall|i: int|
        0 <= i < sigs.len() ==> verifies(
            #[trigger] sigs[i].voter.sign_key@,
            spec_block_bytes(
                hash_of(spec_block_bytes(prev.prev_hash@, prev.payload@, prev.elders@)),
                payload,
                elders,
            ),
            sigs[i].signature@,
        )
    &&& spec_quorum_reached(sigs.len() as nat, prev.elders.len() as nat)
}

/// Whether `id` is the identity of a member at least `age` old.
pub open spec fn promoted_at_least(members: Seq<MemberInfo>, id: PublicId, age: u8) -> bool {
    exists|w: int| 0 <= w < members.len() && members[w].id == id && members[w].age >= age
}

impl Section {
    /// The elder set this section should vote on next when the elder count
    /// fell under its target: the current elders, topped up with the
    /// non-elder members that come first in the promotion precedence
    /// (oldest tenure, then XOR distance to the section midpoint).
    pub fn elder_candidates(&self) -> (r: Vec<PublicId>)
        requires
            self.wf(),
            self.prefix.bit_count < NAME_BITS,
        ensures
            r@.len() >= self.elders@.len(),
            forall|j: int| 0 <= j < self.elders@.len() ==> #[trigger] r@[j] == self.elders@[j],
            self.elders@.len() >= ELDER_SIZE ==> r@ == self.elders@,
            r@.len() <= vstd::math::max(self.elders@.len() as int, ELDER_SIZE as int),
            distinct_keys(r@),
            forall|j: int|
                self.elders@.len() <= j < r@.len() ==> member_key_in(
                    self.members@,
                    (#[trigger] r@[j]).sign_key@,
                ),
            forall|v: int, j: int|
                (0 <= v < self.members@.len() && self.elders@.len() <= j < r@.len() && !key_in(
                    self.elders@,
                    (#[trigger] self.members@[v]).id.sign_key@,
                ) && !key_in(r@, self.members@[v].id.sign_key@)) ==> promoted_at_least(
                    self.members@,
                    #[trigger] r@[j],
                    self.members@[v].age,
                ),
    {
        if self.elders.len() >= ELDER_SIZE {
            let mut r: Vec<PublicId> = Vec::new();
            let mut i: usize = 0;
            while i < self.elders.len()
                invariant
                    i <= self.elders@.len(),
                    r@ == self.elders@.take(i as int),
                decreases self.elders.len() - i,
            {
                r.push(self.elders[i]);
                proof {
                    assert(r@ =~= self.elders@.take(i + 1 as int));
                }
                i = i + 1;
            }
            proof {
                assert(self.elders@.take(self.elders@.len() as int) =~= self.elders@);
            }
            return r;
        }
        let mid = self.prefix.midpoint();
        let mut non_elders: Vec<MemberInfo> = Vec::new();
        let mut i: usize = 0;
        while i < self.members.len()
            invariant
                self.wf(),
                i <= self.members@.len(),
                forall|j: int|
                    0 <= j < non_elders@.len() ==> self.members@.take(i as int).contains(
                        #[trigger] non_elders@[j],
                    ) && !key_in(self.elders@, non_elders@[j].id.sign_key@),
                distinct_member_keys(non_elders@),
                forall|v: int|
                    0 <= v < i ==> key_in(
                        self.elders@,
                        (#[trigger] self.members@[v]).id.sign_key@,
                    ) || member_key_in(non_elders@, self.members@[v].id.sign_key@),
            decreases self.members.len() - i,
        {
            let mut is_elder = false;
            let mut e: usize = 0;
            while e < self.elders.len()
                invariant
                    self.wf(),
                    i < self.members@.len(),
                    e <= self.elders@.len(),
                    is_elder ==> key_in(self.elders@, self.members@[i as int].id.sign_key@),
                    !is_elder ==> forall|j: int|
                        0 <= j < e ==> self.elders@[j].sign_key@
                            != self.members@[i as int].id.sign_key@,
                decreases self.elders.len() - e,
            {
                if keys_equal(&self.elders[e].sign_key, &self.members[i].id.sign_key) {
                    is_elder = true;
                }
                e = e + 1;
            }
            let ghost pre = non_elders@;
            if !is_elder {
                proof {
                    assert forall|j: int|
                        0 <= j < non_elders@.len() implies #[trigger] non_elders@[j].id.sign_key@
                        != self.members@[i as int].id.sign_key@ by {
                        let w = choose|w: int|
                            0 <= w < self.members@.take(i as int).len() && self.members@.take(
                                i as int,
                            )[w] == non_elders@[j];
                        assert(self.members@[w] == non_elders@[j]);
                    }
                    assert(self.members@.take(i + 1 as int)[i as int] == self.members@[i as int]);
                }
                non_elders.push(self.members[i]);
            }
            proof {
                assert forall|j: int|
                    0 <= j < non_elders@.len() implies self.members@.take(i + 1 as int).contains(
                    #[trigger] non_elders@[j],
                ) by {
                    if j < non_elders@.len() - 1 || is_elder {
                        let w = choose|w: int|
                            0 <= w < self.members@.take(i as int).len() && self.members@.take(
                                i as int,
                            )[w] == non_elders@[j];
                        assert(self.members@.take(i + 1 as int)[w] == non_elders@[j]);
                    } else {
                        assert(self.members@.take(i + 1 as int)[i as int] == non_elders@[j]);
                    }
                }
                assert forall|v: int|
                    0 <= v < i + 1 implies key_in(
                    self.elders@,
                    (#[trigger] self.members@[v]).id.sign_key@,
                ) || member_key_in(non_elders@, self.members@[v].id.sign_key@) by {
                    if v == i {
                        if !is_elder {
                            assert(non_elders@.last().id.sign_key@
                                == self.members@[v].id.sign_key@);
                        }
                    } else {
                        if !key_in(self.elders@, self.members@[v].id.sign_key@) {
                            let w = choose|w: int|
                                0 <= w < pre.len() && pre[w].id.sign_key@
                                    == self.members@[v].id.sign_key@;
                            assert(non_elders@[w].id.sign_key@
                                == self.members@[v].id.sign_key@);
                        }
                    }
                }
            }
            i = i + 1;
        }
        proof {
            assert(self.members@.take(self.members@.len() as int) =~= self.members@);
        }
        let need = ELDER_SIZE - self.elders.len();
        let promoted = top_by_age(&non_elders, &mid, need);
        let promoted_ids = ids_of(&promoted);
        let mut r: Vec<PublicId> = Vec::new();
        let mut j: usize = 0;
        while j < self.elders.len()
            invariant
                j <= self.elders@.len(),
                r@ == self.elders@.take(j as int),
            decreases self.elders.len() - j,
        {
            r.push(self.elders[j]);
            proof {
                assert(r@ =~= self.elders@.take(j + 1 as int));
            }
            j = j + 1;
        }
        proof {
            assert(self.elders@.take(self.elders@.len() as int) =~= self.elders@);
        }
        let mut t: usize = 0;
        while t < promoted_ids.len()
            invariant
                self.wf(),
                t <= promoted_ids@.len(),
                promoted_ids@.len() == promoted@.len(),
                forall|x: int| 0 <= x < promoted@.len() ==> #[trigger] promoted_ids@[x] == promoted@[x].id,
                forall|x: int|
                    0 <= x < promoted@.len() ==> non_elders@.contains(#[trigger] promoted@[x]),
                distinct_member_keys(promoted@),
                forall|x: int|
                    0 <= x < non_elders@.len() ==> self.members@.contains(#[trigger] non_elders@[x])
                        && !key_in(self.elders@, non_elders@[x].id.sign_key@),
                r@.len() == self.elders@.len() + t,
                forall|x: int| 0 <= x < self.elders@.len() ==> #[trigger] r@[x] == self.elders@[x],
                forall|x: int|
                    self.elders@.len() <= x < r@.len() ==> #[trigger] r@[x] == promoted@[x
                        - self.elders@.len()].id,
                distinct_keys(r@),
            decreases promoted_ids.len() - t,
        {
            proof {
                let pm = promoted@[t as int];
                assert(non_elders@.contains(pm));
                let w = choose|w: int| 0 <= w < non_elders@.len() && non_elders@[w] == pm;
                assert(self.members@.contains(pm));
                assert forall|x: int| 0 <= x < r@.len() implies #[trigger] r@[x].sign_key@
                    != pm.id.sign_key@ by {
                    if x < self.elders@.len() {
                        assert(!key_in(self.elders@, pm.id.sign_key@));
                    } else {
                        let a = promoted@[x - self.elders@.len()];
                        assert(a.id.sign_key@ != pm.id.sign_key@);
                    }
                }
            }
            r.push(promoted_ids[t]);
            t = t + 1;
        }
        proof {
            assert forall|j2: int|
                self.elders@.len() <= j2 < r@.len() implies member_key_in(
                self.members@,
                (#[trigger] r@[j2]).sign_key@,
            ) by {
                let pm = promoted@[j2 - self.elders@.len()];
                assert(non_elders@.contains(pm));
                let w = choose|w: int| 0 <= w < non_elders@.len() && non_elders@[w] == pm;
                assert(self.members@.contains(pm));
                let v = choose|v: int| 0 <= v < self.members@.len() && self.members@[v] == pm;
                assert(self.members@[v].id.sign_key@ == r@[j2].sign_key@);
            }
            assert forall|v: int, j: int|
                (0 <= v < self.members@.len() && self.elders@.len() <= j < r@.len() && !key_in(
                    self.elders@,
                    (#[trigger] self.members@[v]).id.sign_key@,
                ) && !key_in(r@, self.members@[v].id.sign_key@)) implies promoted_at_least(
                self.members@,
                #[trigger] r@[j],
                self.members@[v].age,
            ) by {
                let el = self.elders@.len() as int;
                let x = j - el;
                let pm = promoted@[x];
                assert(r@[j] == pm.id);
                assert(member_key_in(non_elders@, self.members@[v].id.sign_key@));
                let w1 = choose|w1: int|
                    0 <= w1 < non_elders@.len() && non_elders@[w1].id.sign_key@
                        == self.members@[v].id.sign_key@;
                assert(self.members@.contains(non_elders@[w1]));
                let vv = choose|vv: int|
                    0 <= vv < self.members@.len() && self.members@[vv] == non_elders@[w1];
                assert(vv == v);
                assert(non_elders@[w1] == self.members@[v]);
                assert(!member_key_in(promoted@, self.members@[v].id.sign_key@)) by {
                    if member_key_in(promoted@, self.members@[v].id.sign_key@) {
                        let x2 = choose|x2: int|
                            0 <= x2 < promoted@.len() && promoted@[x2].id.sign_key@
                                == self.members@[v].id.sign_key@;
                        assert(r@[self.elders@.len() + x2].sign_key@
                            == self.members@[v].id.sign_key@);
                        assert(key_in(r@, self.members@[v].id.sign_key@));
                    }
                }
                assert(precedes(promoted@[x], non_elders@[w1], mid@));
                assert(non_elders@.contains(promoted@[x]));
                let w2 = choose|w2: int|
                    0 <= w2 < non_elders@.len() && non_elders@[w2] == promoted@[x];
                assert(self.members@.contains(non_elders@[w2]));
                let w3 = choose|w3: int|
                    0 <= w3 < self.members@.len() && self.members@[w3] == promoted@[x];
                assert(self.members@[w3].id == r@[j]);
                assert(self.members@[w3].age >= self.members@[v].age);
            }
        }
        r
    }

    /// Replaces the elder set with `new_elders`, appending to the proof
    /// chain a block signed by the outgoing elders.
    ///
    /// Fails with `StaleProof` if `proof_tip` is not the current tip, with
    /// `NotAMember` if `new_elders` are not distinct current members, and
    /// with `InvalidProofChain` if `signatures` would not form a valid
    /// block: by distinct current-tip elders, verifying over the new
    /// block's bytes, meeting quorum.
    pub fn apply_elder_churn(
        &mut self,
        new_elders: Vec<PublicId>,
        signatures: Vec<Vote>,
        proof_tip: &[u8; 32],
    ) -> (r: Result<(), Error>)
        requires
            old(self).wf(),
        ensures
            final(self).wf(),
            !old(self).tip_ok(proof_tip@) <==> r == Result::<(), Error>::Err(Error::StaleProof),
            (old(self).tip_ok(proof_tip@) && !(distinct_keys(new_elders@) && forall|i: int|
                0 <= i < new_elders@.len() ==> member_key_in(
                    old(self).members@,
                    (#[trigger] new_elders@[i]).sign_key@,
                ))) <==> r == Result::<(), Error>::Err(Error::NotAMember),
            r is Err ==> *final(self) == *old(self),
            (old(self).tip_ok(proof_tip@) && distinct_keys(new_elders@) && (forall|i: int|
                0 <= i < new_elders@.len() ==> member_key_in(
                    old(self).members@,
                    (#[trigger] new_elders@[i]).sign_key@,
                )) && !churn_ok(old(self).chain.blocks@.last(), Seq::<u8>::empty(), new_elders@, signatures@)) <==> r
                == Result::<(), Error>::Err(Error::InvalidProofChain),
            r is Ok ==> {
                &&& final(self).elders@ == new_elders@
                &&& final(self).members@ == old(self).members@
                &&& final(self).prefix == old(self).prefix
                &&& final(self).chain.blocks@.len() == old(self).chain.blocks@.len() + 1
                &&& final(self).chain.blocks@.drop_last() == old(self).chain.blocks@
                &&& final(self).chain.blocks@.last().elders@ == new_elders@
                &&& final(self).chain.blocks@.last().signatures@ == signatures@
                &&& block_signed_ok(
                    old(self).chain.blocks@.last(),
                    final(self).chain.blocks@.last(),
                )
            },
            r is Err ==> (r == Result::<(), Error>::Err(Error::StaleProof) || r == Result::<
                (),
                Error,
            >::Err(Error::NotAMember) || r == Result::<(), Error>::Err(Error::InvalidProofChain)),
    {
        if !self.check_tip(proof_tip) {
            return Err(Error::StaleProof);
        }
        let mut ok = true;
        let mut i: usize = 0;
        while i < new_elders.len()
            invariant
                *self == *old(self),
                self.wf(),
                i <= new_elders@.len(),
                ok <==> (forall|x: int, y: int|
                    0 <= x < y < i ==> #[trigger] new_elders@[x].sign_key@
                        != #[trigger] new_elders@[y].sign_key@) && (forall|x: int|
                    0 <= x < i ==> member_key_in(
                        self.members@,
                        (#[trigger] new_elders@[x]).sign_key@,
                    )),
            decreases new_elders.len() - i,
        {
            let mut x: usize = 0;
            while x < i
                invariant
                    *self == *old(self),
                    x <= i < new_elders@.len(),
                    ok <==> (forall|a: int, b: int|
                        0 <= a < b < i ==> #[trigger] new_elders@[a].sign_key@
                            != #[trigger] new_elders@[b].sign_key@) && (forall|a: int|
                        0 <= a < i ==> member_key_in(
                            self.members@,
                            (#[trigger] new_elders@[a]).sign_key@,
                        )) && (forall|a: int|
                        0 <= a < x ==> #[trigger] new_elders@[a].sign_key@
                            != new_elders@[i as int].sign_key@),
                decreases i - x,
            {
                if keys_equal(&new_elders[x].sign_key, &new_elders[i].sign_key) {
                    proof {
                        assert(new_elders@[x as int].sign_key@ == new_elders@[i as int].sign_key@);
                    }
                    ok = false;
                }
                x = x + 1;
            }
            let in_members = self.find_member(&new_elders[i].sign_key).is_some();
            if !in_members {
                ok = false;
            }
            proof {
                if ok {
                    assert forall|a: int, b: int|
                        0 <= a < b < i + 1 implies #[trigger] new_elders@[a].sign_key@
                        != #[trigger] new_elders@[b].sign_key@ by {}
                }
            }
            i = i + 1;
        }
        if !ok {
            return Err(Error::NotAMember);
        }
        let prev_hash = self.chain.tip_hash();
        let block = Block { payload: Vec::new(), elders: new_elders, prev_hash, signatures };
        if !check_block(self.chain.tip(), &block) {
            return Err(Error::InvalidProofChain);
        }
        proof {
            lemma_chain_push(self.chain.blocks@, block);
        }
        let ghost oldchain = self.chain.blocks@;
        self.chain.blocks.push(block);
        let ghost note = self.chain.blocks@;
        let mut elders: Vec<PublicId> = Vec::new();
        let mut j: usize = 0;
        let tipref = self.chain.tip();
        while j < tipref.elders.len()
            invariant
                j <= tipref.elders@.len(),
                elders@ == tipref.elders@.take(j as int),
            decreases tipref.elders.len() - j,
        {
            elders.push(tipref.elders[j]);
            proof {
                assert(elders@ =~= tipref.elders@.take(j + 1 as int));
            }
            j = j + 1;
        }
        proof {
            assert(tipref.elders@.take(tipref.elders@.len() as int) =~= tipref.elders@);
            assert(self.chain.blocks@.drop_last() =~= oldchain);
        }
        self.elders = elders;
        Ok(())
    }
}

/// Whether two block sequences agree in every field view: such chains are
/// valid or invalid together.
pub open spec fn blocks_view_equal(a: Seq<Block>, b: Seq<Block>) -> bool {
    a.len() == b.len() && forall|i: int|
        0 <= i < a.len() ==> (#[trigger] a[i]).payload@ == b[i].payload@ && a[i].elders@
            == b[i].elders@ && a[i].prev_hash@ == b[i].prev_hash@ && a[i].signatures@
            == b[i].signatures@
}

/// Chain validity reads only the blocks' field views, so view-equal chains
/// are valid together.
pub proof fn lemma_chain_valid_congruent(a: Seq<Block>, b: Seq<Block>)
    requires
        blocks_view_equal(a, b),
    ensures
        chain_valid(a) == chain_valid(b),
{
    if chain_valid(a) {
        assert forall|i: int| 1 <= i < b.len() implies block_signed_ok(
            b[i - 1],
            #[trigger] b[i],
        ) by {
            assert(block_signed_ok(a[i - 1], a[i]));
            assert(spec_block_bytes(b[i - 1].prev_hash@, b[i - 1].payload@, b[i - 1].elders@)
                == spec_block_bytes(a[i - 1].prev_hash@, a[i - 1].payload@, a[i - 1].elders@));
        }
    }
    if chain_valid(b) {
        assert forall|i: int| 1 <= i < a.len() implies block_signed_ok(
            a[i - 1],
            #[trigger] a[i],
        ) by {
            assert(block_signed_ok(b[i - 1], b[i]));
            assert(spec_block_bytes(a[i - 1].prev_hash@, a[i - 1].payload@, a[i - 1].elders@)
                == spec_block_bytes(b[i - 1].prev_hash@, b[i - 1].payload@, b[i - 1].elders@));
        }
    }
}

/// Copies a list of identities.
pub fn copy_ids(v: &Vec<PublicId>) -> (r: Vec<PublicId>)
    ensures
        r@ == v@,
{
    let mut r: Vec<PublicId> = Vec::new();
    let mut i: usize = 0;
    while i < v.len()
        invariant
            i <= v@.len(),
            r@ == v@.take(i as int),
        decreases v.len() - i,
    {
        r.push(v[i]);
        proof {
            assert(r@ =~= v@.take(i + 1 as int));
        }
        i = i + 1;
    }
    proof {
        assert(v@.take(v@.len() as int) =~= v@);
    }
    r
}

/// Copies a byte string.
fn copy_bytes(v: &Vec<u8>) -> (r: Vec<u8>)
    ensures
        r@ == v@,
{
    let mut r: Vec<u8> = Vec::new();
    let mut i: usize = 0;
    while i < v.len()
        invariant
            i <= v@.len(),
            r@ == v@.take(i as int),
        decreases v.len() - i,
    {
        r.push(v[i]);
        proof {
            assert(r@ =~= v@.take(i + 1 as int));
        }
        i = i + 1;
    }
    proof {
        assert(v@.take(v@.len() as int) =~= v@);
    }
    r
}

/// Copies a list of votes.
fn copy_votes(v: &Vec<Vote>) -> (r: Vec<Vote>)
    ensures
        r@ == v@,
{
    let mut r: Vec<Vote> = Vec::new();
    let mut i: usize = 0;
    while i < v.len()
        invariant
            i <= v@.len(),
            r@ == v@.take(i as int),
        decreases v.len() - i,
    {
        r.push(v[i]);
        proof {
            assert(r@ =~= v@.take(i + 1 as int));
        }
        i = i + 1;
    }
    proof {
        assert(v@.take(v@.len() as int) =~= v@);
    }
    r
}

/// Copies a proof chain, block by block.
pub fn clone_chain(c: &SectionProofChain) -> (r: SectionProofChain)
    ensures
        blocks_view_equal(r.blocks@, c.blocks@),
{
    let mut blocks: Vec<Block> = Vec::new();
    let mut i: usize = 0;
    while i < c.blocks.len()
        invariant
            i <= c.blocks@.len(),
            blocks@.len() == i,
            forall|j: int|
                0 <= j < i ==> (#[trigger] blocks@[j]).payload@ == c.blocks@[j].payload@
                    && blocks@[j].elders@ == c.blocks@[j].elders@ && blocks@[j].prev_hash@
                    == c.blocks@[j].prev_hash@ && blocks@[j].signatures@
                    == c.blocks@[j].signatures@,
        decreases c.blocks.len() - i,
    {
        let b = &c.blocks[i];
        let copy = Block {
            payload: copy_bytes(&b.payload),
            elders: copy_ids(&b.elders),
            prev_hash: b.prev_hash,
            signatures: copy_votes(&b.signatures),
        };
        blocks.push(copy);
        i = i + 1;
    }
    SectionProofChain { blocks }
}

/// Whether `es` is fit to be an elder set over the members `ms`: pairwise
/// distinct and every key a member's.
pub open spec fn elder_set_ok(es: Seq<PublicId>, ms: Seq<MemberInfo>) -> bool {
    distinct_keys(es) && forall|i: int|
        0 <= i < es.len() ==> member_key_in(ms, (#[trigger] es[i]).sign_key@)
}

/// Checks that `es` is distinct and drawn from the members `ms`.
fn check_elder_set(es: &Vec<PublicId>, ms: &Vec<MemberInfo>) -> (r: bool)
    ensures
        r == elder_set_ok(es@, ms@),
{
    let mut i: usize = 0;
    while i < es.len()
        invariant
            i <= es@.len(),
            forall|x: int, y: int|
                0 <= x < y < i ==> #[trigger] es@[x].sign_key@ != #[trigger] es@[y].sign_key@,
            forall|x: int| 0 <= x < i ==> member_key_in(ms@, (#[trigger] es@[x]).sign_key@),
        decreases es.len() - i,
    {
        let mut x: usize = 0;
        while x < i
            invariant
                x <= i < es@.len(),
                forall|y: int| 0 <= y < x ==> es@[y].sign_key@ != es@[i as int].sign_key@,
            decreases i - x,
        {
            if keys_equal(&es[x].sign_key, &es[i].sign_key) {
                return false;
            }
            x = x + 1;
        }
        let mut found = false;
        let mut w: usize = 0;
        while w < ms.len()
            invariant
                i < es@.len(),
                w <= ms@.len(),
                found ==> member_key_in(ms@, es@[i as int].sign_key@),
                !found ==> forall|y: int|
                    0 <= y < w ==> ms@[y].id.sign_key@ != es@[i as int].sign_key@,
            decreases ms.len() - w,
        {
            if keys_equal(&ms[w].id.sign_key, &es[i].sign_key) {
                found = true;
            }
            w = w + 1;
        }
        if !found {
            proof {
                assert(!member_key_in(ms@, (es@[i as int]).sign_key@));
                assert(!elder_set_ok(es@, ms@));
            }
            return false;
        }
        i = i + 1;
    }
    true
}

/// The members of `ms` whose name has bit `pos` equal to `b`.
pub open spec fn members_with_bit(ms: Seq<MemberInfo>, pos: int, b: bool) -> Seq<MemberInfo> {
    ms.filter(|m: MemberInfo| bit_at(m.id.name@, pos) == b)
}

impl Section {
    /// Founds a section over `prefix` from its first members, anchoring
    /// the proof chain at a genesis block attesting the initial elders:
    /// the founders oldest in tenure, ties broken by XOR distance to the
    /// prefix midpoint.
    pub fn found(prefix: Prefix, founders: Vec<MemberInfo>) -> (r: Section)
        requires
            prefix.wf(),
            prefix.bit_count < NAME_BITS,
            distinct_member_keys(founders@),
            forall|i: int|
                0 <= i < founders@.len() ==> (#[trigger] founders@[i]).id.wf()
                    && prefix.spec_matches(founders@[i].id.name@),
        ensures
            r.wf(),
            r.prefix == prefix,
            r.members@ == founders@,
            r.chain.blocks@.len() == 1,
            r.elders@.len() == vstd::math::min(ELDER_SIZE as int, founders@.len() as int),
    {
        let mid = prefix.midpoint();
        let elder_infos = top_by_age(&founders, &mid, ELDER_SIZE);
        let elders = ids_of(&elder_infos);
        let elders_for_chain = copy_ids(&elders);
        let chain = SectionProofChain::genesis(elders_for_chain);
        proof {
            assert forall|x: int, y: int|
                0 <= x < y < elders@.len() implies #[trigger] elders@[x].sign_key@
                != #[trigger] elders@[y].sign_key@ by {
                assert(elders@[x] == elder_infos@[x].id);
                assert(elders@[y] == elder_infos@[y].id);
            }
            assert forall|x: int|
                0 <= x < elders@.len() implies member_key_in(
                founders@,
                (#[trigger] elders@[x]).sign_key@,
            ) by {
                assert(elders@[x] == elder_infos@[x].id);
                assert(founders@.contains(elder_infos@[x]));
                let w = choose|w: int|
                    0 <= w < founders@.len() && founders@[w] == elder_infos@[x];
                assert(founders@[w].id.sign_key@ == elders@[x].sign_key@);
            }
        }
        Section { prefix, elders, members: founders, chain }
    }

    /// Rebuilds a section from persisted parts, re-verifying everything:
    /// an invalid proof chain fails closed with `InvalidProofChain`, and
    /// members or elders that do not fit the prefix or each other fail
    /// with `NotAMember`, refusing to rejoin the network under that state.
    pub fn load(
        prefix: Prefix,
        elders: Vec<PublicId>,
        members: Vec<MemberInfo>,
        chain: SectionProofChain,
    ) -> (r: Result<Section, Error>)
        requires
            prefix.wf(),
        ensures
            !chain_valid(chain.blocks@) <==> r == Result::<Section, Error>::Err(
                Error::InvalidProofChain,
            ),
            (chain_valid(chain.blocks@) && !(distinct_member_keys(members@) && (forall|i: int|
                0 <= i < members@.len() ==> (#[trigger] members@[i]).id.wf()
                    && prefix.spec_matches(members@[i].id.name@)) && elder_set_ok(
                elders@,
                members@,
            ))) <==> r == Result::<Section, Error>::Err(Error::NotAMember),
            r matches Ok(s) ==> {
                &&& s.wf()
                &&& s.prefix == prefix
                &&& s.elders@ == elders@
                &&& s.members@ == members@
                &&& s.chain.blocks@ == chain.blocks@
            },
            r is Err ==> (r == Result::<Section, Error>::Err(Error::InvalidProofChain) || r
                == Result::<Section, Error>::Err(Error::NotAMember)),
    {
        if !chain.verify() {
            return Err(Error::InvalidProofChain);
        }
        let mut i: usize = 0;
        while i < members.len()
            invariant
                i <= members@.len(),
                forall|x: int, y: int|
                    0 <= x < y < i ==> #[trigger] members@[x].id.sign_key@
                        != #[trigger] members@[y].id.sign_key@,
                forall|x: int|
                    0 <= x < i ==> (#[trigger] members@[x]).id.wf() && prefix.spec_matches(
                        members@[x].id.name@,
                    ),
                prefix.wf(),
                chain_valid(chain.blocks@),
            decreases members.len() - i,
        {
            let mut x: usize = 0;
            while x < i
                invariant
                    x <= i < members@.len(),
                    forall|y: int|
                        0 <= y < x ==> members@[y].id.sign_key@ != members@[i as int].id.sign_key@,
                    chain_valid(chain.blocks@),
                decreases i - x,
            {
                if keys_equal(&members[x].id.sign_key, &members[i].id.sign_key) {
                    return Err(Error::NotAMember);
                }
                x = x + 1;
            }
            if !keys_equal(&members[i].id.name.bytes, &members[i].id.sign_key) {
                return Err(Error::NotAMember);
            }
            if !prefix.matches(&members[i].id.name) {
                return Err(Error::NotAMember);
            }
            i = i + 1;
        }
        if !check_elder_set(&elders, &members) {
            return Err(Error::NotAMember);
        }
        Ok(Section { prefix, elders, members, chain })
    }
}

impl Section {
    /// Splits the section in two at its prefix boundary: members part by
    /// the first bit past the prefix, and each child starts its life under
    /// the one-bit-longer prefix with its own elder set, its chain rooted
    /// at the parent's tip block.
    ///
    /// Fails with `StaleProof` if `proof_tip` is not the current tip; with
    /// `InsufficientMembers` unless both children would have at least the
    /// recommended section size; with `NotAMember` if an elder set is not
    /// distinct members of its child; with `InvalidProofChain` if either
    /// signature set would not make a valid block: distinct current
    /// elders, verifying over the child block's bytes, meeting quorum.
    pub fn apply_split(
        &self,
        elders0: Vec<PublicId>,
        sigs0: Vec<Vote>,
        elders1: Vec<PublicId>,
        sigs1: Vec<Vote>,
        proof_tip: &[u8; 32],
    ) -> (r: Result<(Section, Section), Error>)
        requires
            self.wf(),
            self.prefix.bit_count < NAME_BITS,
        ensures
            !self.tip_ok(proof_tip@) <==> r == Result::<(Section, Section), Error>::Err(
                Error::StaleProof,
            ),
            (self.tip_ok(proof_tip@) && (members_with_bit(
                self.members@,
                self.prefix.bit_count as int,
                false,
            ).len() < RECOMMENDED_SECTION_SIZE || members_with_bit(
                self.members@,
                self.prefix.bit_count as int,
                true,
            ).len() < RECOMMENDED_SECTION_SIZE)) <==> r == Result::<
                (Section, Section),
                Error,
            >::Err(Error::InsufficientMembers),
            (self.tip_ok(proof_tip@) && members_with_bit(
                self.members@,
                self.prefix.bit_count as int,
                false,
            ).len() >= RECOMMENDED_SECTION_SIZE && members_with_bit(
                self.members@,
                self.prefix.bit_count as int,
                true,
            ).len() >= RECOMMENDED_SECTION_SIZE && !(elder_set_ok(
                elders0@,
                members_with_bit(self.members@, self.prefix.bit_count as int, false),
            ) && elder_set_ok(
                elders1@,
                members_with_bit(self.members@, self.prefix.bit_count as int, true),
            ))) <==> r == Result::<(Section, Section), Error>::Err(Error::NotAMember),
            r == Result::<(Section, Section), Error>::Err(Error::InvalidProofChain) ==> !(
            churn_ok(self.chain.blocks@.last(), Seq::<u8>::empty(), elders0@, sigs0@) && churn_ok(
                self.chain.blocks@.last(),
                Seq::<u8>::empty(),
                elders1@,
                sigs1@,
            )),
            r matches Ok(children) ==> {
                let s0 = children.0;
                let s1 = children.1;
                &&& s0.wf()
                &&& s1.wf()
                &&& s0.prefix.bit_count == self.prefix.bit_count + 1
                &&& s1.prefix.bit_count == self.prefix.bit_count + 1
                &&& !bit_at(s0.prefix.name@, self.prefix.bit_count as int)
                &&& bit_at(s1.prefix.name@, self.prefix.bit_count as int)
                &&& s0.members@ == members_with_bit(
                    self.members@,
                    self.prefix.bit_count as int,
                    false,
                )
                &&& s1.members@ == members_with_bit(
                    self.members@,
                    self.prefix.bit_count as int,
                    true,
                )
                &&& s0.elders@ == elders0@
                &&& s1.elders@ == elders1@
                &&& s0.chain.blocks@.len() == self.chain.blocks@.len() + 1
                &&& s1.chain.blocks@.len() == self.chain.blocks@.len() + 1
                &&& blocks_view_equal(s0.chain.blocks@.drop_last(), self.chain.blocks@)
                &&& blocks_view_equal(s1.chain.blocks@.drop_last(), self.chain.blocks@)
                &&& s0.chain.blocks@.last().elders@ == elders0@
                &&& s1.chain.blocks@.last().elders@ == elders1@
                &&& s0.chain.blocks@.last().prev_hash@ == hash_of(
                    spec_block_bytes(
                        self.chain.blocks@.last().prev_hash@,
                        self.chain.blocks@.last().payload@,
                        self.chain.blocks@.last().elders@,
                    ),
                )
                &&& s1.chain.blocks@.last().prev_hash@ == s0.chain.blocks@.last().prev_hash@
            },
            r is Err ==> (r == Result::<(Section, Section), Error>::Err(Error::StaleProof) || r
                == Result::<(Section, Section), Error>::Err(Error::InsufficientMembers) || r
                == Result::<(Section, Section), Error>::Err(Error::NotAMember) || r == Result::<
                (Section, Section),
                Error,
            >::Err(Error::InvalidProofChain)),
    {
        if !self.check_tip(proof_tip) {
            return Err(Error::StaleProof);
        }
        let pos = self.prefix.bit_count;
        let ghost posg = pos as int;
        let mut p0: Vec<MemberInfo> = Vec::new();
        let mut p1: Vec<MemberInfo> = Vec::new();
        let mut i: usize = 0;
        while i < self.members.len()
            invariant
                self.wf(),
                pos == self.prefix.bit_count,
                posg == pos as int,
                pos < NAME_BITS,
                i <= self.members@.len(),
                p0@ == members_with_bit(self.members@.take(i as int), posg, false),
                p1@ == members_with_bit(self.members@.take(i as int), posg, true),
            decreases self.members.len() - i,
        {
            let m = self.members[i];
            proof {
                assert(self.members@.take(i + 1 as int).drop_last() =~= self.members@.take(
                    i as int,
                ));
                assert(self.members@.take(i + 1 as int).last() == self.members@[i as int]);
            }
            if m.id.name.bit(pos) {
                p1.push(m);
            } else {
                p0.push(m);
            }
            proof {
                reveal(Seq::filter);
                assert(p0@ =~= members_with_bit(self.members@.take(i + 1 as int), posg, false));
                assert(p1@ =~= members_with_bit(self.members@.take(i + 1 as int), posg, true));
            }
            i = i + 1;
        }
        proof {
            assert(self.members@.take(self.members@.len() as int) =~= self.members@);
        }
        if p0.len() < RECOMMENDED_SECTION_SIZE || p1.len() < RECOMMENDED_SECTION_SIZE {
            return Err(Error::InsufficientMembers);
        }
        if !check_elder_set(&elders0, &p0) || !check_elder_set(&elders1, &p1) {
            return Err(Error::NotAMember);
        }
        let prev_hash = self.chain.tip_hash();
        let ids0 = copy_ids(&elders0);
        let ids1 = copy_ids(&elders1);
        let block0 = Block { payload: Vec::new(), elders: elders0, prev_hash, signatures: sigs0 };
        let block1 = Block { payload: Vec::new(), elders: elders1, prev_hash, signatures: sigs1 };
        let ok0 = check_block(self.chain.tip(), &block0);
        let ok1 = check_block(self.chain.tip(), &block1);
        proof {
            let tip = self.chain.blocks@.last();
            assert(ok0 == churn_ok(tip, block0.payload@, block0.elders@, block0.signatures@));
            assert(ok1 == churn_ok(tip, block1.payload@, block1.elders@, block1.signatures@));
            assert(block0.payload@ =~= Seq::<u8>::empty());
            assert(block1.payload@ =~= Seq::<u8>::empty());
        }
        if !ok0 || !ok1 {
            return Err(Error::InvalidProofChain);
        }
        let mut chain0 = clone_chain(&self.chain);
        let mut chain1 = clone_chain(&self.chain);
        proof {
            lemma_chain_valid_congruent(chain0.blocks@, self.chain.blocks@);
            lemma_chain_valid_congruent(chain1.blocks@, self.chain.blocks@);
            let tip = self.chain.blocks@.last();
            let t0 = chain0.blocks@.last();
            let t1 = chain1.blocks@.last();
            assert(t0.elders@ == tip.elders@ && t0.prev_hash@ == tip.prev_hash@);
            assert(t1.elders@ == tip.elders@ && t1.prev_hash@ == tip.prev_hash@);
            assert(block_signed_ok(t0, block0));
            assert(block_signed_ok(t1, block1));
            lemma_chain_push(chain0.blocks@, block0);
            lemma_chain_push(chain1.blocks@, block1);
        }
        let ghost preblocks0 = chain0.blocks@;
        let ghost preblocks1 = chain1.blocks@;
        chain0.blocks.push(block0);
        chain1.blocks.push(block1);
        proof {
            assert(chain0.blocks@.drop_last() =~= preblocks0);
            assert(chain1.blocks@.drop_last() =~= preblocks1);
        }
        let prefix0 = self.prefix.pushed(false);
        let prefix1 = self.prefix.pushed(true);
        proof {
            assert forall|w: int|
                0 <= w < p0@.len() implies (#[trigger] p0@[w]).id.wf() && prefix0.spec_matches(
                p0@[w].id.name@,
            ) by {
                lemma_filter_in_original(
                    self.members@,
                    |m: MemberInfo| bit_at(m.id.name@, posg) == false,
                    w,
                );
                let v = choose|v: int|
                    0 <= v < self.members@.len() && self.members@[v] == p0@[w];
                assert(self.prefix.spec_matches(p0@[w].id.name@));
                assert(!bit_at(p0@[w].id.name@, posg));
            }
            assert forall|w: int|
                0 <= w < p1@.len() implies (#[trigger] p1@[w]).id.wf() && prefix1.spec_matches(
                p1@[w].id.name@,
            ) by {
                lemma_filter_in_original(
                    self.members@,
                    |m: MemberInfo| bit_at(m.id.name@, posg) == true,
                    w,
                );
                let v = choose|v: int|
                    0 <= v < self.members@.len() && self.members@[v] == p1@[w];
                assert(self.prefix.spec_matches(p1@[w].id.name@));
                assert(bit_at(p1@[w].id.name@, posg));
            }
            assert(distinct_member_keys(p0@)) by {
                assert forall|a: int, b: int|
                    0 <= a < b < p0@.len() implies p0@[a].id.sign_key@ != p0@[b].id.sign_key@ by {
                    let f = |m: MemberInfo| bit_at(m.id.name@, posg) == false;
                    lemma_filter_in_original(self.members@, f, a);
                    lemma_filter_in_original(self.members@, f, b);
                    let va = choose|v: int|
                        0 <= v < self.members@.len() && self.members@[v] == p0@[a];
                    let vb = choose|v: int|
                        0 <= v < self.members@.len() && self.members@[v] == p0@[b];
                    if va == vb {
                        lemma_filter_distinct(self.members@, f, a, b);
                    }
                }
            }
            assert(distinct_member_keys(p1@)) by {
                assert forall|a: int, b: int|
                    0 <= a < b < p1@.len() implies p1@[a].id.sign_key@ != p1@[b].id.sign_key@ by {
                    let f = |m: MemberInfo| bit_at(m.id.name@, posg) == true;
                    lemma_filter_in_original(self.members@, f, a);
                    lemma_filter_in_original(self.members@, f, b);
                    let va = choose|v: int|
                        0 <= v < self.members@.len() && self.members@[v] == p1@[a];
                    let vb = choose|v: int|
                        0 <= v < self.members@.len() && self.members@[v] == p1@[b];
                    if va == vb {
                        lemma_filter_distinct(self.members@, f, a, b);
                    }
                }
            }
        }
        let s0 = Section { prefix: prefix0, elders: ids0, members: p0, chain: chain0 };
        let s1 = Section { prefix: prefix1, elders: ids1, members: p1, chain: chain1 };
        Ok((s0, s1))
    }
}

/// Distinct positions of a filtered sequence come from distinct positions
/// of the original, so a duplicate element would appear twice there too.
proof fn lemma_filter_distinct<A>(s: Seq<A>, pred: spec_fn(A) -> bool, a: int, b: int)
    requires
        0 <= a < b < s.filter(pred).len(),
    ensures
        exists|va: int, vb: int|
            0 <= va < vb < s.len() && s[va] == s.filter(pred)[a] && s[vb] == s.filter(pred)[b],
    decreases s.len(),
{
    reveal(Seq::filter);
    let fs = s.filter(pred);
    if s.len() > 0 {
        let prev = s.drop_last().filter(pred);
        if pred(s.last()) {
            if b == fs.len() - 1 {
                if a < prev.len() {
                    lemma_filter_in_original(s.drop_last(), pred, a);
                    let va = choose|va: int|
                        0 <= va < s.drop_last().len() && s.drop_last()[va] == prev[a];
                    assert(s[va] == fs[a]);
                    assert(s[s.len() - 1] == fs[b]);
                }
            } else {
                lemma_filter_distinct(s.drop_last(), pred, a, b);
                let (va, vb): (int, int) = choose|va: int, vb: int|
                    0 <= va < vb < s.drop_last().len() && s.drop_last()[va] == prev[a]
                        && s.drop_last()[vb] == prev[b];
                assert(s[va] == fs[a] && s[vb] == fs[b]);
            }
        } else {
            lemma_filter_distinct(s.drop_last(), pred, a, b);
            let (va, vb): (int, int) = choose|va: int, vb: int|
                0 <= va < vb < s.drop_last().len() && s.drop_last()[va] == prev[a]
                    && s.drop_last()[vb] == prev[b];
            assert(s[va] == fs[a] && s[vb] == fs[b]);
        }
    }
}

/// Every element of a filtered sequence stands somewhere in the original.
proof fn lemma_filter_in_original<A>(s: Seq<A>, pred: spec_fn(A) -> bool, a: int)
    requires
        0 <= a < s.filter(pred).len(),
    ensures
        exists|va: int| 0 <= va < s.len() && s[va] == s.filter(pred)[a],
    decreases s.len(),
{
    reveal(Seq::filter);
    let fs = s.filter(pred);
    if s.len() > 0 {
        let prev = s.drop_last().filter(pred);
        if pred(s.last()) && a == fs.len() - 1 {
            assert(s[s.len() - 1] == fs[a]);
        } else {
            lemma_filter_in_original(s.drop_last(), pred, a);
            let va = choose|va: int|
                0 <= va < s.drop_last().len() && s.drop_last()[va] == prev[a];
            assert(s[va] == fs[a]);
        }
    }
}

/// Copies a member list.
pub fn copy_members(v: &Vec<MemberInfo>) -> (r: Vec<MemberInfo>)
    ensures
        r@ == v@,
{
    let mut r: Vec<MemberInfo> = Vec::new();
    let mut i: usize = 0;
    while i < v.len()
        invariant
            i <= v@.len(),
            r@ == v@.take(i as int),
        decreases v.len() - i,
    {
        r.push(v[i]);
        proof {
            assert(r@ =~= v@.take(i + 1 as int));
        }
        i = i + 1;
    }
    proof {
        assert(v@.take(v@.len() as int) =~= v@);
    }
    r
}

impl Section {
    /// Merges this section with its sibling into one section under the
    /// parent prefix, with `new_elders` installed by a block signed by
    /// this section's outgoing elders; the surviving chain is this
    /// section's, extended by that block.
    ///
    /// Valid only when this section's size fell below the minimum
    /// threshold; otherwise fails with `InsufficientMembers`. Fails with
    /// `StaleProof` if `proof_tip` is not this section's current tip, with
    /// `NotAMember` if `new_elders` are not distinct members of the union,
    /// and with `InvalidProofChain` if `signatures` would not form a valid
    /// block.
    pub fn merge(
        &self,
        sibling: &Section,
        new_elders: Vec<PublicId>,
        signatures: Vec<Vote>,
        proof_tip: &[u8; 32],
    ) -> (r: Result<Section, Error>)
        requires
            self.wf(),
            sibling.wf(),
            self.prefix.bit_count == sibling.prefix.bit_count,
            self.prefix.bit_count >= 1,
            forall|j: int|
                0 <= j < self.prefix.bit_count - 1 ==> #[trigger] bit_at(self.prefix.name@, j)
                    == bit_at(sibling.prefix.name@, j),
            bit_at(self.prefix.name@, self.prefix.bit_count - 1) != bit_at(
                sibling.prefix.name@,
                self.prefix.bit_count - 1,
            ),
        ensures
            !self.tip_ok(proof_tip@) <==> r == Result::<Section, Error>::Err(Error::StaleProof),
            (self.tip_ok(proof_tip@) && self.members@.len() >= MIN_SECTION_SIZE) <==> r
                == Result::<Section, Error>::Err(Error::InsufficientMembers),
            (self.tip_ok(proof_tip@) && self.members@.len() < MIN_SECTION_SIZE && !elder_set_ok(
                new_elders@,
                self.members@ + sibling.members@,
            )) <==> r == Result::<Section, Error>::Err(Error::NotAMember),
            (self.tip_ok(proof_tip@) && self.members@.len() < MIN_SECTION_SIZE && elder_set_ok(
                new_elders@,
                self.members@ + sibling.members@,
            ) && !churn_ok(self.chain.blocks@.last(), Seq::<u8>::empty(), new_elders@, signatures@)) <==> r
                == Result::<Section, Error>::Err(Error::InvalidProofChain),
            r matches Ok(s) ==> {
                &&& s.wf()
                &&& s.prefix.bit_count == self.prefix.bit_count - 1
                &&& s.members@ == self.members@ + sibling.members@
                &&& s.elders@ == new_elders@
                &&& s.chain.blocks@.len() == self.chain.blocks@.len() + 1
                &&& blocks_view_equal(s.chain.blocks@.drop_last(), self.chain.blocks@)
                &&& s.chain.blocks@.last().elders@ == new_elders@
                &&& s.chain.blocks@.last().signatures@ == signatures@
            },
            r is Err ==> (r == Result::<Section, Error>::Err(Error::StaleProof) || r == Result::<
                Section,
                Error,
            >::Err(Error::InsufficientMembers) || r == Result::<Section, Error>::Err(
                Error::NotAMember,
            ) || r == Result::<Section, Error>::Err(Error::InvalidProofChain)),
    {
        if !self.check_tip(proof_tip) {
            return Err(Error::StaleProof);
        }
        if self.members.len() >= MIN_SECTION_SIZE {
            return Err(Error::InsufficientMembers);
        }
        let mut union: Vec<MemberInfo> = copy_members(&self.members);
        let mut i: usize = 0;
        while i < sibling.members.len()
            invariant
                i <= sibling.members@.len(),
                union@ == self.members@ + sibling.members@.take(i as int),
            decreases sibling.members.len() - i,
        {
            union.push(sibling.members[i]);
            proof {
                assert(union@ =~= self.members@ + sibling.members@.take(i + 1 as int));
            }
            i = i + 1;
        }
        proof {
            assert(self.members@ + sibling.members@.take(sibling.members@.len() as int) =~= (
            self.members@ + sibling.members@));
            assert(union@ == self.members@ + sibling.members@);
        }
        if !check_elder_set(&new_elders, &union) {
            return Err(Error::NotAMember);
        }
        let prev_hash = self.chain.tip_hash();
        let ids = copy_ids(&new_elders);
        let block = Block { payload: Vec::new(), elders: new_elders, prev_hash, signatures };
        let ok = check_block(self.chain.tip(), &block);
        proof {
            let tip = self.chain.blocks@.last();
            assert(ok == churn_ok(tip, block.payload@, block.elders@, block.signatures@));
            assert(block.payload@ =~= Seq::<u8>::empty());
        }
        if !ok {
            return Err(Error::InvalidProofChain);
        }
        let mut chain = clone_chain(&self.chain);
        proof {
            lemma_chain_valid_congruent(chain.blocks@, self.chain.blocks@);
            let tip = self.chain.blocks@.last();
            let t = chain.blocks@.last();
            assert(t.elders@ == tip.elders@ && t.prev_hash@ == tip.prev_hash@);
            assert(block_signed_ok(t, block));
            lemma_chain_push(chain.blocks@, block);
        }
        let ghost preblocks = chain.blocks@;
        chain.blocks.push(block);
        proof {
            assert(chain.blocks@.drop_last() =~= preblocks);
        }
        let parent = self.prefix.popped();
        proof {
            let n = self.members@.len() as int;
            assert forall|w: int|
                0 <= w < union@.len() implies (#[trigger] union@[w]).id.wf()
                && parent.spec_matches(union@[w].id.name@) by {
                if w < n {
                    assert(union@[w] == self.members@[w]);
                    assert(self.prefix.spec_matches(union@[w].id.name@));
                } else {
                    assert(union@[w] == sibling.members@[w - n]);
                    assert(sibling.prefix.spec_matches(union@[w].id.name@));
                }
            }
            assert forall|a: int, b: int|
                0 <= a < b < union@.len() implies union@[a].id.sign_key@
                != union@[b].id.sign_key@ by {
                if a < n && b >= n {
                    let ma = self.members@[a];
                    let mb = sibling.members@[b - n];
                    assert(union@[a] == ma && union@[b] == mb);
                    if ma.id.sign_key@ == mb.id.sign_key@ {
                        assert(ma.id.name@ == mb.id.name@);
                        assert(self.prefix.spec_matches(ma.id.name@));
                        assert(sibling.prefix.spec_matches(mb.id.name@));
                        lemma_siblings_disjoint(self.prefix, sibling.prefix, ma.id.name@);
                    }
                } else if a < n {
                    assert(union@[a] == self.members@[a] && union@[b] == self.members@[b]);
                } else {
                    assert(union@[a] == sibling.members@[a - n] && union@[b]
                        == sibling.members@[b - n]);
                }
            }
        }
        Ok(Section { prefix: parent, elders: ids, members: union, chain })
    }
}

} // verus!
