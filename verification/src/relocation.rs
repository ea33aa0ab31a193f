//! Relocation.
//!
//! On churn or aging events, members whose age passes the threshold, or
//! who are flagged unresponsive, must move to a neighbouring section. The
//! selection is a pure function of the section state and a seed derived
//! from the latest proof-chain block, so any peer holding the same chain
//! recomputes, and thereby verifies, the same outcome.

use vstd::prelude::*;
use crate::crypto;
use crate::crypto::hash_of;
use crate::error::Error;
use crate::id::PublicId;
use crate::name_type::{XorName, XOR_NAME_LEN};
use crate::prefix::Prefix;
use crate::section::{MemberInfo, Section, member_key_in, churn_ok};
use crate::consensus::Vote;

verus! {

/// One decided relocation: who moves, where to, on which trigger, with a
/// proof any observer can recompute from the seed.
pub struct RelocationDetails {
    /// The member that must move.
    pub relocating_node: PublicId,
    /// The prefix it must rejoin under.
    pub destination_prefix: Prefix,
    /// The churn round that triggered the move.
    pub trigger_round: u64,
    /// Digest tying the decision to the section-signed seed.
    pub proof: [u8; 32],
}

/// Whether a member must relocate: its age passed the configured
/// threshold or it was flagged unresponsive.
pub open spec fn eligible(m: MemberInfo, age_threshold: u8) -> bool {
    m.age > age_threshold || m.unresponsive
}

/// The bytes whose digest proves one member's relocation decision: the
/// seed followed by the member's name.
pub open spec fn proof_bytes(seed: Seq<u8>, name: Seq<u8>) -> Seq<u8> {
    seed + name
}

/// The relocations a member list and seed decide, in member order: one
/// entry per eligible member.
pub open spec fn spec_relocations(
    members: Seq<MemberInfo>,
    dest: Prefix,
    round: u64,
    seed: Seq<u8>,
    age_threshold: u8,
) -> Seq<(PublicId, Seq<u8>)>
    decreases members.len(),
{
    if members.len() == 0 {
        Seq::empty()
    } else {
        let rest = spec_relocations(members.drop_last(), dest, round, seed, age_threshold);
        if eligible(members.last(), age_threshold) {
            rest.push(
                (members.last().id, hash_of(proof_bytes(seed, members.last().id.name@))),
            )
        } else {
            rest
        }
    }
}

/// Serializes the relocation-proof input for one member.
fn build_proof_bytes(seed: &[u8; 32], name: &XorName) -> (r: Vec<u8>)
    ensures
        r@ == proof_bytes(seed@, name@),
{
    let mut r: Vec<u8> = Vec::new();
    let mut i: usize = 0;
    while i < 32
        invariant
            i <= 32,
            r@ == seed@.take(i as int),
        decreases 32 - i,
    {
        r.push(seed[i]);
        proof {
            assert(r@ =~= seed@.take(i + 1 as int));
        }
        i = i + 1;
    }
    proof {
        assert(seed@.take(32) =~= seed@);
    }
    let mut j: usize = 0;
    while j < XOR_NAME_LEN
        invariant
            j <= XOR_NAME_LEN,
            r@ == seed@ + name@.take(j as int),
        decreases XOR_NAME_LEN - j,
    {
        r.push(name.bytes[j]);
        proof {
            assert(r@ =~= seq_plus_take(seed@, name@, j + 1));
        }
        j = j + 1;
    }
    proof {
        assert(name@.take(XOR_NAME_LEN as int) =~= name@);
    }
    r
}

/// Helper shape for the byte-building proofs above.
spec fn seq_plus_take(a: Seq<u8>, b: Seq<u8>, upto: int) -> Seq<u8> {
    a + b.take(upto)
}

/// Selects the members of `section` that must relocate, deterministically
/// in the section state and `seed`: exactly the members whose age exceeds
/// the configured threshold or who are flagged unresponsive, each bound
/// for `destination` with a proof digest any holder of the same chain can
/// recompute.
pub fn select_relocations(
    section: &Section,
    destination: Prefix,
    trigger_round: u64,
    seed: &[u8; 32],
    age_threshold: u8,
) -> (r: Vec<RelocationDetails>)
    requires
        section.wf(),
    ensures
        r@.len() == spec_relocations(
            section.members@,
            destination,
            trigger_round,
            seed@,
            age_threshold,
        ).len(),
        forall|j: int|
            0 <= j < r@.len() ==> {
                let spec = spec_relocations(
                    section.members@,
                    destination,
                    trigger_round,
                    seed@,
                    age_threshold,
                );
                (#[trigger] r@[j]).relocating_node == spec[j].0 && r@[j].proof@ == spec[j].1
                    && r@[j].destination_prefix == destination && r@[j].trigger_round
                    == trigger_round
            },
{
    let mut r: Vec<RelocationDetails> = Vec::new();
    let mut i: usize = 0;
    while i < section.members.len()
        invariant
            section.wf(),
            i <= section.members@.len(),
            r@.len() == spec_relocations(
                section.members@.take(i as int),
                destination,
                trigger_round,
                seed@,
                age_threshold,
            ).len(),
            forall|j: int|
                0 <= j < r@.len() ==> {
                    let spec = spec_relocations(
                        section.members@.take(i as int),
                        destination,
                        trigger_round,
                        seed@,
                        age_threshold,
                    );
                    (#[trigger] r@[j]).relocating_node == spec[j].0 && r@[j].proof@ == spec[j].1
                        && r@[j].destination_prefix == destination && r@[j].trigger_round
                        == trigger_round
                },
        decreases section.members.len() - i,
    {
        let m = &section.members[i];
        proof {
            assert(section.members@.take(i + 1 as int).drop_last() =~= section.members@.take(
                i as int,
            ));
            assert(section.members@.take(i + 1 as int).last() == section.members@[i as int]);
        }
        if m.age > age_threshold || m.unresponsive {
            let bytes = build_proof_bytes(seed, &m.id.name);
            let digest = crypto::hash(&bytes);
            r.push(
                RelocationDetails {
                    relocating_node: m.id,
                    destination_prefix: destination,
                    trigger_round,
                    proof: digest,
                },
            );
        }
        i = i + 1;
    }
    proof {
        assert(section.members@.take(section.members@.len() as int) =~= section.members@);
    }
    r
}

/// Chooses the destination prefix for a relocation: among the section's
/// sibling and neighbouring prefixes, the one with the smallest current
/// member count, the earliest such for determinism. `None` only when no
/// neighbour is known.
pub fn choose_destination(neighbours: &Vec<(Prefix, usize)>) -> (r: Option<Prefix>)
    ensures
        (neighbours@.len() == 0) <==> r is None,
        r matches Some(p) ==> exists|i: int|
            0 <= i < neighbours@.len() && p == (#[trigger] neighbours@[i]).0 && (forall|j: int|
                0 <= j < neighbours@.len() ==> neighbours@[i].1 <= (#[trigger] neighbours@[j]).1)
                && (forall|j: int| 0 <= j < i ==> neighbours@[i].1 < (#[trigger] neighbours@[j]).1),
{
    if neighbours.len() == 0 {
        return None;
    }
    let mut best: usize = 0;
    let mut t: usize = 1;
    while t < neighbours.len()
        invariant
            best < t <= neighbours@.len(),
            forall|j: int| 0 <= j < t ==> neighbours@[best as int].1 <= (#[trigger] neighbours@[j]).1,
            forall|j: int| 0 <= j < best ==> neighbours@[best as int].1 < (#[trigger] neighbours@[j]).1,
        decreases neighbours@.len() - t,
    {
        if neighbours[t].1 < neighbours[best].1 {
            best = t;
        }
        t = t + 1;
    }
    Some(neighbours[best].0)
}

/// Relocation selection is deterministic: equal section state and equal
/// seed decide equal relocations, however often they are recomputed.
pub proof fn lemma_relocation_deterministic(
    m1: Seq<MemberInfo>,
    m2: Seq<MemberInfo>,
    dest: Prefix,
    round: u64,
    s1: Seq<u8>,
    s2: Seq<u8>,
    age_threshold: u8,
)
    requires
        m1 == m2,
        s1 == s2,
    ensures
        spec_relocations(m1, dest, round, s1, age_threshold) == spec_relocations(
            m2,
            dest,
            round,
            s2,
            age_threshold,
        ),
{
}

/// Completes a relocation: removes the relocating node from the section,
/// recording the departure on the proof chain as a block carrying
/// `payload` signed by the tip elders. Fails with `NotAMember` if the
/// node is not a member of the referenced section, which signals caller
/// misuse; with `StaleProof` if `proof_tip` is not the section's current
/// chain tip; with `InvalidProofChain` if `signatures` would not form a
/// valid block.
pub fn complete_relocation(
    section: &mut Section,
    details: &RelocationDetails,
    payload: Vec<u8>,
    signatures: Vec<Vote>,
    proof_tip: &[u8; 32],
) -> (r: Result<(), Error>)
    requires
        old(section).wf(),
    ensures
        final(section).wf(),
        !old(section).tip_ok(proof_tip@) <==> r == Result::<(), Error>::Err(Error::StaleProof),
        (old(section).tip_ok(proof_tip@) && !member_key_in(
            old(section).members@,
            details.relocating_node.sign_key@,
        )) <==> r == Result::<(), Error>::Err(Error::NotAMember),
        (old(section).tip_ok(proof_tip@) && member_key_in(
            old(section).members@,
            details.relocating_node.sign_key@,
        ) && !churn_ok(
            old(section).chain.blocks@.last(),
            payload@,
            old(section).chain.blocks@.last().elders@,
            signatures@,
        )) <==> r == Result::<(), Error>::Err(Error::InvalidProofChain),
        r is Err ==> *final(section) == *old(section),
        r is Err ==> (r == Result::<(), Error>::Err(Error::StaleProof) || r == Result::<
            (),
            Error,
        >::Err(Error::NotAMember) || r == Result::<(), Error>::Err(Error::InvalidProofChain)),
        r is Ok ==> !member_key_in(final(section).members@, details.relocating_node.sign_key@),
        r is Ok ==> final(section).chain.blocks@.len() == old(section).chain.blocks@.len() + 1,
{
    let outcome = section.apply_member_removed(
        &details.relocating_node.sign_key,
        payload,
        signatures,
        proof_tip,
    );
    match outcome {
        Err(e) => Err(e),
        Ok(true) => Ok(()),
        Ok(false) => Err(Error::NotAMember),
    }
}

/// The name a node assumes after relocating: the digest of the close
/// nodes' names followed by its original name, so the new identity is
/// bound to the old one by a recomputable proof.
pub open spec fn spec_relocated_name(close_names: Seq<Seq<u8>>, original: Seq<u8>) -> Seq<u8> {
    hash_of(flatten_names(close_names) + original)
}

/// The concatenation of a list of names.
pub open spec fn flatten_names(names: Seq<Seq<u8>>) -> Seq<u8>
    decreases names.len(),
{
    if names.len() == 0 {
        Seq::empty()
    } else {
        flatten_names(names.drop_last()) + names.last()
    }
}

/// Computes the relocated name for `original` attested by `close_nodes`.
pub fn calculate_relocated_name(close_nodes: &Vec<XorName>, original: &XorName) -> (r: XorName)
    ensures
        r@ == spec_relocated_name(close_nodes@.map_values(|n: XorName| n@), original@),
{
    let mut bytes: Vec<u8> = Vec::new();
    let mut i: usize = 0;
    while i < close_nodes.len()
        invariant
            i <= close_nodes@.len(),
            bytes@ == flatten_names(close_nodes@.map_values(|n: XorName| n@).take(i as int)),
        decreases close_nodes.len() - i,
    {
        let ghost before = bytes@;
        let name = &close_nodes[i];
        let mut j: usize = 0;
        while j < XOR_NAME_LEN
            invariant
                j <= XOR_NAME_LEN,
                bytes@ == before + close_nodes@[i as int]@.take(j as int),
                i < close_nodes@.len(),
                name@ == close_nodes@[i as int]@,
            decreases XOR_NAME_LEN - j,
        {
            bytes.push(name.bytes[j]);
            proof {
                assert(bytes@ =~= seq_plus_take(before, close_nodes@[i as int]@, j + 1));
            }
            j = j + 1;
        }
        proof {
            let mapped = close_nodes@.map_values(|n: XorName| n@);
            assert(close_nodes@[i as int]@.take(XOR_NAME_LEN as int) =~= close_nodes@[i as int]@);
            assert(mapped.take(i + 1 as int).drop_last() =~= mapped.take(i as int));
            assert(mapped.take(i + 1 as int).last() == mapped[i as int]);
            assert(mapped[i as int] == close_nodes@[i as int]@);
        }
        i = i + 1;
    }
    let ghost mapped = close_nodes@.map_values(|n: XorName| n@);
    proof {
        assert(mapped.take(mapped.len() as int) =~= mapped);
    }
    let mut k: usize = 0;
    let ghost flat = bytes@;
    while k < XOR_NAME_LEN
        invariant
            k <= XOR_NAME_LEN,
            bytes@ == flat + original@.take(k as int),
        decreases XOR_NAME_LEN - k,
    {
        bytes.push(original.bytes[k]);
        proof {
            assert(bytes@ =~= seq_plus_take(flat, original@, k + 1));
        }
        k = k + 1;
    }
    proof {
        assert(original@.take(XOR_NAME_LEN as int) =~= original@);
    }
    let digest = crypto::hash(&bytes);
    XorName { bytes: digest }
}

/// The self-relocated name a node starting alone gives itself: its own
/// name attested only by itself.
pub fn self_relocated_name(original: &XorName) -> (r: XorName)
    ensures
        r@ == spec_relocated_name(seq![original@], original@),
{
    let mut close: Vec<XorName> = Vec::new();
    close.push(*original);
    let r = calculate_relocated_name(&close, original);
    proof {
        assert(close@.map_values(|n: XorName| n@) =~= seq![original@]);
    }
    r
}

} // verus!
