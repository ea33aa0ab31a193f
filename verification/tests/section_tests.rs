use sn_routing::consensus::{Proposal, ProposalState, Vote};
use sn_routing::delivery_group::select_targets;
use sn_routing::error::Error;
use sn_routing::id::{FullId, PublicId};
use sn_routing::name_type::{closer_to_target_or_equal, XorName};
use sn_routing::prefix::Prefix;
use sn_routing::relocation::{
    choose_destination, complete_relocation, select_relocations, RelocationDetails,
};
use sn_routing::section::{block_bytes, MemberInfo, Section, MIN_AGE};

fn real_ids(n: usize) -> Vec<FullId> {
    (0..n).map(|_| FullId::generate()).collect()
}

fn member(id: PublicId, age: u8) -> MemberInfo {
    MemberInfo { id, age, unresponsive: false }
}

fn synthetic_id(first: u8, tag: u8) -> PublicId {
    let mut key = [0u8; 32];
    key[0] = first;
    key[1] = tag;
    key[31] = 0xEE;
    PublicId::from_key(key)
}

fn sign_block(signers: &[FullId], bytes: &Vec<u8>) -> Vec<Vote> {
    signers
        .iter()
        .map(|f| Vote { voter: f.public, signature: f.sign(bytes) })
        .collect()
}

/// Founds a section whose seven elders hold real signing keys.
fn founded_section(elders: &[FullId]) -> Section {
    let founders: Vec<MemberInfo> = elders.iter().map(|f| member(f.public, 10)).collect();
    Section::found(Prefix::empty(), founders)
}

/// Prepares a member-change block against the current tip: the payload,
/// the signatures of `signers` over the block's bytes, and the tip digest.
fn change_block(
    section: &Section,
    signers: &[FullId],
    payload: &[u8],
) -> (Vec<u8>, Vec<Vote>, [u8; 32]) {
    let tip = section.chain.tip_hash();
    let tip_elders: Vec<PublicId> = section.chain.blocks.last().unwrap().elders.clone();
    let pl: Vec<u8> = payload.to_vec();
    let bytes = block_bytes(&tip, &pl, &tip_elders);
    let sigs = sign_block(signers, &bytes);
    (pl, sigs, tip)
}

#[test]
fn vote_reaches_quorum_and_member_joins() {
    // A seven-elder section accepts a proposal after five valid votes;
    // the member count grows by one and the chain by one block.
    let elders = real_ids(7);
    let mut section = founded_section(&elders);
    assert_eq!(section.elders.len(), 7);
    assert_eq!(section.chain.len(), 1);

    let payload: Vec<u8> = b"add member".to_vec();
    let voter_ids: Vec<PublicId> = elders.iter().map(|f| f.public).collect();
    let mut proposal = Proposal::new(payload.clone(), voter_ids);
    for (i, elder) in elders.iter().take(4).enumerate() {
        let sig = elder.sign(&payload);
        assert_eq!(proposal.submit_vote(&elder.public, &sig), Ok(false), "vote {}", i);
        assert_eq!(proposal.state, ProposalState::Open);
    }
    let fifth = elders[4].sign(&payload);
    assert_eq!(proposal.submit_vote(&elders[4].public, &fifth), Ok(true));
    assert_eq!(proposal.state, ProposalState::Accepted);

    // Applying the accepted change appends one signed block to the chain.
    let newcomer = synthetic_id(0x10, 0);
    let (pl, sigs, tip) = change_block(&section, &elders[..5], b"add member");
    assert_eq!(section.apply_member_added(newcomer, 5, pl, sigs, &tip), Ok(true));
    assert_eq!(section.members.len(), 8);
    assert_eq!(section.chain.len(), 2);
    assert!(section.chain.verify());

    // Adding the same member again is a no-op against the fresh tip.
    let (pl2, sigs2, tip2) = change_block(&section, &elders[..5], b"add member");
    assert_eq!(section.apply_member_added(newcomer, 5, pl2, sigs2, &tip2), Ok(false));
    assert_eq!(section.members.len(), 8);
    assert_eq!(section.chain.len(), 2);

    // A second mutation racing against the consumed tip loses: the apply
    // step advanced the tip, so it must re-vote against the latest state.
    let (pl3, sigs3, _fresh) = change_block(&section, &elders[..5], b"add other");
    assert_eq!(
        section.apply_member_added(synthetic_id(0x11, 0), 5, pl3, sigs3, &tip),
        Err(Error::StaleProof)
    );
    assert_eq!(section.members.len(), 8);

    // An elder churn appends a further block.
    let new_elders: Vec<PublicId> = elders.iter().map(|f| f.public).collect();
    let tip3 = section.chain.tip_hash();
    let bytes = block_bytes(&tip3, &Vec::new(), &new_elders);
    let votes = sign_block(&elders[..5], &bytes);
    assert_eq!(section.apply_elder_churn(new_elders, votes, &tip3), Ok(()));
    assert_eq!(section.chain.len(), 3);
    assert!(section.chain.verify());
}

#[test]
fn stale_tip_is_rejected() {
    let elders = real_ids(7);
    let mut section = founded_section(&elders);
    let wrong_tip = [0xABu8; 32];
    assert_eq!(
        section.apply_member_added(synthetic_id(1, 1), 5, Vec::new(), Vec::new(), &wrong_tip),
        Err(Error::StaleProof)
    );
    assert_eq!(
        section.apply_member_removed(
            &elders[0].public.sign_key,
            Vec::new(),
            Vec::new(),
            &wrong_tip
        ),
        Err(Error::StaleProof)
    );
}

#[test]
fn unsigned_member_change_is_rejected() {
    // A member change whose block signatures do not meet quorum leaves
    // the section untouched.
    let elders = real_ids(7);
    let mut section = founded_section(&elders);
    let (pl, sigs, tip) = change_block(&section, &elders[..3], b"join");
    assert_eq!(
        section.apply_member_added(synthetic_id(2, 2), 5, pl, sigs, &tip),
        Err(Error::InvalidProofChain)
    );
    assert_eq!(section.members.len(), 7);
    assert_eq!(section.chain.len(), 1);
}

#[test]
fn chain_verification_deterministic_and_tamper_evident() {
    // Verifying the same chain twice yields the same result; mutating a
    // block invalidates it.
    let elders = real_ids(7);
    let mut section = founded_section(&elders);
    let new_elders: Vec<PublicId> = elders.iter().map(|f| f.public).collect();
    let tip = section.chain.tip_hash();
    let bytes = block_bytes(&tip, &Vec::new(), &new_elders);
    let votes = sign_block(&elders[..6], &bytes);
    assert_eq!(section.apply_elder_churn(new_elders, votes, &tip), Ok(()));

    assert!(section.chain.verify());
    assert!(section.chain.verify());
    let mut tampered = section.chain;
    tampered.blocks[1].signatures[0].signature[0] ^= 0x01;
    assert!(!tampered.verify());
    assert!(!tampered.verify());
}

#[test]
fn tampered_persisted_chain_fails_to_load() {
    // A persisted section whose chain has a tampered signature on block 3
    // fails with InvalidProofChain and does not load.
    let elders = real_ids(7);
    let mut section = founded_section(&elders);
    let new_elders: Vec<PublicId> = elders.iter().map(|f| f.public).collect();
    for _ in 0..3 {
        let tip = section.chain.tip_hash();
        let bytes = block_bytes(&tip, &Vec::new(), &new_elders);
        let votes = sign_block(&elders[..5], &bytes);
        assert_eq!(
            section.apply_elder_churn(new_elders.clone(), votes, &tip),
            Ok(())
        );
    }
    assert_eq!(section.chain.len(), 4);

    let Section { prefix, elders: section_elders, members, mut chain } = section;
    chain.blocks[3].signatures[0].signature[7] ^= 0x40;
    let loaded = Section::load(prefix, section_elders, members, chain);
    assert!(matches!(loaded, Err(Error::InvalidProofChain)));
}

#[test]
fn intact_persisted_section_loads() {
    let elders = real_ids(7);
    let section = founded_section(&elders);
    let Section { prefix, elders: es, members, chain } = section;
    let loaded = Section::load(prefix, es.clone(), members.clone(), chain);
    assert!(loaded.is_ok());
    let s = loaded.unwrap();
    assert_eq!(s.members.len(), members.len());
    assert_eq!(s.elders, es);
}

#[test]
fn split_below_threshold_fails() {
    // Split is permitted only if both children would have at least the
    // recommended section size.
    let elders = real_ids(7);
    let section = founded_section(&elders);
    let tip = section.chain.tip_hash();
    let e0 = vec![synthetic_id(0x00, 1)];
    let e1 = vec![synthetic_id(0x80, 1)];
    let r = section.apply_split(e0, Vec::new(), e1, Vec::new(), &tip);
    assert!(matches!(r, Err(Error::InsufficientMembers)));
}

#[test]
fn split_partitions_members_and_roots_chains_at_parent_tip() {
    // A 130-member section splits into two sections of 65 members each,
    // both chains rooted at the parent's tip block.
    let elders = real_ids(7);
    let mut section = founded_section(&elders);
    let k0 = elders.iter().filter(|f| !f.public.name.bit(0)).count();
    for t in 0..(65 - k0) {
        let id = synthetic_id(0x00, t as u8);
        let (pl, sigs, tip) = change_block(&section, &elders[..5], b"join");
        assert_eq!(section.apply_member_added(id, 5, pl, sigs, &tip), Ok(true));
    }
    for t in 0..(65 - (7 - k0)) {
        let id = synthetic_id(0x80, t as u8);
        let (pl, sigs, tip) = change_block(&section, &elders[..5], b"join");
        assert_eq!(section.apply_member_added(id, 5, pl, sigs, &tip), Ok(true));
    }
    assert_eq!(section.members.len(), 130);
    let parent_len = section.chain.len();
    assert_eq!(parent_len, 124);
    assert!(section.chain.verify());

    let p0_members: Vec<MemberInfo> = section
        .members
        .iter()
        .filter(|m| !m.id.name.bit(0))
        .cloned()
        .collect();
    let p1_members: Vec<MemberInfo> = section
        .members
        .iter()
        .filter(|m| m.id.name.bit(0))
        .cloned()
        .collect();
    assert_eq!(p0_members.len(), 65);
    assert_eq!(p1_members.len(), 65);

    let elders0: Vec<PublicId> = p0_members.iter().take(7).map(|m| m.id).collect();
    let elders1: Vec<PublicId> = p1_members.iter().take(7).map(|m| m.id).collect();
    let tip = section.chain.tip_hash();
    let bytes0 = block_bytes(&tip, &Vec::new(), &elders0);
    let bytes1 = block_bytes(&tip, &Vec::new(), &elders1);
    let sigs0 = sign_block(&elders[..5], &bytes0);
    let sigs1 = sign_block(&elders[..5], &bytes1);

    let (s0, s1) = section
        .apply_split(elders0.clone(), sigs0, elders1.clone(), sigs1, &tip)
        .unwrap();
    assert_eq!(s0.members.len(), 65);
    assert_eq!(s1.members.len(), 65);
    assert_eq!(s0.prefix.bit_count, 1);
    assert_eq!(s1.prefix.bit_count, 1);
    assert_eq!(s0.elders, elders0);
    assert_eq!(s1.elders, elders1);
    // Each child chain extends the parent's by one block whose hash link
    // is the parent's tip digest.
    assert_eq!(s0.chain.len(), parent_len + 1);
    assert_eq!(s1.chain.len(), parent_len + 1);
    assert_eq!(s0.chain.blocks[parent_len].prev_hash, tip);
    assert_eq!(s1.chain.blocks[parent_len].prev_hash, tip);
    assert!(s0.chain.verify());
    assert!(s1.chain.verify());
}

#[test]
fn merge_unions_members_under_parent_prefix() {
    let elders0 = real_ids(7);
    let founders0: Vec<MemberInfo> = elders0
        .iter()
        .map(|f| member(f.public, 10))
        .collect();
    let founders1: Vec<MemberInfo> =
        (0..7).map(|t| member(synthetic_id(0x80, t), 10)).collect();
    // Put each member set under its own one-bit prefix.
    let p = Prefix::empty();
    let left: Vec<MemberInfo> = founders0
        .iter()
        .filter(|m| !m.id.name.bit(0))
        .cloned()
        .collect();
    let s0 = Section::found(p.pushed(false), left.clone());
    let s1 = Section::found(p.pushed(true), founders1.clone());
    if left.is_empty() {
        // All random elder names fell under the other half; nothing to merge.
        return;
    }
    let union_len = left.len() + founders1.len();
    let tip = s0.chain.tip_hash();
    let new_elders: Vec<PublicId> = left.iter().map(|m| m.id).collect();
    let bytes = block_bytes(&tip, &Vec::new(), &new_elders);
    let signers: Vec<FullId> = elders0
        .iter()
        .filter(|f| left.iter().any(|m| m.id == f.public))
        .cloned()
        .collect();
    let sigs = sign_block(&signers, &bytes);
    let merged = s0.merge(&s1, new_elders.clone(), sigs, &tip).unwrap();
    assert_eq!(merged.prefix.bit_count, 0);
    assert_eq!(merged.members.len(), union_len);
    assert_eq!(merged.elders, new_elders);
    assert!(merged.chain.verify());
}

#[test]
fn delivery_group_sorted_and_sized() {
    // The returned sequence is sorted by non-decreasing XOR distance to
    // the destination and sized min(group_size, member_count).
    let elders = real_ids(7);
    let mut section = founded_section(&elders);
    for t in 0..13u8 {
        let (pl, sigs, tip) = change_block(&section, &elders[..5], b"join");
        assert_eq!(
            section.apply_member_added(synthetic_id(0x40, t), 5, pl, sigs, &tip),
            Ok(true)
        );
    }
    let dest = XorName { bytes: [0x42; 32] };
    let group = select_targets(&section, &dest, 8);
    assert_eq!(group.len(), 8);
    for pair in group.windows(2) {
        assert!(closer_to_target_or_equal(&pair[0].name, &pair[1].name, &dest));
    }
    // Every selected target is a member.
    for target in &group {
        assert!(section.members.iter().any(|m| m.id == *target));
    }
    // Fewer members than the group size returns the full membership.
    let all = select_targets(&section, &dest, 100);
    assert_eq!(all.len(), section.members.len());
}

#[test]
fn relocation_selection_deterministic() {
    // Given the same section state and seed, selection returns the same
    // result on repeated invocation.
    let elders = real_ids(7);
    let mut section = founded_section(&elders);
    for t in 0..5u8 {
        // Young members, not eligible.
        let (pl, sigs, tip) = change_block(&section, &elders[..5], b"join");
        assert_eq!(
            section.apply_member_added(synthetic_id(0x20, t), 2, pl, sigs, &tip),
            Ok(true)
        );
    }
    let seed = [0x5Au8; 32];
    let dest = Prefix::empty().pushed(true);
    let a = select_relocations(&section, dest, 3, &seed, MIN_AGE);
    let b = select_relocations(&section, dest, 3, &seed, MIN_AGE);
    assert_eq!(a.len(), b.len());
    for (x, y) in a.iter().zip(b.iter()) {
        assert_eq!(x.relocating_node, y.relocating_node);
        assert_eq!(x.proof, y.proof);
        assert_eq!(x.trigger_round, y.trigger_round);
    }
    // Exactly the aged elders (age 10 > threshold) are selected.
    assert_eq!(a.len(), 7);
    for details in &a {
        assert!(elders.iter().any(|f| f.public == details.relocating_node));
    }
}

#[test]
fn destination_is_least_loaded_neighbour() {
    let p = Prefix::empty();
    let p0 = p.pushed(false);
    let p1 = p.pushed(true);
    assert!(choose_destination(&Vec::new()).is_none());
    let neighbours = vec![(p0, 12usize), (p1, 5usize), (p0.sibling(), 5usize)];
    // The first least-loaded neighbour wins.
    let chosen = choose_destination(&neighbours).unwrap();
    assert_eq!(chosen, p1);
}

#[test]
fn relocating_a_stranger_signals_not_a_member() {
    let elders = real_ids(7);
    let mut section = founded_section(&elders);
    let tip = section.chain.tip_hash();
    let stranger = RelocationDetails {
        relocating_node: synthetic_id(0x77, 7),
        destination_prefix: Prefix::empty(),
        trigger_round: 1,
        proof: [0u8; 32],
    };
    assert_eq!(
        complete_relocation(&mut section, &stranger, Vec::new(), Vec::new(), &tip),
        Err(Error::NotAMember)
    );
    // Relocating a real member removes it and records the departure.
    let leaving = RelocationDetails {
        relocating_node: elders[6].public,
        destination_prefix: Prefix::empty(),
        trigger_round: 1,
        proof: [0u8; 32],
    };
    let (pl, sigs, tip2) = change_block(&section, &elders[..5], b"relocate");
    assert_eq!(
        complete_relocation(&mut section, &leaving, pl, sigs, &tip2),
        Ok(())
    );
    assert_eq!(section.members.len(), 6);
    assert_eq!(section.elders.len(), 6);
    assert_eq!(section.chain.len(), 2);
    // The departure advanced the tip.
    assert_ne!(section.chain.tip_hash(), tip2);
    // The replacement policy proposes a topped-up elder set.
    let candidates = section.elder_candidates();
    assert_eq!(candidates.len(), 6);
}

#[test]
fn elder_replacement_promotes_oldest_first() {
    let elders = real_ids(7);
    let mut section = founded_section(&elders);
    // Two non-elder members of different tenure.
    let older = synthetic_id(0x33, 1);
    let younger = synthetic_id(0x33, 2);
    let (pl, sigs, tip) = change_block(&section, &elders[..5], b"join older");
    assert_eq!(section.apply_member_added(older, 9, pl, sigs, &tip), Ok(true));
    let (pl, sigs, tip) = change_block(&section, &elders[..5], b"join younger");
    assert_eq!(section.apply_member_added(younger, 6, pl, sigs, &tip), Ok(true));
    // Losing one elder leaves one seat to fill.
    let (pl, sigs, tip) = change_block(&section, &elders[..5], b"leave");
    assert_eq!(
        section.apply_member_removed(&elders[0].public.sign_key, pl, sigs, &tip),
        Ok(true)
    );
    assert_eq!(section.elders.len(), 6);
    assert_eq!(section.chain.len(), 4);
    assert!(section.chain.verify());
    let candidates = section.elder_candidates();
    assert_eq!(candidates.len(), 7);
    // The seat goes to the oldest-tenured non-elder.
    assert!(candidates.contains(&older));
    assert!(!candidates.contains(&younger));
}
