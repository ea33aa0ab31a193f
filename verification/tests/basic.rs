use sn_routing::{
    quorum_reached, ignore, QUORUM_DENOMINATOR, QUORUM_NUMERATOR,
};
use sn_routing::consensus::{Proposal, ProposalState};
use sn_routing::error::Error;
use sn_routing::id::{FullId, PublicId};
use sn_routing::message_filter::MessageFilter;
use sn_routing::name_type::{closer_to_target, closer_to_target_or_equal, XorName};
use sn_routing::prefix::Prefix;
use sn_routing::relay::RelayMap;
use sn_routing::relocation::{calculate_relocated_name, self_relocated_name};
use sn_routing::timer::Scheduler;
use sn_routing::location::{DstLocation, SrcLocation};
use sn_routing::{NetworkParams, ELDER_SIZE, RECOMMENDED_SECTION_SIZE};

fn name_of(b: u8) -> XorName {
    let mut bytes = [0u8; 32];
    bytes[0] = b;
    XorName { bytes }
}

fn id_of(b: u8) -> PublicId {
    let mut key = [0u8; 32];
    key[0] = b;
    key[31] = 1;
    PublicId::from_key(key)
}

#[test]
fn quorum_check() {
    assert!(
        QUORUM_NUMERATOR < QUORUM_DENOMINATOR,
        "Quorum impossible to achieve"
    );
    assert!(
        QUORUM_NUMERATOR * 2 >= QUORUM_DENOMINATOR,
        "Quorum does not guarantee agreement"
    );
}

#[test]
fn quorum_thresholds() {
    // Seven voters: quorum needs at least five votes.
    assert!(!quorum_reached(4, 7));
    assert!(quorum_reached(5, 7));
    // Four voters: quorum needs at least three votes.
    assert!(!quorum_reached(2, 4));
    assert!(quorum_reached(3, 4));
    // The rule is strict two-thirds.
    assert!(!quorum_reached(2, 3));
    assert!(quorum_reached(3, 3));
    assert!(!quorum_reached(0, 0));
}

#[test]
fn quorums_intersect_concrete() {
    // Two quorums of five among the same seven voters must share a voter.
    let a = [0usize, 1, 2, 3, 4];
    let b = [2usize, 3, 4, 5, 6];
    assert!(quorum_reached(a.len(), 7));
    assert!(quorum_reached(b.len(), 7));
    let shared: Vec<usize> = a.iter().filter(|x| b.contains(x)).cloned().collect();
    assert!(!shared.is_empty());
}

#[test]
fn duplicate_vote_rejected() {
    // The same voter submitting twice fails with DuplicateVote and the
    // vote count stays unchanged.
    let voters: Vec<FullId> = (0..7).map(|_| FullId::generate()).collect();
    let voter_ids: Vec<PublicId> = voters.iter().map(|f| f.public).collect();
    let payload: Vec<u8> = b"add member".to_vec();
    let mut proposal = Proposal::new(payload.clone(), voter_ids);
    let sig = voters[0].sign(&payload);
    assert_eq!(proposal.submit_vote(&voters[0].public, &sig), Ok(false));
    assert_eq!(proposal.votes.len(), 1);
    assert_eq!(
        proposal.submit_vote(&voters[0].public, &sig),
        Err(Error::DuplicateVote)
    );
    assert_eq!(proposal.votes.len(), 1);
}

#[test]
fn unknown_voter_rejected() {
    let voters: Vec<FullId> = (0..4).map(|_| FullId::generate()).collect();
    let voter_ids: Vec<PublicId> = voters.iter().map(|f| f.public).collect();
    let payload: Vec<u8> = b"promote".to_vec();
    let mut proposal = Proposal::new(payload.clone(), voter_ids);
    let outsider = FullId::generate();
    let sig = outsider.sign(&payload);
    assert_eq!(
        proposal.submit_vote(&outsider.public, &sig),
        Err(Error::UnknownVoter)
    );
    assert_eq!(proposal.votes.len(), 0);
}

#[test]
fn invalid_signature_dropped_silently() {
    let voters: Vec<FullId> = (0..4).map(|_| FullId::generate()).collect();
    let voter_ids: Vec<PublicId> = voters.iter().map(|f| f.public).collect();
    let payload: Vec<u8> = b"leave".to_vec();
    let mut proposal = Proposal::new(payload, voter_ids);
    let bad_sig = [7u8; 64];
    assert_eq!(proposal.submit_vote(&voters[1].public, &bad_sig), Ok(false));
    assert_eq!(proposal.votes.len(), 0);
    assert_eq!(proposal.state, ProposalState::Open);
}

#[test]
fn expiry_is_terminal_and_stale_timer_harmless() {
    let voters: Vec<FullId> = (0..4).map(|_| FullId::generate()).collect();
    let voter_ids: Vec<PublicId> = voters.iter().map(|f| f.public).collect();
    let payload: Vec<u8> = b"slow".to_vec();
    let mut proposal = Proposal::new(payload, voter_ids);
    proposal.expire();
    assert_eq!(proposal.state, ProposalState::Expired);
    // A second, stale expiry is a no-op.
    proposal.expire();
    assert_eq!(proposal.state, ProposalState::Expired);
}

#[test]
fn distance_comparisons() {
    let a = name_of(0x01);
    let b = name_of(0x02);
    let target = name_of(0x00);
    assert!(closer_to_target(&a, &b, &target));
    assert!(!closer_to_target(&b, &a, &target));
    assert!(closer_to_target_or_equal(&a, &a, &target));
    // XOR metric: b is closer to a target sharing its high bits.
    let t2 = name_of(0x03);
    assert!(closer_to_target(&b, &a, &t2));
}

#[test]
fn prefix_matching_and_siblings() {
    let p = Prefix::empty();
    assert!(p.matches(&name_of(0xFF)));
    let p0 = p.pushed(false);
    let p1 = p.pushed(true);
    assert!(p0.matches(&name_of(0x00)));
    assert!(!p0.matches(&name_of(0x80)));
    assert!(p1.matches(&name_of(0x80)));
    assert!(!p1.matches(&name_of(0x00)));
    assert_eq!(p0.sibling(), p1);
    assert_eq!(p1.sibling(), p0);
    assert_eq!(p0.popped(), p);
}

#[test]
fn message_filter_flags_duplicates() {
    let mut filter = MessageFilter::new(60_000, 100);
    assert!(!filter.check_and_insert(42));
    assert!(filter.check_and_insert(42));
    assert!(!filter.check_and_insert(43));
}

#[test]
fn scheduler_fires_due_and_cancel_holds() {
    let mut scheduler = Scheduler::new();
    scheduler.schedule(10, 1);
    scheduler.schedule(20, 2);
    scheduler.schedule(15, 3);
    scheduler.cancel(3);
    let fired = scheduler.fire_due(15);
    // Token 1 is due; token 3 was due but cancelled; token 2 is not due yet.
    assert_eq!(fired, vec![1]);
    let fired_later = scheduler.fire_due(25);
    assert_eq!(fired_later, vec![2]);
    assert!(scheduler.fire_due(100).is_empty());
}

#[test]
fn relay_map_rejects_self_and_caps() {
    let our_id = id_of(0);
    let mut map = RelayMap::new(our_id.name);
    assert!(!map.add_ip_node(our_id, 1));
    for i in 1..=5u8 {
        assert!(map.add_ip_node(id_of(i), i as u64));
    }
    // The sixth distinct contact exceeds MAX_RELAY.
    assert!(!map.add_ip_node(id_of(6), 6));
    // A known contact still accepts a new endpoint at capacity.
    assert!(map.add_ip_node(id_of(3), 33));
    map.drop_ip_node(&id_of(3).name);
    // A slot opened up.
    assert!(map.add_ip_node(id_of(6), 6));
}

#[test]
fn relocated_name_is_deterministic_and_fresh() {
    let original = name_of(0x55);
    let close: Vec<XorName> = vec![name_of(1), name_of(2)];
    let a = calculate_relocated_name(&close, &original);
    let b = calculate_relocated_name(&close, &original);
    assert_eq!(a, b);
    assert_ne!(a, original);
    let s = self_relocated_name(&original);
    assert_eq!(s, self_relocated_name(&original));
    assert_ne!(s, original);
    assert_ne!(s, a);
}

#[test]
fn ignore_discards_results() {
    let ok: Result<u32, &str> = Ok(5);
    let err: Result<u32, &str> = Err("nope");
    ignore(ok);
    ignore(err);
}

#[test]
fn locations_answer_membership() {
    let node = name_of(0x12);
    let src = SrcLocation::Node(node);
    assert!(src.contains(&node));
    assert!(!src.contains(&name_of(0x13)));
    let p1 = Prefix::empty().pushed(true);
    let section_src = SrcLocation::Section(p1);
    assert!(section_src.contains(&name_of(0x80)));
    assert!(!section_src.contains(&name_of(0x00)));

    let dst = DstLocation::Node(node);
    assert!(dst.is_for(&node, &Prefix::empty()));
    let section_dst = DstLocation::Section(name_of(0x90));
    // A node of the 1-prefix section is responsible for 0x90...
    assert!(section_dst.is_for(&name_of(0xC0), &p1));
    // ...a node of the 0-prefix section is not.
    let p0 = Prefix::empty().pushed(false);
    assert!(!section_dst.is_for(&name_of(0x40), &p0));
    assert!(DstLocation::Direct.is_for(&node, &p0));
}

#[test]
fn default_network_params_match_constants() {
    let params = NetworkParams::default();
    assert_eq!(params.elder_size, ELDER_SIZE);
    assert_eq!(params.recommended_section_size, RECOMMENDED_SECTION_SIZE);
    assert_eq!(params.elder_size, 7);
    assert_eq!(params.recommended_section_size, 60);
}
