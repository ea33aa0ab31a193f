//! Delivery group selection.
//!
//! Given a destination name, the delivery group is the subset of a
//! section's members nearest to it in the XOR metric, sized so that a
//! quorum of the group stays honest under the assumed Byzantine fraction.
//! The computation is a pure read of the section state.

use vstd::prelude::*;
use crate::id::PublicId;
use crate::name_type::{XorName, distance, closer_to_target_or_equal, lemma_distance_injective};
use crate::section::{MemberInfo, Section, distinct_member_keys, member_key_in};
use crate::consensus::distinct_keys;

verus! {

/// Whether `id` is the identity of one of `members`.
pub open spec fn is_member_id(members: Seq<MemberInfo>, id: PublicId) -> bool {
    exists|w: int| 0 <= w < members.len() && members[w].id == id
}

/// Whether `ids` is ordered by non-decreasing XOR distance to `target`.
pub open spec fn sorted_by_distance(ids: Seq<PublicId>, target: Seq<u8>) -> bool {
    forall|i: int, j: int|
        0 <= i < j < ids.len() ==> distance(ids[i].name@, target) <= distance(ids[j].name@, target)
}

/// Selects the `group_size` members of `section` closest to `destination`
/// in the XOR metric, closest first. If the section has fewer members than
/// `group_size`, the full member set is returned. Pure: the section is
/// only read.
///
/// The order is canonical: distinct members have distinct keys, hence
/// distinct names and distinct XOR distances, so the sequence is strictly
/// increasing in distance and equal sections give equal groups however
/// their member lists are stored.
pub fn select_targets(section: &Section, destination: &XorName, group_size: usize) -> (r: Vec<
    PublicId,
>)
    requires
        section.wf(),
    ensures
        r@.len() == vstd::math::min(group_size as int, section.members@.len() as int),
        sorted_by_distance(r@, destination@),
        forall|i: int, j: int|
            0 <= i < j < r@.len() ==> distance(#[trigger] r@[i].name@, destination@) < distance(
                #[trigger] r@[j].name@,
                destination@,
            ),
        distinct_keys(r@),
        forall|j: int| 0 <= j < r@.len() ==> is_member_id(section.members@, #[trigger] r@[j]),
        forall|w: int|
            0 <= w < section.members@.len() && !key_of_any(
                r@,
                (#[trigger] section.members@[w]).id.sign_key@,
            ) ==> forall|j: int|
                0 <= j < r@.len() ==> distance(r@[j].name@, destination@) <= distance(
                    section.members@[w].id.name@,
                    destination@,
                ),
{
    let mut pool: Vec<MemberInfo> = Vec::new();
    let mut c: usize = 0;
    while c < section.members.len()
        invariant
            c <= section.members@.len(),
            pool@ == section.members@.take(c as int),
        decreases section.members.len() - c,
    {
        pool.push(section.members[c]);
        proof {
            assert(pool@ =~= section.members@.take(c + 1 as int));
        }
        c = c + 1;
    }
    proof {
        assert(section.members@.take(section.members@.len() as int) =~= section.members@);
        assert forall|j: int| 0 <= j < pool@.len() implies section.members@.contains(
            #[trigger] pool@[j],
        ) by {
            assert(pool@[j] == section.members@[j]);
        }
    }
    let ghost members = section.members@;
    let mut out: Vec<PublicId> = Vec::new();
    while out.len() < group_size && pool.len() > 0
        invariant
            section.wf(),
            members == section.members@,
            distinct_member_keys(members),
            out@.len() + pool@.len() == members.len(),
            out@.len() <= group_size,
            forall|j: int| 0 <= j < out@.len() ==> is_member_id(members, #[trigger] out@[j]),
            forall|j: int| 0 <= j < pool@.len() ==> members.contains(#[trigger] pool@[j]),
            distinct_keys(out@),
            distinct_member_keys(pool@),
            forall|i: int, j: int|
                0 <= i < out@.len() && 0 <= j < pool@.len() ==> #[trigger] out@[i].sign_key@
                    != #[trigger] pool@[j].id.sign_key@,
            sorted_by_distance(out@, destination@),
            forall|i: int, j: int|
                0 <= i < out@.len() && 0 <= j < pool@.len() ==> distance(
                    #[trigger] out@[i].name@,
                    destination@,
                ) <= distance((#[trigger] pool@[j]).id.name@, destination@),
            forall|w: int|
                0 <= w < members.len() ==> key_of_any(out@, (#[trigger] members[w]).id.sign_key@)
                    || member_key_in(pool@, members[w].id.sign_key@),
        decreases pool@.len(),
    {
        let mut best: usize = 0;
        let mut t: usize = 1;
        while t < pool.len()
            invariant
                pool@.len() > 0,
                best < t <= pool@.len(),
                forall|j: int|
                    0 <= j < t ==> distance(pool@[best as int].id.name@, destination@) <= distance(
                        (#[trigger] pool@[j]).id.name@,
                        destination@,
                    ),
            decreases pool@.len() - t,
        {
            if closer_to_target_or_equal(&pool[t].id.name, &pool[best].id.name, destination) {
                best = t;
            }
            t = t + 1;
        }
        let ghost oldpool = pool@;
        let ghost oldout = out@;
        let m = pool.remove(best);
        out.push(m.id);
        proof {
            assert(m == oldpool[best as int]);
            assert forall|j: int|
                0 <= j < pool@.len() implies members.contains(#[trigger] pool@[j])
                && m.id.sign_key@ != pool@[j].id.sign_key@ && distance(m.id.name@, destination@)
                <= distance(pool@[j].id.name@, destination@) by {
                if j < best {
                    assert(pool@[j] == oldpool[j]);
                } else {
                    assert(pool@[j] == oldpool[j + 1]);
                }
            }
            assert forall|j1: int, j2: int|
                0 <= j1 < j2 < pool@.len() implies pool@[j1].id.sign_key@
                != pool@[j2].id.sign_key@ by {
                let k1: int = if j1 < best { j1 } else { j1 + 1 };
                let k2: int = if j2 < best { j2 } else { j2 + 1 };
                assert(pool@[j1] == oldpool[k1]);
                assert(pool@[j2] == oldpool[k2]);
            }
            let w0 = choose|w0: int| 0 <= w0 < members.len() && members[w0] == m;
            assert(members[w0].id == out@.last());
            assert(is_member_id(members, out@.last()));
            assert forall|w: int|
                0 <= w < members.len() implies key_of_any(
                out@,
                (#[trigger] members[w]).id.sign_key@,
            ) || member_key_in(pool@, members[w].id.sign_key@) by {
                if member_key_in(oldpool, members[w].id.sign_key@) {
                    let p = choose|p: int|
                        0 <= p < oldpool.len() && oldpool[p].id.sign_key@
                            == members[w].id.sign_key@;
                    if p == best {
                        assert(out@.last().sign_key@ == members[w].id.sign_key@);
                        assert(key_of_any(out@, members[w].id.sign_key@));
                    } else if p < best {
                        assert(pool@[p] == oldpool[p]);
                        assert(member_key_in(pool@, members[w].id.sign_key@));
                    } else {
                        assert(pool@[p - 1] == oldpool[p]);
                        assert(member_key_in(pool@, members[w].id.sign_key@));
                    }
                } else {
                    let o = choose|o: int|
                        0 <= o < oldout.len() && oldout[o].sign_key@ == members[w].id.sign_key@;
                    assert(out@[o] == oldout[o]);
                    assert(key_of_any(out@, members[w].id.sign_key@));
                }
            }
        }
    }
    proof {
        assert forall|w: int|
            0 <= w < members.len() && !key_of_any(out@, (#[trigger] members[w]).id.sign_key@)
            implies forall|j: int|
            0 <= j < out@.len() ==> distance(out@[j].name@, destination@) <= distance(
                members[w].id.name@,
                destination@,
            ) by {
            assert(member_key_in(pool@, members[w].id.sign_key@));
            let p = choose|p: int|
                0 <= p < pool@.len() && pool@[p].id.sign_key@ == members[w].id.sign_key@;
            assert(members.contains(pool@[p]));
            let w2 = choose|w2: int| 0 <= w2 < members.len() && members[w2] == pool@[p];
            assert(members[w2].id.sign_key@ == members[w].id.sign_key@);
            assert(w2 == w);
            assert(pool@[p] == members[w]);
        }
        assert forall|i: int, j: int|
            0 <= i < j < out@.len() implies distance(#[trigger] out@[i].name@, destination@)
            < distance(#[trigger] out@[j].name@, destination@) by {
            if distance(out@[i].name@, destination@) == distance(out@[j].name@, destination@) {
                let wi = choose|wi: int| 0 <= wi < members.len() && members[wi].id == out@[i];
                let wj = choose|wj: int| 0 <= wj < members.len() && members[wj].id == out@[j];
                assert(members[wi].id.wf());
                assert(members[wj].id.wf());
                lemma_distance_injective(out@[i].name@, out@[j].name@, destination@);
                assert(out@[i].sign_key@ == out@[j].sign_key@);
            }
        }
    }
    out
}

/// Whether `key` is the key of some identity in `ids`.
pub open spec fn key_of_any(ids: Seq<PublicId>, key: Seq<u8>) -> bool {
    exists|i: int| 0 <= i < ids.len() && ids[i].sign_key@ == key
}

} // verus!
