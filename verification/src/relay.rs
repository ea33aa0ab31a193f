//! Relayed contacts.
//!
//! The relay map maintains the bounded list of contacts for whom this node
//! relays messages while it is itself connected to the network, keyed by
//! name, each with the set of endpoints it was seen on.

use vstd::prelude::*;
use crate::id::PublicId;
use crate::name_type::XorName;

verus! {

/// A transport endpoint, as an opaque token handed in by the host.
pub type Endpoint = u64;

/// The most contacts the relay map will hold.
pub const MAX_RELAY: usize = 5;

/// A relayed contact: its identity and the endpoint it connected on.
#[derive(Clone, Copy, Debug)]
pub struct IpNodeInfo {
    /// The contact's identity.
    pub fob: PublicId,
    /// The endpoint the contact is connected on; dropped upon losing it.
    pub connected_endpoint: Endpoint,
}

/// One relay entry: the contact's identity and its known endpoints.
pub struct RelayEntry {
    /// The contact's name.
    pub name: XorName,
    /// The contact's identity.
    pub fob: PublicId,
    /// Endpoints the contact was seen on, without duplicates.
    pub endpoints: Vec<Endpoint>,
}

/// The relay map is used to maintain a list of contacts for whom
/// we are relaying messages, when we are ourselves connected to the network.
pub struct RelayMap {
    /// The entries, at most `MAX_RELAY`, with distinct names.
    pub entries: Vec<RelayEntry>,
    /// This node's own name, never relayed for.
    pub our_id: XorName,
}

/// Whether `eps` lists no endpoint twice.
pub open spec fn no_dup_endpoints(eps: Seq<Endpoint>) -> bool {
    forall|i: int, j: int| 0 <= i < j < eps.len() ==> eps[i] != eps[j]
}

/// How a known entry changes when an endpoint is added: everything else
/// stays, the entry keeps its name and identity, and its endpoint list
/// gains the endpoint only if it was missing.
pub open spec fn entry_updated(
    olds: Seq<RelayEntry>,
    news: Seq<RelayEntry>,
    i: int,
    ep: Endpoint,
) -> bool {
    &&& news.len() == olds.len()
    &&& forall|j: int| 0 <= j < olds.len() && j != i ==> news[j] == #[trigger] olds[j]
    &&& news[i].name == olds[i].name
    &&& news[i].fob == olds[i].fob
    &&& news[i].endpoints@ == (if olds[i].endpoints@.contains(ep) {
        olds[i].endpoints@
    } else {
        olds[i].endpoints@.push(ep)
    })
}

/// Whether some entry of `es` carries the name `name`.
pub open spec fn entry_for(es: Seq<RelayEntry>, name: Seq<u8>) -> bool {
    exists|i: int| 0 <= i < es.len() && es[i].name@ == name
}

impl RelayMap {
    /// Invariants: at most `MAX_RELAY` entries, with pairwise distinct
    /// names, none of them our own, and no endpoint listed twice in one
    /// entry.
    pub open spec fn wf(self) -> bool {
        &&& self.entries@.len() <= MAX_RELAY
        &&& forall|i: int, j: int|
            0 <= i < j < self.entries@.len() ==> self.entries@[i].name@ != self.entries@[j].name@
        &&& forall|i: int| 0 <= i < self.entries@.len() ==> (#[trigger] self.entries@[i]).name@ != self.our_id@
        &&& forall|i: int|
            0 <= i < self.entries@.len() ==> no_dup_endpoints(
                (#[trigger] self.entries@[i]).endpoints@,
            )
    }

    /// This creates a new RelayMap.
    pub fn new(our_id: XorName) -> (r: RelayMap)
        ensures
            r.wf(),
            r.entries@.len() == 0,
            r.our_id == our_id,
    {
        RelayMap { entries: Vec::new(), our_id }
    }

    /// Adds an IP node to the relay map if the map has open slots.
    /// Returns true if the endpoint is newly added, or was already present;
    /// false if the threshold was reached or the name is our own.
    ///
    /// A fresh name appends one entry holding the given identity and the
    /// one endpoint; a known name keeps its entry and identity, gaining
    /// the endpoint only if it was missing, so repeating an identical
    /// call changes nothing.
    pub fn add_ip_node(&mut self, relay_info: PublicId, relay_endpoint: Endpoint) -> (r: bool)
        requires
            old(self).wf(),
        ensures
            final(self).wf(),
            final(self).our_id == old(self).our_id,
            r == (relay_info.name@ != old(self).our_id@ && (entry_for(
                old(self).entries@,
                relay_info.name@,
            ) || old(self).entries@.len() < MAX_RELAY)),
            !r ==> *final(self) == *old(self),
            (r && !entry_for(old(self).entries@, relay_info.name@)) ==> {
                &&& final(self).entries@.len() == old(self).entries@.len() + 1
                &&& final(self).entries@.drop_last() == old(self).entries@
                &&& final(self).entries@.last().name == relay_info.name
                &&& final(self).entries@.last().fob == relay_info
                &&& final(self).entries@.last().endpoints@ == seq![relay_endpoint]
            },
            (r && entry_for(old(self).entries@, relay_info.name@)) ==> exists|i: int|
                0 <= i < old(self).entries@.len() && (#[trigger] old(self).entries@[i]).name@
                    == relay_info.name@ && entry_updated(
                    old(self).entries@,
                    final(self).entries@,
                    i,
                    relay_endpoint,
                ),
            r ==> exists|i: int|
                0 <= i < final(self).entries@.len() && (#[trigger] final(self).entries@[i]).name@
                    == relay_info.name@ && final(self).entries@[i].endpoints@.contains(
                    relay_endpoint,
                ),
    {
        if self.our_id == relay_info.name {
            proof {
                assert(self.our_id@ == relay_info.name@);
            }
            return false;
        }
        proof {
            assert(self.our_id@ != relay_info.name@) by {
                if self.our_id@ == relay_info.name@ {
                    assert(self.our_id.bytes@ =~= relay_info.name.bytes@);
                }
            }
        }
        let mut i: usize = 0;
        while i < self.entries.len()
            invariant
                *self == *old(self),
                self.wf(),
                self.our_id@ != relay_info.name@,
                i <= self.entries@.len(),
                forall|j: int| 0 <= j < i ==> self.entries@[j].name@ != relay_info.name@,
            decreases self.entries.len() - i,
        {
            if self.entries[i].name == relay_info.name {
                proof {
                    assert(self.entries@[i as int].name@ == relay_info.name@);
                }
                let mut k: usize = 0;
                let mut present = false;
                while k < self.entries[i].endpoints.len()
                    invariant
                        *self == *old(self),
                        self.wf(),
                        i < self.entries@.len(),
                        self.entries@[i as int].name@ == relay_info.name@,
                        k <= self.entries@[i as int].endpoints@.len(),
                        present ==> self.entries@[i as int].endpoints@.contains(relay_endpoint),
                        !present ==> forall|x: int|
                            0 <= x < k ==> self.entries@[i as int].endpoints@[x] != relay_endpoint,
                    decreases self.entries@[i as int].endpoints@.len() - k,
                {
                    if self.entries[i].endpoints[k] == relay_endpoint {
                        present = true;
                    }
                    k = k + 1;
                }
                proof {
                    if !present {
                        assert(!self.entries@[i as int].endpoints@.contains(relay_endpoint)) by {
                            if self.entries@[i as int].endpoints@.contains(relay_endpoint) {
                                let x = choose|x: int|
                                    0 <= x < self.entries@[i as int].endpoints@.len()
                                        && self.entries@[i as int].endpoints@[x] == relay_endpoint;
                            }
                        }
                    }
                }
                if !present {
                    let entry = &mut self.entries[i];
                    entry.endpoints.push(relay_endpoint);
                    proof {
                        assert(self.entries@[i as int].endpoints@.last() == relay_endpoint);
                        assert(self.entries@[i as int].endpoints@.contains(relay_endpoint));
                        assert forall|a: int, b: int|
                            0 <= a < b < self.entries@.len() implies self.entries@[a].name@
                            != self.entries@[b].name@ by {
                            assert(old(self).entries@[a].name@ != old(self).entries@[b].name@);
                        }
                        assert forall|a: int|
                            0 <= a < self.entries@.len() implies (#[trigger] self.entries@[a]).name@
                            != self.our_id@ by {
                            assert(old(self).entries@[a].name@ != old(self).our_id@);
                        }
                        assert forall|a: int|
                            0 <= a < self.entries@.len() implies no_dup_endpoints(
                            (#[trigger] self.entries@[a]).endpoints@,
                        ) by {
                            if a != i {
                                assert(self.entries@[a] == old(self).entries@[a]);
                            } else {
                                assert(no_dup_endpoints(old(self).entries@[a].endpoints@));
                                assert forall|x: int, y: int|
                                    0 <= x < y < self.entries@[a].endpoints@.len() implies self.entries@[a].endpoints@[x]
                                    != self.entries@[a].endpoints@[y] by {
                                    if y == self.entries@[a].endpoints@.len() - 1 {
                                        assert(self.entries@[a].endpoints@[x] == old(
                                            self,
                                        ).entries@[a].endpoints@[x]);
                                    }
                                }
                            }
                        }
                    }
                }
                return true;
            }
            i = i + 1;
        }
        if self.entries.len() >= MAX_RELAY {
            return false;
        }
        let mut endpoints: Vec<Endpoint> = Vec::new();
        endpoints.push(relay_endpoint);
        self.entries.push(
            RelayEntry { name: relay_info.name, fob: relay_info, endpoints },
        );
        proof {
            let n = self.entries@.len() - 1;
            assert(self.entries@[n].name@ == relay_info.name@);
            assert(self.entries@[n].endpoints@[0] == relay_endpoint);
            assert(self.entries@[n].endpoints@.contains(relay_endpoint));
        }
        true
    }

    /// This removes the ip_node from the relay map; every entry under
    /// another name is kept exactly as it was.
    pub fn drop_ip_node(&mut self, ip_node_to_drop: &XorName)
        requires
            old(self).wf(),
        ensures
            final(self).wf(),
            final(self).our_id == old(self).our_id,
            !entry_for(old(self).entries@, ip_node_to_drop@) ==> *final(self) == *old(self),
            entry_for(old(self).entries@, ip_node_to_drop@) ==> exists|i: int|
                0 <= i < old(self).entries@.len() && (#[trigger] old(self).entries@[i]).name@
                    == ip_node_to_drop@ && final(self).entries@ == old(self).entries@.remove(i),
            forall|i: int|
                0 <= i < final(self).entries@.len() ==> (#[trigger] final(self).entries@[i]).name@
                    != ip_node_to_drop@,
    {
        let mut i: usize = 0;
        while i < self.entries.len()
            invariant
                *self == *old(self),
                self.wf(),
                i <= self.entries@.len(),
                forall|j: int| 0 <= j < i ==> self.entries@[j].name@ != ip_node_to_drop@,
            decreases self.entries.len() - i,
        {
            if crate::id::keys_equal(&self.entries[i].name.bytes, &ip_node_to_drop.bytes) {
                let ghost olde = self.entries@;
                self.entries.remove(i);
                proof {
                    assert forall|j: int|
                        0 <= j < self.entries@.len() implies (#[trigger] self.entries@[j]).name@
                        != ip_node_to_drop@ && self.entries@[j].name@ != self.our_id@
                        && no_dup_endpoints(self.entries@[j].endpoints@) by {
                        if j < i {
                            assert(self.entries@[j] == olde[j]);
                        } else {
                            assert(self.entries@[j] == olde[j + 1]);
                            assert(olde[j + 1].name@ != olde[i as int].name@);
                        }
                    }
                    assert forall|a: int, b: int|
                        0 <= a < b < self.entries@.len() implies self.entries@[a].name@
                        != self.entries@[b].name@ by {
                        let ka: int = if a < i { a } else { a + 1 };
                        let kb: int = if b < i { b } else { b + 1 };
                        assert(self.entries@[a] == olde[ka]);
                        assert(self.entries@[b] == olde[kb]);
                    }
                }
                return;
            }
            i = i + 1;
        }
    }
}

/// Whether the names of `es` are pairwise distinct.
pub open spec fn distinct_names(es: Seq<RelayEntry>) -> bool {
    forall|i: int, j: int| 0 <= i < j < es.len() ==> es[i].name@ != es[j].name@
}

/// Copies an endpoint list.
fn clone_endpoints(v: &Vec<Endpoint>) -> (r: Vec<Endpoint>)
    ensures
        r@ == v@,
{
    let mut r: Vec<Endpoint> = Vec::new();
    let mut i: usize = 0;
    while i < v.len()
        invariant
            i <= v@.len(),
            r@ == v@.take(i as int),
        decreases v.len() - i,
    {
        r.push(v[i]);
        proof {
            assert(r@ =~= v@.take(i + 1 as int));
        }
        i = i + 1;
    }
    proof {
        assert(v@.take(v@.len() as int) =~= v@);
    }
    r
}

/// Bootstrap endpoints are used to connect to the network before
/// routing table connections are established.
pub struct BootstrapEndpoints {
    /// The contacts to bootstrap from.
    pub bootstrap_endpoints: Vec<IpNodeInfo>,
}

} // verus!
