//! Node identities.
//!
//! A node's public identity is its name in the XOR space together with its
//! public signing key; the name is the key's bit pattern, so holding the key
//! pins the name. The full identity adds the secret key.

use vstd::prelude::*;
use crate::name_type::XorName;
use crate::crypto;
use crate::crypto::{sig_of, verifies};

verus! {

/// The public identity of a node: its name and public signing key.
#[derive(Clone, Copy, Hash, Debug)]
pub struct PublicId {
    /// The node's name in the XOR address space.
    pub name: XorName,
    /// The node's public signing key; the name is its bit pattern.
    pub sign_key: [u8; 32],
}

impl PublicId {
    /// A public identity is well formed when its name is the bit pattern of
    /// its signing key.
    pub open spec fn wf(self) -> bool {
        self.name@ == self.sign_key@
    }

    /// The identity derived from a public signing key.
    pub fn from_key(sign_key: [u8; 32]) -> (r: PublicId)
        ensures
            r.wf(),
            r.sign_key == sign_key,
    {
        PublicId { name: XorName { bytes: sign_key }, sign_key }
    }

    /// Returns whether `sig` is a valid signature of `m` under this identity.
    pub fn verify(&self, m: &Vec<u8>, sig: &[u8; 64]) -> (r: bool)
        ensures
            r == verifies(self.sign_key@, m@, sig@),
    {
        crypto::verify_detached(sig, m, &self.sign_key)
    }
}

impl PartialEq for PublicId {
    fn eq(&self, other: &PublicId) -> (r: bool) {
        let mut i: usize = 0;
        while i < 32
            invariant
                i <= 32,
                forall|j: int| 0 <= j < i ==> self.sign_key@[j] == other.sign_key@[j],
            decreases 32 - i,
        {
            if self.sign_key[i] != other.sign_key[i] {
                return false;
            }
            i = i + 1;
        }
        proof {
            assert(self.sign_key@ =~= other.sign_key@);
        }
        self.name == other.name
    }
}

impl Eq for PublicId {

}

impl vstd::std_specs::cmp::PartialEqSpecImpl for PublicId {
    open spec fn obeys_eq_spec() -> bool {
        true
    }

    open spec fn eq_spec(&self, other: &PublicId) -> bool {
        self.name@ == other.name@ && self.sign_key@ == other.sign_key@
    }
}

/// Compares two public signing keys byte by byte.
pub fn keys_equal(a: &[u8; 32], b: &[u8; 32]) -> (r: bool)
    ensures
        r == (a@ == b@),
{
    let mut i: usize = 0;
    while i < 32
        invariant
            i <= 32,
            forall|j: int| 0 <= j < i ==> a@[j] == b@[j],
        decreases 32 - i,
    {
        if a[i] != b[i] {
            return false;
        }
        i = i + 1;
    }
    proof {
        assert(a@ =~= b@);
    }
    true
}

/// A node's full identity: the public identity and the secret signing key.
#[derive(Clone, Copy)]
pub struct FullId {
    /// The public part, shared with peers.
    pub public: PublicId,
    /// The secret signing key, held only by the node itself.
    pub secret_key: [u8; 64],
}

impl FullId {
    /// Whether the two halves of the identity belong together: every
    /// signature made with the secret key validates under the public key.
    pub open spec fn paired(self) -> bool {
        forall|m: Seq<u8>| #[trigger] verifies(self.public.sign_key@, m, sig_of(self.secret_key@, m))
    }

    /// Generates a fresh identity from a new random keypair.
    pub fn generate() -> (r: FullId)
        ensures
            r.public.wf(),
            r.paired(),
    {
        let (pk, sk) = crypto::gen_keypair();
        FullId { public: PublicId::from_key(pk), secret_key: sk }
    }

    /// Signs a message with the identity's secret key.
    pub fn sign(&self, m: &Vec<u8>) -> (r: [u8; 64])
        ensures
            r@ == sig_of(self.secret_key@, m@),
            self.paired() ==> verifies(self.public.sign_key@, m@, r@),
    {
        crypto::sign_detached(m, &self.secret_key)
    }
}

} // verus!
