//! Signing, verification and hashing.
//!
//! The byte-level primitives are libsodium's, reached through trusted
//! wrappers; everything the library states about them is in terms of the
//! named results below.

use vstd::prelude::*;

verus! {

/// Length of a public signing key in bytes.
pub const PUBLIC_KEY_LEN: usize = 32;

/// Length of a secret signing key in bytes.
pub const SECRET_KEY_LEN: usize = 64;

/// Length of a detached signature in bytes.
pub const SIGNATURE_LEN: usize = 64;

/// Length of a digest in bytes.
pub const DIGEST_LEN: usize = 32;

/// The signature that signing `m` with the secret key `sk` produces.
/// Ed25519 signing is deterministic, so this is a function of its arguments.
pub uninterp spec fn sig_of(sk: Seq<u8>, m: Seq<u8>) -> Seq<u8>;

/// Whether `sig` is a signature of `m` that validates under the public key
/// `pk`. Verification reads only its three arguments, so this is a function
/// of them.
pub uninterp spec fn verifies(pk: Seq<u8>, m: Seq<u8>, sig: Seq<u8>) -> bool;

/// The SHA-256 digest of `m`.
pub uninterp spec fn hash_of(m: Seq<u8>) -> Seq<u8>;

/// Relies on sodiumoxide's `crypto::sign::ed25519::gen_keypair`: the returned
/// keys form a signing pair, so a signature made with the secret key
/// validates under the public key. The keys are random; nothing else is
/// assumed of them.
#[verifier::external_body]
pub fn gen_keypair() -> (r: ([u8; 32], [u8; 64]))
    ensures
        forall|m: Seq<u8>| #[trigger] verifies(r.0@, m, sig_of(r.1@, m)),
{
    let (pk, sk) = sodiumoxide::crypto::sign::ed25519::gen_keypair();
    (pk.0, sk.0)
}

/// Relies on sodiumoxide's `crypto::sign::ed25519::sign_detached`: Ed25519
/// signing, deterministic in the secret key and the message.
#[verifier::external_body]
pub fn sign_detached(m: &Vec<u8>, sk: &[u8; 64]) -> (r: [u8; 64])
    ensures
        r@ == sig_of(sk@, m@),
{
    let key = sodiumoxide::crypto::sign::ed25519::SecretKey(*sk);
    sodiumoxide::crypto::sign::ed25519::sign_detached(m.as_slice(), &key).to_bytes()
}

/// Relies on sodiumoxide's `crypto::sign::ed25519::verify_detached` and
/// `ed25519::Signature::from_bytes`: returns whether `sig` is a valid
/// signature of `m` under `pk`; bytes that do not parse as a signature
/// validate nothing.
#[verifier::external_body]
pub fn verify_detached(sig: &[u8; 64], m: &Vec<u8>, pk: &[u8; 32]) -> (r: bool)
    ensures
        r == verifies(pk@, m@, sig@),
{
    let key = sodiumoxide::crypto::sign::ed25519::PublicKey(*pk);
    match sodiumoxide::crypto::sign::ed25519::Signature::from_bytes(sig.as_slice()) {
        Ok(s) => sodiumoxide::crypto::sign::ed25519::verify_detached(&s, m.as_slice(), &key),
        Err(_) => false,
    }
}

/// Relies on sodiumoxide's `crypto::hash::sha256::hash`: the SHA-256 digest
/// of the input, 32 bytes, a function of the input alone.
#[verifier::external_body]
pub fn hash(m: &Vec<u8>) -> (r: [u8; 32])
    ensures
        r@ == hash_of(m@),
{
    sodiumoxide::crypto::hash::sha256::hash(m.as_slice()).0
}

} // verus!
