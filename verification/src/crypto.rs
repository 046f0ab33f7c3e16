//! The cryptographic profile: content addressing with a 32-byte blake2b
//! digest and classical Ed25519 signatures. The outside calls stand behind
//! trusted wrappers; their results are named by uninterpreted spec
//! functions, since a digest or a signature is a function of its inputs
//! alone but far too long to state.

use vstd::prelude::*;

verus! {

/// The 32-byte blake2b digest of a byte string.
pub uninterp spec fn spec_blake2b(m: Seq<u8>) -> Seq<u8>;

/// The Ed25519 public key derived from a 32-byte secret key.
pub uninterp spec fn spec_ed25519_pub(sk: Seq<u8>) -> Seq<u8>;

/// The Ed25519 signature of a message under a 32-byte secret key
/// (Ed25519 signing is deterministic).
pub uninterp spec fn spec_ed25519_sig(sk: Seq<u8>, msg: Seq<u8>) -> Seq<u8>;

/// Whether a 64-byte signature verifies over a message under a 32-byte
/// public key (parsing of the key included: an undecodable key verifies
/// nothing).
pub uninterp spec fn spec_ed25519_verifies(pk: Seq<u8>, msg: Seq<u8>, sig: Seq<u8>) -> bool;

/// Relies on blake2b_simd::Params::hash, configured for a 32-byte digest:
/// the digest depends on the input bytes alone and is 32 bytes long.
#[verifier::external_body]
pub fn blake2b(data: &Vec<u8>) -> (r: Vec<u8>)
    ensures
        r@ == spec_blake2b(data@),
        r@.len() == 32,
{
    blake2b_simd::Params::new().hash_length(32).hash(data.as_slice()).as_bytes().to_vec()
}

/// Relies on ed25519_dalek::SigningKey::verifying_key and
/// VerifyingKey::to_bytes: the 32-byte public key is a function of the
/// secret key alone.
#[verifier::external_body]
pub fn ed25519_public(sk: &Vec<u8>) -> (r: Vec<u8>)
    requires
        sk@.len() == 32,
    ensures
        r@ == spec_ed25519_pub(sk@),
        r@.len() == 32,
{
    let mut arr = [0u8; 32];
    arr.copy_from_slice(sk.as_slice());
    ed25519_dalek::SigningKey::from_bytes(&arr).verifying_key().to_bytes().to_vec()
}

/// Relies on ed25519_dalek's Signer::sign for SigningKey: signing is
/// deterministic (a function of key and message), yields 64 bytes, and a
/// signature so made verifies under the key's public half.
#[verifier::external_body]
pub fn ed25519_sign(sk: &Vec<u8>, msg: &Vec<u8>) -> (r: Vec<u8>)
    requires
        sk@.len() == 32,
    ensures
        r@ == spec_ed25519_sig(sk@, msg@),
        r@.len() == 64,
        spec_ed25519_verifies(spec_ed25519_pub(sk@), msg@, r@),
{
    let mut arr = [0u8; 32];
    arr.copy_from_slice(sk.as_slice());
    let key = ed25519_dalek::SigningKey::from_bytes(&arr);
    let sig = ed25519_dalek::Signer::sign(&key, msg.as_slice());
    sig.to_bytes().to_vec()
}

/// Relies on ed25519_dalek::VerifyingKey::from_bytes and the Verifier::verify
/// impl for VerifyingKey: whether the signature verifies is a function of
/// key, message and signature bytes alone.
#[verifier::external_body]
fn ed25519_verify_raw(pk: &Vec<u8>, msg: &Vec<u8>, sig: &Vec<u8>) -> (r: bool)
    requires
        pk@.len() == 32,
        sig@.len() == 64,
    ensures
        r == spec_ed25519_verifies(pk@, msg@, sig@),
{
    let mut pka = [0u8; 32];
    pka.copy_from_slice(pk.as_slice());
    let mut siga = [0u8; 64];
    siga.copy_from_slice(sig.as_slice());
    match ed25519_dalek::VerifyingKey::from_bytes(&pka) {
        Ok(key) => {
            let sig = ed25519_dalek::Signature::from_bytes(&siga);
            ed25519_dalek::Verifier::verify(&key, msg.as_slice(), &sig).is_ok()
        },
        Err(_) => false,
    }
}

/// A signature is held valid when key and signature have the profile's
/// lengths and the signature verifies over the message under the key.
pub open spec fn spec_sig_valid(pk: Seq<u8>, msg: Seq<u8>, sig: Seq<u8>) -> bool {
    &&& pk.len() == 32
    &&& sig.len() == 64
    &&& spec_ed25519_verifies(pk, msg, sig)
}

/// Decide whether `sig` is a valid signature of `msg` under `pk`.
pub fn signature_valid(pk: &Vec<u8>, msg: &Vec<u8>, sig: &Vec<u8>) -> (r: bool)
    ensures
        r == spec_sig_valid(pk@, msg@, sig@),
{
    if pk.len() != 32 || sig.len() != 64 {
        return false;
    }
    ed25519_verify_raw(pk, msg, sig)
}

/// A node's key material: the secret key, its public half, and the
/// public half's digest, under which peers look the key up.
pub struct Keypair {
    pub sk: Vec<u8>,
    pub pk: Vec<u8>,
    pub pk_hash: Vec<u8>,
}

impl Keypair {
    /// The public fields are derived from the secret key.
    pub open spec fn wf(&self) -> bool {
        &&& self.sk@.len() == 32
        &&& self.pk@ == spec_ed25519_pub(self.sk@)
        &&& self.pk@.len() == 32
        &&& self.pk_hash@ == spec_blake2b(self.pk@)
        &&& self.pk_hash@.len() == 32
    }

    /// Derive the key material from a 32-byte secret key.
    pub fn from_secret(sk: Vec<u8>) -> (r: Keypair)
        requires
            sk@.len() == 32,
        ensures
            r.wf(),
            r.sk@ == sk@,
    {
        let pk = ed25519_public(&sk);
        let pk_hash = blake2b(&pk);
        Keypair { sk, pk, pk_hash }
    }
}

} // verus!
