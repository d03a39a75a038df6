//! SHA-512 digests and Ed25519 keys and signatures.

use ed25519_dalek::{Digest, PublicKey, Sha512, Signature};
use vstd::prelude::*;

verus! {

/// The SHA-512 digest of `msg`.
pub uninterp spec fn sha512_of(msg: Seq<u8>) -> Seq<u8>;

/// Whether `sig` is a valid Ed25519 signature of `msg` under the public key
/// `pk`, checked in strict mode: both must decode, and malleable or
/// small-order forms are refused.
pub uninterp spec fn strict_verifies(pk: Seq<u8>, msg: Seq<u8>, sig: Seq<u8>) -> bool;

/// A SHA-512 digest.
#[derive(Clone, Copy, PartialEq, Eq, Debug, Hash)]
pub struct Hash(pub [u8; 64]);

impl Hash {
    /// Relies on `Sha512::digest` (sha2, as re-exported by ed25519_dalek)
    /// for the 64-byte SHA-512 digest of `msg`.
    #[verifier::external_body]
    pub fn digest(msg: &[u8]) -> (r: Hash)
        ensures
            r.0@ == sha512_of(msg@),
    {
        let d = Sha512::digest(msg);
        let mut out = [0u8; 64];
        out.copy_from_slice(&d);
        Hash(out)
    }
}

/// A layer-2 identity: the 32 bytes of an Ed25519 public key.
#[derive(Clone, Copy, PartialEq, Eq, Debug, Hash)]
pub struct L2Account(pub [u8; 32]);

/// An Ed25519 signature in its 64-byte form.
#[derive(Clone, Copy, PartialEq, Eq, Debug)]
pub struct L2Signature(pub [u8; 64]);

/// Relies on ed25519_dalek 1.0's `PublicKey::from_bytes` and
/// `PublicKey::verify_strict`, and on ed25519's `Signature::from_bytes`:
/// true exactly when the key and the signature decode and the strict check
/// accepts `msg`.
#[verifier::external_body]
pub(crate) fn verify_strict(pk: &L2Account, msg: &[u8], sig: &L2Signature) -> (r: bool)
    ensures
        r == strict_verifies(pk.0@, msg@, sig.0@),
{
    match (PublicKey::from_bytes(&pk.0), Signature::from_bytes(&sig.0)) {
        (Ok(key), Ok(s)) => key.verify_strict(msg, &s).is_ok(),
        _ => false,
    }
}

/// The 32 bytes of `v`, if it has exactly that many.
pub fn as_bytes32(v: &[u8]) -> (r: Option<[u8; 32]>)
    ensures
        r is Some <==> v@.len() == 32,
        r is Some ==> r->0@ == v@,
{
    if v.len() != 32 {
        return None;
    }
    let mut ret: [u8; 32] = [0u8; 32];
    let mut i: usize = 0;
    while i < 32
        invariant
            i <= 32,
            v@.len() == 32,
            forall|j: int| 0 <= j < i ==> ret@[j] == v@[j],
        decreases 32 - i,
    {
        ret[i] = v[i];
        i = i + 1;
    }
    assert(ret@ =~= v@);
    Some(ret)
}

impl L2Account {
    /// An account from its 32 key bytes; `None` for any other length.
    pub fn from_slice(v: &[u8]) -> (r: Option<L2Account>)
        ensures
            r is Some <==> v@.len() == 32,
            r is Some ==> (r->0).0@ == v@,
    {
        match as_bytes32(v) {
            Some(b) => Some(L2Account(b)),
            None => None,
        }
    }

    /// Whether two accounts are the same key.
    pub fn same(&self, other: &L2Account) -> (r: bool)
        ensures
            r == (self.0@ == other.0@),
    {
        crate::encoding::bytes_equal(self.0.as_slice(), other.0.as_slice())
    }
}

/// The 64 bytes of `v`, if it has exactly that many.
pub fn as_bytes64(v: &[u8]) -> (r: Option<[u8; 64]>)
    ensures
        r is Some <==> v@.len() == 64,
        r is Some ==> r->0@ == v@,
{
    if v.len() != 64 {
        return None;
    }
    let mut ret: [u8; 64] = [0u8; 64];
    let mut i: usize = 0;
    while i < 64
        invariant
            i <= 64,
            v@.len() == 64,
            forall|j: int| 0 <= j < i ==> ret@[j] == v@[j],
        decreases 64 - i,
    {
        ret[i] = v[i];
        i = i + 1;
    }
    assert(ret@ =~= v@);
    Some(ret)
}

impl L2Signature {
    /// A signature from its 64-byte form, if `v` has exactly 64 bytes.
    pub fn from_slice(v: &[u8]) -> (r: Option<L2Signature>)
        ensures
            r is Some <==> v@.len() == 64,
            r is Some ==> (r->0).0@ == v@,
    {
        match as_bytes64(v) {
            Some(b) => Some(L2Signature(b)),
            None => None,
        }
    }
}

} // verus!
