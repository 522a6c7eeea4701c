//! The cryptographic boundary: Keccak-256 digests, secp256k1 public-key
//! recovery, and the ordered Merkle-trie root. Each outside call sits behind
//! one wrapper whose contract names its result; everything downstream is
//! verified against those names.

use vstd::prelude::*;
use hash_db::Hasher;

use crate::types::Public;

verus! {

/// The Keccak-256 digest of a byte string.
pub uninterp spec fn keccak_of(data: Seq<u8>) -> Seq<u8>;

/// Relies on keccak_hasher::KeccakHasher::hash: the Keccak-256 digest is a
/// function of the input bytes alone and is 32 bytes long.
#[verifier::external_body]
pub fn keccak256(data: &Vec<u8>) -> (r: Vec<u8>)
    ensures
        r@ == keccak_of(data@),
        r@.len() == 32,
{
    keccak_hasher::KeccakHasher::hash(data.as_slice()).to_vec()
}

/// The view of one byte string in a list.
pub open spec fn bytes_view_fn() -> spec_fn(Vec<u8>) -> Seq<u8> {
    |v: Vec<u8>| v@
}

/// The root of the Merkle trie over an ordered list of byte strings, keyed by
/// list position.
pub uninterp spec fn ordered_root_of(items: Seq<Seq<u8>>) -> Seq<u8>;

/// Relies on triehash::ordered_trie_root with Keccak-256 hashing: the root
/// depends only on the ordered list of values and is 32 bytes long.
#[verifier::external_body]
pub fn ordered_trie_root(items: &Vec<Vec<u8>>) -> (r: Vec<u8>)
    ensures
        r@ == ordered_root_of(items@.map_values(bytes_view_fn())),
        r@.len() == 32,
{
    triehash::ordered_trie_root::<keccak_hasher::KeccakHasher, _>(items.iter()).to_vec()
}

/// The uncompressed public key (64 bytes, tag byte stripped) that secp256k1
/// ECDSA recovery yields for a 32-byte digest and a 65-byte signature
/// (r ++ s ++ recovery id), or nothing when recovery fails.
pub uninterp spec fn recovered_key_of(msg: Seq<u8>, sig: Seq<u8>) -> Option<Seq<u8>>;

/// Relies on secp256k1::Secp256k1::recover_ecdsa (with Message,
/// RecoveryId and RecoverableSignature built from the arguments): recovery is
/// a function of the digest and the signature bytes alone; on success the
/// uncompressed serialization is 65 bytes beginning with the tag 0x04.
#[verifier::external_body]
pub fn secp256k1_recover(msg: &Vec<u8>, sig: &Vec<u8>) -> (r: Option<Public>)
    ensures
        r is Some <==> recovered_key_of(msg@, sig@) is Some,
        r matches Some(p) ==> p@ == recovered_key_of(msg@, sig@).unwrap() && p@.len() == 64,
{
    if sig.len() != 65 {
        return None;
    }
    let m = secp256k1::Message::from_digest_slice(msg).ok()?;
    let id = secp256k1::ecdsa::RecoveryId::from_i32(sig[64] as i32).ok()?;
    let rs = secp256k1::ecdsa::RecoverableSignature::from_compact(&sig[..64], id).ok()?;
    let pk = secp256k1::Secp256k1::new().recover_ecdsa(&m, &rs).ok()?;
    Some(Public { v: pk.serialize_uncompressed()[1..65].to_vec() })
}

} // verus!
