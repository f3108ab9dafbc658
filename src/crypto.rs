//! The cryptographic primitives that the wallet relies on, each a thin call
//! into an established crate. Their results are named by the spec functions
//! below; the rest of the library reasons over those names only.
use vstd::prelude::*;

use chacha20::cipher::{KeyIvInit, StreamCipher, StreamCipherSeek};
use k256::ecdsa::{RecoveryId, SigningKey, VerifyingKey};
use sha3::Digest;

use crate::safe_zone::Signature;

verus! {

/// CRC-32 (IEEE) checksum of a byte string.
pub uninterp spec fn crc32_of(data: Seq<u8>) -> u32;

/// Keccak-256 digest of a byte string.
pub uninterp spec fn keccak256_of(data: Seq<u8>) -> Seq<u8>;

/// ChaCha20 keystream under `key` and `iv`, starting at byte `offset`.
pub uninterp spec fn chacha20_keystream(key: Seq<u8>, iv: Seq<u8>, offset: nat) -> Seq<u8>;

/// Uncompressed secp256k1 public key (x || y, 64 bytes) of a secret scalar.
pub uninterp spec fn secp256k1_public_key(secret: Seq<u8>) -> Seq<u8>;

/// Deterministic (RFC 6979) recoverable ECDSA signature `(r, s, v)` of a
/// prehashed message, or `None` where signing fails.
pub uninterp spec fn ecdsa_sign_prehash(secret: Seq<u8>, prehash: Seq<u8>) -> Option<
    (Seq<u8>, Seq<u8>, u8),
>;

/// Public key recovered from a prehashed message and a signature `(r, s, v)`,
/// or `None` where recovery fails.
pub uninterp spec fn ecdsa_recover_prehash(prehash: Seq<u8>, r: Seq<u8>, s: Seq<u8>, v: u8) -> Option<
    Seq<u8>,
>;

/// Big-endian value of a byte string.
pub open spec fn be_value(s: Seq<u8>) -> nat
    decreases s.len(),
{
    if s.len() == 0 {
        0
    } else {
        be_value(s.drop_last()) * 256 + s.last() as nat
    }
}

/// Order of the secp256k1 group.
pub open spec fn secp256k1_order() -> nat {
    let two_64: nat = 0x1_0000_0000_0000_0000;
    0xFFFF_FFFF_FFFF_FFFF_FFFF_FFFF_FFFF_FFFEnat * two_64 * two_64
        + 0xBAAE_DCE6_AF48_A03B_BFD2_5E8C_D036_4141nat
}

/// A 32-byte string that encodes a valid secp256k1 secret scalar.
pub open spec fn secret_in_range(secret: Seq<u8>) -> bool {
    secret.len() == 32 && 0 < be_value(secret) < secp256k1_order()
}

/// XOR of `data` with the keystream at `offset`, byte by byte.
pub open spec fn apply_keystream(key: Seq<u8>, iv: Seq<u8>, offset: nat, data: Seq<u8>) -> Seq<
    u8,
> {
    Seq::new(data.len(), |i: int| data[i] ^ chacha20_keystream(key, iv, offset)[i])
}

/// Relies on `crc32fast::hash`: the CRC-32 of the bytes.
#[verifier::external_body]
pub(crate) fn crc32(data: &[u8]) -> (r: u32)
    ensures
        r == crc32_of(data@),
{
    crc32fast::hash(data)
}

/// Relies on `sha3::Keccak256::digest`: the Keccak-256 digest of the bytes.
#[verifier::external_body]
pub(crate) fn keccak256(data: &[u8]) -> (r: [u8; 32])
    ensures
        r@ == keccak256_of(data@),
{
    sha3::Keccak256::digest(data).into()
}

/// Relies on `chacha20::ChaCha20` (`new`, `seek`, `apply_keystream`): XORs the
/// block with the keystream that starts at `offset`.
#[verifier::external_body]
pub(crate) fn chacha20_apply(key: &[u8; 32], iv: &[u8; 12], offset: u32, data: &mut [u8; 32])
    ensures
        forall|i: int|
            0 <= i < 32 ==> #[trigger] final(data)@[i] == old(data)@[i] ^ chacha20_keystream(
                key@,
                iv@,
                offset as nat,
            )[i],
{
    let mut cipher = chacha20::ChaCha20::new(key.into(), iv.into());
    cipher.seek(offset);
    cipher.apply_keystream(data);
}

/// Relies on `k256::ecdsa::SigningKey::from_bytes` and
/// `VerifyingKey::to_encoded_point`: the key is accepted exactly when its
/// scalar is nonzero and below the group order; the result is the
/// uncompressed point without its leading tag byte.
#[verifier::external_body]
pub(crate) fn public_key_of(secret: &[u8; 32]) -> (r: Option<[u8; 64]>)
    ensures
        r is Some <==> secret_in_range(secret@),
        r is Some ==> r->0@ == secp256k1_public_key(secret@),
{
    let key = SigningKey::from_bytes(&(*secret).into()).ok()?;
    let point = key.verifying_key().to_encoded_point(false);
    let mut out = [0u8; 64];
    out.copy_from_slice(&point.as_bytes()[1..]);
    Some(out)
}

/// Relies on `k256::ecdsa::SigningKey::sign_prehash_recoverable`: signs the
/// bytes as given, without hashing them; it fails on a secret out of range
/// and on a prehash shorter than 16 bytes.
#[verifier::external_body]
pub(crate) fn sign_prehash_recoverable(secret: &[u8; 32], prehash: &[u8]) -> (r: Option<Signature>)
    ensures
        r is Some <==> ecdsa_sign_prehash(secret@, prehash@) is Some,
        r is Some ==> ecdsa_sign_prehash(secret@, prehash@) == Some(
            (r->0.r@, r->0.s@, r->0.v),
        ),
        r is Some ==> secret_in_range(secret@) && prehash@.len() >= 16,
{
    let key = SigningKey::from_bytes(&(*secret).into()).ok()?;
    let (sig, recid) = key.sign_prehash_recoverable(prehash).ok()?;
    let (r, s) = sig.split_bytes();
    Some(Signature { r: r.into(), s: s.into(), v: recid.to_byte() })
}

/// Relies on `k256::ecdsa::VerifyingKey::recover_from_prehash`: the public
/// key that the signature over the prehash was made with, as an uncompressed
/// point without its tag byte.
#[verifier::external_body]
pub(crate) fn recover_prehash(prehash: &[u8], sig: &Signature) -> (r: Option<[u8; 64]>)
    ensures
        r is Some <==> ecdsa_recover_prehash(prehash@, sig.r@, sig.s@, sig.v) is Some,
        r is Some ==> ecdsa_recover_prehash(prehash@, sig.r@, sig.s@, sig.v) == Some(r->0@),
{
    let recid = RecoveryId::from_byte(sig.v)?;
    let signature = k256::ecdsa::Signature::from_scalars(sig.r, sig.s).ok()?;
    let key = VerifyingKey::recover_from_prehash(prehash, &signature, recid).ok()?;
    let point = key.to_encoded_point(false);
    let mut out = [0u8; 64];
    out.copy_from_slice(&point.as_bytes()[1..]);
    Some(out)
}

} // verus!
