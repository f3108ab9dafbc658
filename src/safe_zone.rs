//! The encrypted part of the wallet record and the operations on it:
//! passcode checking and signing with self-verification.
use vstd::prelude::*;

use crate::crypto::{
    apply_keystream, chacha20_apply, ecdsa_recover_prehash, ecdsa_sign_prehash, keccak256,
    keccak256_of, public_key_of, recover_prehash, secp256k1_public_key, secret_in_range,
    sign_prehash_recoverable,
};
use crate::error::Error;

verus! {

/// Number of accounts held by a wallet.
pub const ACCOUNT_NUM: usize = 32;

/// Length of the reserved one-time-passcode secret.
pub const OTP_SECRET_LEN: usize = 64;

/// Number of digits of a passcode.
pub const FIXED_KEY_LEN: usize = 8;

/// Plaintext of the `zkmagic` canary.
pub const ZKPLAIN: [u8; 32] = [
    0x11, 0x45, 0x14, 0x19, 0x19, 0x81, 0x00, 0x0a,
    0x62, 0x79, 0x5f, 0x6d, 0x34, 0x74, 0x73, 0x75,
    0x72, 0x69, 0x45, 0x54, 0x48, 0x44, 0x57, 0x61,
    0x6c, 0x6c, 0x65, 0x74, 0x0a, 0xf0, 0x9f, 0x94,
];

pub type PrivKey = [u8; 32];

pub type EthAddr = [u8; 20];

pub type PubKey = [u8; 64];

/// The encrypted key material: the canary, one slot per account, and a
/// reserved secret that no operation uses.
#[derive(Clone, Copy)]
pub struct SafeZone {
    pub zkmagic: [u8; 32],
    pub keys: [PrivKey; ACCOUNT_NUM],
    pub otp_secret: [u8; OTP_SECRET_LEN],
}

/// A recoverable ECDSA signature.
#[derive(Clone, Copy, Debug)]
pub struct Signature {
    pub r: [u8; 32],
    pub s: [u8; 32],
    pub v: u8,
}

/// A stream cipher ready for use: the key derived from a passcode and the
/// wallet's nonce. Each slot is reached by seeking, so the value never
/// advances.
#[derive(Clone, Copy, Debug)]
pub struct Cipher {
    pub key: [u8; 32],
    pub iv: [u8; 12],
}

/// Keystream offset of the key slot of account `idx`; the canary takes the
/// first 32 bytes.
pub open spec fn slot_offset(idx: int) -> nat {
    (32 + 32 * idx) as nat
}

/// The cipher derived from a passcode and a nonce.
pub open spec fn derived_key(passcode: Seq<u8>) -> Seq<u8> {
    keccak256_of(passcode)
}

/// `data` decrypted (or encrypted) under `c` at keystream `offset`.
pub open spec fn cipher_apply(c: Cipher, offset: nat, data: Seq<u8>) -> Seq<u8> {
    apply_keystream(c.key@, c.iv@, offset, data)
}

/// The cipher opens the zone: the canary decrypts to its plaintext.
pub open spec fn unlocks(zone: SafeZone, c: Cipher) -> bool {
    cipher_apply(c, 0, zone.zkmagic@) == ZKPLAIN@
}

/// The plaintext secret of account `idx` under the cipher key and nonce.
pub open spec fn key_under(zone: SafeZone, key: Seq<u8>, iv: Seq<u8>, idx: int) -> Seq<u8> {
    apply_keystream(key, iv, slot_offset(idx), zone.keys[idx]@)
}

/// The plaintext secret of account `idx` under cipher `c`.
pub open spec fn plain_key(zone: SafeZone, c: Cipher, idx: int) -> Seq<u8> {
    key_under(zone, c.key@, c.iv@, idx)
}

/// Signing `msg` with `secret` and checking it succeeds: the secret is a
/// valid scalar, the signer returns a signature, and the key recovered from
/// it is the secret's own public key.
pub open spec fn signs_and_checks(secret: Seq<u8>, msg: Seq<u8>) -> bool {
    let sig = ecdsa_sign_prehash(secret, msg);
    &&& secret_in_range(secret)
    &&& sig is Some
    &&& ecdsa_recover_prehash(msg, sig->Some_0.0, sig->Some_0.1, sig->Some_0.2) == Some(
        secp256k1_public_key(secret),
    )
}

/// `sig` is the signature that the signer gives for `msg` under `secret`.
pub open spec fn is_signature_of(sig: Signature, secret: Seq<u8>, msg: Seq<u8>) -> bool {
    ecdsa_sign_prehash(secret, msg) == Some((sig.r@, sig.s@, sig.v))
}

/// What signing with account `idx` gives: an index out of range is refused;
/// otherwise the result is a signature exactly when signing the plaintext
/// key succeeds and checks, and a cryptographic failure else.
pub open spec fn sign_spec(
    zone: SafeZone,
    idx: usize,
    msg: Seq<u8>,
    c: Cipher,
    r: Result<Signature, Error>,
) -> bool {
    &&& idx >= ACCOUNT_NUM ==> r == Err::<Signature, Error>(Error::AccountIdxOOB)
    &&& idx < ACCOUNT_NUM ==> (r is Ok <==> signs_and_checks(plain_key(zone, c, idx as int), msg))
    &&& idx < ACCOUNT_NUM && r is Err ==> r == Err::<Signature, Error>(Error::CryptoError)
    &&& r is Ok ==> is_signature_of(r->Ok_0, plain_key(zone, c, idx as int), msg)
}

/// Derives the cipher from a passcode: the Keccak-256 digest of the passcode
/// is the ChaCha20 key, used with the wallet's nonce.
pub fn get_cipher(passcode: [u8; FIXED_KEY_LEN], iv: &[u8; 12]) -> (r: Cipher)
    ensures
        r.key@ == derived_key(passcode@),
        r.iv == *iv,
{
    let key = keccak256(passcode.as_slice());
    Cipher { key, iv: *iv }
}

/// Checks a candidate cipher against the canary, on a copy of the canary:
/// the zone itself is left as it is.
pub fn verify_and_unlock(zone: &SafeZone, candidate: Cipher) -> (r: Result<Cipher, Error>)
    ensures
        unlocks(*zone, candidate) ==> r == Ok::<Cipher, Error>(candidate),
        !unlocks(*zone, candidate) ==> r == Err::<Cipher, Error>(Error::WrongPassword),
{
    let mut magic = zone.zkmagic;
    chacha20_apply(&candidate.key, &candidate.iv, 0, &mut magic);
    assert(magic@ =~= cipher_apply(candidate, 0, zone.zkmagic@));
    let mut i: usize = 0;
    while i < 32
        invariant
            0 <= i <= 32,
            magic@ == cipher_apply(candidate, 0, zone.zkmagic@),
            forall|j: int| 0 <= j < i ==> magic@[j] == ZKPLAIN@[j],
        decreases 32 - i,
    {
        if magic[i] != ZKPLAIN[i] {
            return Err(Error::WrongPassword);
        }
        i += 1;
    }
    assert(magic@ =~= ZKPLAIN@);
    Ok(candidate)
}

impl SafeZone {
    /// Signs `raw` verbatim with the key of account `idx`. The slot is
    /// decrypted into a scratch copy; the signature is checked by recovering
    /// the public key from it.
    pub fn sign_raw(&self, idx: usize, raw: &[u8], cipher: &Cipher) -> (r: Result<Signature, Error>)
        ensures
            sign_spec(*self, idx, raw@, *cipher, r),
    {
        if idx >= ACCOUNT_NUM {
            return Err(Error::AccountIdxOOB);
        }
        let mut key = self.keys[idx];
        chacha20_apply(&cipher.key, &cipher.iv, 32 + 32 * idx as u32, &mut key);
        assert(key@ =~= plain_key(*self, *cipher, idx as int));
        let pubkey = match public_key_of(&key) {
            Some(p) => p,
            None => return Err(Error::CryptoError),
        };
        let sig = match sign_prehash_recoverable(&key, raw) {
            Some(s) => s,
            None => return Err(Error::CryptoError),
        };
        let recovered = match recover_prehash(raw, &sig) {
            Some(p) => p,
            None => return Err(Error::CryptoError),
        };
        if !bytes_eq(&recovered, &pubkey) {
            return Err(Error::CryptoError);
        }
        Ok(sig)
    }
}

/// Byte-wise equality of two public keys.
pub fn bytes_eq(a: &[u8; 64], b: &[u8; 64]) -> (r: bool)
    ensures
        r <==> a@ == b@,
{
    let mut i: usize = 0;
    while i < 64
        invariant
            0 <= i <= 64,
            forall|j: int| 0 <= j < i ==> a@[j] == b@[j],
        decreases 64 - i,
    {
        if a[i] != b[i] {
            return false;
        }
        i += 1;
    }
    assert(a@ =~= b@);
    true
}

} // verus!
