use chacha20::cipher::{KeyIvInit, StreamCipher, StreamCipherSeek};
use ethdwallet::error::Error;
use ethdwallet::initializer::initialize_wallet;
use ethdwallet::safe_zone::{get_cipher, verify_and_unlock, Signature, ZKPLAIN};
use ethdwallet::wallet::Wallet;
use k256::ecdsa::{RecoveryId, VerifyingKey};
use sha3::Digest;

const PASS: [u8; 8] = [1, 2, 3, 4, 5, 6, 7, 8];
const IV: [u8; 12] = [7; 12];

fn secrets() -> [[u8; 32]; 32] {
    let mut s = [[0u8; 32]; 32];
    for (i, row) in s.iter_mut().enumerate() {
        row[31] = i as u8 + 1;
    }
    s
}

fn provisioned() -> Wallet {
    initialize_wallet(PASS, IV, &secrets()).unwrap()
}

fn recover(raw: &[u8], sig: &Signature) -> Vec<u8> {
    let s = k256::ecdsa::Signature::from_scalars(sig.r, sig.s).unwrap();
    let id = RecoveryId::from_byte(sig.v).unwrap();
    let key = VerifyingKey::recover_from_prehash(raw, &s, id).unwrap();
    key.to_encoded_point(false).as_bytes()[1..].to_vec()
}

#[test]
fn cipher_key_is_keccak_of_passcode() {
    let c = get_cipher(PASS, &IV);
    let expected: [u8; 32] = sha3::Keccak256::digest(PASS).into();
    assert_eq!(c.key, expected);
    assert_eq!(c.iv, IV);
}

#[test]
fn provisioning_encrypts_canary_and_keys() {
    let w = provisioned();
    assert!(w.initialized);
    assert_eq!(w.chacha_iv, IV);
    assert_ne!(w.zone.zkmagic, ZKPLAIN);
    let key: [u8; 32] = sha3::Keccak256::digest(PASS).into();
    let mut c = chacha20::ChaCha20::new(&key.into(), &IV.into());
    let mut magic = w.zone.zkmagic;
    c.apply_keystream(&mut magic);
    assert_eq!(magic, ZKPLAIN);
    let mut slot = w.zone.keys[3];
    c.seek(32 + 32 * 3u32);
    c.apply_keystream(&mut slot);
    assert_eq!(slot, secrets()[3]);
    assert_eq!(w.zone.otp_secret, [0; 64]);
}

#[test]
fn provisioning_derives_known_addresses() {
    let w = provisioned();
    assert_eq!(hex::encode(w.addrs[0]), "7e5f4552091a69125d5dfcb7b8c2659029395bdf");
    assert_eq!(hex::encode(w.addrs[1]), "2b5ad5c4795c026514f8317c7a215e218dccd6cf");
    let g = "79be667ef9dcbbac55a06295ce870b07029bfcdb2dce28d959f2815b16f81798\
             483ada7726a3c4655da4fbfc0e1108a8fd17b448a68554199c47d08ffb10d4b8";
    assert_eq!(hex::encode(w.pubkeys[0]), g);
    for i in 0..32 {
        let digest = sha3::Keccak256::digest(w.pubkeys[i]);
        assert_eq!(&digest[12..], &w.addrs[i][..]);
    }
}

#[test]
fn provisioning_rejects_invalid_secret() {
    let mut s = secrets();
    s[4] = [0; 32];
    assert!(matches!(initialize_wallet(PASS, IV, &s), Err(Error::CryptoError)));
    let mut s = secrets();
    s[31] = [0xff; 32];
    assert!(matches!(initialize_wallet(PASS, IV, &s), Err(Error::CryptoError)));
}

#[test]
fn true_passcode_unlocks() {
    let w = provisioned();
    let c = w.fill_cipher(PASS).unwrap();
    assert_eq!(c.key, get_cipher(PASS, &IV).key);
    assert!(verify_and_unlock(&w.zone, get_cipher(PASS, &w.chacha_iv)).is_ok());
}

#[test]
fn wrong_passcodes_are_refused() {
    let w = provisioned();
    let zone_before = w.zone.zkmagic;
    for p in [[1, 2, 3, 4, 5, 6, 7, 9], [0; 8], [8, 7, 6, 5, 4, 3, 2, 1]] {
        assert!(matches!(w.fill_cipher(p), Err(Error::WrongPassword)));
    }
    assert!(matches!(
        verify_and_unlock(&w.zone, get_cipher(PASS, &[8; 12])),
        Err(Error::WrongPassword)
    ));
    assert_eq!(w.zone.zkmagic, zone_before);
}

#[test]
fn signature_recovers_cached_public_key() {
    let w = provisioned();
    let c = w.fill_cipher(PASS).unwrap();
    let raw: Vec<u8> = (0..32u8).collect();
    for idx in [0usize, 1, 17, 31] {
        let sig = w.sign_raw(idx, &raw, &c).unwrap();
        assert_eq!(recover(&raw, &sig), w.pubkeys[idx].to_vec());
    }
}

#[test]
fn signing_is_deterministic_and_leaves_zone() {
    let w = provisioned();
    let keys = w.zone.keys;
    let c = w.fill_cipher(PASS).unwrap();
    let raw = [0xabu8; 32];
    let a = w.zone.sign_raw(2, &raw, &c).unwrap();
    let b = w.zone.sign_raw(2, &raw, &c).unwrap();
    assert_eq!((a.r, a.s, a.v), (b.r, b.s, b.v));
    assert_eq!(w.zone.keys, keys);
}

#[test]
fn sign_index_out_of_range() {
    let w = provisioned();
    let c = w.fill_cipher(PASS).unwrap();
    for idx in [32usize, 33, 255, usize::MAX] {
        assert!(matches!(w.sign_raw(idx, &[1; 32], &c), Err(Error::AccountIdxOOB)));
    }
}

#[test]
fn sign_short_digest_is_crypto_error() {
    let w = provisioned();
    let c = w.fill_cipher(PASS).unwrap();
    assert!(matches!(w.sign_raw(0, &[1; 15], &c), Err(Error::CryptoError)));
    assert!(w.sign_raw(0, &[1; 16], &c).is_ok());
}

#[test]
fn sign_under_wrong_cipher_is_crypto_error_or_other_key() {
    let w = provisioned();
    let bad = get_cipher([9; 8], &IV);
    let raw = [3u8; 32];
    match w.sign_raw(0, &raw, &bad) {
        Ok(sig) => assert_ne!(recover(&raw, &sig), w.pubkeys[0].to_vec()),
        Err(e) => assert_eq!(e, Error::CryptoError),
    }
}
