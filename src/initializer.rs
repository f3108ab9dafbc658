//! First-time provisioning: the canary and the account keys are encrypted
//! under the passcode's cipher, and each account's public key and address
//! are cached in the clear.
use vstd::prelude::*;

use crate::crypto::{
    apply_keystream, chacha20_apply, chacha20_keystream, ecdsa_recover_prehash, keccak256,
    keccak256_of, public_key_of, secp256k1_public_key, secret_in_range,
};
use crate::error::Error;
use crate::safe_zone::{
    derived_key, get_cipher, is_signature_of, key_under, sign_spec, slot_offset, Cipher,
    Signature, ACCOUNT_NUM, FIXED_KEY_LEN, OTP_SECRET_LEN, ZKPLAIN,
};
use crate::store::{
    copy_of, elected, has_valid_copy, image_after_load, stored_image, wallet, write_wallet,
    FlashStore,
};
use crate::wallet::{decode_view, passcode_opens, zeros, Wallet};

verus! {

/// The address of an account: the last 20 bytes of the Keccak-256 digest of
/// its public key.
pub open spec fn address_of(pubkey: Seq<u8>) -> Seq<u8> {
    keccak256_of(pubkey).subrange(12, 32)
}

/// Account `i` of the wallet holds `secret` under the passcode's cipher, with
/// its public key and address cached.
pub open spec fn account_holds(w: Wallet, passcode: Seq<u8>, i: int, secret: Seq<u8>) -> bool {
    &&& key_under(w.zone, derived_key(passcode), w.chacha_iv@, i) == secret
    &&& secret_in_range(secret)
    &&& w.pubkeys[i]@ == secp256k1_public_key(secret)
    &&& w.addrs[i]@ == address_of(w.pubkeys[i]@)
}

/// The wallet was provisioned under `passcode`: it is initialized, the
/// passcode opens it, and every account's cached public data is that of its
/// decrypted key.
pub open spec fn provisioned_with(w: Wallet, passcode: Seq<u8>) -> bool {
    &&& w.initialized
    &&& passcode_opens(w, passcode)
    &&& forall|i: int|
        0 <= i < ACCOUNT_NUM ==> #[trigger] account_holds(
            w,
            passcode,
            i,
            key_under(w.zone, derived_key(passcode), w.chacha_iv@, i),
        )
}

/// Slot `j` holds secret `j` encrypted under `c`, with its public key and
/// address cached.
pub open spec fn account_built(
    w: Wallet,
    c: Cipher,
    secrets: [[u8; 32]; ACCOUNT_NUM],
    j: int,
) -> bool {
    &&& w.zone.keys[j]@ == apply_keystream(c.key@, c.iv@, slot_offset(j), secrets[j]@)
    &&& w.pubkeys[j]@ == secp256k1_public_key(secrets[j]@)
    &&& w.addrs[j]@ == address_of(w.pubkeys[j]@)
}

/// Applying the same keystream twice gives the data back.
pub proof fn lemma_keystream_involution(key: Seq<u8>, iv: Seq<u8>, offset: nat, data: Seq<u8>)
    ensures
        apply_keystream(key, iv, offset, apply_keystream(key, iv, offset, data)) == data,
{
    let once = apply_keystream(key, iv, offset, data);
    assert forall|i: int| 0 <= i < data.len() implies #[trigger] apply_keystream(
        key,
        iv,
        offset,
        once,
    )[i] == data[i] by {
        let a = data[i];
        let k = chacha20_keystream(key, iv, offset)[i];
        assert((a ^ k) ^ k == a) by (bit_vector);
    }
    assert(apply_keystream(key, iv, offset, once) =~= data);
}

/// Generates the accounts from the given secrets: each is encrypted into its
/// slot, and its public key and address are cached. A secret that is not a
/// valid scalar fails the whole operation.
fn initialize_accounts(cipher: &Cipher, ctx: &mut Wallet, secrets: &[[u8; 32]; ACCOUNT_NUM]) -> (r:
    Result<(), Error>)
    requires
        old(ctx).chacha_iv == cipher.iv,
    ensures
        r is Ok <==> forall|i: int| 0 <= i < ACCOUNT_NUM ==> secret_in_range(#[trigger] secrets[i]@),
        r is Err ==> r == Err::<(), Error>(Error::CryptoError),
        r is Ok ==> {
            &&& final(ctx).initialized == old(ctx).initialized
            &&& final(ctx).zone.zkmagic == old(ctx).zone.zkmagic
            &&& final(ctx).zone.otp_secret == old(ctx).zone.otp_secret
            &&& final(ctx).chacha_iv == old(ctx).chacha_iv
            &&& forall|i: int|
                0 <= i < ACCOUNT_NUM ==> #[trigger] account_built(*final(ctx), *cipher, *secrets, i)
        },
{
    let mut i: usize = 0;
    while i < ACCOUNT_NUM
        invariant
            0 <= i <= ACCOUNT_NUM,
            ctx.initialized == old(ctx).initialized,
            ctx.zone.zkmagic == old(ctx).zone.zkmagic,
            ctx.zone.otp_secret == old(ctx).zone.otp_secret,
            ctx.chacha_iv == old(ctx).chacha_iv,
            forall|j: int| 0 <= j < i ==> secret_in_range(#[trigger] secrets[j]@),
            forall|j: int| 0 <= j < i ==> #[trigger] account_built(*ctx, *cipher, *secrets, j),
        decreases ACCOUNT_NUM - i,
    {
        let secret = secrets[i];
        let pubkey = match public_key_of(&secret) {
            Some(p) => p,
            None => return Err(Error::CryptoError),
        };
        let mut privkey = secret;
        chacha20_apply(&cipher.key, &cipher.iv, 32 + 32 * i as u32, &mut privkey);
        let digest = keccak256(pubkey.as_slice());
        let mut addr = [0u8; 20];
        let mut k: usize = 0;
        while k < 20
            invariant
                0 <= k <= 20,
                digest@.len() == 32,
                forall|m: int| 0 <= m < k ==> addr@[m] == digest@[m + 12],
            decreases 20 - k,
        {
            addr[k] = digest[k + 12];
            k += 1;
        }
        let ghost prev = *ctx;
        ctx.zone.keys[i] = privkey;
        ctx.addrs[i] = addr;
        ctx.pubkeys[i] = pubkey;
        proof {
            assert(privkey@ =~= apply_keystream(cipher.key@, cipher.iv@, slot_offset(i as int), secret@));
            assert(addr@ =~= address_of(pubkey@));
            assert forall|j: int| 0 <= j < i + 1 implies #[trigger] account_built(
                *ctx,
                *cipher,
                *secrets,
                j,
            ) by {
                if j < i {
                    assert(account_built(prev, *cipher, *secrets, j));
                    assert(ctx.zone.keys[j] == prev.zone.keys[j]);
                    assert(ctx.pubkeys[j] == prev.pubkeys[j]);
                    assert(ctx.addrs[j] == prev.addrs[j]);
                }
            }
        }
        i += 1;
    }
    Ok(())
}

/// Builds the record of a newly provisioned wallet: a fresh nonce, the canary
/// encrypted under the passcode's cipher, and the accounts from `secrets`.
pub fn initialize_wallet(
    passcode: [u8; FIXED_KEY_LEN],
    iv: [u8; 12],
    secrets: &[[u8; 32]; ACCOUNT_NUM],
) -> (r: Result<Wallet, Error>)
    ensures
        r is Ok <==> forall|i: int| 0 <= i < ACCOUNT_NUM ==> secret_in_range(#[trigger] secrets[i]@),
        r is Err ==> r == Err::<Wallet, Error>(Error::CryptoError),
        r is Ok ==> {
            let w = r->Ok_0;
            &&& provisioned_with(w, passcode@)
            &&& w.chacha_iv == iv
            &&& w.zone.otp_secret@ == zeros(OTP_SECRET_LEN as nat)
            &&& forall|i: int|
                0 <= i < ACCOUNT_NUM ==> #[trigger] key_under(
                    w.zone,
                    derived_key(passcode@),
                    iv@,
                    i,
                ) == secrets[i]@
        },
{
    let mut w = Wallet::new();
    w.chacha_iv = iv;
    let cipher = get_cipher(passcode, &iv);
    let ghost plain = w.zone.zkmagic@;
    chacha20_apply(&cipher.key, &cipher.iv, 0, &mut w.zone.zkmagic);
    proof {
        assert(w.zone.zkmagic@ =~= apply_keystream(cipher.key@, iv@, 0, plain));
        lemma_keystream_involution(cipher.key@, iv@, 0, plain);
    }
    match initialize_accounts(&cipher, &mut w, secrets) {
        Ok(()) => {},
        Err(e) => return Err(e),
    }
    let ghost built = w;
    w.initialized = true;
    proof {
        assert(plain == ZKPLAIN@);
        assert(w.zone == built.zone && w.pubkeys == built.pubkeys && w.addrs == built.addrs);
        assert forall|i: int| 0 <= i < ACCOUNT_NUM implies #[trigger] key_under(
            w.zone,
            derived_key(passcode@),
            iv@,
            i,
        ) == secrets[i]@ by {
            assert(account_built(built, cipher, *secrets, i));
            lemma_keystream_involution(cipher.key@, iv@, slot_offset(i), secrets[i]@);
        }
        assert forall|i: int| 0 <= i < ACCOUNT_NUM implies #[trigger] account_holds(
            w,
            passcode@,
            i,
            key_under(w.zone, derived_key(passcode@), w.chacha_iv@, i),
        ) by {
            assert(account_built(built, cipher, *secrets, i));
            assert(key_under(w.zone, derived_key(passcode@), iv@, i) == secrets[i]@);
        }
    }
    Ok(w)
}

/// Provisions the device on its first start: where the stored record is not
/// initialized yet, a new one is built from the passcode, the nonce and the
/// secrets, and written. The result tells whether anything was written; a
/// store with no valid copy fails the start.
pub fn try_initialize_wallet(
    store: &mut FlashStore,
    passcode: [u8; FIXED_KEY_LEN],
    iv: [u8; 12],
    secrets: &[[u8; 32]; ACCOUNT_NUM],
) -> (r: Result<bool, Error>)
    requires
        old(store).wf(),
    ensures
        final(store).wf(),
        !has_valid_copy(old(store).image@) <==> r == Err::<bool, Error>(Error::HalInitError),
        has_valid_copy(old(store).image@) ==> {
            let stored = decode_view(copy_of(old(store).image@, elected(old(store).image@)));
            &&& stored.initialized ==> r == Ok::<bool, Error>(false)
            &&& !stored.initialized ==> (r == Ok::<bool, Error>(true) <==> forall|i: int|
                0 <= i < ACCOUNT_NUM ==> secret_in_range(#[trigger] secrets[i]@))
            &&& !stored.initialized && r is Err ==> r == Err::<bool, Error>(Error::CryptoError)
        },
        r == Ok::<bool, Error>(false) || r == Err::<bool, Error>(Error::CryptoError)
            ==> final(store).image@ == image_after_load(old(store).image@),
        r == Err::<bool, Error>(Error::HalInitError) ==> final(store).image@ == old(
            store,
        ).image@,
        r == Ok::<bool, Error>(true) ==> exists|w: Wallet|
            {
                &&& provisioned_with(w, passcode@)
                &&& w.chacha_iv == iv
                &&& forall|i: int|
                    0 <= i < ACCOUNT_NUM ==> #[trigger] key_under(
                        w.zone,
                        derived_key(passcode@),
                        iv@,
                        i,
                    ) == secrets[i]@
                &&& final(store).image@ == stored_image(w@)
            },
{
    let current = match wallet(store) {
        Some(w) => w,
        None => return Err(Error::HalInitError),
    };
    if current.initialized {
        return Ok(false);
    }
    let w = match initialize_wallet(passcode, iv, secrets) {
        Ok(w) => w,
        Err(e) => return Err(e),
    };
    write_wallet(store, &w);
    Ok(true)
}

/// A signature that the wallet gives under the passcode it was provisioned
/// with recovers to the public key cached for that account.
pub proof fn lemma_signature_recovers_cached_key(
    w: Wallet,
    passcode: Seq<u8>,
    c: Cipher,
    idx: usize,
    msg: Seq<u8>,
    r: Result<Signature, Error>,
)
    requires
        provisioned_with(w, passcode),
        c.key@ == derived_key(passcode),
        c.iv == w.chacha_iv,
        idx < ACCOUNT_NUM,
        sign_spec(w.zone, idx, msg, c, r),
        r is Ok,
    ensures
        ecdsa_recover_prehash(msg, r->Ok_0.r@, r->Ok_0.s@, r->Ok_0.v) == Some(
            w.pubkeys[idx as int]@,
        ),
{
    assert(account_holds(
        w,
        passcode,
        idx as int,
        key_under(w.zone, derived_key(passcode), w.chacha_iv@, idx as int),
    ));
    assert(is_signature_of(
        r->Ok_0,
        key_under(w.zone, derived_key(passcode), w.chacha_iv@, idx as int),
        msg,
    ));
}

/// The passcode a wallet was provisioned with unlocks it, and every key slot
/// then decrypts to a valid secret scalar.
pub proof fn lemma_true_passcode_unlocks(w: Wallet, passcode: Seq<u8>, idx: int)
    requires
        provisioned_with(w, passcode),
        0 <= idx < ACCOUNT_NUM,
    ensures
        passcode_opens(w, passcode),
        secret_in_range(key_under(w.zone, derived_key(passcode), w.chacha_iv@, idx)),
{
    assert(account_holds(
        w,
        passcode,
        idx,
        key_under(w.zone, derived_key(passcode), w.chacha_iv@, idx),
    ));
}

} // verus!
