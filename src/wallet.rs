//! The persisted wallet record and its fixed byte layout.
use vstd::prelude::*;

use crate::bytes::{
    chunks, le_bytes, le_bytes_of, le_value, lemma_chunks_of_flatten, lemma_le_round_trip,
    push_bytes, push_rows, read_array, read_le_u32, read_rows, rows_view,
};
use crate::crypto::{apply_keystream, crc32, crc32_of};
use crate::error::Error;
use crate::safe_zone::{
    derived_key, get_cipher, verify_and_unlock, Cipher, EthAddr, PubKey, SafeZone, Signature,
    ACCOUNT_NUM, FIXED_KEY_LEN, OTP_SECRET_LEN, ZKPLAIN,
};

verus! {

/// Byte offsets of the fields in the serialized record.
pub const OFF_ZKMAGIC: usize = 1;

pub const OFF_KEYS: usize = 33;

pub const OFF_OTP: usize = 1057;

pub const OFF_IV: usize = 1121;

pub const OFF_ADDRS: usize = 1133;

pub const OFF_PUBKEYS: usize = 1773;

pub const OFF_CRC: usize = 3821;

/// Length of one serialized record.
pub const WALLET_SIZE: usize = 3825;

/// The wallet record: key material, the cipher nonce, the cached public
/// data of each account, and a checksum of the whole.
#[derive(Clone, Copy)]
pub struct Wallet {
    pub initialized: bool,
    pub zone: SafeZone,
    /// Nonce of the key cipher; not secret, stored in the clear.
    pub chacha_iv: [u8; 12],
    pub addrs: [EthAddr; ACCOUNT_NUM],
    pub pubkeys: [PubKey; ACCOUNT_NUM],
    pub crc: u32,
}

/// The record as mathematical values.
pub struct WalletView {
    pub initialized: bool,
    pub zkmagic: Seq<u8>,
    pub keys: Seq<Seq<u8>>,
    pub otp_secret: Seq<u8>,
    pub chacha_iv: Seq<u8>,
    pub addrs: Seq<Seq<u8>>,
    pub pubkeys: Seq<Seq<u8>>,
    pub crc: u32,
}

impl View for Wallet {
    type V = WalletView;

    open spec fn view(&self) -> WalletView {
        WalletView {
            initialized: self.initialized,
            zkmagic: self.zone.zkmagic@,
            keys: rows_view(self.zone.keys),
            otp_secret: self.zone.otp_secret@,
            chacha_iv: self.chacha_iv@,
            addrs: rows_view(self.addrs),
            pubkeys: rows_view(self.pubkeys),
            crc: self.crc,
        }
    }
}

/// Every `n` rows of `s` have length `len`.
pub open spec fn rows_of(s: Seq<Seq<u8>>, n: nat, len: nat) -> bool {
    s.len() == n && forall|i: int| 0 <= i < n ==> (#[trigger] s[i]).len() == len
}

impl WalletView {
    /// Each field has the length of the layout.
    pub open spec fn wf(self) -> bool {
        &&& self.zkmagic.len() == 32
        &&& rows_of(self.keys, 32, 32)
        &&& self.otp_secret.len() == OTP_SECRET_LEN
        &&& self.chacha_iv.len() == 12
        &&& rows_of(self.addrs, 32, 20)
        &&& rows_of(self.pubkeys, 32, 64)
    }

    /// The same record with its checksum field replaced.
    pub open spec fn with_crc(self, crc: u32) -> WalletView {
        WalletView { crc, ..self }
    }
}

/// The serialized record, field after field.
pub open spec fn encode_view(w: WalletView) -> Seq<u8> {
    seq![if w.initialized { 1u8 } else { 0u8 }] + w.zkmagic + w.keys.flatten() + w.otp_secret
        + w.chacha_iv + w.addrs.flatten() + w.pubkeys.flatten() + le_bytes(w.crc)
}

/// The record that a serialized record holds; any nonzero first byte reads as
/// initialized.
pub open spec fn decode_view(b: Seq<u8>) -> WalletView {
    WalletView {
        initialized: b[0] != 0,
        zkmagic: b.subrange(OFF_ZKMAGIC as int, OFF_KEYS as int),
        keys: chunks(b.subrange(OFF_KEYS as int, OFF_OTP as int), 32, 32),
        otp_secret: b.subrange(OFF_OTP as int, OFF_IV as int),
        chacha_iv: b.subrange(OFF_IV as int, OFF_ADDRS as int),
        addrs: chunks(b.subrange(OFF_ADDRS as int, OFF_PUBKEYS as int), 32, 20),
        pubkeys: chunks(b.subrange(OFF_PUBKEYS as int, OFF_CRC as int), 32, 64),
        crc: le_value(b.subrange(OFF_CRC as int, WALLET_SIZE as int)),
    }
}

/// The record with its checksum set: the CRC-32 of the record serialized with
/// a zero checksum field.
pub open spec fn sealed(w: WalletView) -> WalletView {
    w.with_crc(crc32_of(encode_view(w.with_crc(0))))
}

/// A serialized record has the layout's length, and reads back as itself.
pub proof fn lemma_decode_encode(w: WalletView)
    requires
        w.wf(),
    ensures
        encode_view(w).len() == WALLET_SIZE,
        decode_view(encode_view(w)) == w,
{
    lemma_chunks_of_flatten(w.keys, 32);
    lemma_chunks_of_flatten(w.addrs, 20);
    lemma_chunks_of_flatten(w.pubkeys, 64);
    lemma_le_round_trip(w.crc);
    let e = encode_view(w);
    let head = seq![if w.initialized { 1u8 } else { 0u8 }];
    let upto_magic = head + w.zkmagic;
    let upto_keys = upto_magic + w.keys.flatten();
    let upto_otp = upto_keys + w.otp_secret;
    let upto_iv = upto_otp + w.chacha_iv;
    let upto_addrs = upto_iv + w.addrs.flatten();
    let upto_pubkeys = upto_addrs + w.pubkeys.flatten();
    assert(e == upto_pubkeys + le_bytes(w.crc));
    let d = decode_view(e);
    assert(d.zkmagic =~= w.zkmagic);
    assert(e.subrange(OFF_KEYS as int, OFF_OTP as int) =~= w.keys.flatten());
    assert(e.subrange(OFF_OTP as int, OFF_IV as int) =~= w.otp_secret);
    assert(e.subrange(OFF_IV as int, OFF_ADDRS as int) =~= w.chacha_iv);
    assert(e.subrange(OFF_ADDRS as int, OFF_PUBKEYS as int) =~= w.addrs.flatten());
    assert(e.subrange(OFF_PUBKEYS as int, OFF_CRC as int) =~= w.pubkeys.flatten());
    assert(e.subrange(OFF_CRC as int, WALLET_SIZE as int) =~= le_bytes(w.crc));
}

/// Zeroing the checksum bytes of a serialized record serializes the record
/// with a zero checksum.
pub proof fn lemma_encode_zero_crc(w: WalletView)
    requires
        w.wf(),
    ensures
        encode_view(w).subrange(0, OFF_CRC as int) + seq![0u8, 0u8, 0u8, 0u8] == encode_view(
            w.with_crc(0),
        ),
{
    lemma_decode_encode(w);
    crate::bytes::lemma_le_zero();
    assert(encode_view(w).subrange(0, OFF_CRC as int) + seq![0u8, 0u8, 0u8, 0u8] =~= encode_view(
        w.with_crc(0),
    ));
}

impl Wallet {
    /// The record of a device that was never provisioned: the canary in
    /// plaintext, everything else zero.
    pub fn new() -> (r: Self)
        ensures
            r@ == blank_view(),
    {
        let r = Wallet {
            initialized: false,
            zone: SafeZone {
                zkmagic: ZKPLAIN,
                keys: [[0u8; 32]; ACCOUNT_NUM],
                otp_secret: [0u8; OTP_SECRET_LEN],
            },
            chacha_iv: [0u8; 12],
            addrs: [[0u8; 20]; ACCOUNT_NUM],
            pubkeys: [[0u8; 64]; ACCOUNT_NUM],
            crc: 0,
        };
        proof {
            assert(r.zone.otp_secret@ =~= zeros(64));
            assert(r.chacha_iv@ =~= zeros(12));
            assert forall|i: int| 0 <= i < 32 implies #[trigger] rows_view(r.zone.keys)[i] =~= zeros(32) by {}
            assert forall|i: int| 0 <= i < 32 implies #[trigger] rows_view(r.addrs)[i] =~= zeros(20) by {}
            assert forall|i: int| 0 <= i < 32 implies #[trigger] rows_view(r.pubkeys)[i] =~= zeros(64) by {}
            assert(rows_view(r.zone.keys) =~= Seq::new(32, |i: int| zeros(32)));
            assert(rows_view(r.addrs) =~= Seq::new(32, |i: int| zeros(20)));
            assert(rows_view(r.pubkeys) =~= Seq::new(32, |i: int| zeros(64)));
        }
        r
    }

    /// Serializes the record in its fixed layout.
    pub fn encode(&self) -> (r: Vec<u8>)
        ensures
            r@ == encode_view(self@),
            r@.len() == WALLET_SIZE,
    {
        let mut out: Vec<u8> = Vec::new();
        out.push(if self.initialized { 1u8 } else { 0u8 });
        push_bytes(&mut out, self.zone.zkmagic.as_slice());
        push_rows(&mut out, &self.zone.keys);
        push_bytes(&mut out, self.zone.otp_secret.as_slice());
        push_bytes(&mut out, self.chacha_iv.as_slice());
        push_rows(&mut out, &self.addrs);
        push_rows(&mut out, &self.pubkeys);
        let crc = le_bytes_of(self.crc);
        push_bytes(&mut out, crc.as_slice());
        proof {
            assert(out@ =~= encode_view(self@));
            lemma_decode_encode(self@);
        }
        out
    }

    /// Reads a record from its fixed layout at `off`.
    pub fn decode(bytes: &[u8], off: usize) -> (r: Self)
        requires
            off + WALLET_SIZE <= bytes@.len(),
        ensures
            r@ == decode_view(bytes@.subrange(off as int, off + WALLET_SIZE)),
    {
        let ghost b = bytes@.subrange(off as int, off + WALLET_SIZE);
        let blen = bytes.len();
        assert(off + WALLET_SIZE <= blen);
        let zkmagic: [u8; 32] = read_array(bytes, off + OFF_ZKMAGIC);
        let keys: [[u8; 32]; 32] = read_rows(bytes, off + OFF_KEYS);
        let otp_secret: [u8; 64] = read_array(bytes, off + OFF_OTP);
        let chacha_iv: [u8; 12] = read_array(bytes, off + OFF_IV);
        let addrs: [[u8; 20]; 32] = read_rows(bytes, off + OFF_ADDRS);
        let pubkeys: [[u8; 64]; 32] = read_rows(bytes, off + OFF_PUBKEYS);
        let crc = read_le_u32(bytes, off + OFF_CRC);
        let r = Wallet {
            initialized: bytes[off] != 0,
            zone: SafeZone { zkmagic, keys, otp_secret },
            chacha_iv,
            addrs,
            pubkeys,
            crc,
        };
        proof {
            assert(zkmagic@ =~= b.subrange(OFF_ZKMAGIC as int, OFF_KEYS as int));
            assert(bytes@.subrange(off + OFF_KEYS, off + OFF_KEYS + 32 * 32) =~= b.subrange(
                OFF_KEYS as int,
                OFF_OTP as int,
            ));
            assert(otp_secret@ =~= b.subrange(OFF_OTP as int, OFF_IV as int));
            assert(chacha_iv@ =~= b.subrange(OFF_IV as int, OFF_ADDRS as int));
            assert(bytes@.subrange(off + OFF_ADDRS, off + OFF_ADDRS + 20 * 32) =~= b.subrange(
                OFF_ADDRS as int,
                OFF_PUBKEYS as int,
            ));
            assert(bytes@.subrange(off + OFF_PUBKEYS, off + OFF_PUBKEYS + 64 * 32) =~= b.subrange(
                OFF_PUBKEYS as int,
                OFF_CRC as int,
            ));
            assert(bytes@.subrange(off + OFF_CRC, off + OFF_CRC + 4) =~= b.subrange(
                OFF_CRC as int,
                WALLET_SIZE as int,
            ));
            assert(r@ =~= decode_view(b));
        }
        r
    }

    /// The record with its checksum computed and stored.
    pub fn seal(&self) -> (r: Self)
        ensures
            r@ == sealed(self@),
    {
        let mut w = *self;
        w.crc = 0;
        let bytes = w.encode();
        w.crc = crc32(bytes.as_slice());
        proof {
            assert(w@ =~= sealed(self@));
        }
        w
    }

    /// Checks a passcode against the canary. On success the cipher that the
    /// passcode derives is handed out, ready to decrypt the key slots.
    pub fn fill_cipher(&self, passcode: [u8; FIXED_KEY_LEN]) -> (r: Result<Cipher, Error>)
        ensures
            r is Ok <==> passcode_opens(*self, passcode@),
            r is Ok ==> r->Ok_0.key@ == derived_key(passcode@) && r->Ok_0.iv == self.chacha_iv,
            r is Err ==> r == Err::<Cipher, Error>(Error::WrongPassword),
    {
        let cipher = get_cipher(passcode, &self.chacha_iv);
        verify_and_unlock(&self.zone, cipher)
    }

    /// Signs `raw` with account `idx`, under a cipher that opened this wallet.
    pub fn sign_raw(&self, idx: usize, raw: &[u8], cipher: &Cipher) -> (r: Result<
        Signature,
        Error,
    >)
        ensures
            crate::safe_zone::sign_spec(self.zone, idx, raw@, *cipher, r),
    {
        self.zone.sign_raw(idx, raw, cipher)
    }
}

/// `n` zero bytes.
pub open spec fn zeros(n: nat) -> Seq<u8> {
    Seq::new(n, |i: int| 0u8)
}

/// The record of a device that was never provisioned.
pub open spec fn blank_view() -> WalletView {
    WalletView {
        initialized: false,
        zkmagic: ZKPLAIN@,
        keys: Seq::new(32, |i: int| zeros(32)),
        otp_secret: zeros(64),
        chacha_iv: zeros(12),
        addrs: Seq::new(32, |i: int| zeros(20)),
        pubkeys: Seq::new(32, |i: int| zeros(64)),
        crc: 0,
    }
}

/// The passcode derives a cipher under which the canary decrypts to its
/// plaintext.
pub open spec fn passcode_opens(w: Wallet, passcode: Seq<u8>) -> bool {
    apply_keystream(derived_key(passcode), w.chacha_iv@, 0, w.zone.zkmagic@) == ZKPLAIN@
}

} // verus!
