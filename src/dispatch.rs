//! Instruction decoding, dispatch to the wallet, and response encoding.
use vstd::prelude::*;

use crate::bytes::{push_bytes, push_rows, rows_view};
use crate::error::{error_code, Error};
use crate::input::{MsgBuffer, MsgBufferState};
use crate::safe_zone::{
    derived_key, sign_spec, Cipher, EthAddr, PubKey, Signature, ACCOUNT_NUM, FIXED_KEY_LEN,
};
use crate::wallet::{passcode_opens, Wallet};

verus! {

/// An instruction sent by the host.
pub enum Instruction {
    /// `[0, account, raw..]`: sign `raw` with the account's key.
    SignTransaction(u8, Vec<u8>),
    /// `[1, account]`: the account's address and public key.
    GetAddress(u8),
    /// `[2]`: the addresses of all accounts.
    GetAddressList,
}

/// A successful answer to an instruction.
pub enum Response {
    Signature(Signature),
    Address(EthAddr, PubKey),
    AddressList([EthAddr; ACCOUNT_NUM]),
}

/// What the device keeps between instructions within one power cycle: the
/// cipher, once a passcode has unlocked it.
pub struct Session {
    pub cipher: Option<Cipher>,
}

/// The instruction that a frame body holds, if it is well formed.
pub open spec fn decodes_to(b: Seq<u8>, r: Result<Instruction, Error>) -> bool {
    if b.len() >= 3 && b[0] == 0 {
        r is Ok && r->Ok_0 is SignTransaction && r->Ok_0->SignTransaction_0 == b[1]
            && r->Ok_0->SignTransaction_1@ == b.subrange(2, b.len() as int)
    } else if b.len() == 2 && b[0] == 1 {
        r == Ok::<Instruction, Error>(Instruction::GetAddress(b[1]))
    } else if b.len() == 1 && b[0] == 2 {
        r == Ok::<Instruction, Error>(Instruction::GetAddressList)
    } else {
        r == Err::<Instruction, Error>(Error::InvalidInstruction)
    }
}

/// The bytes of a response: its kind, then its payload.
pub open spec fn response_bytes(r: Response) -> Seq<u8> {
    match r {
        Response::Signature(sig) => seq![0u8] + sig.r@ + sig.s@ + seq![sig.v],
        Response::Address(addr, pubkey) => seq![1u8] + addr@ + pubkey@,
        Response::AddressList(list) => seq![2u8] + rows_view(list).flatten(),
    }
}

/// The reply sent for an outcome: status `0x00` and the response, or status
/// `0xff` and the error's code.
pub open spec fn reply_bytes(r: Result<Response, Error>) -> Seq<u8> {
    match r {
        Ok(resp) => seq![0x00u8] + response_bytes(resp),
        Err(e) => seq![0xffu8, error_code(e)],
    }
}

/// The body asks for a signature.
pub open spec fn is_sign_request(b: Seq<u8>) -> bool {
    b.len() >= 3 && b[0] == 0
}

/// The outcome of a signature request is that of signing with the wallet's
/// zone, a signature carried in a signature response.
pub open spec fn signs_as(
    wallet: Wallet,
    idx: usize,
    raw: Seq<u8>,
    c: Cipher,
    r: Result<Response, Error>,
) -> bool {
    &&& r is Ok ==> r->Ok_0 is Signature
    &&& sign_spec(
        wallet.zone,
        idx,
        raw,
        c,
        match r {
            Ok(Response::Signature(sig)) => Ok::<Signature, Error>(sig),
            Ok(_) => Err::<Signature, Error>(Error::CryptoError),
            Err(e) => Err::<Signature, Error>(e),
        },
    )
}

/// What dispatching `body` on `wallet` does, given the session before and
/// after and the passcode that the keypad gave, if one was asked for.
pub open spec fn dispatch_spec(
    body: Seq<u8>,
    wallet: Wallet,
    before: Option<Cipher>,
    passcode: Option<[u8; FIXED_KEY_LEN]>,
    r: Result<Response, Error>,
    after: Option<Cipher>,
) -> bool {
    if !wallet.initialized {
        r == Err::<Response, Error>(Error::WalletNotInitialized) && after == before
    } else if is_sign_request(body) {
        let idx = body[1] as usize;
        let raw = body.subrange(2, body.len() as int);
        if before is Some {
            after == before && signs_as(wallet, idx, raw, before->0, r)
        } else if passcode is Some && passcode_opens(wallet, passcode->0@) {
            &&& after is Some
            &&& after->0.key@ == derived_key(passcode->0@)
            &&& after->0.iv == wallet.chacha_iv
            &&& signs_as(wallet, idx, raw, after->0, r)
        } else {
            r == Err::<Response, Error>(Error::WrongPassword) && after == before
        }
    } else if body.len() == 2 && body[0] == 1 {
        after == before && if body[1] < ACCOUNT_NUM {
            r == Ok::<Response, Error>(
                Response::Address(wallet.addrs[body[1] as int], wallet.pubkeys[body[1] as int]),
            )
        } else {
            r == Err::<Response, Error>(Error::AccountIdxOOB)
        }
    } else if body.len() == 1 && body[0] == 2 {
        after == before && r == Ok::<Response, Error>(Response::AddressList(wallet.addrs))
    } else {
        after == before && r == Err::<Response, Error>(Error::InvalidInstruction)
    }
}

impl Instruction {
    /// Decodes a frame body.
    pub fn try_from(value: &[u8]) -> (r: Result<Instruction, Error>)
        ensures
            decodes_to(value@, r),
    {
        if value.len() == 0 {
            return Err(Error::InvalidInstruction);
        }
        let kind = value[0];
        if kind == 0 && value.len() > 2 {
            let mut raw: Vec<u8> = Vec::new();
            let mut i: usize = 2;
            while i < value.len()
                invariant
                    2 <= i <= value@.len(),
                    raw@ == value@.subrange(2, i as int),
                decreases value@.len() - i,
            {
                raw.push(value[i]);
                assert(raw@ =~= value@.subrange(2, i + 1));
                i += 1;
            }
            Ok(Instruction::SignTransaction(value[1], raw))
        } else if kind == 1 && value.len() == 2 {
            Ok(Instruction::GetAddress(value[1]))
        } else if kind == 2 && value.len() == 1 {
            Ok(Instruction::GetAddressList)
        } else {
            Err(Error::InvalidInstruction)
        }
    }
}

impl Response {
    /// The bytes of the response, kind first.
    pub fn to_bytes(&self) -> (r: Vec<u8>)
        ensures
            r@ == response_bytes(*self),
    {
        let mut out: Vec<u8> = Vec::new();
        match self {
            Response::Signature(sig) => {
                out.push(0u8);
                push_bytes(&mut out, sig.r.as_slice());
                push_bytes(&mut out, sig.s.as_slice());
                out.push(sig.v);
            },
            Response::Address(addr, pubkey) => {
                out.push(1u8);
                push_bytes(&mut out, addr.as_slice());
                push_bytes(&mut out, pubkey.as_slice());
            },
            Response::AddressList(list) => {
                out.push(2u8);
                push_rows(&mut out, list);
            },
        }
        assert(out@ =~= response_bytes(*self));
        out
    }
}

/// The reply frame for an outcome.
pub fn encode_reply(result: &Result<Response, Error>) -> (r: Vec<u8>)
    ensures
        r@ == reply_bytes(*result),
{
    let mut out: Vec<u8> = Vec::new();
    match result {
        Ok(resp) => {
            out.push(0x00u8);
            let body = resp.to_bytes();
            push_bytes(&mut out, body.as_slice());
        },
        Err(e) => {
            out.push(0xffu8);
            out.push(e.code());
        },
    }
    assert(out@ =~= reply_bytes(*result));
    out
}

impl Session {
    /// A session of a device that has just started: nothing is unlocked.
    pub fn new() -> (r: Session)
        ensures
            r.cipher is None,
    {
        Session { cipher: None }
    }

    /// Whether dispatching `body` will first need a passcode from the keypad.
    pub fn needs_passcode(&self, body: &[u8], wallet: &Wallet) -> (r: bool)
        ensures
            r <==> wallet.initialized && is_sign_request(body@) && self.cipher is None,
    {
        wallet.initialized && body.len() >= 3 && body[0] == 0 && self.cipher.is_none()
    }
}

/// Carries out the instruction in `body` on `wallet`. A signature request
/// with nothing unlocked yet uses `passcode` to unlock the wallet, and keeps
/// the cipher for the rest of the session.
pub fn dispatch(
    body: &[u8],
    wallet: &Wallet,
    session: &mut Session,
    passcode: Option<[u8; FIXED_KEY_LEN]>,
) -> (r: Result<Response, Error>)
    ensures
        dispatch_spec(body@, *wallet, old(session).cipher, passcode, r, final(session).cipher),
{
    if !wallet.initialized {
        return Err(Error::WalletNotInitialized);
    }
    let instr = match Instruction::try_from(body) {
        Ok(i) => i,
        Err(e) => return Err(e),
    };
    match instr {
        Instruction::SignTransaction(idx, raw) => {
            let cipher = match session.cipher {
                Some(c) => c,
                None => {
                    let p = match passcode {
                        Some(p) => p,
                        None => return Err(Error::WrongPassword),
                    };
                    let c = match wallet.fill_cipher(p) {
                        Ok(c) => c,
                        Err(e) => return Err(e),
                    };
                    session.cipher = Some(c);
                    c
                },
            };
            match wallet.sign_raw(idx as usize, raw.as_slice(), &cipher) {
                Ok(sig) => Ok(Response::Signature(sig)),
                Err(e) => Err(e),
            }
        },
        Instruction::GetAddress(idx) => {
            if idx as usize >= ACCOUNT_NUM {
                return Err(Error::AccountIdxOOB);
            }
            Ok(Response::Address(wallet.addrs[idx as usize], wallet.pubkeys[idx as usize]))
        },
        Instruction::GetAddressList => Ok(Response::AddressList(wallet.addrs)),
    }
}

/// One turn of the main loop: once the framer holds a finished frame or an
/// error, the reply to send; `None` while a frame is still arriving.
pub fn process_frame(
    buf: &MsgBuffer,
    wallet: &Wallet,
    session: &mut Session,
    passcode: Option<[u8; FIXED_KEY_LEN]>,
) -> (r: Option<Vec<u8>>)
    requires
        buf.wf(),
    ensures
        buf.state == MsgBufferState::Finished ==> exists|res: Result<Response, Error>|
            dispatch_spec(
                buf@.buf.subrange(0, buf.msg_len as int),
                *wallet,
                old(session).cipher,
                passcode,
                res,
                final(session).cipher,
            ) && r is Some && r->0@ == reply_bytes(res),
        buf.state is Error ==> r is Some && r->0@ == reply_bytes(
            Err::<Response, Error>(buf.state->Error_0),
        ) && final(session).cipher == old(session).cipher,
        buf.state != MsgBufferState::Finished && !(buf.state is Error) ==> r is None
            && final(session).cipher == old(session).cipher,
{
    match buf.state {
        MsgBufferState::Finished => {
            let body = buf.body();
            let res = dispatch(body.as_slice(), wallet, session, passcode);
            Some(encode_reply(&res))
        },
        MsgBufferState::Error(e) => Some(encode_reply(&Err(e))),
        _ => None,
    }
}

/// Asking for the same address twice, with nothing written in between,
/// gives the same answer, and leaves the session as it was.
pub proof fn lemma_get_address_idempotent(
    body: Seq<u8>,
    wallet: Wallet,
    before_a: Option<Cipher>,
    before_b: Option<Cipher>,
    pass_a: Option<[u8; FIXED_KEY_LEN]>,
    pass_b: Option<[u8; FIXED_KEY_LEN]>,
    res_a: Result<Response, Error>,
    res_b: Result<Response, Error>,
    after_a: Option<Cipher>,
    after_b: Option<Cipher>,
)
    requires
        body.len() == 2 && body[0] == 1,
        dispatch_spec(body, wallet, before_a, pass_a, res_a, after_a),
        dispatch_spec(body, wallet, before_b, pass_b, res_b, after_b),
    ensures
        res_a == res_b,
        reply_bytes(res_a) == reply_bytes(res_b),
        after_a == before_a,
{
}

} // verus!
