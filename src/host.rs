//! The host's side of the serial protocol: building instruction frames and
//! reading the device's replies.
use vstd::prelude::*;

use crate::bytes::{chunks, le_bytes, le_bytes_of, push_bytes, read_array, read_rows, rows_view};
use crate::dispatch::{reply_bytes, response_bytes, Instruction, Response};
use crate::input::{
    msg_feed, msg_initial, msg_step, pow256, MsgBufferState, MsgBufferView, MAX_MSG_LEN, MSG_MAGIC,
};
use crate::dispatch::decodes_to;
use crate::safe_zone::Signature;

verus! {

broadcast use vstd::array::axiom_array_ext_equal;

/// A device error as the host reads it from its code.
#[derive(Clone, Copy, Debug, PartialEq, Eq, Structural)]
pub enum WalletError {
    HalInitError,
    AccountIdxOOB,
    CryptoError,
    InvalidSerialConfig,
    InvalidInstruction,
    SerialDataCorrupted,
    WrongPassword,
    SerialTxError,
    I2cError,
    WalletNotInitialized,
    UnknownError,
}

/// The error that a code stands for; codes no error has read as unknown.
pub open spec fn wallet_error_of(code: u8) -> WalletError {
    if code == 0 {
        WalletError::HalInitError
    } else if code == 1 {
        WalletError::AccountIdxOOB
    } else if code == 2 {
        WalletError::CryptoError
    } else if code == 3 {
        WalletError::InvalidSerialConfig
    } else if code == 4 {
        WalletError::InvalidInstruction
    } else if code == 5 {
        WalletError::SerialDataCorrupted
    } else if code == 6 {
        WalletError::WrongPassword
    } else if code == 7 {
        WalletError::SerialTxError
    } else if code == 8 {
        WalletError::I2cError
    } else if code == 9 {
        WalletError::WalletNotInitialized
    } else {
        WalletError::UnknownError
    }
}

impl WalletError {
    /// Reads an error code sent by the device.
    pub fn from_code(code: u8) -> (r: WalletError)
        ensures
            r == wallet_error_of(code),
    {
        match code {
            0 => WalletError::HalInitError,
            1 => WalletError::AccountIdxOOB,
            2 => WalletError::CryptoError,
            3 => WalletError::InvalidSerialConfig,
            4 => WalletError::InvalidInstruction,
            5 => WalletError::SerialDataCorrupted,
            6 => WalletError::WrongPassword,
            7 => WalletError::SerialTxError,
            8 => WalletError::I2cError,
            9 => WalletError::WalletNotInitialized,
            _ => WalletError::UnknownError,
        }
    }
}

/// Why a reply could not be read.
#[derive(Clone, Copy, Debug, PartialEq, Eq, Structural)]
pub enum ReplyError {
    /// The device reported an error.
    WalletError(WalletError),
    /// The reply does not have the shape of any reply.
    SerialCorrupted,
}

/// A command of the host's command line.
pub enum Action {
    Sign { msg: String, account: u8 },
    Transfer { to: String, value: String, account: u8 },
    List,
    Get { account: u8 },
}

/// The body of an instruction: its kind, then its operands.
pub open spec fn instruction_body(i: Instruction) -> Seq<u8> {
    match i {
        Instruction::SignTransaction(idx, raw) => seq![0u8, idx] + raw@,
        Instruction::GetAddress(idx) => seq![1u8, idx],
        Instruction::GetAddressList => seq![2u8],
    }
}

/// The frame that carries a body: the magic byte, the body's length as a
/// little-endian `u32`, then the body.
pub open spec fn frame_of(body: Seq<u8>) -> Seq<u8> {
    seq![MSG_MAGIC] + le_bytes(body.len() as u32) + body
}

/// Length of the payload that follows a success status and a response kind.
pub open spec fn payload_len(kind: u8) -> int {
    if kind == 0 {
        65
    } else if kind == 1 {
        84
    } else if kind == 2 {
        640
    } else {
        -1
    }
}

/// How the host reads a reply.
pub open spec fn parses_to(b: Seq<u8>, r: Result<Response, ReplyError>) -> bool {
    if b.len() >= 2 && b[0] == 0xff {
        r == Err::<Response, ReplyError>(ReplyError::WalletError(wallet_error_of(b[1])))
    } else if b.len() >= 2 && b[0] == 0 && b.len() == 2 + payload_len(b[1]) {
        r is Ok && response_bytes(r->Ok_0) == b.drop_first()
    } else {
        r == Err::<Response, ReplyError>(ReplyError::SerialCorrupted)
    }
}

impl Instruction {
    /// The frame that carries this instruction.
    pub fn build_msg(&self) -> (r: Vec<u8>)
        requires
            instruction_body(*self).len() <= u32::MAX,
        ensures
            r@ == frame_of(instruction_body(*self)),
    {
        let mut content: Vec<u8> = Vec::new();
        match self {
            Instruction::SignTransaction(idx, raw) => {
                content.push(0u8);
                content.push(*idx);
                push_bytes(&mut content, raw.as_slice());
            },
            Instruction::GetAddress(idx) => {
                content.push(1u8);
                content.push(*idx);
            },
            Instruction::GetAddressList => {
                content.push(2u8);
            },
        }
        assert(content@ =~= instruction_body(*self));
        let mut msg: Vec<u8> = Vec::new();
        msg.push(MSG_MAGIC);
        let len = le_bytes_of(content.len() as u32);
        push_bytes(&mut msg, len.as_slice());
        push_bytes(&mut msg, content.as_slice());
        assert(msg@ =~= frame_of(instruction_body(*self)));
        msg
    }
}

/// Reads a complete reply of the device.
pub fn parse_reply(b: &[u8]) -> (r: Result<Response, ReplyError>)
    ensures
        parses_to(b@, r),
{
    if b.len() < 2 {
        return Err(ReplyError::SerialCorrupted);
    }
    if b[0] == 0xff {
        return Err(ReplyError::WalletError(WalletError::from_code(b[1])));
    }
    if b[0] != 0 {
        return Err(ReplyError::SerialCorrupted);
    }
    let kind = b[1];
    if kind == 0 && b.len() == 67 {
        let r: [u8; 32] = read_array(b, 2);
        let s: [u8; 32] = read_array(b, 34);
        let resp = Response::Signature(Signature { r, s, v: b[66] });
        assert(response_bytes(resp) =~= b@.drop_first());
        Ok(resp)
    } else if kind == 1 && b.len() == 86 {
        let addr: [u8; 20] = read_array(b, 2);
        let pubkey: [u8; 64] = read_array(b, 22);
        let resp = Response::Address(addr, pubkey);
        assert(response_bytes(resp) =~= b@.drop_first());
        Ok(resp)
    } else if kind == 2 && b.len() == 642 {
        let list: [[u8; 20]; 32] = read_rows(b, 2);
        let resp = Response::AddressList(list);
        proof {
            let body = b@.subrange(2, 642);
            let rv = rows_view(list);
            assert(rv == chunks(body, 32, 20));
            assert forall|i: int| 0 <= i < 32 implies (#[trigger] rv[i]).len() == 20 by {}
            crate::bytes::lemma_flatten_rows(rv, 20);
            assert forall|k: int| 0 <= k < 640 implies rv.flatten()[k] == body[k] by {
                let i = k / 20;
                let j = k % 20;
                assert(k == 20 * i + j);
                assert(rv[i][j] == body[20 * i + j]);
            }
            assert(rv.flatten() =~= body);
            assert(response_bytes(resp) =~= b@.drop_first());
        }
        Ok(resp)
    } else {
        Err(ReplyError::SerialCorrupted)
    }
}

/// A transfer before signing, in the field order of its RLP list:
/// `(nonce, gas_price, gas_limit, to, value, data, chainid, 0, 0)`. The value
/// is the big-endian magnitude of the amount.
pub struct UnsignedTx {
    pub nonce: u64,
    pub gas_price: u64,
    pub gas_limit: u64,
    pub to: [u8; 20],
    pub value: Vec<u8>,
    pub data: Vec<u8>,
    pub chainid: u32,
    pub _zero1: u8,
    pub _zero2: u8,
}

/// A signed transfer; `chainid` carries the replay-protected recovery value.
pub struct SignedTx {
    pub nonce: u64,
    pub gas_price: u64,
    pub gas_limit: u64,
    pub to: [u8; 20],
    pub value: Vec<u8>,
    pub data: Vec<u8>,
    pub chainid: u32,
    pub r: [u8; 32],
    pub s: [u8; 32],
}

impl UnsignedTx {
    /// Attaches a signature, with the recovery value `v + 2 * chainid + 35`.
    pub fn into_signed(self, sig: Signature) -> (r: SignedTx)
        requires
            sig.v + 2 * self.chainid + 35 <= u32::MAX,
        ensures
            r.nonce == self.nonce,
            r.gas_price == self.gas_price,
            r.gas_limit == self.gas_limit,
            r.to == self.to,
            r.value@ == self.value@,
            r.data@ == self.data@,
            r.chainid == sig.v + 2 * self.chainid + 35,
            r.r == sig.r,
            r.s == sig.s,
    {
        SignedTx {
            nonce: self.nonce,
            gas_price: self.gas_price,
            gas_limit: self.gas_limit,
            to: self.to,
            value: self.value,
            data: self.data,
            chainid: sig.v as u32 + self.chainid * 2 + 35,
            r: sig.r,
            s: sig.s,
        }
    }
}

/// Length of the payload that follows a success status and response kind
/// `kind`; `None` for a kind that no response has.
pub fn reply_payload_len(kind: u8) -> (r: Option<usize>)
    ensures
        payload_len(kind) < 0 <==> r is None,
        r is Some ==> r->0 == payload_len(kind),
{
    match kind {
        0 => Some(65),
        1 => Some(84),
        2 => Some(640),
        _ => None,
    }
}

/// Two responses with the same bytes are the same response.
proof fn lemma_response_bytes_injective(a: Response, b: Response)
    requires
        response_bytes(a) == response_bytes(b),
    ensures
        a == b,
{
    let e = response_bytes(a);
    assert(e[0] == response_bytes(b)[0]);
    match a {
        Response::Signature(sa) => {
            let sb = b->Signature_0;
            assert(sa.r@ =~= e.subrange(1, 33) && sb.r@ =~= e.subrange(1, 33));
            assert(sa.s@ =~= e.subrange(33, 65) && sb.s@ =~= e.subrange(33, 65));
            assert(sa.v == e[65] && sb.v == e[65]);
            assert(sa.r == sb.r && sa.s == sb.s);
        },
        Response::Address(aa, pa) => {
            let ab = b->Address_0;
            let pb = b->Address_1;
            assert(aa@ =~= e.subrange(1, 21) && ab@ =~= e.subrange(1, 21));
            assert(pa@ =~= e.subrange(21, 85) && pb@ =~= e.subrange(21, 85));
            assert(aa == ab && pa == pb);
        },
        Response::AddressList(la) => {
            let lb = b->AddressList_0;
            let va = rows_view(la);
            let vb = rows_view(lb);
            assert forall|i: int| 0 <= i < 32 implies (#[trigger] va[i]).len() == 20 by {}
            assert forall|i: int| 0 <= i < 32 implies (#[trigger] vb[i]).len() == 20 by {}
            crate::bytes::lemma_chunks_of_flatten(va, 20);
            crate::bytes::lemma_chunks_of_flatten(vb, 20);
            assert(va.flatten() =~= e.drop_first());
            assert(vb.flatten() =~= e.drop_first());
            assert forall|i: int| 0 <= i < 32 implies la[i] == lb[i] by {
                assert(va[i] == vb[i]);
            }
            assert(la == lb);
        },
    }
}

/// The host reads back exactly the response that the device encoded.
pub proof fn lemma_reply_round_trip(resp: Response, r: Result<Response, ReplyError>)
    requires
        parses_to(reply_bytes(Ok::<Response, crate::error::Error>(resp)), r),
    ensures
        r == Ok::<Response, ReplyError>(resp),
{
    let b = reply_bytes(Ok::<Response, crate::error::Error>(resp));
    assert(b.drop_first() =~= response_bytes(resp));
    match resp {
        Response::Signature(_) => {},
        Response::Address(_, _) => {},
        Response::AddressList(l) => {
            let v = rows_view(l);
            assert forall|i: int| 0 <= i < 32 implies (#[trigger] v[i]).len() == 20 by {}
            crate::bytes::lemma_flatten_rows(v, 20);
        },
    }
    lemma_response_bytes_injective(r->Ok_0, resp);
}

/// The host reads a device error as the error of the same code.
pub proof fn lemma_error_reply_round_trip(e: crate::error::Error, r: Result<Response, ReplyError>)
    requires
        parses_to(reply_bytes(Err::<Response, crate::error::Error>(e)), r),
    ensures
        r == Err::<Response, ReplyError>(ReplyError::WalletError(wallet_error_of(crate::error::error_code(e)))),
        wallet_error_of(crate::error::error_code(e)) != WalletError::UnknownError,
{
}

/// Reading the rest of a body puts it in the buffer and finishes the frame.
proof fn lemma_read_body(m: MsgBufferView, rest: Seq<u8>)
    requires
        m.state is Reading,
        m.state->Reading_0 + rest.len() == m.msg_len,
        rest.len() >= 1,
        m.buf.len() == MAX_MSG_LEN,
        m.msg_len < MAX_MSG_LEN,
    ensures
        msg_feed(m, rest).state == MsgBufferState::Finished,
        msg_feed(m, rest).msg_len == m.msg_len,
        msg_feed(m, rest).buf.len() == MAX_MSG_LEN,
        msg_feed(m, rest).buf.subrange(0, m.msg_len as int) == m.buf.subrange(
            0,
            m.state->Reading_0 as int,
        ) + rest,
    decreases rest.len(),
{
    let k = m.state->Reading_0;
    let next = msg_step(m, rest[0]);
    assert(next.buf == m.buf.update(k as int, rest[0]));
    if rest.len() == 1 {
        assert(next.state == MsgBufferState::Finished);
        assert(msg_feed(next, rest.drop_first()) == next);
        assert(next.buf.subrange(0, m.msg_len as int) =~= m.buf.subrange(0, k as int) + rest);
    } else {
        assert(next.state == MsgBufferState::Reading((k + 1) as u32));
        lemma_read_body(next, rest.drop_first());
        assert(next.buf.subrange(0, k + 1) =~= m.buf.subrange(0, k as int) + seq![rest[0]]);
        assert(seq![rest[0]] + rest.drop_first() =~= rest);
        assert(m.buf.subrange(0, k as int) + seq![rest[0]] + rest.drop_first() =~= m.buf.subrange(
            0,
            k as int,
        ) + rest);
    }
}

/// A frame that the host builds for a body shorter than the framer's bound
/// leaves the device's framer finished, holding that body.
pub proof fn lemma_frame_reaches_device(body: Seq<u8>)
    requires
        1 <= body.len() < MAX_MSG_LEN,
    ensures
        msg_feed(msg_initial(), frame_of(body)).state == MsgBufferState::Finished,
        msg_feed(msg_initial(), frame_of(body)).buf.subrange(0, body.len() as int) == body,
        msg_feed(msg_initial(), frame_of(body)).msg_len == body.len(),
{
    reveal_with_fuel(pow256, 4);
    let n = body.len() as u32;
    let len = le_bytes(n);
    let s = frame_of(body);
    let b0 = (n & 0xff) as u8;
    let b1 = ((n >> 8u32) & 0xff) as u8;
    let b2 = ((n >> 16u32) & 0xff) as u8;
    let b3 = ((n >> 24u32) & 0xff) as u8;
    assert(b0 + 256 * b1 + 65536 * b2 + 16777216 * b3 == n) by (bit_vector)
        requires
            b0 == (n & 0xff) as u8,
            b1 == ((n >> 8u32) & 0xff) as u8,
            b2 == ((n >> 16u32) & 0xff) as u8,
            b3 == ((n >> 24u32) & 0xff) as u8,
    ;
    let m0 = msg_initial();
    let m1 = msg_step(m0, s[0]);
    let m2 = msg_step(m1, s[1]);
    let m3 = msg_step(m2, s[2]);
    let m4 = msg_step(m3, s[3]);
    let m5 = msg_step(m4, s[4]);
    assert(s[0] == MSG_MAGIC);
    assert(s[1] == b0 && s[2] == b1 && s[3] == b2 && s[4] == b3);
    assert(pow256(0) == 1 && pow256(1) == 256 && pow256(2) == 65536 && pow256(3) == 16777216);
    assert(m1.state == MsgBufferState::PendingLen(0) && m1.msg_len == 0);
    assert(b0 * pow256(0) == b0 && b1 * pow256(1) == 256 * b1) by (nonlinear_arith)
        requires
            pow256(0) == 1,
            pow256(1) == 256,
    ;
    assert(m2.state == MsgBufferState::PendingLen(1));
    assert(m2.msg_len == b0);
    assert(m3.state == MsgBufferState::PendingLen(2) && m3.msg_len == b0 + 256 * b1);
    assert(m4.state == MsgBufferState::PendingLen(3) && m4.msg_len == b0 + 256 * b1 + 65536 * b2);
    assert(m5.msg_len == n);
    assert(m5.state == MsgBufferState::Reading(0));
    let t1 = s.drop_first();
    let t2 = t1.drop_first();
    let t3 = t2.drop_first();
    let t4 = t3.drop_first();
    let t5 = t4.drop_first();
    assert(t5 =~= body);
    assert(msg_feed(m0, s) == msg_feed(m1, t1));
    assert(msg_feed(m1, t1) == msg_feed(m2, t2));
    assert(msg_feed(m2, t2) == msg_feed(m3, t3));
    assert(msg_feed(m3, t3) == msg_feed(m4, t4));
    assert(msg_feed(m4, t4) == msg_feed(m5, t5));
    lemma_read_body(m5, body);
    assert(m5.buf.subrange(0, 0) + body =~= body);
}

/// The device decodes the very instruction that the host framed.
pub proof fn lemma_instruction_round_trip(i: Instruction, r: Result<Instruction, crate::error::Error>)
    requires
        instruction_body(i).len() < MAX_MSG_LEN,
        i is SignTransaction ==> i->SignTransaction_1@.len() >= 1,
        decodes_to(instruction_body(i), r),
    ensures
        msg_feed(msg_initial(), frame_of(instruction_body(i))).state == MsgBufferState::Finished,
        msg_feed(msg_initial(), frame_of(instruction_body(i))).buf.subrange(
            0,
            instruction_body(i).len() as int,
        ) == instruction_body(i),
        r is Ok,
        instruction_body(r->Ok_0) == instruction_body(i),
{
    let b = instruction_body(i);
    lemma_frame_reaches_device(b);
    match i {
        Instruction::SignTransaction(idx, raw) => {
            assert(b[0] == 0 && b[1] == idx);
            let out = r->Ok_0;
            assert(instruction_body(out) =~= b);
        },
        Instruction::GetAddress(_) => {},
        Instruction::GetAddressList => {},
    }
}

} // verus!
