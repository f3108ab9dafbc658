//! Byte-at-a-time input buffers fed by interrupts: the passcode reader and
//! the serial message framer.
use vstd::prelude::*;

use crate::error::Error;
use crate::safe_zone::FIXED_KEY_LEN;

verus! {

/// State of the passcode reader.
#[derive(Clone, Copy, Debug, PartialEq, Eq, Structural)]
pub enum KeyInputState {
    Reading(usize),
    Finished,
}

/// Fixed-length buffer of passcode digits.
#[derive(Clone, Copy, Debug)]
pub struct KeyInputBuffer {
    pub buf: [u8; FIXED_KEY_LEN],
    pub state: KeyInputState,
}

impl KeyInputBuffer {
    /// The reader has a position inside the buffer.
    pub open spec fn wf(&self) -> bool {
        match self.state {
            KeyInputState::Reading(p) => p < FIXED_KEY_LEN,
            KeyInputState::Finished => true,
        }
    }

    /// An empty buffer waiting for its first digit.
    pub fn new() -> (r: Self)
        ensures
            r.wf(),
            r.state == KeyInputState::Reading(0),
            r.buf@ == Seq::new(FIXED_KEY_LEN as nat, |i: int| 0u8),
    {
        let r = KeyInputBuffer { buf: [0u8; FIXED_KEY_LEN], state: KeyInputState::Reading(0) };
        assert(r.buf@ =~= Seq::new(FIXED_KEY_LEN as nat, |i: int| 0u8));
        r
    }

    /// Accepts one digit; once the buffer is full further digits are ignored.
    pub fn read(&mut self, byte: u8)
        requires
            old(self).wf(),
        ensures
            final(self).wf(),
            match old(self).state {
                KeyInputState::Reading(p) => {
                    &&& final(self).buf@ == old(self).buf@.update(p as int, byte)
                    &&& final(self).state == if p + 1 < FIXED_KEY_LEN {
                        KeyInputState::Reading((p + 1) as usize)
                    } else {
                        KeyInputState::Finished
                    }
                },
                KeyInputState::Finished => *final(self) == *old(self),
            },
    {
        match self.state {
            KeyInputState::Reading(p) => {
                self.buf[p] = byte;
                if p + 1 < FIXED_KEY_LEN {
                    self.state = KeyInputState::Reading(p + 1);
                } else {
                    self.state = KeyInputState::Finished;
                }
            },
            KeyInputState::Finished => {},
        }
    }

    /// Hands out the passcode once it is complete, and empties the buffer for
    /// the next use; an incomplete passcode stays where it is.
    pub fn take_passcode(&mut self) -> (r: Option<[u8; FIXED_KEY_LEN]>)
        requires
            old(self).wf(),
        ensures
            final(self).wf(),
            old(self).state == KeyInputState::Finished ==> r == Some(old(self).buf)
                && final(self).state == KeyInputState::Reading(0) && final(self).buf@ == Seq::new(
                FIXED_KEY_LEN as nat,
                |i: int| 0u8,
            ),
            old(self).state != KeyInputState::Finished ==> r is None && *final(self) == *old(self),
    {
        match self.state {
            KeyInputState::Finished => {
                let out = self.buf;
                *self = KeyInputBuffer::new();
                Some(out)
            },
            KeyInputState::Reading(_) => None,
        }
    }
}

/// The seven-segment pattern of the digit behind a keypad scan code, or
/// `None` for a key that is not a digit. Bit `k` lights segment `k`: 7 top,
/// 6 upper right, 5 lower right, 4 bottom, 3 lower left, 2 upper left,
/// 1 middle.
pub open spec fn segled_of(val: u8) -> Option<u8> {
    if val == 28 {
        Some(0x60u8)
    } else if val == 27 {
        Some(0xdau8)
    } else if val == 26 {
        Some(0xf2u8)
    } else if val == 20 {
        Some(0x66u8)
    } else if val == 19 {
        Some(0xb6u8)
    } else if val == 18 {
        Some(0xbeu8)
    } else if val == 12 {
        Some(0xe0u8)
    } else if val == 11 {
        Some(0xfeu8)
    } else if val == 10 {
        Some(0xf6u8)
    } else if val == 3 {
        Some(0xfcu8)
    } else {
        None
    }
}

/// Maps a keypad scan code to the segments of its digit.
pub fn to_segled_value(val: u8) -> (r: Option<u8>)
    ensures
        r == segled_of(val),
{
    match val {
        28 => Some(0x60u8),
        27 => Some(0xdau8),
        26 => Some(0xf2u8),
        20 => Some(0x66u8),
        19 => Some(0xb6u8),
        18 => Some(0xbeu8),
        12 => Some(0xe0u8),
        11 => Some(0xfeu8),
        10 => Some(0xf6u8),
        3 => Some(0xfcu8),
        _ => None,
    }
}

/// First byte of every frame.
pub const MSG_MAGIC: u8 = 0xff;

/// Bound on the length of a frame's body (exclusive).
pub const MAX_MSG_LEN: usize = 1024;

/// State of the message framer.
#[derive(Clone, Copy, Debug, PartialEq, Eq, Structural)]
pub enum MsgBufferState {
    PendingStart,
    PendingLen(u8),
    Reading(u32),
    Finished,
    Error(Error),
}

/// A frame being received: `MSG_MAGIC`, a little-endian `u32` length, then
/// that many bytes of body.
#[derive(Clone, Copy)]
pub struct MsgBuffer {
    pub buf: [u8; MAX_MSG_LEN],
    pub msg_len: u32,
    pub state: MsgBufferState,
}

/// The framer as a value: body bytes, length field, state.
pub struct MsgBufferView {
    pub buf: Seq<u8>,
    pub msg_len: nat,
    pub state: MsgBufferState,
}

/// `256` to the power `p`.
pub open spec fn pow256(p: nat) -> nat
    decreases p,
{
    if p == 0 {
        1
    } else {
        256 * pow256((p - 1) as nat)
    }
}

/// One step of the framer on one byte.
pub open spec fn msg_step(m: MsgBufferView, byte: u8) -> MsgBufferView {
    match m.state {
        MsgBufferState::PendingStart => MsgBufferView {
            state: if byte == MSG_MAGIC {
                MsgBufferState::PendingLen(0)
            } else {
                MsgBufferState::PendingStart
            },
            ..m
        },
        MsgBufferState::PendingLen(p) => {
            let len = (m.msg_len + byte * pow256(p as nat)) as nat;
            MsgBufferView {
                msg_len: len,
                state: if p == 3 {
                    if len == 0 {
                        MsgBufferState::Finished
                    } else if len >= MAX_MSG_LEN {
                        MsgBufferState::Error(Error::SerialDataCorrupted)
                    } else {
                        MsgBufferState::Reading(0)
                    }
                } else {
                    MsgBufferState::PendingLen((p + 1) as u8)
                },
                ..m
            }
        },
        MsgBufferState::Reading(cur) => MsgBufferView {
            buf: m.buf.update(cur as int, byte),
            state: if cur + 1 == m.msg_len {
                MsgBufferState::Finished
            } else {
                MsgBufferState::Reading((cur + 1) as u32)
            },
            ..m
        },
        _ => m,
    }
}

/// The framer after the bytes, fed one at a time in order.
pub open spec fn msg_feed(m: MsgBufferView, bytes: Seq<u8>) -> MsgBufferView
    decreases bytes.len(),
{
    if bytes.len() == 0 {
        m
    } else {
        msg_feed(msg_step(m, bytes[0]), bytes.drop_first())
    }
}

/// A framer that has not seen a byte.
pub open spec fn msg_initial() -> MsgBufferView {
    MsgBufferView {
        buf: Seq::new(MAX_MSG_LEN as nat, |i: int| 0u8),
        msg_len: 0,
        state: MsgBufferState::PendingStart,
    }
}

impl View for MsgBuffer {
    type V = MsgBufferView;

    open spec fn view(&self) -> MsgBufferView {
        MsgBufferView { buf: self.buf@, msg_len: self.msg_len as nat, state: self.state }
    }
}

impl MsgBuffer {
    /// The length field read so far fits the bytes read so far, and a body
    /// being read lies inside the buffer.
    pub open spec fn wf(&self) -> bool {
        match self.state {
            MsgBufferState::PendingStart => self.msg_len == 0,
            MsgBufferState::PendingLen(p) => p < 4 && (self.msg_len as nat) < pow256(p as nat),
            MsgBufferState::Reading(cur) => cur < self.msg_len && self.msg_len < MAX_MSG_LEN,
            MsgBufferState::Finished => self.msg_len < MAX_MSG_LEN,
            MsgBufferState::Error(_) => true,
        }
    }

    /// An empty framer waiting for the magic byte.
    pub fn new() -> (r: Self)
        ensures
            r.wf(),
            r@ == msg_initial(),
    {
        let r = MsgBuffer { buf: [0u8; MAX_MSG_LEN], msg_len: 0, state: MsgBufferState::PendingStart };
        assert(r.buf@ =~= Seq::new(MAX_MSG_LEN as nat, |i: int| 0u8));
        r
    }

    /// Feeds one received byte to the framer.
    pub fn read(&mut self, byte: u8)
        requires
            old(self).wf(),
        ensures
            final(self).wf(),
            final(self)@ == msg_step(old(self)@, byte),
    {
        match self.state {
            MsgBufferState::PendingStart => {
                if byte == MSG_MAGIC {
                    self.state = MsgBufferState::PendingLen(0);
                }
            },
            MsgBufferState::PendingLen(p) => {
                let old_len = self.msg_len;
                self.msg_len = old_len | ((byte as u32) << ((p as u32) * 8));
                proof { lemma_or_shift_is_add(old_len, byte, p); }
                if p == 3 {
                    if self.msg_len == 0 {
                        self.state = MsgBufferState::Finished;
                    } else if self.msg_len >= MAX_MSG_LEN as u32 {
                        self.state = MsgBufferState::Error(Error::SerialDataCorrupted);
                    } else {
                        self.state = MsgBufferState::Reading(0);
                    }
                } else {
                    self.state = MsgBufferState::PendingLen(p + 1);
                }
            },
            MsgBufferState::Reading(cur) => {
                self.buf[cur as usize] = byte;
                if cur + 1 == self.msg_len {
                    self.state = MsgBufferState::Finished;
                } else {
                    self.state = MsgBufferState::Reading(cur + 1);
                }
            },
            _ => {},
        }
    }

    /// A fault of the serial hardware: the frame is abandoned.
    pub fn set_rx_error(&mut self)
        ensures
            final(self).wf(),
            final(self)@ == (MsgBufferView {
                state: MsgBufferState::Error(Error::SerialTxError),
                ..old(self)@
            }),
    {
        self.state = MsgBufferState::Error(Error::SerialTxError);
    }

    /// The body of a finished frame.
    pub fn body(&self) -> (r: Vec<u8>)
        requires
            self.wf(),
            self.state == MsgBufferState::Finished,
        ensures
            r@ == self.buf@.subrange(0, self.msg_len as int),
    {
        let mut out: Vec<u8> = Vec::new();
        let n = self.msg_len as usize;
        let mut i: usize = 0;
        while i < n
            invariant
                n == self.msg_len,
                n < MAX_MSG_LEN,
                0 <= i <= n,
                out@ == self.buf@.subrange(0, i as int),
            decreases n - i,
        {
            out.push(self.buf[i]);
            assert(out@ =~= self.buf@.subrange(0, i + 1));
            i += 1;
        }
        out
    }
}

/// Adding byte `b` at position `p` of a length whose higher bytes are zero.
proof fn lemma_or_shift_is_add(x: u32, b: u8, p: u8)
    requires
        p < 4,
        (x as nat) < pow256(p as nat),
    ensures
        (x | ((b as u32) << ((p as u32) * 8))) as nat == x + b * pow256(p as nat),
        ((x | ((b as u32) << ((p as u32) * 8))) as nat) < pow256((p + 1) as nat),
{
    reveal_with_fuel(pow256, 5);
    let bb = b as u32;
    if p == 0 {
        assert((p as u32) * 8 == 0);
        assert(x == 0);
        assert((x | (bb << 0u32)) == bb && bb < 256) by (bit_vector)
            requires
                x == 0,
                bb < 256,
        ;
    } else if p == 1 {
        assert((p as u32) * 8 == 8);
        assert((x | (bb << 8u32)) == x + bb * 256 && x + bb * 256 < 0x10000) by (bit_vector)
            requires
                x < 0x100,
                bb < 0x100,
        ;
    } else if p == 2 {
        assert((p as u32) * 8 == 16);
        assert((x | (bb << 16u32)) == x + bb * 0x10000 && x + bb * 0x10000 < 0x1000000)
            by (bit_vector)
            requires
                x < 0x10000,
                bb < 0x100,
        ;
    } else {
        assert((p as u32) * 8 == 24);
        assert((x | (bb << 24u32)) == x + bb * 0x1000000) by (bit_vector)
            requires
                x < 0x1000000,
                bb < 0x100,
        ;
    }
}

/// Once the framer is in its error state, no byte takes it out.
pub proof fn lemma_error_absorbs(m: MsgBufferView, bytes: Seq<u8>)
    requires
        m.state is Error,
    ensures
        msg_feed(m, bytes) == m,
    decreases bytes.len(),
{
    if bytes.len() > 0 {
        lemma_error_absorbs(msg_step(m, bytes[0]), bytes.drop_first());
    }
}

/// A frame whose length field is 1024 or more puts the framer in its error
/// state, whatever bytes follow.
pub proof fn lemma_oversized_length_rejected(len: Seq<u8>, rest: Seq<u8>)
    requires
        len.len() == 4,
        len[0] + 256 * len[1] + 65536 * len[2] + 16777216 * len[3] >= MAX_MSG_LEN,
    ensures
        msg_feed(msg_initial(), seq![MSG_MAGIC] + len + rest).state == MsgBufferState::Error(
            Error::SerialDataCorrupted,
        ),
{
    reveal_with_fuel(pow256, 4);
    let s = seq![MSG_MAGIC] + len + rest;
    let m0 = msg_initial();
    let m1 = msg_step(m0, s[0]);
    let m2 = msg_step(m1, s[1]);
    let m3 = msg_step(m2, s[2]);
    let m4 = msg_step(m3, s[3]);
    let m5 = msg_step(m4, s[4]);
    assert(s[0] == MSG_MAGIC);
    assert(s[1] == len[0] && s[2] == len[1] && s[3] == len[2] && s[4] == len[3]);
    assert(pow256(0) == 1 && pow256(1) == 256 && pow256(2) == 65536 && pow256(3) == 16777216);
    assert(m1.state == MsgBufferState::PendingLen(0) && m1.msg_len == 0);
    assert(m2.state == MsgBufferState::PendingLen(1) && m2.msg_len == len[0]);
    assert(m3.state == MsgBufferState::PendingLen(2) && m3.msg_len == len[0] + 256 * len[1]);
    assert(m4.state == MsgBufferState::PendingLen(3) && m4.msg_len == len[0] + 256 * len[1]
        + 65536 * len[2]);
    assert(m5.msg_len == len[0] + 256 * len[1] + 65536 * len[2] + 16777216 * len[3]);
    assert(m5.state == MsgBufferState::Error(Error::SerialDataCorrupted));
    assert(s.drop_first().drop_first().drop_first().drop_first().drop_first() =~= rest);
    assert(msg_feed(m0, s) == msg_feed(m1, s.drop_first()));
    assert(msg_feed(m1, s.drop_first()) == msg_feed(m2, s.drop_first().drop_first()));
    assert(msg_feed(m2, s.drop_first().drop_first()) == msg_feed(
        m3,
        s.drop_first().drop_first().drop_first(),
    ));
    assert(msg_feed(m3, s.drop_first().drop_first().drop_first()) == msg_feed(
        m4,
        s.drop_first().drop_first().drop_first().drop_first(),
    ));
    assert(msg_feed(m4, s.drop_first().drop_first().drop_first().drop_first()) == msg_feed(
        m5,
        rest,
    ));
    lemma_error_absorbs(m5, rest);
}

} // verus!
