use ethdwallet::error::Error;
use ethdwallet::input::{to_segled_value, KeyInputBuffer, KeyInputState, MsgBuffer, MsgBufferState};

fn feed(buf: &mut MsgBuffer, bytes: &[u8]) {
    for b in bytes {
        buf.read(*b);
    }
}

#[test]
fn framer_three_byte_length_waits_for_rest_of_body() {
    let mut buf = MsgBuffer::new();
    feed(&mut buf, &[0xFF, 0x03, 0x00, 0x00, 0x00, 0x02]);
    assert_eq!(buf.msg_len, 3);
    assert_eq!(buf.state, MsgBufferState::Reading(1));
    assert_eq!(buf.buf[0], 0x02);
    feed(&mut buf, &[0x10, 0x20]);
    assert_eq!(buf.state, MsgBufferState::Finished);
    assert_eq!(buf.body(), vec![0x02, 0x10, 0x20]);
}

#[test]
fn framer_one_byte_body_finishes() {
    let mut buf = MsgBuffer::new();
    feed(&mut buf, &[0xFF, 0x01, 0x00, 0x00, 0x00, 0x02]);
    assert_eq!(buf.state, MsgBufferState::Finished);
    assert_eq!(buf.body(), vec![0x02]);
}

#[test]
fn framer_states_step_by_step() {
    let mut buf = MsgBuffer::new();
    assert_eq!(buf.state, MsgBufferState::PendingStart);
    buf.read(0xFF);
    assert_eq!(buf.state, MsgBufferState::PendingLen(0));
    buf.read(0x02);
    assert_eq!(buf.state, MsgBufferState::PendingLen(1));
    buf.read(0x00);
    buf.read(0x00);
    assert_eq!(buf.state, MsgBufferState::PendingLen(3));
    buf.read(0x00);
    assert_eq!(buf.state, MsgBufferState::Reading(0));
    buf.read(0x01);
    assert_eq!(buf.state, MsgBufferState::Reading(1));
    buf.read(0x05);
    assert_eq!(buf.state, MsgBufferState::Finished);
    assert_eq!(buf.body(), vec![0x01, 0x05]);
}

#[test]
fn framer_oversized_length_is_an_error() {
    let mut buf = MsgBuffer::new();
    feed(&mut buf, &[0xFF, 0x00, 0x04, 0x00, 0x00]);
    assert_eq!(buf.state, MsgBufferState::Error(Error::SerialDataCorrupted));
    feed(&mut buf, &[0xFF, 0x01, 0x00, 0x00, 0x00, 0x02, 0x07]);
    assert_eq!(buf.state, MsgBufferState::Error(Error::SerialDataCorrupted));
}

#[test]
fn framer_largest_length_is_accepted() {
    let mut buf = MsgBuffer::new();
    feed(&mut buf, &[0xFF, 0xFF, 0x03, 0x00, 0x00]);
    assert_eq!(buf.msg_len, 1023);
    assert_eq!(buf.state, MsgBufferState::Reading(0));
    for i in 0..1023u32 {
        buf.read((i % 251) as u8);
    }
    assert_eq!(buf.state, MsgBufferState::Finished);
    let body = buf.body();
    assert_eq!(body.len(), 1023);
    assert_eq!(body[1022], (1022 % 251) as u8);
}

#[test]
fn framer_high_length_byte_is_an_error() {
    let mut buf = MsgBuffer::new();
    feed(&mut buf, &[0xFF, 0x01, 0x00, 0x00, 0x01]);
    assert_eq!(buf.msg_len, 0x0100_0001);
    assert_eq!(buf.state, MsgBufferState::Error(Error::SerialDataCorrupted));
}

#[test]
fn framer_zero_length_finishes_empty() {
    let mut buf = MsgBuffer::new();
    feed(&mut buf, &[0xFF, 0x00, 0x00, 0x00, 0x00]);
    assert_eq!(buf.state, MsgBufferState::Finished);
    assert!(buf.body().is_empty());
}

#[test]
fn framer_discards_bytes_before_magic() {
    let mut buf = MsgBuffer::new();
    feed(&mut buf, &[0x00, 0x12, 0xFE]);
    assert_eq!(buf.state, MsgBufferState::PendingStart);
    feed(&mut buf, &[0xFF, 0x01, 0x00, 0x00, 0x00, 0x09]);
    assert_eq!(buf.body(), vec![0x09]);
}

#[test]
fn framer_ignores_bytes_after_finish() {
    let mut buf = MsgBuffer::new();
    feed(&mut buf, &[0xFF, 0x01, 0x00, 0x00, 0x00, 0x02, 0xFF, 0x01]);
    assert_eq!(buf.state, MsgBufferState::Finished);
    assert_eq!(buf.body(), vec![0x02]);
}

#[test]
fn framer_hardware_fault_is_serial_error() {
    let mut buf = MsgBuffer::new();
    feed(&mut buf, &[0xFF, 0x01]);
    buf.set_rx_error();
    assert_eq!(buf.state, MsgBufferState::Error(Error::SerialTxError));
    buf.read(0x00);
    assert_eq!(buf.state, MsgBufferState::Error(Error::SerialTxError));
}

#[test]
fn passcode_reader_fills_eight_digits() {
    let mut keys = KeyInputBuffer::new();
    assert_eq!(keys.state, KeyInputState::Reading(0));
    assert!(keys.take_passcode().is_none());
    for d in 1..=7u8 {
        keys.read(d);
    }
    assert_eq!(keys.state, KeyInputState::Reading(7));
    keys.read(8);
    assert_eq!(keys.state, KeyInputState::Finished);
    keys.read(9);
    assert_eq!(keys.buf, [1, 2, 3, 4, 5, 6, 7, 8]);
    assert_eq!(keys.take_passcode(), Some([1, 2, 3, 4, 5, 6, 7, 8]));
    assert_eq!(keys.state, KeyInputState::Reading(0));
    assert_eq!(keys.buf, [0; 8]);
}

#[test]
fn keypad_scan_codes_map_to_segments() {
    assert_eq!(to_segled_value(28), Some(0b0110_0000));
    assert_eq!(to_segled_value(11), Some(0b1111_1110));
    assert_eq!(to_segled_value(3), Some(0b1111_1100));
    assert_eq!(to_segled_value(10), Some(0b1111_0110));
    assert_eq!(to_segled_value(0), None);
    assert_eq!(to_segled_value(29), None);
}
