use ethdwallet::dispatch::{dispatch, encode_reply, process_frame, Instruction, Response, Session};
use ethdwallet::error::Error;
use ethdwallet::host::{parse_reply, reply_payload_len, ReplyError, UnsignedTx, WalletError};
use ethdwallet::safe_zone::Signature;
use ethdwallet::initializer::initialize_wallet;
use ethdwallet::input::MsgBuffer;
use ethdwallet::wallet::Wallet;

const PASS: [u8; 8] = [1, 2, 3, 4, 5, 6, 7, 8];
const IV: [u8; 12] = [7; 12];

fn secrets() -> [[u8; 32]; 32] {
    let mut s = [[0u8; 32]; 32];
    for (i, row) in s.iter_mut().enumerate() {
        row[31] = i as u8 + 1;
    }
    s
}

fn provisioned() -> Wallet {
    initialize_wallet(PASS, IV, &secrets()).unwrap()
}

fn frame(body: &[u8]) -> MsgBuffer {
    let mut buf = MsgBuffer::new();
    buf.read(0xff);
    for b in (body.len() as u32).to_le_bytes() {
        buf.read(b);
    }
    for b in body {
        buf.read(*b);
    }
    buf
}

fn reply(body: &[u8], w: &Wallet, session: &mut Session, passcode: Option<[u8; 8]>) -> Vec<u8> {
    process_frame(&frame(body), w, session, passcode).unwrap()
}

#[test]
fn dispatch_address_list() {
    let w = provisioned();
    let mut session = Session::new();
    let r = reply(&[0x02], &w, &mut session, None);
    assert_eq!(r.len(), 2 + 640);
    assert_eq!(&r[..2], &[0x00, 0x02]);
    for i in 0..32 {
        assert_eq!(&r[2 + 20 * i..22 + 20 * i], &w.addrs[i][..]);
    }
    assert!(session.cipher.is_none());
}

#[test]
fn dispatch_get_address() {
    let w = provisioned();
    let mut session = Session::new();
    let r = reply(&[0x01, 5], &w, &mut session, None);
    assert_eq!(r.len(), 2 + 20 + 64);
    assert_eq!(&r[..2], &[0x00, 0x01]);
    assert_eq!(&r[2..22], &w.addrs[5][..]);
    assert_eq!(&r[22..], &w.pubkeys[5][..]);
}

#[test]
fn dispatch_get_address_twice_is_identical() {
    let w = provisioned();
    let mut session = Session::new();
    let a = reply(&[0x01, 9], &w, &mut session, None);
    let b = reply(&[0x01, 9], &w, &mut session, None);
    assert_eq!(a, b);
}

#[test]
fn dispatch_get_address_out_of_range() {
    let w = provisioned();
    let mut session = Session::new();
    assert_eq!(reply(&[0x01, 32], &w, &mut session, None), vec![0xff, 1]);
    assert_eq!(reply(&[0x01, 255], &w, &mut session, None), vec![0xff, 1]);
}

#[test]
fn dispatch_uninitialized_wallet() {
    let w = Wallet::new();
    let mut session = Session::new();
    assert_eq!(reply(&[0x02], &w, &mut session, None), vec![0xff, 9]);
    assert_eq!(reply(&[0x00, 0, 1, 2], &w, &mut session, Some(PASS)), vec![0xff, 9]);
}

#[test]
fn dispatch_invalid_instructions() {
    let w = provisioned();
    let mut session = Session::new();
    for body in [&[0x02, 0x00][..], &[0x01][..], &[0x01, 1, 2][..], &[0x00, 1][..], &[0x03][..]] {
        assert_eq!(reply(body, &w, &mut session, Some(PASS)), vec![0xff, 4]);
    }
    let empty = process_frame(&frame(&[]), &w, &mut session, None).unwrap();
    assert_eq!(empty, vec![0xff, 4]);
    assert!(session.cipher.is_none());
}

#[test]
fn dispatch_sign_unlocks_once() {
    let w = provisioned();
    let mut session = Session::new();
    let mut body = vec![0x00, 4];
    body.extend_from_slice(&[0x5a; 32]);
    assert!(session.needs_passcode(&body, &w));
    let r = reply(&body, &w, &mut session, Some(PASS));
    assert_eq!(r.len(), 2 + 65);
    assert_eq!(&r[..2], &[0x00, 0x00]);
    assert!(session.cipher.is_some());
    assert!(!session.needs_passcode(&body, &w));
    let again = reply(&body, &w, &mut session, None);
    assert_eq!(r, again);
}

#[test]
fn dispatch_sign_wrong_passcode() {
    let w = provisioned();
    let mut session = Session::new();
    let mut body = vec![0x00, 0];
    body.extend_from_slice(&[1; 32]);
    assert_eq!(reply(&body, &w, &mut session, Some([0; 8])), vec![0xff, 6]);
    assert!(session.cipher.is_none());
    assert_eq!(reply(&body, &w, &mut session, None), vec![0xff, 6]);
}

#[test]
fn dispatch_sign_out_of_range_account() {
    let w = provisioned();
    let mut session = Session::new();
    let mut body = vec![0x00, 40];
    body.extend_from_slice(&[1; 32]);
    assert_eq!(reply(&body, &w, &mut session, Some(PASS)), vec![0xff, 1]);
    assert!(session.cipher.is_some());
}

#[test]
fn dispatch_direct_call() {
    let w = provisioned();
    let mut session = Session::new();
    match dispatch(&[0x01, 0], &w, &mut session, None) {
        Ok(Response::Address(a, p)) => {
            assert_eq!(a, w.addrs[0]);
            assert_eq!(p, w.pubkeys[0]);
        },
        _ => panic!("expected an address"),
    }
}

#[test]
fn frame_errors_are_reported() {
    let w = provisioned();
    let mut session = Session::new();
    let mut buf = MsgBuffer::new();
    for b in [0xff, 0x00, 0x10, 0x00, 0x00] {
        buf.read(b);
    }
    assert_eq!(process_frame(&buf, &w, &mut session, None), Some(vec![0xff, 5]));
    let mut buf = MsgBuffer::new();
    buf.set_rx_error();
    assert_eq!(process_frame(&buf, &w, &mut session, None), Some(vec![0xff, 7]));
    let mut partial = MsgBuffer::new();
    partial.read(0xff);
    assert_eq!(process_frame(&partial, &w, &mut session, None), None);
}

#[test]
fn error_codes() {
    assert_eq!(Error::HalInitError.code(), 0);
    assert_eq!(Error::CryptoError.code(), 2);
    assert_eq!(Error::InvalidSerialConfig.code(), 3);
    assert_eq!(Error::SerialTxError.code(), 7);
    assert_eq!(Error::I2cError.code(), 8);
    assert_eq!(Error::WalletNotInitialized.code(), 9);
    assert_eq!(encode_reply(&Err(Error::WrongPassword)), vec![0xff, 6]);
}

#[test]
fn host_builds_frames() {
    assert_eq!(Instruction::GetAddressList.build_msg(), vec![0xff, 1, 0, 0, 0, 2]);
    assert_eq!(Instruction::GetAddress(3).build_msg(), vec![0xff, 2, 0, 0, 0, 1, 3]);
    let sign = Instruction::SignTransaction(1, vec![9, 8, 7]).build_msg();
    assert_eq!(sign, vec![0xff, 5, 0, 0, 0, 0, 1, 9, 8, 7]);
}

#[test]
fn host_frames_reach_the_device() {
    let w = provisioned();
    let mut session = Session::new();
    let mut buf = MsgBuffer::new();
    for b in Instruction::GetAddress(7).build_msg() {
        buf.read(b);
    }
    let bytes = process_frame(&buf, &w, &mut session, None).unwrap();
    match parse_reply(&bytes) {
        Ok(Response::Address(a, p)) => {
            assert_eq!(a, w.addrs[7]);
            assert_eq!(p, w.pubkeys[7]);
        },
        _ => panic!("expected an address"),
    }
}

#[test]
fn host_parses_replies() {
    let w = provisioned();
    let mut session = Session::new();
    let list = reply(&[0x02], &w, &mut session, None);
    match parse_reply(&list) {
        Ok(Response::AddressList(l)) => assert_eq!(l, w.addrs),
        _ => panic!("expected a list"),
    }
    let mut body = vec![0x00, 0];
    body.extend_from_slice(&[2; 32]);
    let sig = reply(&body, &w, &mut session, Some(PASS));
    match parse_reply(&sig) {
        Ok(Response::Signature(s)) => {
            assert_eq!(&s.r[..], &sig[2..34]);
            assert_eq!(&s.s[..], &sig[34..66]);
            assert_eq!(s.v, sig[66]);
        },
        _ => panic!("expected a signature"),
    }
    assert!(matches!(
        parse_reply(&[0xff, 6]),
        Err(ReplyError::WalletError(WalletError::WrongPassword))
    ));
    assert!(matches!(parse_reply(&[0x00, 0x01, 1, 2]), Err(ReplyError::SerialCorrupted)));
    assert!(matches!(parse_reply(&[0x42, 0x00]), Err(ReplyError::SerialCorrupted)));
    assert!(matches!(parse_reply(&[0x00]), Err(ReplyError::SerialCorrupted)));
}

#[test]
fn host_error_codes() {
    assert_eq!(WalletError::from_code(1), WalletError::AccountIdxOOB);
    assert_eq!(WalletError::from_code(9), WalletError::WalletNotInitialized);
    assert_eq!(WalletError::from_code(10), WalletError::UnknownError);
    assert_eq!(WalletError::from_code(0xfe), WalletError::UnknownError);
}

#[test]
fn host_payload_lengths() {
    assert_eq!(reply_payload_len(0), Some(65));
    assert_eq!(reply_payload_len(1), Some(84));
    assert_eq!(reply_payload_len(2), Some(640));
    assert_eq!(reply_payload_len(3), None);
}

#[test]
fn host_signs_transfer_with_replay_protection() {
    let tx = UnsignedTx {
        nonce: 3,
        gas_price: 1_000_000_000,
        gas_limit: 0x5208,
        to: [0x11; 20],
        value: vec![0x0d, 0xe0, 0xb6, 0xb3, 0xa7, 0x64, 0x00, 0x00],
        data: vec![],
        chainid: 4,
        _zero1: 0,
        _zero2: 0,
    };
    let sig = Signature { r: [1; 32], s: [2; 32], v: 1 };
    let signed = tx.into_signed(sig);
    assert_eq!(signed.chainid, 1 + 4 * 2 + 35);
    assert_eq!(signed.nonce, 3);
    assert_eq!(signed.gas_limit, 0x5208);
    assert_eq!(signed.to, [0x11; 20]);
    assert_eq!(signed.value, vec![0x0d, 0xe0, 0xb6, 0xb3, 0xa7, 0x64, 0x00, 0x00]);
    assert_eq!(signed.r, [1; 32]);
    assert_eq!(signed.s, [2; 32]);
}
