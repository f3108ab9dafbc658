//! Core of a hardware signing wallet: an encrypted key store kept in
//! redundant, checksummed flash copies, passcode-derived stream-cipher
//! protection of the keys, self-checking ECDSA signing, and the byte-level
//! serial protocol (framer, instruction decoder, response encoder) that
//! drives it.

pub mod error;
pub mod bytes;
pub mod crypto;
pub mod safe_zone;
pub mod input;
pub mod wallet;
pub mod store;
pub mod dispatch;
pub mod initializer;
pub mod host;
