use vstd::prelude::*;

verus! {

/// Errors reported by the device; each one travels as a single byte on the
/// serial link, in declaration order.
#[derive(Clone, Copy, Debug, PartialEq, Eq, Structural)]
pub enum Error {
    HalInitError,
    AccountIdxOOB,
    CryptoError,
    InvalidSerialConfig,
    InvalidInstruction,
    SerialDataCorrupted,
    WrongPassword,
    SerialTxError,
    I2cError,
    WalletNotInitialized,
}

/// The wire byte of each error.
pub open spec fn error_code(e: Error) -> u8 {
    match e {
        Error::HalInitError => 0,
        Error::AccountIdxOOB => 1,
        Error::CryptoError => 2,
        Error::InvalidSerialConfig => 3,
        Error::InvalidInstruction => 4,
        Error::SerialDataCorrupted => 5,
        Error::WrongPassword => 6,
        Error::SerialTxError => 7,
        Error::I2cError => 8,
        Error::WalletNotInitialized => 9,
    }
}

impl Error {
    /// The byte that stands for this error on the serial link.
    pub fn code(&self) -> (r: u8)
        ensures
            r == error_code(*self),
    {
        match self {
            Error::HalInitError => 0,
            Error::AccountIdxOOB => 1,
            Error::CryptoError => 2,
            Error::InvalidSerialConfig => 3,
            Error::InvalidInstruction => 4,
            Error::SerialDataCorrupted => 5,
            Error::WrongPassword => 6,
            Error::SerialTxError => 7,
            Error::I2cError => 8,
            Error::WalletNotInitialized => 9,
        }
    }
}

} // verus!
