//! The errors of this library.
use vstd::prelude::*;

verus! {

/// Why a base64 text could not be decoded (the cases of `base64::DecodeError`).
#[derive(Debug, Clone, Copy, PartialEq, Eq, Structural)]
pub enum DecodeError {
    /// A byte outside the alphabet, with its offset and value.
    InvalidByte(usize, u8),
    /// The number of base64 symbols is not a valid length.
    InvalidLength(usize),
    /// The last symbol encodes bits that would be dropped, with its offset and value.
    InvalidLastSymbol(usize, u8),
    /// Missing, misplaced or superfluous padding.
    InvalidPadding,
}

/// The errors of this library.
#[derive(Debug)]
pub enum Error {
    /// Input ended early or could not be read; the message describes it.
    Io(String),
    /// A `.sig` file did not start with the expected magic number.
    InvalidMagic(u32),
    /// A `.sig` file has a version other than the supported one.
    UnsupportedVersion(i32),
    /// The key configuration is incomplete.
    InvalidIni(String),
    /// The RSA layer refused a key or an operation.
    Rsa(String),
    /// A `.pak` file has no recognisable footer.
    InvalidPak(String),
    /// The signature or the chunk checksums do not match.
    SignatureMismatch,
    /// A key value in the configuration is not valid base64.
    Base64(DecodeError),
}

/// The mathematical value of an [`Error`]: its messages as character sequences.
pub enum ErrorView {
    Io(Seq<char>),
    InvalidMagic(u32),
    UnsupportedVersion(i32),
    InvalidIni(Seq<char>),
    Rsa(Seq<char>),
    InvalidPak(Seq<char>),
    SignatureMismatch,
    Base64(DecodeError),
}

impl View for Error {
    type V = ErrorView;

    open spec fn view(&self) -> ErrorView {
        match self {
            Error::Io(m) => ErrorView::Io(m@),
            Error::InvalidMagic(m) => ErrorView::InvalidMagic(*m),
            Error::UnsupportedVersion(v) => ErrorView::UnsupportedVersion(*v),
            Error::InvalidIni(m) => ErrorView::InvalidIni(m@),
            Error::Rsa(m) => ErrorView::Rsa(m@),
            Error::InvalidPak(m) => ErrorView::InvalidPak(m@),
            Error::SignatureMismatch => ErrorView::SignatureMismatch,
            Error::Base64(e) => ErrorView::Base64(*e),
        }
    }
}

/// The message of the error that reading past the end of the input gives.
pub open spec fn unexpected_eof_message() -> Seq<char> {
    "failed to fill whole buffer"@
}

/// The error for input that ends before a field it must hold.
pub fn unexpected_eof() -> (e: Error)
    ensures
        e@ == ErrorView::Io(unexpected_eof_message()),
{
    Error::Io("failed to fill whole buffer".to_string())
}

} // verus!
