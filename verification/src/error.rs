//! The library's error type.
use serde_json::Error as JsonError;
use vstd::prelude::*;

verus! {

/// `hex::FromHexError`, carried inside [`Error::Hex`].
#[verifier::external_type_specification]
#[verifier::external_body]
pub struct ExFromHexError(hex::FromHexError);

/// `serde_json::Error`, carried inside [`Error::Json`].
#[verifier::external_type_specification]
#[verifier::external_body]
pub struct ExSerdeJsonError(JsonError);

/// Errors returned by the library.
#[derive(Debug)]
pub enum Error {
    /// The algorithm name (upper-cased) is not one the library knows.
    UnsupportedAlgorithm(String),
    /// A hex string could not be decoded.
    Hex(hex::FromHexError),
    /// JSON could not be read or written.
    Json(JsonError),
    /// The HMAC key was rejected.
    InvalidHmacKey,
    /// Argon2id rejected its parameters or inputs.
    Argon2(String),
    /// scrypt rejected its parameters.
    Scrypt(String),
    /// The challenge parameters are unusable.
    InvalidParameters(String),
}

/// An error as the contracts see it: messages by their characters, outside
/// error values by their kind alone.
pub enum ErrorView {
    UnsupportedAlgorithm(Seq<char>),
    Hex,
    Json,
    InvalidHmacKey,
    Argon2(Seq<char>),
    Scrypt(Seq<char>),
    InvalidParameters(Seq<char>),
}

impl View for Error {
    type V = ErrorView;

    open spec fn view(&self) -> ErrorView {
        match self {
            Error::UnsupportedAlgorithm(s) => ErrorView::UnsupportedAlgorithm(s@),
            Error::Hex(_) => ErrorView::Hex,
            Error::Json(_) => ErrorView::Json,
            Error::InvalidHmacKey => ErrorView::InvalidHmacKey,
            Error::Argon2(s) => ErrorView::Argon2(s@),
            Error::Scrypt(s) => ErrorView::Scrypt(s@),
            Error::InvalidParameters(s) => ErrorView::InvalidParameters(s@),
        }
    }
}

/// The library's result type.
pub type Result<T> = core::result::Result<T, Error>;

/// A result of bytes, seen through the views of its value or error.
pub open spec fn bytes_result(r: Result<Vec<u8>>) -> core::result::Result<Seq<u8>, ErrorView> {
    match r {
        Ok(v) => Ok(v@),
        Err(e) => Err(e@),
    }
}

} // verus!
