//! The typed failures of parsing and verification.

use vstd::prelude::*;

verus! {

/// Why a record failed to parse, or a verification came out negative.
#[derive(Clone, Copy, Debug, PartialEq, Eq, Structural)]
pub enum Error {
    /// The input is shorter than a salted record: it denotes the old
    /// unsalted one-pass format, which is not supported.
    OldFormat,
    /// The three-character prefix is not `$P$`.
    InvalidIdentifier,
    /// The iteration-exponent character is not a legacy-alphabet symbol.
    InvalidIterationCount,
    /// A character of the digest field is not a legacy-alphabet symbol.
    DecodeFailure,
    /// The digest field does not decode to exactly 16 bytes.
    MalformedDigest,
    /// The digest does not match the candidate password: a negative
    /// verification outcome, not a malformed input.
    VerificationFailure,
}

impl Error {
    /// A short description of the failure.
    pub fn message(&self) -> (r: &'static str)
        ensures
            r@ == match *self {
                Error::OldFormat => "Old WP one-pass md5 encoding not supported"@,
                Error::InvalidIdentifier => "invalid identifier set in crypto"@,
                Error::InvalidIterationCount => "invalid character for passes"@,
                Error::DecodeFailure => "invalid character in encoded digest"@,
                Error::MalformedDigest => "decoded digest is not 16 bytes"@,
                Error::VerificationFailure => "digest does not match password"@,
            },
    {
        match *self {
            Error::OldFormat => "Old WP one-pass md5 encoding not supported",
            Error::InvalidIdentifier => "invalid identifier set in crypto",
            Error::InvalidIterationCount => "invalid character for passes",
            Error::DecodeFailure => "invalid character in encoded digest",
            Error::MalformedDigest => "decoded digest is not 16 bytes",
            Error::VerificationFailure => "digest does not match password",
        }
    }
}

} // verus!
