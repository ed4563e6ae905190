//! The error taxonomy of the decoder.
//!
//! Every stage of the pipeline reports the first failure it meets and no
//! stage recovers or returns a partial result, so one flat enum covers the
//! whole crate.

use vstd::prelude::*;

verus! {

/// Everything that can go wrong while decoding a certificate.
#[derive(Clone, Copy, Debug, PartialEq, Eq, Structural)]
pub enum DecodeError {
    /// The invocation did not carry exactly one argument.
    InvalidUsage,
    /// The path handed in does not point at a regular file.
    NotARegularFile,
    /// Reading the file failed.
    IoFailure,
    /// The text holds no well-formed PEM block, or its base64 payload is bad.
    MalformedPem,
    /// A declared TLV length exceeds the bytes that remain in the buffer.
    TruncatedInput,
    /// A non-minimal integer, a bad object identifier, time or string value.
    InvalidEncoding,
    /// A recognized but unhandled ASN.1 variant.
    UnsupportedEncoding,
    /// Wrong element counts, wrong tags, or an inconsistent version field.
    InvalidStructure,
}

/// Whether an error is one that the decoding stages report; the usage and
/// file kinds arise only before decoding starts.
pub open spec fn spec_is_decode_error(e: DecodeError) -> bool {
    e != DecodeError::InvalidUsage && e != DecodeError::NotARegularFile && e
        != DecodeError::IoFailure
}

impl DecodeError {
    /// The human-readable message of this error.
    pub open spec fn spec_message(self) -> Seq<char> {
        match self {
            DecodeError::InvalidUsage => "Error: did not receive a single argument, please invoke cert-decoder as follows: ./cert-decoder /path/to/cert."@,
            DecodeError::NotARegularFile => "Error: path given is not a regular file, please update to point to a certificate."@,
            DecodeError::IoFailure => "Error: could not read the file."@,
            DecodeError::MalformedPem => "Error: the file does not hold a PEM-encoded certificate."@,
            DecodeError::TruncatedInput => "Error: the certificate is truncated."@,
            DecodeError::InvalidEncoding => "Error: the certificate holds an invalid DER encoding."@,
            DecodeError::UnsupportedEncoding => "Error: the certificate uses an unsupported encoding."@,
            DecodeError::InvalidStructure => "Error: the certificate structure is invalid."@,
        }
    }

    /// A human-readable message for this error.
    pub fn message(&self) -> (r: &'static str)
        ensures
            r@ == self.spec_message(),
    {
        match self {
            DecodeError::InvalidUsage => "Error: did not receive a single argument, please invoke cert-decoder as follows: ./cert-decoder /path/to/cert.",
            DecodeError::NotARegularFile => "Error: path given is not a regular file, please update to point to a certificate.",
            DecodeError::IoFailure => "Error: could not read the file.",
            DecodeError::MalformedPem => "Error: the file does not hold a PEM-encoded certificate.",
            DecodeError::TruncatedInput => "Error: the certificate is truncated.",
            DecodeError::InvalidEncoding => "Error: the certificate holds an invalid DER encoding.",
            DecodeError::UnsupportedEncoding => "Error: the certificate uses an unsupported encoding.",
            DecodeError::InvalidStructure => "Error: the certificate structure is invalid.",
        }
    }
}

} // verus!
