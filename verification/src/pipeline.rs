//! The decode pipeline: argument check, file access through a small
//! capability trait, PEM decoding, DER parsing, and presentation.
//!
//! The pipeline runs once per invocation; every failure is terminal and
//! surfaces as one [`DecodeError`].  The filesystem is reached only
//! through [`FileProcessor`], so the core never touches it.

use vstd::prelude::*;
use vstd::string::StrSliceExecFns;

use crate::err::{spec_is_decode_error, DecodeError};
use crate::pem;
use crate::render;
use crate::x509;
use crate::x509::{Certificate, GCert};

verus! {

/// The filesystem capability the pipeline depends on; callers supply an
/// implementation (the program a real one, tests a double).
pub trait FileProcessor {
    /// Whether the path names a regular file.
    fn is_file(&self, path: &str) -> bool;

    /// Reads the file as text; the error is a human-readable message.
    fn read_to_string(&self, path: &str) -> Result<String, String>;
}

/// The whole decoding of a certificate file's text: PEM armor and base64
/// first, then the DER certificate structure.
pub open spec fn spec_decode(text: Seq<u8>) -> Result<GCert, DecodeError> {
    match pem::spec_pem_decode(text) {
        Err(e) => Err(e),
        Ok((label, der)) => x509::spec_certificate(der),
    }
}

/// A failed decoding reports a decoding kind, never a usage or file kind.
pub proof fn lemma_decode_error_kind(text: Seq<u8>)
    requires
        spec_decode(text) is Err,
    ensures
        spec_is_decode_error(spec_decode(text)->Err_0),
{
    if pem::spec_pem_decode(text) is Err {
        pem::lemma_pem_decode_error_kind(text);
    } else {
        let block = pem::spec_pem_decode(text)->Ok_0;
        x509::lemma_certificate_error_kind(block.1);
    }
}

/// Decodes a certificate from the bytes of a PEM text, exactly as
/// [`spec_decode`] describes.
pub fn decode_certificate(text: &Vec<u8>) -> (r: Result<Certificate, DecodeError>)
    ensures
        match r {
            Ok(c) => spec_decode(text@) == Ok::<GCert, DecodeError>(c@),
            Err(e) => spec_decode(text@) == Err::<GCert, DecodeError>(e) && spec_is_decode_error(e),
        },
{
    let block = match pem::decode(text) {
        Ok(b) => b,
        Err(e) => {
            proof {
                lemma_decode_error_kind(text@);
            }
            return Err(e);
        },
    };
    let r = x509::parse_certificate(&block.der);
    proof {
        if r is Err {
            lemma_decode_error_kind(text@);
        }
    }
    r
}

/// Runs one invocation: exactly one argument, a regular file, its text
/// decoded and rendered.  The outcome of the file checks depends on the
/// supplied [`FileProcessor`]; whatever it answers, `InvalidUsage` comes
/// exactly from an argument count other than one, and a successful run
/// returns the rendering of some decoded certificate.
pub fn execute<P: FileProcessor>(processor: P, args: Vec<String>) -> (r: Result<String, DecodeError>)
    ensures
        args@.len() != 1 ==> r == Err::<String, DecodeError>(DecodeError::InvalidUsage),
        r == Err::<String, DecodeError>(DecodeError::InvalidUsage) ==> args@.len() != 1,
        r matches Ok(s) ==> args@.len() == 1 && s@.len() > 0,
        r matches Ok(s) ==> exists|t: Seq<u8>|
            #[trigger] spec_decode(t) matches Ok(c) && s@ == render::spec_render_certificate(c),
{
    if args.len() != 1 {
        return Err(DecodeError::InvalidUsage);
    }
    let path = &args[0];
    if !processor.is_file(path.as_str()) {
        return Err(DecodeError::NotARegularFile);
    }
    let text = match processor.read_to_string(path.as_str()) {
        Ok(t) => t,
        Err(_) => { return Err(DecodeError::IoFailure) },
    };
    let bytes = text.as_str().as_bytes_vec();
    let cert = match decode_certificate(&bytes) {
        Ok(c) => c,
        Err(e) => { return Err(e) },
    };
    let rendered = render::render_certificate(&cert);
    proof {
        assert(spec_decode(bytes@) matches Ok(c) && rendered@ == render::spec_render_certificate(
            c,
        ));
    }
    Ok(rendered)
}

} // verus!
