//! A verified X.509 certificate decoder.
//!
//! The crate decodes a PEM-wrapped, DER-encoded X.509 certificate into a
//! typed model and renders that model as text.  The pipeline is:
//! PEM armor stripping and base64 decoding ([`pem`]), a bounds-checked
//! tag-length-value reader over the recovered DER bytes ([`der`]), a
//! recursive-descent certificate builder ([`x509`]), and a presenter
//! ([`render`]).  [`pipeline`] orchestrates one invocation from command
//! arguments to rendered output; file access is abstracted behind a small
//! trait so that callers supply the bytes.

pub mod b64;
pub mod der;
pub mod err;
pub mod pem;
pub mod pipeline;
pub mod render;
pub mod x509;
