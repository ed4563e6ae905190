//! The X.509 certificate model and its builder.
//!
//! The builder walks the TLV tree of the DER bytes and populates a typed
//! [`Certificate`].  Every step is specified against the mathematical
//! parser (`spec_certificate` and the functions beside it); any tag or
//! length mismatch anywhere in the tree aborts the whole build with the
//! first error met, and no partial certificate is ever returned.

use vstd::prelude::*;

use crate::der;
use crate::der::{BitString, Cursor, DerTime, GTlv, Tlv};
use crate::err::DecodeError;

verus! {

/// An algorithm identifier: the algorithm's arcs and, when present, the
/// raw DER bytes of its parameter value.
pub struct AlgorithmIdentifier {
    pub oid: Vec<u64>,
    pub parameters: Option<Vec<u8>>,
}

/// The mathematical counterpart of [`AlgorithmIdentifier`].
#[verifier::ext_equal]
pub ghost struct GAlgId {
    pub oid: Seq<u64>,
    pub parameters: Option<Seq<u8>>,
}

impl View for AlgorithmIdentifier {
    type V = GAlgId;

    open spec fn view(&self) -> GAlgId {
        GAlgId {
            oid: self.oid@,
            parameters: match self.parameters {
                Some(p) => Some(p@),
                None => None,
            },
        }
    }
}

/// The ASN.1 string type an attribute value was declared with.
#[derive(Clone, Copy, Debug, PartialEq, Eq, Structural)]
pub enum StringKind {
    Printable,
    Utf8,
    Ia5,
}

/// One attribute of a relative distinguished name.
pub struct AttributeTypeAndValue {
    pub attr_type: Vec<u64>,
    pub kind: StringKind,
    pub text: String,
}

/// The mathematical counterpart of [`AttributeTypeAndValue`].
#[verifier::ext_equal]
pub ghost struct GAttr {
    pub attr_type: Seq<u64>,
    pub kind: StringKind,
    pub text: Seq<char>,
}

impl View for AttributeTypeAndValue {
    type V = GAttr;

    open spec fn view(&self) -> GAttr {
        GAttr { attr_type: self.attr_type@, kind: self.kind, text: self.text@ }
    }
}

/// One relative distinguished name: a set of attributes.
pub struct Rdn {
    pub attributes: Vec<AttributeTypeAndValue>,
}

/// The mathematical counterpart of [`Rdn`].
#[verifier::ext_equal]
pub ghost struct GRdn {
    pub attributes: Seq<GAttr>,
}

impl View for Rdn {
    type V = GRdn;

    open spec fn view(&self) -> GRdn {
        GRdn { attributes: Seq::new(self.attributes@.len(), |i: int| self.attributes@[i]@) }
    }
}

/// An X.509 name: an ordered sequence of relative distinguished names.
pub struct Name {
    pub rdns: Vec<Rdn>,
}

/// The mathematical counterpart of [`Name`].
#[verifier::ext_equal]
pub ghost struct GName {
    pub rdns: Seq<GRdn>,
}

impl View for Name {
    type V = GName;

    open spec fn view(&self) -> GName {
        GName { rdns: Seq::new(self.rdns@.len(), |i: int| self.rdns@[i]@) }
    }
}

/// The validity period; a `not_after` earlier than `not_before` is
/// accepted structurally and recorded as-is.
pub struct Validity {
    pub not_before: DerTime,
    pub not_after: DerTime,
}

/// The mathematical counterpart of [`Validity`].
#[verifier::ext_equal]
pub ghost struct GValidity {
    pub not_before: DerTime,
    pub not_after: DerTime,
}

impl View for Validity {
    type V = GValidity;

    open spec fn view(&self) -> GValidity {
        GValidity { not_before: self.not_before, not_after: self.not_after }
    }
}

/// The subject public key: its algorithm and the key bit string.
pub struct SubjectPublicKeyInfo {
    pub algorithm: AlgorithmIdentifier,
    pub public_key: BitString,
}

/// The mathematical counterpart of [`SubjectPublicKeyInfo`].
#[verifier::ext_equal]
pub ghost struct GSpki {
    pub algorithm: GAlgId,
    pub key_unused: u8,
    pub key_bytes: Seq<u8>,
}

impl View for SubjectPublicKeyInfo {
    type V = GSpki;

    open spec fn view(&self) -> GSpki {
        GSpki {
            algorithm: self.algorithm@,
            key_unused: self.public_key.unused,
            key_bytes: self.public_key.bytes@,
        }
    }
}

/// One certificate extension.
pub struct Extension {
    pub oid: Vec<u64>,
    pub critical: bool,
    pub value: Vec<u8>,
}

/// The mathematical counterpart of [`Extension`].
#[verifier::ext_equal]
pub ghost struct GExt {
    pub oid: Seq<u64>,
    pub critical: bool,
    pub value: Seq<u8>,
}

impl View for Extension {
    type V = GExt;

    open spec fn view(&self) -> GExt {
        GExt { oid: self.oid@, critical: self.critical, value: self.value@ }
    }
}

/// The to-be-signed certificate body.
pub struct TbsCertificate {
    /// The certificate version, 1 to 3; 1 when the explicit tag is absent.
    pub version: u8,
    /// The serial number's raw INTEGER content, big-endian two's complement.
    pub serial: Vec<u8>,
    pub signature: AlgorithmIdentifier,
    pub issuer: Name,
    pub validity: Validity,
    pub subject: Name,
    pub subject_public_key_info: SubjectPublicKeyInfo,
    /// Extensions; present only in version-3 certificates.
    pub extensions: Vec<Extension>,
}

/// The mathematical counterpart of [`TbsCertificate`].
#[verifier::ext_equal]
pub ghost struct GTbs {
    pub version: u8,
    pub serial: Seq<u8>,
    pub signature: GAlgId,
    pub issuer: GName,
    pub validity: GValidity,
    pub subject: GName,
    pub subject_public_key_info: GSpki,
    pub extensions: Seq<GExt>,
}

impl View for TbsCertificate {
    type V = GTbs;

    open spec fn view(&self) -> GTbs {
        GTbs {
            version: self.version,
            serial: self.serial@,
            signature: self.signature@,
            issuer: self.issuer@,
            validity: self.validity@,
            subject: self.subject@,
            subject_public_key_info: self.subject_public_key_info@,
            extensions: Seq::new(self.extensions@.len(), |i: int| self.extensions@[i]@),
        }
    }
}

/// A decoded certificate.
pub struct Certificate {
    pub tbs_certificate: TbsCertificate,
    pub signature_algorithm: AlgorithmIdentifier,
    pub signature_value: BitString,
}

/// The mathematical counterpart of [`Certificate`].
#[verifier::ext_equal]
pub ghost struct GCert {
    pub tbs_certificate: GTbs,
    pub signature_algorithm: GAlgId,
    pub sig_unused: u8,
    pub sig_bytes: Seq<u8>,
}

impl View for Certificate {
    type V = GCert;

    open spec fn view(&self) -> GCert {
        GCert {
            tbs_certificate: self.tbs_certificate@,
            signature_algorithm: self.signature_algorithm@,
            sig_unused: self.signature_value.unused,
            sig_bytes: self.signature_value.bytes@,
        }
    }
}

/// An AlgorithmIdentifier: a SEQUENCE of an OID and an optional parameter
/// value, kept raw.
pub open spec fn spec_alg_id(data: Seq<u8>, t: GTlv) -> Result<GAlgId, DecodeError> {
    if t.tag != 0x30 {
        Err(DecodeError::InvalidStructure)
    } else {
        let end = t.start + t.len;
        match der::spec_read_tlv(data, t.start, end) {
            Err(e) => Err(e),
            Ok(ot) => {
                if ot.tag != 0x06 {
                    Err(DecodeError::InvalidStructure)
                } else {
                    match der::spec_oid_arcs(der::spec_content(data, ot)) {
                        None => Err(DecodeError::InvalidEncoding),
                        Some(arcs) => {
                            let pstart = ot.start + ot.len;
                            if pstart == end {
                                Ok(GAlgId { oid: arcs, parameters: None })
                            } else {
                                match der::spec_read_tlv(data, pstart, end) {
                                    Err(e) => Err(e),
                                    Ok(pt) => {
                                        if pt.start + pt.len == end {
                                            Ok(
                                                GAlgId {
                                                    oid: arcs,
                                                    parameters: Some(data.subrange(pstart, end)),
                                                },
                                            )
                                        } else {
                                            Err(DecodeError::InvalidStructure)
                                        }
                                    },
                                }
                            }
                        },
                    }
                }
            },
        }
    }
}

/// An attribute value under its string type: PrintableString, UTF8String
/// and IA5String are decoded as UTF-8 text; any other type is recognized
/// but unsupported.
pub open spec fn spec_attr_value(tag: u8, c: Seq<u8>) -> Result<
    (StringKind, Seq<char>),
    DecodeError,
> {
    if tag == 0x13 || tag == 0x0c || tag == 0x16 {
        if vstd::utf8::valid_utf8(c) {
            Ok(
                (
                    if tag == 0x13 {
                        StringKind::Printable
                    } else if tag == 0x0c {
                        StringKind::Utf8
                    } else {
                        StringKind::Ia5
                    },
                    vstd::utf8::decode_utf8(c),
                ),
            )
        } else {
            Err(DecodeError::InvalidEncoding)
        }
    } else {
        Err(DecodeError::UnsupportedEncoding)
    }
}

/// An AttributeTypeAndValue: a SEQUENCE of an OID and a string value.
pub open spec fn spec_atv(data: Seq<u8>, t: GTlv) -> Result<GAttr, DecodeError> {
    if t.tag != 0x30 {
        Err(DecodeError::InvalidStructure)
    } else {
        let end = t.start + t.len;
        match der::spec_read_tlv(data, t.start, end) {
            Err(e) => Err(e),
            Ok(ot) => {
                if ot.tag != 0x06 {
                    Err(DecodeError::InvalidStructure)
                } else {
                    match der::spec_oid_arcs(der::spec_content(data, ot)) {
                        None => Err(DecodeError::InvalidEncoding),
                        Some(arcs) => {
                            match der::spec_read_tlv(data, ot.start + ot.len, end) {
                                Err(e) => Err(e),
                                Ok(vt) => {
                                    if vt.start + vt.len != end {
                                        Err(DecodeError::InvalidStructure)
                                    } else {
                                        match spec_attr_value(vt.tag, der::spec_content(data, vt)) {
                                            Err(e) => Err(e),
                                            Ok((kind, text)) => Ok(
                                                GAttr { attr_type: arcs, kind, text },
                                            ),
                                        }
                                    }
                                },
                            }
                        },
                    }
                }
            },
        }
    }
}

/// The attributes of one RDN SET, in order.
pub open spec fn spec_atv_list(data: Seq<u8>, pos: int, end: int) -> Result<Seq<GAttr>, DecodeError>
    decreases end - pos,
    via spec_atv_list_dec
{
    if pos >= end {
        Ok(Seq::empty())
    } else {
        match der::spec_read_tlv(data, pos, end) {
            Err(e) => Err(e),
            Ok(t) => {
                if t.tag != 0x30 {
                    Err(DecodeError::InvalidStructure)
                } else {
                    match spec_atv(data, t) {
                        Err(e) => Err(e),
                        Ok(a) => {
                            match spec_atv_list(data, t.start + t.len, end) {
                                Err(e) => Err(e),
                                Ok(rest) => Ok(seq![a] + rest),
                            }
                        },
                    }
                }
            },
        }
    }
}

#[via_fn]
proof fn spec_atv_list_dec(data: Seq<u8>, pos: int, end: int) {
    if pos < end && der::spec_read_tlv(data, pos, end) is Ok {
        der::lemma_read_tlv_ok_bounds(data, pos, end);
    }
}

/// One relative distinguished name: a SET of attributes.
pub open spec fn spec_rdn(data: Seq<u8>, t: GTlv) -> Result<GRdn, DecodeError> {
    match spec_atv_list(data, t.start, t.start + t.len) {
        Err(e) => Err(e),
        Ok(attrs) => Ok(GRdn { attributes: attrs }),
    }
}

/// The RDNs of a Name, in order.
pub open spec fn spec_rdn_list(data: Seq<u8>, pos: int, end: int) -> Result<Seq<GRdn>, DecodeError>
    decreases end - pos,
    via spec_rdn_list_dec
{
    if pos >= end {
        Ok(Seq::empty())
    } else {
        match der::spec_read_tlv(data, pos, end) {
            Err(e) => Err(e),
            Ok(t) => {
                if t.tag != 0x31 {
                    Err(DecodeError::InvalidStructure)
                } else {
                    match spec_rdn(data, t) {
                        Err(e) => Err(e),
                        Ok(r) => {
                            match spec_rdn_list(data, t.start + t.len, end) {
                                Err(e) => Err(e),
                                Ok(rest) => Ok(seq![r] + rest),
                            }
                        },
                    }
                }
            },
        }
    }
}

#[via_fn]
proof fn spec_rdn_list_dec(data: Seq<u8>, pos: int, end: int) {
    if pos < end && der::spec_read_tlv(data, pos, end) is Ok {
        der::lemma_read_tlv_ok_bounds(data, pos, end);
    }
}

/// A Name: a SEQUENCE of RDN SETs.
pub open spec fn spec_name(data: Seq<u8>, t: GTlv) -> Result<GName, DecodeError> {
    if t.tag != 0x30 {
        Err(DecodeError::InvalidStructure)
    } else {
        match spec_rdn_list(data, t.start, t.start + t.len) {
            Err(e) => Err(e),
            Ok(rdns) => Ok(GName { rdns }),
        }
    }
}

/// A Validity: a SEQUENCE of exactly two Time values.
pub open spec fn spec_validity(data: Seq<u8>, t: GTlv) -> Result<GValidity, DecodeError> {
    if t.tag != 0x30 {
        Err(DecodeError::InvalidStructure)
    } else {
        let end = t.start + t.len;
        match der::spec_read_tlv(data, t.start, end) {
            Err(e) => Err(e),
            Ok(t1) => {
                match der::spec_time(t1.tag, der::spec_content(data, t1)) {
                    Err(e) => Err(e),
                    Ok(nb) => {
                        match der::spec_read_tlv(data, t1.start + t1.len, end) {
                            Err(e) => Err(e),
                            Ok(t2) => {
                                match der::spec_time(t2.tag, der::spec_content(data, t2)) {
                                    Err(e) => Err(e),
                                    Ok(na) => {
                                        if t2.start + t2.len != end {
                                            Err(DecodeError::InvalidStructure)
                                        } else {
                                            Ok(GValidity { not_before: nb, not_after: na })
                                        }
                                    },
                                }
                            },
                        }
                    },
                }
            },
        }
    }
}

/// A SubjectPublicKeyInfo: an AlgorithmIdentifier and a BIT STRING key.
pub open spec fn spec_spki(data: Seq<u8>, t: GTlv) -> Result<GSpki, DecodeError> {
    if t.tag != 0x30 {
        Err(DecodeError::InvalidStructure)
    } else {
        let end = t.start + t.len;
        match der::spec_read_tlv(data, t.start, end) {
            Err(e) => Err(e),
            Ok(at) => {
                match spec_alg_id(data, at) {
                    Err(e) => Err(e),
                    Ok(alg) => {
                        match der::spec_read_tlv(data, at.start + at.len, end) {
                            Err(e) => Err(e),
                            Ok(kt) => {
                                if kt.tag != 0x03 {
                                    Err(DecodeError::InvalidStructure)
                                } else {
                                    match der::spec_bit_string(der::spec_content(data, kt)) {
                                        Err(e) => Err(e),
                                        Ok((unused, bytes)) => {
                                            if kt.start + kt.len != end {
                                                Err(DecodeError::InvalidStructure)
                                            } else {
                                                Ok(
                                                    GSpki {
                                                        algorithm: alg,
                                                        key_unused: unused,
                                                        key_bytes: bytes,
                                                    },
                                                )
                                            }
                                        },
                                    }
                                }
                            },
                        }
                    },
                }
            },
        }
    }
}

/// One Extension: a SEQUENCE of an OID, an optional criticality BOOLEAN
/// (absent meaning false), and an OCTET STRING value.
pub open spec fn spec_ext(data: Seq<u8>, t: GTlv) -> Result<GExt, DecodeError> {
    let end = t.start + t.len;
    match der::spec_read_tlv(data, t.start, end) {
        Err(e) => Err(e),
        Ok(ot) => {
            if ot.tag != 0x06 {
                Err(DecodeError::InvalidStructure)
            } else {
                match der::spec_oid_arcs(der::spec_content(data, ot)) {
                    None => Err(DecodeError::InvalidEncoding),
                    Some(arcs) => {
                        match der::spec_read_tlv(data, ot.start + ot.len, end) {
                            Err(e) => Err(e),
                            Ok(bt) => {
                                if bt.tag == 0x01 {
                                    match der::spec_boolean(der::spec_content(data, bt)) {
                                        Err(e) => Err(e),
                                        Ok(critical) => {
                                            match der::spec_read_tlv(data, bt.start + bt.len, end) {
                                                Err(e) => Err(e),
                                                Ok(vt) => {
                                                    if vt.tag != 0x04 || vt.start + vt.len != end {
                                                        Err(DecodeError::InvalidStructure)
                                                    } else {
                                                        Ok(
                                                            GExt {
                                                                oid: arcs,
                                                                critical,
                                                                value: der::spec_content(data, vt),
                                                            },
                                                        )
                                                    }
                                                },
                                            }
                                        },
                                    }
                                } else if bt.tag == 0x04 {
                                    if bt.start + bt.len != end {
                                        Err(DecodeError::InvalidStructure)
                                    } else {
                                        Ok(
                                            GExt {
                                                oid: arcs,
                                                critical: false,
                                                value: der::spec_content(data, bt),
                                            },
                                        )
                                    }
                                } else {
                                    Err(DecodeError::InvalidStructure)
                                }
                            },
                        }
                    },
                }
            }
        },
    }
}

/// The extensions of the SEQUENCE OF Extension, in order.
pub open spec fn spec_ext_list(data: Seq<u8>, pos: int, end: int) -> Result<Seq<GExt>, DecodeError>
    decreases end - pos,
    via spec_ext_list_dec
{
    if pos >= end {
        Ok(Seq::empty())
    } else {
        match der::spec_read_tlv(data, pos, end) {
            Err(e) => Err(e),
            Ok(t) => {
                if t.tag != 0x30 {
                    Err(DecodeError::InvalidStructure)
                } else {
                    match spec_ext(data, t) {
                        Err(e) => Err(e),
                        Ok(x) => {
                            match spec_ext_list(data, t.start + t.len, end) {
                                Err(e) => Err(e),
                                Ok(rest) => Ok(seq![x] + rest),
                            }
                        },
                    }
                }
            },
        }
    }
}

#[via_fn]
proof fn spec_ext_list_dec(data: Seq<u8>, pos: int, end: int) {
    if pos < end && der::spec_read_tlv(data, pos, end) is Ok {
        der::lemma_read_tlv_ok_bounds(data, pos, end);
    }
}

/// The `[3]` extensions field: exactly one SEQUENCE OF Extension filling
/// its value.
pub open spec fn spec_extensions(data: Seq<u8>, t: GTlv) -> Result<Seq<GExt>, DecodeError> {
    let end = t.start + t.len;
    match der::spec_read_tlv(data, t.start, end) {
        Err(e) => Err(e),
        Ok(st) => {
            if st.tag != 0x30 || st.start + st.len != end {
                Err(DecodeError::InvalidStructure)
            } else {
                spec_ext_list(data, st.start, end)
            }
        },
    }
}

/// The version field: the explicit `[0]` tag wraps an INTEGER 0 to 2 and
/// yields versions 1 to 3; when the first element carries any other tag
/// the field is absent and the version defaults to 1, with nothing
/// consumed.
pub open spec fn spec_tbs_version(data: Seq<u8>, start: int, end: int) -> Result<
    (u8, int),
    DecodeError,
> {
    match der::spec_read_tlv(data, start, end) {
        Err(e) => Err(e),
        Ok(first) => {
            if first.tag == 0xa0 {
                let fend = first.start + first.len;
                match der::spec_read_tlv(data, first.start, fend) {
                    Err(e) => Err(e),
                    Ok(vt) => {
                        if vt.tag != 0x02 {
                            Err(DecodeError::InvalidStructure)
                        } else if vt.start + vt.len != fend {
                            Err(DecodeError::InvalidStructure)
                        } else {
                            match der::spec_small_int(der::spec_content(data, vt)) {
                                Err(e) => Err(e),
                                Ok(v) => {
                                    if v > 2 {
                                        Err(DecodeError::InvalidStructure)
                                    } else {
                                        Ok(((v + 1) as u8, fend))
                                    }
                                },
                            }
                        }
                    },
                }
            } else {
                Ok((1, start))
            }
        },
    }
}

/// Law: a certificate body whose first element does not carry the explicit
/// version tag defaults to version 1 and consumes nothing, so such a body
/// needs no version field — and, by [`lemma_low_version_no_extensions`],
/// no extensions field either.
pub proof fn lemma_version_defaults(data: Seq<u8>, start: int, end: int)
    requires
        der::spec_read_tlv(data, start, end) matches Ok(t) && t.tag != 0xa0,
    ensures
        spec_tbs_version(data, start, end) == Ok::<(u8, int), DecodeError>((1u8, start)),
{
}

/// The serial number: a DER INTEGER in minimal encoding, kept as raw
/// content bytes.
pub open spec fn spec_serial(data: Seq<u8>, start: int, end: int) -> Result<
    (Seq<u8>, int),
    DecodeError,
> {
    match der::spec_read_tlv(data, start, end) {
        Err(e) => Err(e),
        Ok(st) => {
            if st.tag != 0x02 {
                Err(DecodeError::InvalidStructure)
            } else {
                match der::spec_integer_bytes(der::spec_content(data, st)) {
                    Err(e) => Err(e),
                    Ok(b) => Ok((b, st.start + st.len)),
                }
            }
        },
    }
}

/// An empty certificate body carrying only the version; the stages of
/// the parse fill the remaining fields one by one.
pub open spec fn spec_empty_tbs(version: u8) -> GTbs {
    GTbs {
        version,
        serial: Seq::empty(),
        signature: GAlgId { oid: Seq::empty(), parameters: None },
        issuer: GName { rdns: Seq::empty() },
        validity: GValidity { not_before: spec_zero_time(), not_after: spec_zero_time() },
        subject: GName { rdns: Seq::empty() },
        subject_public_key_info: GSpki {
            algorithm: GAlgId { oid: Seq::empty(), parameters: None },
            key_unused: 0,
            key_bytes: Seq::empty(),
        },
        extensions: Seq::empty(),
    }
}

/// The all-zero timestamp used before the validity field is parsed.
pub open spec fn spec_zero_time() -> DerTime {
    DerTime { utc: true, year: 0, month: 0, day: 0, hour: 0, minute: 0, second: 0 }
}

/// Law: a serial-number TLV whose INTEGER content carries non-minimal
/// padding is rejected as `InvalidEncoding`, never decoded with the
/// padded value silently accepted.
pub proof fn lemma_padded_serial_rejected(data: Seq<u8>, start: int, end: int)
    requires
        der::spec_read_tlv(data, start, end) matches Ok(st) && st.tag == 0x02,
        ({
            let c = der::spec_content(data, der::spec_read_tlv(data, start, end)->Ok_0);
            c.len() >= 2 && ((c[0] == 0x00 && c[1] < 0x80) || (c[0] == 0xff && c[1] >= 0x80))
        }),
    ensures
        spec_serial(data, start, end) == Err::<(Seq<u8>, int), DecodeError>(
            DecodeError::InvalidEncoding,
        ),
{
    der::lemma_padded_integer_rejected(
        der::spec_content(data, der::spec_read_tlv(data, start, end)->Ok_0),
    );
}

/// The TBSCertificate: version, serial, signature algorithm, issuer,
/// validity, subject, subject public key info, and — for version 3 only —
/// the explicit `[3]` extensions field.  The fields are parsed in stages,
/// each stage filling one field of the body.
pub open spec fn spec_tbs(data: Seq<u8>, t: GTlv) -> Result<GTbs, DecodeError> {
    let end = t.start + t.len;
    match spec_tbs_version(data, t.start, end) {
        Err(e) => Err(e),
        Ok((version, p1)) => spec_tbs_serial(data, p1, end, spec_empty_tbs(version)),
    }
}

/// Stage: the serial number.
pub open spec fn spec_tbs_serial(data: Seq<u8>, pos: int, end: int, base: GTbs) -> Result<
    GTbs,
    DecodeError,
> {
    match spec_serial(data, pos, end) {
        Err(e) => Err(e),
        Ok((serial, p2)) => spec_tbs_sig(data, p2, end, GTbs { serial, ..base }),
    }
}

/// Stage: the signature algorithm of the body.
pub open spec fn spec_tbs_sig(data: Seq<u8>, pos: int, end: int, base: GTbs) -> Result<
    GTbs,
    DecodeError,
> {
    match der::spec_read_tlv(data, pos, end) {
        Err(e) => Err(e),
        Ok(sig_t) => match spec_alg_id(data, sig_t) {
            Err(e) => Err(e),
            Ok(signature) => spec_tbs_issuer(
                data,
                sig_t.start + sig_t.len,
                end,
                GTbs { signature, ..base },
            ),
        },
    }
}

/// Stage: the issuer name.
pub open spec fn spec_tbs_issuer(data: Seq<u8>, pos: int, end: int, base: GTbs) -> Result<
    GTbs,
    DecodeError,
> {
    match der::spec_read_tlv(data, pos, end) {
        Err(e) => Err(e),
        Ok(iss_t) => match spec_name(data, iss_t) {
            Err(e) => Err(e),
            Ok(issuer) => spec_tbs_validity(
                data,
                iss_t.start + iss_t.len,
                end,
                GTbs { issuer, ..base },
            ),
        },
    }
}

/// Stage: the validity period.
pub open spec fn spec_tbs_validity(data: Seq<u8>, pos: int, end: int, base: GTbs) -> Result<
    GTbs,
    DecodeError,
> {
    match der::spec_read_tlv(data, pos, end) {
        Err(e) => Err(e),
        Ok(val_t) => match spec_validity(data, val_t) {
            Err(e) => Err(e),
            Ok(validity) => spec_tbs_subject(
                data,
                val_t.start + val_t.len,
                end,
                GTbs { validity, ..base },
            ),
        },
    }
}

/// Stage: the subject name.
pub open spec fn spec_tbs_subject(data: Seq<u8>, pos: int, end: int, base: GTbs) -> Result<
    GTbs,
    DecodeError,
> {
    match der::spec_read_tlv(data, pos, end) {
        Err(e) => Err(e),
        Ok(sub_t) => match spec_name(data, sub_t) {
            Err(e) => Err(e),
            Ok(subject) => spec_tbs_spki(
                data,
                sub_t.start + sub_t.len,
                end,
                GTbs { subject, ..base },
            ),
        },
    }
}

/// Stage: the subject public key info, then the tail.
pub open spec fn spec_tbs_spki(data: Seq<u8>, pos: int, end: int, base: GTbs) -> Result<
    GTbs,
    DecodeError,
> {
    match der::spec_read_tlv(data, pos, end) {
        Err(e) => Err(e),
        Ok(spki_t) => match spec_spki(data, spki_t) {
            Err(e) => Err(e),
            Ok(s) => spec_tbs_tail(
                data,
                spki_t.start + spki_t.len,
                end,
                GTbs { subject_public_key_info: s, ..base },
            ),
        },
    }
}

/// What follows the subjectPublicKeyInfo: nothing, or — in a version-3
/// body — the `[3]` extensions field filling the remainder.
pub open spec fn spec_tbs_tail(data: Seq<u8>, pos: int, end: int, base: GTbs) -> Result<
    GTbs,
    DecodeError,
> {
    if pos == end {
        Ok(base)
    } else {
        match der::spec_read_tlv(data, pos, end) {
            Err(e) => Err(e),
            Ok(ext_t) => {
                if ext_t.tag == 0xa3 {
                    if base.version != 3 {
                        Err(DecodeError::InvalidStructure)
                    } else if ext_t.start + ext_t.len != end {
                        Err(DecodeError::InvalidStructure)
                    } else {
                        match spec_extensions(data, ext_t) {
                            Err(e) => Err(e),
                            Ok(exts) => Ok(
                                GTbs {
                                    version: base.version,
                                    serial: base.serial,
                                    signature: base.signature,
                                    issuer: base.issuer,
                                    validity: base.validity,
                                    subject: base.subject,
                                    subject_public_key_info: base.subject_public_key_info,
                                    extensions: exts,
                                },
                            ),
                        }
                    }
                } else if ext_t.tag == 0x81 || ext_t.tag == 0x82 || ext_t.tag == 0xa1 || ext_t.tag
                    == 0xa2 {
                    Err(DecodeError::UnsupportedEncoding)
                } else {
                    Err(DecodeError::InvalidStructure)
                }
            },
        }
    }
}

/// The tail keeps the version and touches extensions only for version 3.
proof fn lemma_tail_keeps(data: Seq<u8>, pos: int, end: int, base: GTbs)
    requires
        spec_tbs_tail(data, pos, end, base) is Ok,
    ensures
        spec_tbs_tail(data, pos, end, base)->Ok_0.version == base.version,
        spec_tbs_tail(data, pos, end, base)->Ok_0.extensions == base.extensions
            || spec_tbs_tail(data, pos, end, base)->Ok_0.version == 3,
{
}

/// The key stage keeps the version and extensions of its base.
proof fn lemma_spki_keeps(data: Seq<u8>, pos: int, end: int, base: GTbs)
    requires
        spec_tbs_spki(data, pos, end, base) is Ok,
    ensures
        spec_tbs_spki(data, pos, end, base)->Ok_0.version == base.version,
        spec_tbs_spki(data, pos, end, base)->Ok_0.extensions == base.extensions
            || spec_tbs_spki(data, pos, end, base)->Ok_0.version == 3,
{
    if let Ok(spki_t) = der::spec_read_tlv(data, pos, end) {
        if let Ok(sp) = spec_spki(data, spki_t) {
            lemma_tail_keeps(
                data,
                spki_t.start + spki_t.len,
                end,
                GTbs { subject_public_key_info: sp, ..base },
            );
        }
    }
}

/// The subject stage keeps the version and extensions of its base.
proof fn lemma_subject_keeps(data: Seq<u8>, pos: int, end: int, base: GTbs)
    requires
        spec_tbs_subject(data, pos, end, base) is Ok,
    ensures
        spec_tbs_subject(data, pos, end, base)->Ok_0.version == base.version,
        spec_tbs_subject(data, pos, end, base)->Ok_0.extensions == base.extensions
            || spec_tbs_subject(data, pos, end, base)->Ok_0.version == 3,
{
    if let Ok(sub_t) = der::spec_read_tlv(data, pos, end) {
        if let Ok(subject) = spec_name(data, sub_t) {
            lemma_spki_keeps(data, sub_t.start + sub_t.len, end, GTbs { subject, ..base });
        }
    }
}

/// The validity stage keeps the version and extensions of its base.
proof fn lemma_validity_keeps(data: Seq<u8>, pos: int, end: int, base: GTbs)
    requires
        spec_tbs_validity(data, pos, end, base) is Ok,
    ensures
        spec_tbs_validity(data, pos, end, base)->Ok_0.version == base.version,
        spec_tbs_validity(data, pos, end, base)->Ok_0.extensions == base.extensions
            || spec_tbs_validity(data, pos, end, base)->Ok_0.version == 3,
{
    if let Ok(val_t) = der::spec_read_tlv(data, pos, end) {
        if let Ok(validity) = spec_validity(data, val_t) {
            lemma_subject_keeps(data, val_t.start + val_t.len, end, GTbs { validity, ..base });
        }
    }
}

/// The issuer stage keeps the version and extensions of its base.
proof fn lemma_issuer_keeps(data: Seq<u8>, pos: int, end: int, base: GTbs)
    requires
        spec_tbs_issuer(data, pos, end, base) is Ok,
    ensures
        spec_tbs_issuer(data, pos, end, base)->Ok_0.version == base.version,
        spec_tbs_issuer(data, pos, end, base)->Ok_0.extensions == base.extensions
            || spec_tbs_issuer(data, pos, end, base)->Ok_0.version == 3,
{
    if let Ok(iss_t) = der::spec_read_tlv(data, pos, end) {
        if let Ok(issuer) = spec_name(data, iss_t) {
            lemma_validity_keeps(data, iss_t.start + iss_t.len, end, GTbs { issuer, ..base });
        }
    }
}

/// The signature stage keeps the version and extensions of its base.
proof fn lemma_sig_keeps(data: Seq<u8>, pos: int, end: int, base: GTbs)
    requires
        spec_tbs_sig(data, pos, end, base) is Ok,
    ensures
        spec_tbs_sig(data, pos, end, base)->Ok_0.version == base.version,
        spec_tbs_sig(data, pos, end, base)->Ok_0.extensions == base.extensions
            || spec_tbs_sig(data, pos, end, base)->Ok_0.version == 3,
{
    if let Ok(sig_t) = der::spec_read_tlv(data, pos, end) {
        if let Ok(signature) = spec_alg_id(data, sig_t) {
            lemma_issuer_keeps(data, sig_t.start + sig_t.len, end, GTbs { signature, ..base });
        }
    }
}

/// The serial stage keeps the version and extensions of its base.
proof fn lemma_serial_keeps(data: Seq<u8>, pos: int, end: int, base: GTbs)
    requires
        spec_tbs_serial(data, pos, end, base) is Ok,
    ensures
        spec_tbs_serial(data, pos, end, base)->Ok_0.version == base.version,
        spec_tbs_serial(data, pos, end, base)->Ok_0.extensions == base.extensions
            || spec_tbs_serial(data, pos, end, base)->Ok_0.version == 3,
{
    if let Ok((serial, p2)) = spec_serial(data, pos, end) {
        lemma_sig_keeps(data, p2, end, GTbs { serial, ..base });
    }
}

/// Law: a certificate body below version 3 that parses carries no
/// extensions: an extensions field in such a body is rejected as
/// `InvalidStructure`, so its absence is no requirement but its presence
/// is an error.
pub proof fn lemma_low_version_no_extensions(data: Seq<u8>, t: GTlv)
    requires
        spec_tbs(data, t) matches Ok(tbs) && tbs.version < 3,
    ensures
        spec_tbs(data, t)->Ok_0.extensions.len() == 0,
{
    let end = t.start + t.len;
    if let Ok((version, p1)) = spec_tbs_version(data, t.start, end) {
        lemma_serial_keeps(data, p1, end, spec_empty_tbs(version));
    }
}

/// The outer Certificate: a SEQUENCE of exactly three elements — the
/// to-be-signed body, the signature algorithm, and the signature BIT
/// STRING.
pub open spec fn spec_certificate(data: Seq<u8>) -> Result<GCert, DecodeError> {
    match der::spec_read_tlv(data, 0, data.len() as int) {
        Err(e) => Err(e),
        Ok(outer) => {
            if outer.tag != 0x30 {
                Err(DecodeError::InvalidStructure)
            } else {
                let end = outer.start + outer.len;
                match der::spec_read_tlv(data, outer.start, end) {
                    Err(e) => Err(e),
                    Ok(tbs_t) => {
                        if tbs_t.tag != 0x30 {
                            Err(DecodeError::InvalidStructure)
                        } else {
                            match spec_tbs(data, tbs_t) {
                                Err(e) => Err(e),
                                Ok(tbs) => {
                                    match der::spec_read_tlv(data, tbs_t.start + tbs_t.len, end) {
                                        Err(e) => Err(e),
                                        Ok(alg_t) => {
                                            match spec_alg_id(data, alg_t) {
                                                Err(e) => Err(e),
                                                Ok(alg) => {
                                                    match der::spec_read_tlv(
                                                        data,
                                                        alg_t.start + alg_t.len,
                                                        end,
                                                    ) {
                                                        Err(e) => Err(e),
                                                        Ok(sig_t) => {
                                                            if sig_t.tag != 0x03 {
                                                                Err(DecodeError::InvalidStructure)
                                                            } else if sig_t.start + sig_t.len
                                                                != end {
                                                                Err(DecodeError::InvalidStructure)
                                                            } else {
                                                                match der::spec_bit_string(
                                                                    der::spec_content(data, sig_t),
                                                                ) {
                                                                    Err(e) => Err(e),
                                                                    Ok((unused, bytes)) => Ok(
                                                                        GCert {
                                                                            tbs_certificate: tbs,
                                                                            signature_algorithm:
                                                                                alg,
                                                                            sig_unused: unused,
                                                                            sig_bytes: bytes,
                                                                        },
                                                                    ),
                                                                }
                                                            }
                                                        },
                                                    }
                                                },
                                            }
                                        },
                                    }
                                },
                            }
                        }
                    },
                }
            }
        },
    }
}

/// Relies on `String::from_utf8`: it returns `Ok` exactly when the bytes
/// are valid UTF-8, and then holds those bytes decoded to characters.
#[verifier::external_body]
fn bytes_to_string(v: &Vec<u8>) -> (r: Option<String>)
    ensures
        r is Some <==> vstd::utf8::valid_utf8(v@),
        r is Some ==> r->Some_0@ == vstd::utf8::decode_utf8(v@),
{
    match String::from_utf8(v.clone()) {
        Ok(s) => Some(s),
        Err(_) => None,
    }
}

/// Parses an AlgorithmIdentifier node.
fn parse_alg_id(data: &Vec<u8>, t: &Tlv) -> (r: Result<AlgorithmIdentifier, DecodeError>)
    requires
        t.start + t.len <= data@.len(),
    ensures
        match r {
            Ok(v) => spec_alg_id(data@, t@) == Ok::<GAlgId, DecodeError>(v@),
            Err(e) => spec_alg_id(data@, t@) == Err::<GAlgId, DecodeError>(e),
        },
{
    let n = data.len();
    if t.tag != 0x30 {
        return Err(DecodeError::InvalidStructure);
    }
    let end = t.start + t.len;
    let ot = match der::read_tlv(data, t.start, end) {
        Ok(v) => v,
        Err(e) => { return Err(e) },
    };
    if ot.tag != 0x06 {
        return Err(DecodeError::InvalidStructure);
    }
    let arcs = match der::read_oid(data, &ot) {
        Ok(v) => v,
        Err(e) => { return Err(e) },
    };
    let pstart = ot.start + ot.len;
    if pstart == end {
        return Ok(AlgorithmIdentifier { oid: arcs, parameters: None });
    }
    let pt = match der::read_tlv(data, pstart, end) {
        Ok(v) => v,
        Err(e) => { return Err(e) },
    };
    if pt.start + pt.len != end {
        return Err(DecodeError::InvalidStructure);
    }
    let raw = der::copy_range(data, pstart, end - pstart);
    Ok(AlgorithmIdentifier { oid: arcs, parameters: Some(raw) })
}

/// Parses one AttributeTypeAndValue node.
fn parse_atv(data: &Vec<u8>, t: &Tlv) -> (r: Result<AttributeTypeAndValue, DecodeError>)
    requires
        t.start + t.len <= data@.len(),
    ensures
        match r {
            Ok(v) => spec_atv(data@, t@) == Ok::<GAttr, DecodeError>(v@),
            Err(e) => spec_atv(data@, t@) == Err::<GAttr, DecodeError>(e),
        },
{
    let n = data.len();
    if t.tag != 0x30 {
        return Err(DecodeError::InvalidStructure);
    }
    let end = t.start + t.len;
    let ot = match der::read_tlv(data, t.start, end) {
        Ok(v) => v,
        Err(e) => { return Err(e) },
    };
    if ot.tag != 0x06 {
        return Err(DecodeError::InvalidStructure);
    }
    let arcs = match der::read_oid(data, &ot) {
        Ok(v) => v,
        Err(e) => { return Err(e) },
    };
    let vt = match der::read_tlv(data, ot.start + ot.len, end) {
        Ok(v) => v,
        Err(e) => { return Err(e) },
    };
    if vt.start + vt.len != end {
        return Err(DecodeError::InvalidStructure);
    }
    let kind = if vt.tag == 0x13 {
        StringKind::Printable
    } else if vt.tag == 0x0c {
        StringKind::Utf8
    } else if vt.tag == 0x16 {
        StringKind::Ia5
    } else {
        return Err(DecodeError::UnsupportedEncoding);
    };
    let raw = der::copy_range(data, vt.start, vt.len);
    match bytes_to_string(&raw) {
        Some(text) => Ok(AttributeTypeAndValue { attr_type: arcs, kind, text }),
        None => Err(DecodeError::InvalidEncoding),
    }
}

/// Joins a parsed prefix with the outcome for the remainder of a list.
pub open spec fn spec_cons_result<T>(prefix: Seq<T>, r: Result<Seq<T>, DecodeError>) -> Result<
    Seq<T>,
    DecodeError,
> {
    match r {
        Ok(rest) => Ok(prefix + rest),
        Err(e) => Err(e),
    }
}

/// Parses the attributes of one RDN SET.
fn parse_atv_list(data: &Vec<u8>, pos: usize, end: usize) -> (r: Result<
    Vec<AttributeTypeAndValue>,
    DecodeError,
>)
    requires
        pos <= end <= data@.len(),
    ensures
        match r {
            Ok(v) => spec_atv_list(data@, pos as int, end as int) == Ok::<Seq<GAttr>, DecodeError>(
                Seq::new(v@.len(), |i: int| v@[i]@),
            ),
            Err(e) => spec_atv_list(data@, pos as int, end as int) == Err::<Seq<GAttr>, DecodeError>(
                e,
            ),
        },
{
    let mut out: Vec<AttributeTypeAndValue> = Vec::new();
    let mut cur: usize = pos;
    proof {
        assert(Seq::new(out@.len(), |i: int| out@[i]@) + spec_atv_list(
            data@,
            pos as int,
            end as int,
        )->Ok_0 =~= spec_atv_list(data@, pos as int, end as int)->Ok_0);
    }
    while cur < end
        invariant
            pos <= cur <= end <= data@.len(),
            spec_atv_list(data@, pos as int, end as int) == spec_cons_result(
                Seq::new(out@.len(), |i: int| out@[i]@),
                spec_atv_list(data@, cur as int, end as int),
            ),
        decreases end - cur,
    {
        let t = match der::read_tlv(data, cur, end) {
            Ok(v) => v,
            Err(e) => { return Err(e) },
        };
        if t.tag != 0x30 {
            return Err(DecodeError::InvalidStructure);
        }
        let a = match parse_atv(data, &t) {
            Ok(v) => v,
            Err(e) => { return Err(e) },
        };
        let ghost old_view = Seq::new(out@.len(), |i: int| out@[i]@);
        out.push(a);
        proof {
            let new_view = Seq::new(out@.len(), |i: int| out@[i]@);
            assert(new_view =~= old_view + seq![a@]);
            if spec_atv_list(data@, t@.start + t@.len, end as int) is Ok {
                assert(old_view + (seq![a@] + spec_atv_list(
                    data@,
                    t@.start + t@.len,
                    end as int,
                )->Ok_0) =~= new_view + spec_atv_list(data@, t@.start + t@.len, end as int)->Ok_0);
            }
        }
        cur = t.start + t.len;
    }
    proof {
        let v = Seq::new(out@.len(), |i: int| out@[i]@);
        assert(v + Seq::<GAttr>::empty() =~= v);
    }
    Ok(out)
}

/// Parses the RDNs of a Name between `pos` and `end`.
fn parse_rdn_list(data: &Vec<u8>, pos: usize, end: usize) -> (r: Result<Vec<Rdn>, DecodeError>)
    requires
        pos <= end <= data@.len(),
    ensures
        match r {
            Ok(v) => spec_rdn_list(data@, pos as int, end as int) == Ok::<Seq<GRdn>, DecodeError>(
                Seq::new(v@.len(), |i: int| v@[i]@),
            ),
            Err(e) => spec_rdn_list(data@, pos as int, end as int) == Err::<Seq<GRdn>, DecodeError>(
                e,
            ),
        },
{
    let mut out: Vec<Rdn> = Vec::new();
    let mut cur: usize = pos;
    proof {
        assert(Seq::new(out@.len(), |i: int| out@[i]@) + spec_rdn_list(
            data@,
            pos as int,
            end as int,
        )->Ok_0 =~= spec_rdn_list(data@, pos as int, end as int)->Ok_0);
    }
    while cur < end
        invariant
            pos <= cur <= end <= data@.len(),
            spec_rdn_list(data@, pos as int, end as int) == spec_cons_result(
                Seq::new(out@.len(), |i: int| out@[i]@),
                spec_rdn_list(data@, cur as int, end as int),
            ),
        decreases end - cur,
    {
        let t = match der::read_tlv(data, cur, end) {
            Ok(v) => v,
            Err(e) => { return Err(e) },
        };
        if t.tag != 0x31 {
            return Err(DecodeError::InvalidStructure);
        }
        let attrs = match parse_atv_list(data, t.start, t.start + t.len) {
            Ok(v) => v,
            Err(e) => { return Err(e) },
        };
        let rdn = Rdn { attributes: attrs };
        proof {
            assert(spec_rdn(data@, t@) == Ok::<GRdn, DecodeError>(rdn@));
        }
        let ghost old_view = Seq::new(out@.len(), |i: int| out@[i]@);
        out.push(rdn);
        proof {
            let new_view = Seq::new(out@.len(), |i: int| out@[i]@);
            assert(new_view =~= old_view + seq![rdn@]);
            if spec_rdn_list(data@, t@.start + t@.len, end as int) is Ok {
                assert(old_view + (seq![rdn@] + spec_rdn_list(
                    data@,
                    t@.start + t@.len,
                    end as int,
                )->Ok_0) =~= new_view + spec_rdn_list(data@, t@.start + t@.len, end as int)->Ok_0);
            }
        }
        cur = t.start + t.len;
    }
    proof {
        let v = Seq::new(out@.len(), |i: int| out@[i]@);
        assert(v + Seq::<GRdn>::empty() =~= v);
    }
    Ok(out)
}

/// Parses a Name node.
fn parse_name(data: &Vec<u8>, t: &Tlv) -> (r: Result<Name, DecodeError>)
    requires
        t.start + t.len <= data@.len(),
    ensures
        match r {
            Ok(v) => spec_name(data@, t@) == Ok::<GName, DecodeError>(v@),
            Err(e) => spec_name(data@, t@) == Err::<GName, DecodeError>(e),
        },
{
    let n = data.len();
    if t.tag != 0x30 {
        return Err(DecodeError::InvalidStructure);
    }
    match parse_rdn_list(data, t.start, t.start + t.len) {
        Ok(rdns) => Ok(Name { rdns }),
        Err(e) => Err(e),
    }
}

/// Parses a Validity node.
fn parse_validity(data: &Vec<u8>, t: &Tlv) -> (r: Result<Validity, DecodeError>)
    requires
        t.start + t.len <= data@.len(),
    ensures
        match r {
            Ok(v) => spec_validity(data@, t@) == Ok::<GValidity, DecodeError>(v@),
            Err(e) => spec_validity(data@, t@) == Err::<GValidity, DecodeError>(e),
        },
{
    let n = data.len();
    if t.tag != 0x30 {
        return Err(DecodeError::InvalidStructure);
    }
    let end = t.start + t.len;
    let t1 = match der::read_tlv(data, t.start, end) {
        Ok(v) => v,
        Err(e) => { return Err(e) },
    };
    let nb = match der::read_time(data, &t1) {
        Ok(v) => v,
        Err(e) => { return Err(e) },
    };
    let t2 = match der::read_tlv(data, t1.start + t1.len, end) {
        Ok(v) => v,
        Err(e) => { return Err(e) },
    };
    let na = match der::read_time(data, &t2) {
        Ok(v) => v,
        Err(e) => { return Err(e) },
    };
    if t2.start + t2.len != end {
        return Err(DecodeError::InvalidStructure);
    }
    Ok(Validity { not_before: nb, not_after: na })
}

/// Parses a SubjectPublicKeyInfo node.
fn parse_spki(data: &Vec<u8>, t: &Tlv) -> (r: Result<SubjectPublicKeyInfo, DecodeError>)
    requires
        t.start + t.len <= data@.len(),
    ensures
        match r {
            Ok(v) => spec_spki(data@, t@) == Ok::<GSpki, DecodeError>(v@),
            Err(e) => spec_spki(data@, t@) == Err::<GSpki, DecodeError>(e),
        },
{
    let n = data.len();
    if t.tag != 0x30 {
        return Err(DecodeError::InvalidStructure);
    }
    let end = t.start + t.len;
    let at = match der::read_tlv(data, t.start, end) {
        Ok(v) => v,
        Err(e) => { return Err(e) },
    };
    let alg = match parse_alg_id(data, &at) {
        Ok(v) => v,
        Err(e) => { return Err(e) },
    };
    let kt = match der::read_tlv(data, at.start + at.len, end) {
        Ok(v) => v,
        Err(e) => { return Err(e) },
    };
    if kt.tag != 0x03 {
        return Err(DecodeError::InvalidStructure);
    }
    let key = match der::read_bit_string(data, &kt) {
        Ok(v) => v,
        Err(e) => { return Err(e) },
    };
    if kt.start + kt.len != end {
        return Err(DecodeError::InvalidStructure);
    }
    Ok(SubjectPublicKeyInfo { algorithm: alg, public_key: key })
}

/// Parses one Extension node.
fn parse_ext(data: &Vec<u8>, t: &Tlv) -> (r: Result<Extension, DecodeError>)
    requires
        t.start + t.len <= data@.len(),
    ensures
        match r {
            Ok(v) => spec_ext(data@, t@) == Ok::<GExt, DecodeError>(v@),
            Err(e) => spec_ext(data@, t@) == Err::<GExt, DecodeError>(e),
        },
{
    let n = data.len();
    let end = t.start + t.len;
    let ot = match der::read_tlv(data, t.start, end) {
        Ok(v) => v,
        Err(e) => { return Err(e) },
    };
    if ot.tag != 0x06 {
        return Err(DecodeError::InvalidStructure);
    }
    let arcs = match der::read_oid(data, &ot) {
        Ok(v) => v,
        Err(e) => { return Err(e) },
    };
    let bt = match der::read_tlv(data, ot.start + ot.len, end) {
        Ok(v) => v,
        Err(e) => { return Err(e) },
    };
    if bt.tag == 0x01 {
        let critical = match der::read_boolean(data, &bt) {
            Ok(v) => v,
            Err(e) => { return Err(e) },
        };
        let vt = match der::read_tlv(data, bt.start + bt.len, end) {
            Ok(v) => v,
            Err(e) => { return Err(e) },
        };
        if vt.tag != 0x04 || vt.start + vt.len != end {
            return Err(DecodeError::InvalidStructure);
        }
        let value = der::copy_range(data, vt.start, vt.len);
        Ok(Extension { oid: arcs, critical, value })
    } else if bt.tag == 0x04 {
        if bt.start + bt.len != end {
            return Err(DecodeError::InvalidStructure);
        }
        let value = der::copy_range(data, bt.start, bt.len);
        Ok(Extension { oid: arcs, critical: false, value })
    } else {
        Err(DecodeError::InvalidStructure)
    }
}

/// Parses the extensions between `pos` and `end`.
fn parse_ext_list(data: &Vec<u8>, pos: usize, end: usize) -> (r: Result<Vec<Extension>, DecodeError>)
    requires
        pos <= end <= data@.len(),
    ensures
        match r {
            Ok(v) => spec_ext_list(data@, pos as int, end as int) == Ok::<Seq<GExt>, DecodeError>(
                Seq::new(v@.len(), |i: int| v@[i]@),
            ),
            Err(e) => spec_ext_list(data@, pos as int, end as int) == Err::<Seq<GExt>, DecodeError>(
                e,
            ),
        },
{
    let mut out: Vec<Extension> = Vec::new();
    let mut cur: usize = pos;
    proof {
        assert(Seq::new(out@.len(), |i: int| out@[i]@) + spec_ext_list(
            data@,
            pos as int,
            end as int,
        )->Ok_0 =~= spec_ext_list(data@, pos as int, end as int)->Ok_0);
    }
    while cur < end
        invariant
            pos <= cur <= end <= data@.len(),
            spec_ext_list(data@, pos as int, end as int) == spec_cons_result(
                Seq::new(out@.len(), |i: int| out@[i]@),
                spec_ext_list(data@, cur as int, end as int),
            ),
        decreases end - cur,
    {
        let t = match der::read_tlv(data, cur, end) {
            Ok(v) => v,
            Err(e) => { return Err(e) },
        };
        if t.tag != 0x30 {
            return Err(DecodeError::InvalidStructure);
        }
        let x = match parse_ext(data, &t) {
            Ok(v) => v,
            Err(e) => { return Err(e) },
        };
        let ghost old_view = Seq::new(out@.len(), |i: int| out@[i]@);
        out.push(x);
        proof {
            let new_view = Seq::new(out@.len(), |i: int| out@[i]@);
            assert(new_view =~= old_view + seq![x@]);
            if spec_ext_list(data@, t@.start + t@.len, end as int) is Ok {
                assert(old_view + (seq![x@] + spec_ext_list(
                    data@,
                    t@.start + t@.len,
                    end as int,
                )->Ok_0) =~= new_view + spec_ext_list(data@, t@.start + t@.len, end as int)->Ok_0);
            }
        }
        cur = t.start + t.len;
    }
    proof {
        let v = Seq::new(out@.len(), |i: int| out@[i]@);
        assert(v + Seq::<GExt>::empty() =~= v);
    }
    Ok(out)
}

/// Parses the `[3]` extensions field.
fn parse_extensions(data: &Vec<u8>, t: &Tlv) -> (r: Result<Vec<Extension>, DecodeError>)
    requires
        t.start + t.len <= data@.len(),
    ensures
        match r {
            Ok(v) => spec_extensions(data@, t@) == Ok::<Seq<GExt>, DecodeError>(
                Seq::new(v@.len(), |i: int| v@[i]@),
            ),
            Err(e) => spec_extensions(data@, t@) == Err::<Seq<GExt>, DecodeError>(e),
        },
{
    let n = data.len();
    let end = t.start + t.len;
    let st = match der::read_tlv(data, t.start, end) {
        Ok(v) => v,
        Err(e) => { return Err(e) },
    };
    if st.tag != 0x30 || st.start + st.len != end {
        return Err(DecodeError::InvalidStructure);
    }
    parse_ext_list(data, st.start, end)
}

/// The body after version, serial, signature algorithm and issuer are
/// known.
pub open spec fn spec_base_through_issuer(
    version: u8,
    serial: Seq<u8>,
    signature: GAlgId,
    issuer: GName,
) -> GTbs {
    GTbs { issuer, ..GTbs { signature, ..GTbs { serial, ..spec_empty_tbs(version) } } }
}

/// Parses validity, subject, subject public key info and the optional
/// extensions field, completing the body.
#[verifier::rlimit(100)]
#[verifier::spinoff_prover]
fn parse_tbs_last(
    data: &Vec<u8>,
    pos: usize,
    end: usize,
    version: u8,
    serial: Vec<u8>,
    signature: AlgorithmIdentifier,
    issuer: Name,
) -> (r: Result<TbsCertificate, DecodeError>)
    requires
        pos <= end <= data@.len(),
    ensures
        ({
            let base = spec_base_through_issuer(version, serial@, signature@, issuer@);
            match r {
                Ok(v) => spec_tbs_validity(data@, pos as int, end as int, base) == Ok::<
                    GTbs,
                    DecodeError,
                >(v@),
                Err(e) => spec_tbs_validity(data@, pos as int, end as int, base) == Err::<
                    GTbs,
                    DecodeError,
                >(e),
            }
        }),
{
    let ghost g5base = spec_base_through_issuer(version, serial@, signature@, issuer@);
    // validity
    let val_t = match der::read_tlv(data, pos, end) {
        Ok(v) => v,
        Err(e) => { return Err(e) },
    };
    let validity = match parse_validity(data, &val_t) {
        Ok(v) => v,
        Err(e) => { return Err(e) },
    };
    let ghost g5 = GTbs { validity: validity@, ..g5base };
    proof {
        assert(spec_tbs_validity(data@, pos as int, end as int, g5base) == spec_tbs_subject(
            data@,
            val_t@.start + val_t@.len,
            end as int,
            g5,
        ));
    }
    // subject
    let sub_t = match der::read_tlv(data, val_t.start + val_t.len, end) {
        Ok(v) => v,
        Err(e) => { return Err(e) },
    };
    let subject = match parse_name(data, &sub_t) {
        Ok(v) => v,
        Err(e) => { return Err(e) },
    };
    let ghost g6 = GTbs { subject: subject@, ..g5 };
    proof {
        assert(spec_tbs_subject(data@, val_t@.start + val_t@.len, end as int, g5)
            == spec_tbs_spki(data@, sub_t@.start + sub_t@.len, end as int, g6));
    }
    // subject public key info
    let spki_t = match der::read_tlv(data, sub_t.start + sub_t.len, end) {
        Ok(v) => v,
        Err(e) => { return Err(e) },
    };
    let spki = match parse_spki(data, &spki_t) {
        Ok(v) => v,
        Err(e) => { return Err(e) },
    };
    let ghost g7 = GTbs { subject_public_key_info: spki@, ..g6 };
    let p7 = spki_t.start + spki_t.len;
    proof {
        assert(spec_tbs_spki(data@, sub_t@.start + sub_t@.len, end as int, g6) == spec_tbs_tail(
            data@,
            p7 as int,
            end as int,
            g7,
        ));
    }
    let mut extensions: Vec<Extension> = Vec::new();
    let ghost mut gfinal = g7;
    if p7 != end {
        let ext_t = match der::read_tlv(data, p7, end) {
            Ok(v) => v,
            Err(e) => { return Err(e) },
        };
        if ext_t.tag == 0xa3 {
            if version != 3 {
                return Err(DecodeError::InvalidStructure);
            }
            if ext_t.start + ext_t.len != end {
                return Err(DecodeError::InvalidStructure);
            }
            extensions = match parse_extensions(data, &ext_t) {
                Ok(v) => v,
                Err(e) => { return Err(e) },
            };
            proof {
                gfinal = GTbs {
                    extensions: Seq::new(extensions@.len(), |i: int| extensions@[i]@),
                    ..g7
                };
                assert(spec_tbs_tail(data@, p7 as int, end as int, g7) == Ok::<GTbs, DecodeError>(
                    gfinal,
                ));
            }
        } else if ext_t.tag == 0x81 || ext_t.tag == 0x82 || ext_t.tag == 0xa1 || ext_t.tag == 0xa2 {
            return Err(DecodeError::UnsupportedEncoding);
        } else {
            return Err(DecodeError::InvalidStructure);
        }
    } else {
        proof {
            assert(spec_tbs_tail(data@, p7 as int, end as int, g7) == Ok::<GTbs, DecodeError>(
                gfinal,
            ));
        }
    }
    let out = TbsCertificate {
        version,
        serial,
        signature,
        issuer,
        validity,
        subject,
        subject_public_key_info: spki,
        extensions,
    };
    proof {
        assert(out@.extensions =~= gfinal.extensions);
        assert(out@ =~~= gfinal);
    }
    Ok(out)
}

/// Parses serial, signature algorithm and issuer, then the rest of the
/// body.
#[verifier::rlimit(100)]
#[verifier::spinoff_prover]
fn parse_tbs_mid(data: &Vec<u8>, pos: usize, end: usize, version: u8) -> (r: Result<
    TbsCertificate,
    DecodeError,
>)
    requires
        pos <= end <= data@.len(),
    ensures
        match r {
            Ok(v) => spec_tbs_serial(data@, pos as int, end as int, spec_empty_tbs(version)) == Ok::<
                GTbs,
                DecodeError,
            >(v@),
            Err(e) => spec_tbs_serial(data@, pos as int, end as int, spec_empty_tbs(version))
                == Err::<GTbs, DecodeError>(e),
        },
{
    let ghost g1 = spec_empty_tbs(version);
    // serial number
    let st = match der::read_tlv(data, pos, end) {
        Ok(v) => v,
        Err(e) => { return Err(e) },
    };
    if st.tag != 0x02 {
        return Err(DecodeError::InvalidStructure);
    }
    let serial = match der::read_integer_bytes(data, &st) {
        Ok(v) => v,
        Err(e) => { return Err(e) },
    };
    let ghost g2 = GTbs { serial: serial@, ..g1 };
    proof {
        assert(spec_serial(data@, pos as int, end as int) == Ok::<(Seq<u8>, int), DecodeError>(
            (serial@, st@.start + st@.len),
        ));
        assert(spec_tbs_serial(data@, pos as int, end as int, g1) == spec_tbs_sig(
            data@,
            st@.start + st@.len,
            end as int,
            g2,
        ));
    }
    // signature algorithm of the body
    let sig_t = match der::read_tlv(data, st.start + st.len, end) {
        Ok(v) => v,
        Err(e) => { return Err(e) },
    };
    let signature = match parse_alg_id(data, &sig_t) {
        Ok(v) => v,
        Err(e) => { return Err(e) },
    };
    let ghost g3 = GTbs { signature: signature@, ..g2 };
    proof {
        assert(spec_tbs_sig(data@, st@.start + st@.len, end as int, g2) == spec_tbs_issuer(
            data@,
            sig_t@.start + sig_t@.len,
            end as int,
            g3,
        ));
    }
    // issuer
    let iss_t = match der::read_tlv(data, sig_t.start + sig_t.len, end) {
        Ok(v) => v,
        Err(e) => { return Err(e) },
    };
    let issuer = match parse_name(data, &iss_t) {
        Ok(v) => v,
        Err(e) => { return Err(e) },
    };
    let ghost g4 = GTbs { issuer: issuer@, ..g3 };
    proof {
        assert(spec_tbs_issuer(data@, sig_t@.start + sig_t@.len, end as int, g3)
            == spec_tbs_validity(data@, iss_t@.start + iss_t@.len, end as int, g4));
        assert(g4 == spec_base_through_issuer(version, serial@, signature@, issuer@));
    }
    parse_tbs_last(data, iss_t.start + iss_t.len, end, version, serial, signature, issuer)
}

/// Parses the TBSCertificate body: the version field, then the remaining
/// fields stage by stage.
#[verifier::spinoff_prover]
fn parse_tbs(data: &Vec<u8>, t: &Tlv) -> (r: Result<TbsCertificate, DecodeError>)
    requires
        t.start + t.len <= data@.len(),
    ensures
        match r {
            Ok(v) => spec_tbs(data@, t@) == Ok::<GTbs, DecodeError>(v@),
            Err(e) => spec_tbs(data@, t@) == Err::<GTbs, DecodeError>(e),
        },
{
    let n = data.len();
    let end = t.start + t.len;
    // version
    let first = match der::read_tlv(data, t.start, end) {
        Ok(v) => v,
        Err(e) => { return Err(e) },
    };
    let mut p: usize = t.start;
    let version: u8;
    if first.tag == 0xa0 {
        let fend = first.start + first.len;
        let vt = match der::read_tlv(data, first.start, fend) {
            Ok(v) => v,
            Err(e) => { return Err(e) },
        };
        if vt.tag != 0x02 {
            return Err(DecodeError::InvalidStructure);
        }
        if vt.start + vt.len != fend {
            return Err(DecodeError::InvalidStructure);
        }
        let v = match der::read_small_integer(data, &vt) {
            Ok(v) => v,
            Err(e) => { return Err(e) },
        };
        if v > 2 {
            return Err(DecodeError::InvalidStructure);
        }
        version = v + 1;
        p = fend;
    } else {
        version = 1;
    }
    proof {
        assert(spec_tbs_version(data@, t@.start, t@.start + t@.len) == Ok::<(u8, int), DecodeError>(
            (version, p as int),
        ));
        assert(spec_tbs(data@, t@) == spec_tbs_serial(
            data@,
            p as int,
            end as int,
            spec_empty_tbs(version),
        ));
    }
    parse_tbs_mid(data, p, end, version)
}

/// Builds a typed certificate from DER bytes, exactly as
/// [`spec_certificate`] describes: the outer SEQUENCE must hold the
/// to-be-signed body, the signature algorithm, and the signature value,
/// and any mismatch anywhere in the tree aborts the build with the first
/// error met.
pub fn parse_certificate(data: &Vec<u8>) -> (r: Result<Certificate, DecodeError>)
    ensures
        match r {
            Ok(v) => spec_certificate(data@) == Ok::<GCert, DecodeError>(v@),
            Err(e) => spec_certificate(data@) == Err::<GCert, DecodeError>(e),
        },
{
    let mut top = Cursor::new(data);
    let outer = match top.read_tlv(data) {
        Ok(v) => v,
        Err(e) => { return Err(e) },
    };
    if let Err(e) = der::expect_tag(&outer, 0x30) {
        return Err(e);
    }
    let mut cur = Cursor::sub(data, &outer);
    let tbs_t = match cur.read_tlv(data) {
        Ok(v) => v,
        Err(e) => { return Err(e) },
    };
    if let Err(e) = der::expect_tag(&tbs_t, 0x30) {
        return Err(e);
    }
    let tbs = match parse_tbs(data, &tbs_t) {
        Ok(v) => v,
        Err(e) => { return Err(e) },
    };
    let alg_t = match cur.read_tlv(data) {
        Ok(v) => v,
        Err(e) => { return Err(e) },
    };
    let alg = match parse_alg_id(data, &alg_t) {
        Ok(v) => v,
        Err(e) => { return Err(e) },
    };
    let sig_t = match cur.read_tlv(data) {
        Ok(v) => v,
        Err(e) => { return Err(e) },
    };
    if let Err(e) = der::expect_tag(&sig_t, 0x03) {
        return Err(e);
    }
    if !cur.at_end() {
        return Err(DecodeError::InvalidStructure);
    }
    let sig = match der::read_bit_string(data, &sig_t) {
        Ok(v) => v,
        Err(e) => { return Err(e) },
    };
    Ok(Certificate { tbs_certificate: tbs, signature_algorithm: alg, signature_value: sig })
}

/// A failed AlgorithmIdentifier parse reports a decoding kind.
proof fn lemma_alg_id_error_kind(data: Seq<u8>, t: GTlv)
    requires
        spec_alg_id(data, t) is Err,
    ensures
        crate::err::spec_is_decode_error(spec_alg_id(data, t)->Err_0),
{
    if t.tag == 0x30 {
        let end = t.start + t.len;
        if der::spec_read_tlv(data, t.start, end) is Err {
            der::lemma_read_tlv_error_kind(data, t.start, end);
        } else {
            let ot = der::spec_read_tlv(data, t.start, end)->Ok_0;
            if ot.tag == 0x06 && der::spec_oid_arcs(der::spec_content(data, ot)) is Some {
                let pstart = ot.start + ot.len;
                if pstart != end && der::spec_read_tlv(data, pstart, end) is Err {
                    der::lemma_read_tlv_error_kind(data, pstart, end);
                }
            }
        }
    }
}

/// A failed attribute parse reports a decoding kind.
proof fn lemma_atv_error_kind(data: Seq<u8>, t: GTlv)
    requires
        spec_atv(data, t) is Err,
    ensures
        crate::err::spec_is_decode_error(spec_atv(data, t)->Err_0),
{
    if t.tag == 0x30 {
        let end = t.start + t.len;
        if der::spec_read_tlv(data, t.start, end) is Err {
            der::lemma_read_tlv_error_kind(data, t.start, end);
        } else {
            let ot = der::spec_read_tlv(data, t.start, end)->Ok_0;
            if ot.tag == 0x06 && der::spec_oid_arcs(der::spec_content(data, ot)) is Some {
                if der::spec_read_tlv(data, ot.start + ot.len, end) is Err {
                    der::lemma_read_tlv_error_kind(data, ot.start + ot.len, end);
                }
            }
        }
    }
}

/// A failed attribute-list parse reports a decoding kind.
proof fn lemma_atv_list_error_kind(data: Seq<u8>, pos: int, end: int)
    requires
        spec_atv_list(data, pos, end) is Err,
    ensures
        crate::err::spec_is_decode_error(spec_atv_list(data, pos, end)->Err_0),
    decreases end - pos,
{
    if pos < end {
        if der::spec_read_tlv(data, pos, end) is Err {
            der::lemma_read_tlv_error_kind(data, pos, end);
        } else {
            let t = der::spec_read_tlv(data, pos, end)->Ok_0;
            der::lemma_read_tlv_ok_bounds(data, pos, end);
            if t.tag == 0x30 {
                if spec_atv(data, t) is Err {
                    lemma_atv_error_kind(data, t);
                } else {
                    lemma_atv_list_error_kind(data, t.start + t.len, end);
                }
            }
        }
    }
}

/// A failed RDN-list parse reports a decoding kind.
proof fn lemma_rdn_list_error_kind(data: Seq<u8>, pos: int, end: int)
    requires
        spec_rdn_list(data, pos, end) is Err,
    ensures
        crate::err::spec_is_decode_error(spec_rdn_list(data, pos, end)->Err_0),
    decreases end - pos,
{
    if pos < end {
        if der::spec_read_tlv(data, pos, end) is Err {
            der::lemma_read_tlv_error_kind(data, pos, end);
        } else {
            let t = der::spec_read_tlv(data, pos, end)->Ok_0;
            der::lemma_read_tlv_ok_bounds(data, pos, end);
            if t.tag == 0x31 {
                if spec_rdn(data, t) is Err {
                    lemma_atv_list_error_kind(data, t.start, t.start + t.len);
                } else {
                    lemma_rdn_list_error_kind(data, t.start + t.len, end);
                }
            }
        }
    }
}

/// A failed Name parse reports a decoding kind.
proof fn lemma_name_error_kind(data: Seq<u8>, t: GTlv)
    requires
        spec_name(data, t) is Err,
    ensures
        crate::err::spec_is_decode_error(spec_name(data, t)->Err_0),
{
    if t.tag == 0x30 {
        lemma_rdn_list_error_kind(data, t.start, t.start + t.len);
    }
}

/// A failed Validity parse reports a decoding kind.
proof fn lemma_validity_error_kind(data: Seq<u8>, t: GTlv)
    requires
        spec_validity(data, t) is Err,
    ensures
        crate::err::spec_is_decode_error(spec_validity(data, t)->Err_0),
{
    if t.tag == 0x30 {
        let end = t.start + t.len;
        if der::spec_read_tlv(data, t.start, end) is Err {
            der::lemma_read_tlv_error_kind(data, t.start, end);
        } else {
            let t1 = der::spec_read_tlv(data, t.start, end)->Ok_0;
            if der::spec_time(t1.tag, der::spec_content(data, t1)) is Err {
                der::lemma_time_error_kind(t1.tag, der::spec_content(data, t1));
            } else if der::spec_read_tlv(data, t1.start + t1.len, end) is Err {
                der::lemma_read_tlv_error_kind(data, t1.start + t1.len, end);
            } else {
                let t2 = der::spec_read_tlv(data, t1.start + t1.len, end)->Ok_0;
                if der::spec_time(t2.tag, der::spec_content(data, t2)) is Err {
                    der::lemma_time_error_kind(t2.tag, der::spec_content(data, t2));
                }
            }
        }
    }
}

/// A failed SubjectPublicKeyInfo parse reports a decoding kind.
proof fn lemma_spki_error_kind(data: Seq<u8>, t: GTlv)
    requires
        spec_spki(data, t) is Err,
    ensures
        crate::err::spec_is_decode_error(spec_spki(data, t)->Err_0),
{
    if t.tag == 0x30 {
        let end = t.start + t.len;
        if der::spec_read_tlv(data, t.start, end) is Err {
            der::lemma_read_tlv_error_kind(data, t.start, end);
        } else {
            let at = der::spec_read_tlv(data, t.start, end)->Ok_0;
            if spec_alg_id(data, at) is Err {
                lemma_alg_id_error_kind(data, at);
            } else if der::spec_read_tlv(data, at.start + at.len, end) is Err {
                der::lemma_read_tlv_error_kind(data, at.start + at.len, end);
            }
        }
    }
}

/// A failed Extension parse reports a decoding kind.
proof fn lemma_ext_error_kind(data: Seq<u8>, t: GTlv)
    requires
        spec_ext(data, t) is Err,
    ensures
        crate::err::spec_is_decode_error(spec_ext(data, t)->Err_0),
{
    let end = t.start + t.len;
    if der::spec_read_tlv(data, t.start, end) is Err {
        der::lemma_read_tlv_error_kind(data, t.start, end);
    } else {
        let ot = der::spec_read_tlv(data, t.start, end)->Ok_0;
        if ot.tag == 0x06 && der::spec_oid_arcs(der::spec_content(data, ot)) is Some {
            if der::spec_read_tlv(data, ot.start + ot.len, end) is Err {
                der::lemma_read_tlv_error_kind(data, ot.start + ot.len, end);
            } else {
                let bt = der::spec_read_tlv(data, ot.start + ot.len, end)->Ok_0;
                if bt.tag == 0x01 && der::spec_boolean(der::spec_content(data, bt)) is Ok {
                    if der::spec_read_tlv(data, bt.start + bt.len, end) is Err {
                        der::lemma_read_tlv_error_kind(data, bt.start + bt.len, end);
                    }
                }
            }
        }
    }
}

/// A failed extension-list parse reports a decoding kind.
proof fn lemma_ext_list_error_kind(data: Seq<u8>, pos: int, end: int)
    requires
        spec_ext_list(data, pos, end) is Err,
    ensures
        crate::err::spec_is_decode_error(spec_ext_list(data, pos, end)->Err_0),
    decreases end - pos,
{
    if pos < end {
        if der::spec_read_tlv(data, pos, end) is Err {
            der::lemma_read_tlv_error_kind(data, pos, end);
        } else {
            let t = der::spec_read_tlv(data, pos, end)->Ok_0;
            der::lemma_read_tlv_ok_bounds(data, pos, end);
            if t.tag == 0x30 {
                if spec_ext(data, t) is Err {
                    lemma_ext_error_kind(data, t);
                } else {
                    lemma_ext_list_error_kind(data, t.start + t.len, end);
                }
            }
        }
    }
}

/// A failed extensions-field parse reports a decoding kind.
proof fn lemma_extensions_error_kind(data: Seq<u8>, t: GTlv)
    requires
        spec_extensions(data, t) is Err,
    ensures
        crate::err::spec_is_decode_error(spec_extensions(data, t)->Err_0),
{
    let end = t.start + t.len;
    if der::spec_read_tlv(data, t.start, end) is Err {
        der::lemma_read_tlv_error_kind(data, t.start, end);
    } else {
        let st = der::spec_read_tlv(data, t.start, end)->Ok_0;
        if st.tag == 0x30 && st.start + st.len == end {
            lemma_ext_list_error_kind(data, st.start, end);
        }
    }
}

/// A failed version-field parse reports a decoding kind.
proof fn lemma_tbs_version_error_kind(data: Seq<u8>, start: int, end: int)
    requires
        spec_tbs_version(data, start, end) is Err,
    ensures
        crate::err::spec_is_decode_error(spec_tbs_version(data, start, end)->Err_0),
{
    if der::spec_read_tlv(data, start, end) is Err {
        der::lemma_read_tlv_error_kind(data, start, end);
    } else {
        let first = der::spec_read_tlv(data, start, end)->Ok_0;
        if first.tag == 0xa0 {
            let fend = first.start + first.len;
            if der::spec_read_tlv(data, first.start, fend) is Err {
                der::lemma_read_tlv_error_kind(data, first.start, fend);
            }
        }
    }
}

/// A failed serial-number parse reports a decoding kind.
proof fn lemma_serial_error_kind(data: Seq<u8>, start: int, end: int)
    requires
        spec_serial(data, start, end) is Err,
    ensures
        crate::err::spec_is_decode_error(spec_serial(data, start, end)->Err_0),
{
    if der::spec_read_tlv(data, start, end) is Err {
        der::lemma_read_tlv_error_kind(data, start, end);
    }
}

/// A failed tail parse reports a decoding kind.
proof fn lemma_tbs_tail_error_kind(data: Seq<u8>, pos: int, end: int, base: GTbs)
    requires
        spec_tbs_tail(data, pos, end, base) is Err,
    ensures
        crate::err::spec_is_decode_error(spec_tbs_tail(data, pos, end, base)->Err_0),
{
    if pos != end {
        if der::spec_read_tlv(data, pos, end) is Err {
            der::lemma_read_tlv_error_kind(data, pos, end);
        } else {
            let ext_t = der::spec_read_tlv(data, pos, end)->Ok_0;
            if ext_t.tag == 0xa3 && base.version == 3 && ext_t.start + ext_t.len == end {
                lemma_extensions_error_kind(data, ext_t);
            }
        }
    }
}

/// A failed key stage reports a decoding kind.
proof fn lemma_tbs_spki_error_kind(data: Seq<u8>, pos: int, end: int, base: GTbs)
    requires
        spec_tbs_spki(data, pos, end, base) is Err,
    ensures
        crate::err::spec_is_decode_error(spec_tbs_spki(data, pos, end, base)->Err_0),
{
    if der::spec_read_tlv(data, pos, end) is Err {
        der::lemma_read_tlv_error_kind(data, pos, end);
    } else {
        let spki_t = der::spec_read_tlv(data, pos, end)->Ok_0;
        if spec_spki(data, spki_t) is Err {
            lemma_spki_error_kind(data, spki_t);
        } else {
            let sp = spec_spki(data, spki_t)->Ok_0;
            lemma_tbs_tail_error_kind(
                data,
                spki_t.start + spki_t.len,
                end,
                GTbs { subject_public_key_info: sp, ..base },
            );
        }
    }
}

/// A failed subject stage reports a decoding kind.
proof fn lemma_tbs_subject_error_kind(data: Seq<u8>, pos: int, end: int, base: GTbs)
    requires
        spec_tbs_subject(data, pos, end, base) is Err,
    ensures
        crate::err::spec_is_decode_error(spec_tbs_subject(data, pos, end, base)->Err_0),
{
    if der::spec_read_tlv(data, pos, end) is Err {
        der::lemma_read_tlv_error_kind(data, pos, end);
    } else {
        let sub_t = der::spec_read_tlv(data, pos, end)->Ok_0;
        if spec_name(data, sub_t) is Err {
            lemma_name_error_kind(data, sub_t);
        } else {
            let subject = spec_name(data, sub_t)->Ok_0;
            lemma_tbs_spki_error_kind(data, sub_t.start + sub_t.len, end, GTbs { subject, ..base });
        }
    }
}

/// A failed validity stage reports a decoding kind.
proof fn lemma_tbs_validity_error_kind(data: Seq<u8>, pos: int, end: int, base: GTbs)
    requires
        spec_tbs_validity(data, pos, end, base) is Err,
    ensures
        crate::err::spec_is_decode_error(spec_tbs_validity(data, pos, end, base)->Err_0),
{
    if der::spec_read_tlv(data, pos, end) is Err {
        der::lemma_read_tlv_error_kind(data, pos, end);
    } else {
        let val_t = der::spec_read_tlv(data, pos, end)->Ok_0;
        if spec_validity(data, val_t) is Err {
            lemma_validity_error_kind(data, val_t);
        } else {
            let validity = spec_validity(data, val_t)->Ok_0;
            lemma_tbs_subject_error_kind(
                data,
                val_t.start + val_t.len,
                end,
                GTbs { validity, ..base },
            );
        }
    }
}

/// A failed issuer stage reports a decoding kind.
proof fn lemma_tbs_issuer_error_kind(data: Seq<u8>, pos: int, end: int, base: GTbs)
    requires
        spec_tbs_issuer(data, pos, end, base) is Err,
    ensures
        crate::err::spec_is_decode_error(spec_tbs_issuer(data, pos, end, base)->Err_0),
{
    if der::spec_read_tlv(data, pos, end) is Err {
        der::lemma_read_tlv_error_kind(data, pos, end);
    } else {
        let iss_t = der::spec_read_tlv(data, pos, end)->Ok_0;
        if spec_name(data, iss_t) is Err {
            lemma_name_error_kind(data, iss_t);
        } else {
            let issuer = spec_name(data, iss_t)->Ok_0;
            lemma_tbs_validity_error_kind(data, iss_t.start + iss_t.len, end, GTbs { issuer, ..base });
        }
    }
}

/// A failed signature stage reports a decoding kind.
proof fn lemma_tbs_sig_error_kind(data: Seq<u8>, pos: int, end: int, base: GTbs)
    requires
        spec_tbs_sig(data, pos, end, base) is Err,
    ensures
        crate::err::spec_is_decode_error(spec_tbs_sig(data, pos, end, base)->Err_0),
{
    if der::spec_read_tlv(data, pos, end) is Err {
        der::lemma_read_tlv_error_kind(data, pos, end);
    } else {
        let sig_t = der::spec_read_tlv(data, pos, end)->Ok_0;
        if spec_alg_id(data, sig_t) is Err {
            lemma_alg_id_error_kind(data, sig_t);
        } else {
            let signature = spec_alg_id(data, sig_t)->Ok_0;
            lemma_tbs_issuer_error_kind(data, sig_t.start + sig_t.len, end, GTbs { signature, ..base });
        }
    }
}

/// A failed serial stage reports a decoding kind.
proof fn lemma_tbs_serial_error_kind(data: Seq<u8>, pos: int, end: int, base: GTbs)
    requires
        spec_tbs_serial(data, pos, end, base) is Err,
    ensures
        crate::err::spec_is_decode_error(spec_tbs_serial(data, pos, end, base)->Err_0),
{
    if spec_serial(data, pos, end) is Err {
        lemma_serial_error_kind(data, pos, end);
    } else {
        if let Ok((serial, p2)) = spec_serial(data, pos, end) {
            lemma_tbs_sig_error_kind(data, p2, end, GTbs { serial, ..base });
        }
    }
}

/// A failed body parse reports a decoding kind.
proof fn lemma_tbs_error_kind(data: Seq<u8>, t: GTlv)
    requires
        spec_tbs(data, t) is Err,
    ensures
        crate::err::spec_is_decode_error(spec_tbs(data, t)->Err_0),
{
    let end = t.start + t.len;
    if spec_tbs_version(data, t.start, end) is Err {
        lemma_tbs_version_error_kind(data, t.start, end);
    } else {
        if let Ok((version, p1)) = spec_tbs_version(data, t.start, end) {
            lemma_tbs_serial_error_kind(data, p1, end, spec_empty_tbs(version));
        }
    }
}

/// A failed certificate parse reports a decoding kind, never a usage or
/// file kind.
pub proof fn lemma_certificate_error_kind(data: Seq<u8>)
    requires
        spec_certificate(data) is Err,
    ensures
        crate::err::spec_is_decode_error(spec_certificate(data)->Err_0),
{
    if der::spec_read_tlv(data, 0, data.len() as int) is Err {
        der::lemma_read_tlv_error_kind(data, 0, data.len() as int);
    } else {
        let outer = der::spec_read_tlv(data, 0, data.len() as int)->Ok_0;
        if outer.tag == 0x30 {
            let end = outer.start + outer.len;
            if der::spec_read_tlv(data, outer.start, end) is Err {
                der::lemma_read_tlv_error_kind(data, outer.start, end);
            } else {
                let tbs_t = der::spec_read_tlv(data, outer.start, end)->Ok_0;
                if tbs_t.tag == 0x30 {
                    if spec_tbs(data, tbs_t) is Err {
                        lemma_tbs_error_kind(data, tbs_t);
                    } else if der::spec_read_tlv(data, tbs_t.start + tbs_t.len, end) is Err {
                        der::lemma_read_tlv_error_kind(data, tbs_t.start + tbs_t.len, end);
                    } else {
                        let alg_t = der::spec_read_tlv(data, tbs_t.start + tbs_t.len, end)->Ok_0;
                        if spec_alg_id(data, alg_t) is Err {
                            lemma_alg_id_error_kind(data, alg_t);
                        } else if der::spec_read_tlv(data, alg_t.start + alg_t.len, end) is Err {
                            der::lemma_read_tlv_error_kind(data, alg_t.start + alg_t.len, end);
                        }
                    }
                }
            }
        }
    }
}

} // verus!
