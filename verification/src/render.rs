//! The presenter: renders the certificate body as text.
//!
//! Formatting is total over the model — rendering never fails — and the
//! whole rendering is specified exactly: [`spec_render_certificate`]
//! pins the output down to the byte, built from the decimal, hexadecimal,
//! dotted-identifier, timestamp and name renderings beside it.

use vstd::prelude::*;
use vstd::string::StringExecFns;

use crate::x509::{AlgorithmIdentifier, Certificate, Extension, GAlgId, GAttr, GCert, GExt, GName, GRdn, Name};
use crate::der::DerTime;

verus! {

/// The decimal digit character of a value below ten.
pub open spec fn spec_digit_char(d: int) -> char {
    if d == 0 {
        '0'
    } else if d == 1 {
        '1'
    } else if d == 2 {
        '2'
    } else if d == 3 {
        '3'
    } else if d == 4 {
        '4'
    } else if d == 5 {
        '5'
    } else if d == 6 {
        '6'
    } else if d == 7 {
        '7'
    } else if d == 8 {
        '8'
    } else {
        '9'
    }
}

/// The decimal representation of a number, most significant digit first.
pub open spec fn spec_dec_rep(n: int) -> Seq<char>
    decreases n,
{
    if n < 10 {
        seq![spec_digit_char(n)]
    } else {
        spec_dec_rep(n / 10) + seq![spec_digit_char(n % 10)]
    }
}

/// A one-character string for a decimal digit.
fn digit_str(d: u64) -> (r: &'static str)
    requires
        d < 10,
    ensures
        r@ == seq![spec_digit_char(d as int)],
{
    proof {
        reveal_strlit("0");
        reveal_strlit("1");
        reveal_strlit("2");
        reveal_strlit("3");
        reveal_strlit("4");
        reveal_strlit("5");
        reveal_strlit("6");
        reveal_strlit("7");
        reveal_strlit("8");
        reveal_strlit("9");
    }
    let r: &'static str = if d == 0 {
        "0"
    } else if d == 1 {
        "1"
    } else if d == 2 {
        "2"
    } else if d == 3 {
        "3"
    } else if d == 4 {
        "4"
    } else if d == 5 {
        "5"
    } else if d == 6 {
        "6"
    } else if d == 7 {
        "7"
    } else if d == 8 {
        "8"
    } else {
        "9"
    };
    proof {
        assert(r@ =~= seq![spec_digit_char(d as int)]);
    }
    r
}

/// Appends the decimal representation of `n`.
fn append_u64(out: &mut String, n: u64)
    ensures
        final(out)@ == old(out)@ + spec_dec_rep(n as int),
    decreases n,
{
    if n >= 10 {
        append_u64(out, n / 10);
    }
    out.append(digit_str(n % 10));
    proof {
        assert(out@ =~= old(out)@ + spec_dec_rep(n as int));
    }
}

/// The decimal representation padded with zeros to two places.
pub open spec fn spec_pad2(n: int) -> Seq<char> {
    if n < 10 {
        seq!['0'] + spec_dec_rep(n)
    } else {
        spec_dec_rep(n)
    }
}

/// Appends a value below one hundred, zero-padded to two places.
fn append_pad2(out: &mut String, n: u64)
    requires
        n < 100,
    ensures
        final(out)@ == old(out)@ + spec_pad2(n as int),
{
    if n < 10 {
        proof {
            reveal_strlit("0");
        }
        out.append("0");
        proof {
            assert("0"@ =~= seq!['0']);
        }
    }
    append_u64(out, n);
    proof {
        assert(out@ =~= old(out)@ + spec_pad2(n as int));
    }
}

/// The decimal representation padded with zeros to four places.
pub open spec fn spec_pad4(n: int) -> Seq<char> {
    if n < 10 {
        seq!['0', '0', '0'] + spec_dec_rep(n)
    } else if n < 100 {
        seq!['0', '0'] + spec_dec_rep(n)
    } else if n < 1000 {
        seq!['0'] + spec_dec_rep(n)
    } else {
        spec_dec_rep(n)
    }
}

/// Appends a value below ten thousand, zero-padded to four places.
fn append_pad4(out: &mut String, n: u64)
    requires
        n < 10000,
    ensures
        final(out)@ == old(out)@ + spec_pad4(n as int),
{
    proof {
        reveal_strlit("000");
        reveal_strlit("00");
        reveal_strlit("0");
    }
    if n < 10 {
        out.append("000");
        proof {
            assert("000"@ =~= seq!['0', '0', '0']);
        }
    } else if n < 100 {
        out.append("00");
        proof {
            assert("00"@ =~= seq!['0', '0']);
        }
    } else if n < 1000 {
        out.append("0");
        proof {
            assert("0"@ =~= seq!['0']);
        }
    }
    append_u64(out, n);
    proof {
        assert(out@ =~= old(out)@ + spec_pad4(n as int));
    }
}

/// The lowercase hexadecimal digit character of a value below sixteen.
pub open spec fn spec_hex_char(d: int) -> char {
    if d < 10 {
        spec_digit_char(d)
    } else if d == 10 {
        'a'
    } else if d == 11 {
        'b'
    } else if d == 12 {
        'c'
    } else if d == 13 {
        'd'
    } else if d == 14 {
        'e'
    } else {
        'f'
    }
}

/// The two hexadecimal digits of a byte.
pub open spec fn spec_hex_pair(b: u8) -> Seq<char> {
    seq![spec_hex_char(b as int / 16), spec_hex_char(b as int % 16)]
}

/// The tail of a colon-separated hex rendering.
pub open spec fn spec_hex_rest(bytes: Seq<u8>) -> Seq<char>
    decreases bytes.len(),
{
    if bytes.len() == 0 {
        Seq::empty()
    } else {
        seq![':'] + spec_hex_pair(bytes[0]) + spec_hex_rest(bytes.skip(1))
    }
}

/// A colon-separated lowercase hex rendering of a byte run.
pub open spec fn spec_hex_of(bytes: Seq<u8>) -> Seq<char> {
    if bytes.len() == 0 {
        Seq::empty()
    } else {
        spec_hex_pair(bytes[0]) + spec_hex_rest(bytes.skip(1))
    }
}

/// A one-character string for a hexadecimal digit.
fn hex_str(d: u64) -> (r: &'static str)
    requires
        d < 16,
    ensures
        r@ == seq![spec_hex_char(d as int)],
{
    if d < 10 {
        digit_str(d)
    } else {
        proof {
            reveal_strlit("a");
            reveal_strlit("b");
            reveal_strlit("c");
            reveal_strlit("d");
            reveal_strlit("e");
            reveal_strlit("f");
        }
        let r: &'static str = if d == 10 {
            "a"
        } else if d == 11 {
            "b"
        } else if d == 12 {
            "c"
        } else if d == 13 {
            "d"
        } else if d == 14 {
            "e"
        } else {
            "f"
        };
        proof {
            assert(r@ =~= seq![spec_hex_char(d as int)]);
        }
        r
    }
}

/// Appends the two hex digits of a byte.
fn append_hex_pair(out: &mut String, b: u8)
    ensures
        final(out)@ == old(out)@ + spec_hex_pair(b),
{
    out.append(hex_str((b / 16) as u64));
    out.append(hex_str((b % 16) as u64));
    proof {
        assert(out@ =~= old(out)@ + spec_hex_pair(b));
    }
}

/// Appends the colon-separated hex rendering of the bytes.
fn append_hex(out: &mut String, bytes: &Vec<u8>)
    ensures
        final(out)@ == old(out)@ + spec_hex_of(bytes@),
{
    let n = bytes.len();
    if n == 0 {
        proof {
            assert(out@ =~= old(out)@ + spec_hex_of(bytes@));
        }
        return ;
    }
    append_hex_pair(out, bytes[0]);
    let mut i: usize = 1;
    proof {
        reveal_strlit(":");
        assert(bytes@.skip(1) =~= bytes@.subrange(1, n as int));
        assert(out@ + spec_hex_rest(bytes@.skip(1)) =~= old(out)@ + spec_hex_of(bytes@));
    }
    while i < n
        invariant
            1 <= i <= n,
            n == bytes@.len(),
            out@ + spec_hex_rest(bytes@.skip(i as int)) == old(out)@ + spec_hex_of(bytes@),
        decreases n - i,
    {
        proof {
            reveal_strlit(":");
            assert(bytes@.skip(i as int)[0] == bytes@[i as int]);
            assert(bytes@.skip(i as int).skip(1) =~= bytes@.skip(i + 1));
        }
        let ghost before = out@;
        out.append(":");
        append_hex_pair(out, bytes[i]);
        proof {
            assert(":"@ =~= seq![':']);
            assert(out@ =~= before + (seq![':'] + spec_hex_pair(bytes@[i as int])));
            assert(out@ + spec_hex_rest(bytes@.skip(i + 1)) =~= before + spec_hex_rest(
                bytes@.skip(i as int),
            ));
        }
        i = i + 1;
    }
    proof {
        assert(bytes@.skip(n as int) =~= Seq::<u8>::empty());
        assert(out@ =~= out@ + spec_hex_rest(bytes@.skip(n as int)));
    }
}

/// The tail of a dotted object-identifier rendering.
pub open spec fn spec_oid_rest(arcs: Seq<u64>) -> Seq<char>
    decreases arcs.len(),
{
    if arcs.len() == 0 {
        Seq::empty()
    } else {
        seq!['.'] + spec_dec_rep(arcs[0] as int) + spec_oid_rest(arcs.skip(1))
    }
}

/// The dotted decimal rendering of an object identifier's arcs.
pub open spec fn spec_oid_text(arcs: Seq<u64>) -> Seq<char> {
    if arcs.len() == 0 {
        Seq::empty()
    } else {
        spec_dec_rep(arcs[0] as int) + spec_oid_rest(arcs.skip(1))
    }
}

/// Appends the dotted rendering of an object identifier.
fn append_oid(out: &mut String, arcs: &Vec<u64>)
    ensures
        final(out)@ == old(out)@ + spec_oid_text(arcs@),
{
    let n = arcs.len();
    if n == 0 {
        proof {
            assert(out@ =~= old(out)@ + spec_oid_text(arcs@));
        }
        return ;
    }
    append_u64(out, arcs[0]);
    let mut i: usize = 1;
    proof {
        reveal_strlit(".");
        assert(out@ + spec_oid_rest(arcs@.skip(1)) =~= old(out)@ + spec_oid_text(arcs@));
    }
    while i < n
        invariant
            1 <= i <= n,
            n == arcs@.len(),
            out@ + spec_oid_rest(arcs@.skip(i as int)) == old(out)@ + spec_oid_text(arcs@),
        decreases n - i,
    {
        proof {
            reveal_strlit(".");
            assert(arcs@.skip(i as int)[0] == arcs@[i as int]);
            assert(arcs@.skip(i as int).skip(1) =~= arcs@.skip(i + 1));
        }
        let ghost before = out@;
        out.append(".");
        append_u64(out, arcs[i]);
        proof {
            assert("."@ =~= seq!['.']);
            assert(out@ =~= before + (seq!['.'] + spec_dec_rep(arcs@[i as int] as int)));
            assert(out@ + spec_oid_rest(arcs@.skip(i + 1)) =~= before + spec_oid_rest(
                arcs@.skip(i as int),
            ));
        }
        i = i + 1;
    }
    proof {
        assert(arcs@.skip(n as int) =~= Seq::<u64>::empty());
        assert(out@ =~= out@ + spec_oid_rest(arcs@.skip(n as int)));
    }
}

/// A timestamp as `YYYY-MM-DD HH:MM:SSZ`.
pub open spec fn spec_time_text(t: DerTime) -> Seq<char> {
    spec_pad4((t.year % 10000) as int) + "-"@ + spec_pad2((t.month % 100) as int) + "-"@
        + spec_pad2((t.day % 100) as int) + " "@ + spec_pad2((t.hour % 100) as int) + ":"@
        + spec_pad2((t.minute % 100) as int) + ":"@ + spec_pad2((t.second % 100) as int) + "Z"@
}

/// Appends a timestamp as `YYYY-MM-DD HH:MM:SSZ`.
fn append_time(out: &mut String, t: &DerTime)
    ensures
        final(out)@ == old(out)@ + spec_time_text(*t),
{
    append_pad4(out, (t.year % 10000) as u64);
    out.append("-");
    append_pad2(out, (t.month % 100) as u64);
    out.append("-");
    append_pad2(out, (t.day % 100) as u64);
    out.append(" ");
    append_pad2(out, (t.hour % 100) as u64);
    out.append(":");
    append_pad2(out, (t.minute % 100) as u64);
    out.append(":");
    append_pad2(out, (t.second % 100) as u64);
    out.append("Z");
    proof {
        assert(out@ =~= old(out)@ + spec_time_text(*t));
    }
}

/// An algorithm identifier as its dotted arcs.
pub open spec fn spec_alg_text(a: GAlgId) -> Seq<char> {
    spec_oid_text(a.oid)
}

/// Appends an algorithm identifier as its dotted arcs.
fn append_alg(out: &mut String, alg: &AlgorithmIdentifier)
    ensures
        final(out)@ == old(out)@ + spec_alg_text(alg@),
{
    append_oid(out, &alg.oid);
}

/// One name attribute as `/type=value`.
pub open spec fn spec_attr_text(a: GAttr) -> Seq<char> {
    "/"@ + spec_oid_text(a.attr_type) + "="@ + a.text
}

/// The attributes of one RDN, concatenated.
pub open spec fn spec_attrs_text(attrs: Seq<GAttr>) -> Seq<char>
    decreases attrs.len(),
{
    if attrs.len() == 0 {
        Seq::empty()
    } else {
        spec_attr_text(attrs[0]) + spec_attrs_text(attrs.skip(1))
    }
}

/// The RDNs of a name, concatenated.
pub open spec fn spec_rdns_text(rdns: Seq<GRdn>) -> Seq<char>
    decreases rdns.len(),
{
    if rdns.len() == 0 {
        Seq::empty()
    } else {
        spec_attrs_text(rdns[0].attributes) + spec_rdns_text(rdns.skip(1))
    }
}

/// A name as its `/type=value` attributes in order.
pub open spec fn spec_name_text(n: GName) -> Seq<char> {
    spec_rdns_text(n.rdns)
}

/// Appends a name as its `/type=value` attributes in order.
fn append_name(out: &mut String, name: &Name)
    ensures
        final(out)@ == old(out)@ + spec_name_text(name@),
{
    let ghost nv = name@.rdns;
    let mut i: usize = 0;
    proof {
        assert(nv.skip(0) =~= nv);
        assert(out@ + spec_rdns_text(nv) =~= old(out)@ + spec_name_text(name@));
    }
    while i < name.rdns.len()
        invariant
            i <= name.rdns@.len(),
            nv == name@.rdns,
            nv.len() == name.rdns@.len(),
            out@ + spec_rdns_text(nv.skip(i as int)) == old(out)@ + spec_name_text(name@),
        decreases name.rdns@.len() - i,
    {
        proof {
            assert(nv.skip(i as int)[0] == nv[i as int]);
            assert(nv.skip(i as int).skip(1) =~= nv.skip(i + 1));
            assert(nv[i as int] == name.rdns@[i as int]@);
        }
        let ghost av = nv[i as int].attributes;
        let ghost base_i = out@;
        let mut j: usize = 0;
        proof {
            assert(av.skip(0) =~= av);
        }
        while j < name.rdns[i].attributes.len()
            invariant
                i < name.rdns@.len(),
                i < nv.len(),
                j <= name.rdns@[i as int].attributes@.len(),
                nv == name@.rdns,
                nv.len() == name.rdns@.len(),
                av == nv[i as int].attributes,
                av == name.rdns@[i as int]@.attributes,
                av.len() == name.rdns@[i as int].attributes@.len(),
                out@ + spec_attrs_text(av.skip(j as int)) == base_i + spec_attrs_text(av),
            decreases name.rdns@[i as int].attributes@.len() - j,
        {
            let ghost before = out@;
            out.append("/");
            append_oid(out, &name.rdns[i].attributes[j].attr_type);
            out.append("=");
            out.append(name.rdns[i].attributes[j].text.as_str());
            proof {
                assert(av.skip(j as int)[0] == av[j as int]);
                assert(av.skip(j as int).skip(1) =~= av.skip(j + 1));
                assert(av[j as int] == name.rdns@[i as int].attributes@[j as int]@);
                assert(out@ =~= before + spec_attr_text(av[j as int]));
                assert(out@ + spec_attrs_text(av.skip(j + 1)) =~= before + spec_attrs_text(
                    av.skip(j as int),
                ));
            }
            j = j + 1;
        }
        proof {
            assert(av.skip(av.len() as int) =~= Seq::<GAttr>::empty());
            assert(spec_attrs_text(Seq::<GAttr>::empty()) == Seq::<char>::empty());
            assert(out@ =~= base_i + spec_attrs_text(av));
            assert(out@ + spec_rdns_text(nv.skip(i + 1)) =~= base_i + spec_rdns_text(
                nv.skip(i as int),
            ));
        }
        i = i + 1;
    }
    proof {
        assert(nv.skip(nv.len() as int) =~= Seq::<GRdn>::empty());
        assert(out@ + spec_rdns_text(nv.skip(nv.len() as int)) =~= out@);
    }
}

/// One extension line: its dotted arcs, its criticality, its value in hex.
pub open spec fn spec_ext_text(x: GExt) -> Seq<char> {
    "    "@ + spec_oid_text(x.oid) + (if x.critical {
        " critical"@
    } else {
        Seq::<char>::empty()
    }) + ": "@ + spec_hex_of(x.value) + "\n"@
}

/// The extension lines, in order.
pub open spec fn spec_exts_text(exts: Seq<GExt>) -> Seq<char>
    decreases exts.len(),
{
    if exts.len() == 0 {
        Seq::empty()
    } else {
        spec_ext_text(exts[0]) + spec_exts_text(exts.skip(1))
    }
}

/// Appends one extension line.
fn append_extension(out: &mut String, ext: &Extension)
    ensures
        final(out)@ == old(out)@ + spec_ext_text(ext@),
{
    out.append("    ");
    append_oid(out, &ext.oid);
    if ext.critical {
        out.append(" critical");
    }
    out.append(": ");
    append_hex(out, &ext.value);
    out.append("\n");
    proof {
        assert(out@ =~= old(out)@ + spec_ext_text(ext@));
    }
}

/// The rendering of a certificate's to-be-signed body: version, serial,
/// signature algorithm, issuer, validity, subject, subject public key
/// info, and the extension lines.
pub open spec fn spec_render_body(c: GCert) -> Seq<char> {
    "  Version: "@ + spec_dec_rep(c.tbs_certificate.version as int) + "\n  Serial Number: "@
        + spec_hex_of(c.tbs_certificate.serial) + "\n  Signature Algorithm: "@ + spec_alg_text(
        c.tbs_certificate.signature,
    ) + "\n  Issuer: "@ + spec_name_text(c.tbs_certificate.issuer)
        + "\n  Validity:\n    Not Before: "@ + spec_time_text(c.tbs_certificate.validity.not_before)
        + "\n    Not After: "@ + spec_time_text(c.tbs_certificate.validity.not_after)
        + "\n  Subject: "@ + spec_name_text(c.tbs_certificate.subject)
        + "\n  Subject Public Key Info:\n    Algorithm: "@ + spec_alg_text(
        c.tbs_certificate.subject_public_key_info.algorithm,
    ) + "\n    Public Key: "@ + spec_hex_of(c.tbs_certificate.subject_public_key_info.key_bytes)
        + "\n"@ + (if c.tbs_certificate.extensions.len() > 0 {
        "  Extensions:\n"@ + spec_exts_text(c.tbs_certificate.extensions)
    } else {
        Seq::<char>::empty()
    })
}

/// The full rendering: the title line, then the body.
pub open spec fn spec_render_certificate(c: GCert) -> Seq<char> {
    "TBSCertificate:\n"@ + spec_render_body(c)
}

/// Renders the to-be-signed body of the certificate as a structured,
/// stable text, exactly as [`spec_render_certificate`] describes.
/// Rendering is total over the model: it never fails and the result is
/// never empty.
pub fn render_certificate(cert: &Certificate) -> (r: String)
    ensures
        r@ == spec_render_certificate(cert@),
        r@.len() > 0,
{
    let mut out = String::new();
    out.append("  Version: ");
    append_u64(&mut out, cert.tbs_certificate.version as u64);
    out.append("\n  Serial Number: ");
    append_hex(&mut out, &cert.tbs_certificate.serial);
    out.append("\n  Signature Algorithm: ");
    append_alg(&mut out, &cert.tbs_certificate.signature);
    out.append("\n  Issuer: ");
    append_name(&mut out, &cert.tbs_certificate.issuer);
    out.append("\n  Validity:\n    Not Before: ");
    append_time(&mut out, &cert.tbs_certificate.validity.not_before);
    out.append("\n    Not After: ");
    append_time(&mut out, &cert.tbs_certificate.validity.not_after);
    out.append("\n  Subject: ");
    append_name(&mut out, &cert.tbs_certificate.subject);
    out.append("\n  Subject Public Key Info:\n    Algorithm: ");
    append_alg(&mut out, &cert.tbs_certificate.subject_public_key_info.algorithm);
    out.append("\n    Public Key: ");
    append_hex(&mut out, &cert.tbs_certificate.subject_public_key_info.public_key.bytes);
    out.append("\n");
    let ghost before_exts = out@;
    if cert.tbs_certificate.extensions.len() > 0 {
        out.append("  Extensions:\n");
        let ghost ev = cert@.tbs_certificate.extensions;
        let ghost b4 = out@;
        let mut i: usize = 0;
        proof {
            assert(ev.skip(0) =~= ev);
            assert(out@ + spec_exts_text(ev) =~= b4 + spec_exts_text(ev));
        }
        while i < cert.tbs_certificate.extensions.len()
            invariant
                i <= cert.tbs_certificate.extensions@.len(),
                ev == cert@.tbs_certificate.extensions,
                ev.len() == cert.tbs_certificate.extensions@.len(),
                out@ + spec_exts_text(ev.skip(i as int)) == b4 + spec_exts_text(ev),
            decreases cert.tbs_certificate.extensions@.len() - i,
        {
            append_extension(&mut out, &cert.tbs_certificate.extensions[i]);
            proof {
                assert(ev.skip(i as int)[0] == ev[i as int]);
                assert(ev[i as int] == cert.tbs_certificate.extensions@[i as int]@);
                assert(ev.skip(i as int).skip(1) =~= ev.skip(i + 1));
                assert(out@ + spec_exts_text(ev.skip(i + 1)) =~= b4 + spec_exts_text(ev) + Seq::<
                    char,
                >::empty());
            }
            i = i + 1;
        }
        proof {
            assert(ev.skip(ev.len() as int) =~= Seq::<GExt>::empty());
            assert(out@ =~= b4 + spec_exts_text(ev));
        }
    }
    proof {
        assert(out@ =~= spec_render_body(cert@));
    }
    let mut titled = String::from_str("TBSCertificate:\n");
    titled.append(out.as_str());
    proof {
        reveal_strlit("TBSCertificate:\n");
        assert(titled@ =~= spec_render_certificate(cert@));
        assert(titled@.len() > 0);
    }
    titled
}

} // verus!
