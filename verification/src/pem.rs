//! The PEM decoder: armor stripping and base64 decoding.
//!
//! The text is split into lines; the first line of the `BEGIN` shape opens
//! the block, the first following line of the `END` shape closes it, and
//! their labels must match exactly.  The lines strictly between them,
//! stripped of blanks, form the base64 payload.

use vstd::prelude::*;

use crate::b64;
use crate::err::DecodeError;

verus! {

/// A decoded PEM block: the armor label and the DER bytes of the payload.
pub struct PemBlock {
    pub label: Vec<u8>,
    pub der: Vec<u8>,
}

/// The text split at every line feed; always at least one (possibly empty)
/// line.
pub open spec fn spec_split_lines(s: Seq<u8>) -> Seq<Seq<u8>>
    decreases s.len(),
{
    if s.len() == 0 {
        seq![Seq::<u8>::empty()]
    } else if s[0] == 0x0a {
        seq![Seq::<u8>::empty()] + spec_split_lines(s.skip(1))
    } else {
        let rest = spec_split_lines(s.skip(1));
        seq![seq![s[0]] + rest[0]] + rest.skip(1)
    }
}

/// Whether a byte is a blank stripped from payload lines.
pub open spec fn spec_is_blank(b: u8) -> bool {
    b == 0x20 || b == 0x09 || b == 0x0d
}

/// The line with every blank removed.
pub open spec fn spec_strip_blanks(l: Seq<u8>) -> Seq<u8>
    decreases l.len(),
{
    if l.len() == 0 {
        Seq::empty()
    } else if spec_is_blank(l[0]) {
        spec_strip_blanks(l.skip(1))
    } else {
        seq![l[0]] + spec_strip_blanks(l.skip(1))
    }
}

/// The line with its trailing blanks removed.  The scanner trims a line
/// before testing the armor shape, so a carriage return before the line
/// feed is harmless.
pub open spec fn spec_trim_end(l: Seq<u8>) -> Seq<u8>
    decreases l.len(),
{
    if l.len() > 0 && spec_is_blank(l[l.len() - 1]) {
        spec_trim_end(l.drop_last())
    } else {
        l
    }
}

/// Whether a trimmed line reads `-----BEGIN <label>-----`.
pub open spec fn spec_is_begin(l: Seq<u8>) -> bool {
    &&& l.len() >= 16
    &&& l[0] == 45 && l[1] == 45 && l[2] == 45 && l[3] == 45 && l[4] == 45
    &&& l[5] == 66 && l[6] == 69 && l[7] == 71 && l[8] == 73 && l[9] == 78 && l[10] == 32
    &&& l[l.len() - 5] == 45 && l[l.len() - 4] == 45 && l[l.len() - 3] == 45
    &&& l[l.len() - 2] == 45 && l[l.len() - 1] == 45
}

/// The label of a `BEGIN` line.
pub open spec fn spec_begin_label(l: Seq<u8>) -> Seq<u8> {
    l.subrange(11, l.len() - 5)
}

/// Whether a trimmed line reads `-----END <label>-----`.
pub open spec fn spec_is_end(l: Seq<u8>) -> bool {
    &&& l.len() >= 14
    &&& l[0] == 45 && l[1] == 45 && l[2] == 45 && l[3] == 45 && l[4] == 45
    &&& l[5] == 69 && l[6] == 78 && l[7] == 68 && l[8] == 32
    &&& l[l.len() - 5] == 45 && l[l.len() - 4] == 45 && l[l.len() - 3] == 45
    &&& l[l.len() - 2] == 45 && l[l.len() - 1] == 45
}

/// The label of an `END` line.
pub open spec fn spec_end_label(l: Seq<u8>) -> Seq<u8> {
    l.subrange(9, l.len() - 5)
}

/// Collects the stripped payload lines from `i` up to the matching `END`
/// line; no `END` line, or one with another label, is malformed.
pub open spec fn spec_collect(ls: Seq<Seq<u8>>, label: Seq<u8>, i: int, acc: Seq<u8>) -> Result<
    (Seq<u8>, Seq<u8>),
    DecodeError,
>
    decreases ls.len() - i,
{
    if i < 0 || i >= ls.len() {
        Err(DecodeError::MalformedPem)
    } else if spec_is_end(spec_trim_end(ls[i])) {
        if spec_end_label(spec_trim_end(ls[i])) == label {
            Ok((label, acc))
        } else {
            Err(DecodeError::MalformedPem)
        }
    } else {
        spec_collect(ls, label, i + 1, acc + spec_strip_blanks(ls[i]))
    }
}

/// Scans for the first `BEGIN` line from `i` on and collects its payload;
/// a text with no `BEGIN` line is malformed.
pub open spec fn spec_scan(ls: Seq<Seq<u8>>, i: int) -> Result<(Seq<u8>, Seq<u8>), DecodeError>
    decreases ls.len() - i,
{
    if i < 0 || i >= ls.len() {
        Err(DecodeError::MalformedPem)
    } else if spec_is_begin(spec_trim_end(ls[i])) {
        spec_collect(ls, spec_begin_label(spec_trim_end(ls[i])), i + 1, Seq::empty())
    } else {
        spec_scan(ls, i + 1)
    }
}

/// The whole PEM decoding: find the armor, gather the payload, and decode
/// it as base64; any invalid base64 byte or padding is malformed.
pub open spec fn spec_pem_decode(s: Seq<u8>) -> Result<(Seq<u8>, Seq<u8>), DecodeError> {
    match spec_scan(spec_split_lines(s), 0) {
        Err(e) => Err(e),
        Ok((label, payload)) => {
            if b64::b64_valid(payload) {
                Ok((label, b64::b64_decode(payload)))
            } else {
                Err(DecodeError::MalformedPem)
            }
        },
    }
}

/// A line with its head consumed, as a naming aid for loop invariants.
pub open spec fn spec_prepend(c: Seq<u8>, lls: Seq<Seq<u8>>) -> Seq<Seq<u8>> {
    seq![c + lls[0]] + lls.skip(1)
}

/// Splits the text at every line feed.
fn split_lines(text: &Vec<u8>) -> (r: Vec<Vec<u8>>)
    ensures
        r.deep_view() == spec_split_lines(text@),
{
    let n = text.len();
    let mut done: Vec<Vec<u8>> = Vec::new();
    let mut cur: Vec<u8> = Vec::new();
    let mut i: usize = 0;
    proof {
        assert(text@.skip(0) =~= text@);
        assert(spec_split_lines(text@) =~~= done.deep_view() + spec_prepend(
            cur@,
            spec_split_lines(text@.skip(0)),
        ));
    }
    while i < n
        invariant
            i <= n,
            n == text@.len(),
            spec_split_lines(text@) == done.deep_view() + spec_prepend(
                cur@,
                spec_split_lines(text@.skip(i as int)),
            ),
        decreases n - i,
    {
        let b = text[i];
        proof {
            assert(text@.skip(i as int)[0] == text@[i as int]);
            assert(text@.skip(i as int).skip(1) =~= text@.skip(i + 1));
        }
        let ghost rest = spec_split_lines(text@.skip(i + 1));
        if b == 0x0a {
            let ghost old_done = done.deep_view();
            let ghost old_cur = cur@;
            done.push(cur);
            cur = Vec::new();
            proof {
                assert(old_cur + Seq::<u8>::empty() =~= old_cur);
                assert(done.deep_view() =~~= old_done.push(old_cur));
                assert(old_done + spec_prepend(old_cur, seq![Seq::<u8>::empty()] + rest)
                    =~~= done.deep_view() + spec_prepend(cur@, rest));
            }
        } else {
            let ghost old_cur = cur@;
            cur.push(b);
            proof {
                assert(cur@ =~= old_cur.push(b));
                assert(old_cur + (seq![text@[i as int]] + rest[0]) =~= cur@ + rest[0]);
                assert(spec_prepend(old_cur, spec_split_lines(text@.skip(i as int)))
                    =~~= spec_prepend(cur@, rest));
            }
        }
        i = i + 1;
    }
    proof {
        assert(text@.skip(n as int) =~= Seq::<u8>::empty());
        assert(spec_split_lines(Seq::<u8>::empty()) == seq![Seq::<u8>::empty()]);
        assert(spec_prepend(cur@, seq![Seq::<u8>::empty()]) =~~= seq![cur@]);
    }
    let ghost old_done = done.deep_view();
    let ghost last = cur@;
    done.push(cur);
    proof {
        assert(done.deep_view() =~~= old_done.push(last));
        assert(done.deep_view() =~~= spec_split_lines(text@));
    }
    done
}

/// Strips every blank from a line.
fn strip_blanks(l: &Vec<u8>) -> (r: Vec<u8>)
    ensures
        r@ == spec_strip_blanks(l@),
{
    let n = l.len();
    let mut out: Vec<u8> = Vec::new();
    let mut i: usize = 0;
    proof {
        assert(l@.skip(0) =~= l@);
    }
    while i < n
        invariant
            i <= n,
            n == l@.len(),
            spec_strip_blanks(l@) == out@ + spec_strip_blanks(l@.skip(i as int)),
        decreases n - i,
    {
        let b = l[i];
        proof {
            assert(l@.skip(i as int)[0] == l@[i as int]);
            assert(l@.skip(i as int).skip(1) =~= l@.skip(i + 1));
        }
        if !(b == 0x20 || b == 0x09 || b == 0x0d) {
            let ghost old_out = out@;
            out.push(b);
            proof {
                assert(old_out + (seq![l@[i as int]] + spec_strip_blanks(l@.skip(i + 1)))
                    =~= out@ + spec_strip_blanks(l@.skip(i + 1)));
            }
        }
        i = i + 1;
    }
    proof {
        assert(l@.skip(n as int) =~= Seq::<u8>::empty());
        assert(out@ + Seq::<u8>::empty() =~= out@);
    }
    out
}

/// Removes the trailing blanks of a line.
fn trim_end(l: &Vec<u8>) -> (r: Vec<u8>)
    ensures
        r@ == spec_trim_end(l@),
{
    let n = l.len();
    let mut k: usize = n;
    proof {
        assert(l@.take(n as int) =~= l@);
    }
    while k > 0 && (l[k - 1] == 0x20 || l[k - 1] == 0x09 || l[k - 1] == 0x0d)
        invariant
            k <= n,
            n == l@.len(),
            spec_trim_end(l@) == spec_trim_end(l@.take(k as int)),
        decreases k,
    {
        proof {
            let t = l@.take(k as int);
            assert(t[k - 1] == l@[k - 1]);
            assert(t.drop_last() =~= l@.take(k - 1));
        }
        k = k - 1;
    }
    proof {
        if k > 0 {
            assert(l@.take(k as int)[k - 1] == l@[k - 1]);
        }
        assert(spec_trim_end(l@.take(k as int)) == l@.take(k as int));
    }
    let r = crate::der::copy_range(l, 0, k);
    proof {
        assert(r@ =~= l@.take(k as int));
    }
    r
}

/// Whether the line has the `BEGIN` armor shape.
fn line_is_begin(l: &Vec<u8>) -> (r: bool)
    ensures
        r == spec_is_begin(l@),
{
    let n = l.len();
    if n < 16 {
        return false;
    }
    l[0] == 45 && l[1] == 45 && l[2] == 45 && l[3] == 45 && l[4] == 45 && l[5] == 66 && l[6] == 69
        && l[7] == 71 && l[8] == 73 && l[9] == 78 && l[10] == 32 && l[n - 5] == 45 && l[n - 4] == 45
        && l[n - 3] == 45 && l[n - 2] == 45 && l[n - 1] == 45
}

/// Whether the line has the `END` armor shape.
fn line_is_end(l: &Vec<u8>) -> (r: bool)
    ensures
        r == spec_is_end(l@),
{
    let n = l.len();
    if n < 14 {
        return false;
    }
    l[0] == 45 && l[1] == 45 && l[2] == 45 && l[3] == 45 && l[4] == 45 && l[5] == 69 && l[6] == 78
        && l[7] == 68 && l[8] == 32 && l[n - 5] == 45 && l[n - 4] == 45 && l[n - 3] == 45 && l[n
        - 2] == 45 && l[n - 1] == 45
}

/// Whether two byte vectors hold the same bytes.
fn bytes_eq(a: &Vec<u8>, b: &Vec<u8>) -> (r: bool)
    ensures
        r == (a@ == b@),
{
    let n = a.len();
    if n != b.len() {
        return false;
    }
    let mut i: usize = 0;
    while i < n
        invariant
            i <= n,
            n == a@.len() == b@.len(),
            forall|k: int| 0 <= k < i ==> a@[k] == b@[k],
        decreases n - i,
    {
        if a[i] != b[i] {
            return false;
        }
        i = i + 1;
    }
    proof {
        assert(a@ =~= b@);
    }
    true
}

/// Decodes the first PEM block of the text, exactly as [`spec_pem_decode`]
/// describes: the armor labels must match, and the payload between them
/// must be valid base64.
pub fn decode(text: &Vec<u8>) -> (r: Result<PemBlock, DecodeError>)
    ensures
        match r {
            Ok(p) => spec_pem_decode(text@) == Ok::<(Seq<u8>, Seq<u8>), DecodeError>(
                (p.label@, p.der@),
            ) && b64::b64_encode(p.der@) == spec_scan(spec_split_lines(text@), 0)->Ok_0.1,
            Err(e) => spec_pem_decode(text@) == Err::<(Seq<u8>, Seq<u8>), DecodeError>(e),
        },
{
    let lines = split_lines(text);
    let ghost ls = spec_split_lines(text@);
    let nl = lines.len();
    proof {
        assert(nl == ls.len());
    }
    let mut j: usize = 0;
    loop
        invariant
            0 <= j <= nl,
            nl == ls.len(),
            ls == spec_split_lines(text@),
            lines.deep_view() == ls,
            spec_scan(ls, 0) == spec_scan(ls, j as int),
        ensures
            j < nl,
            nl == ls.len(),
            ls == spec_split_lines(text@),
            lines.deep_view() == ls,
            spec_is_begin(spec_trim_end(ls[j as int])),
            spec_scan(ls, 0) == spec_scan(ls, j as int),
        decreases nl - j,
    {
        if j == nl {
            return Err(DecodeError::MalformedPem);
        }
        proof {
            assert(ls[j as int] == lines@[j as int]@);
        }
        let tj = trim_end(&lines[j]);
        if line_is_begin(&tj) {
            break;
        }
        j = j + 1;
    }
    // lines[j] opens the block
    let tj = trim_end(&lines[j]);
    proof {
        assert(ls[j as int] == lines@[j as int]@);
    }
    let bl = tj.len();
    let label = crate::der::copy_range(&tj, 11, bl - 16);
    proof {
        assert(label@ =~= spec_begin_label(spec_trim_end(ls[j as int])));
    }
    let mut payload: Vec<u8> = Vec::new();
    let mut k: usize = j + 1;
    proof {
        assert(payload@ + Seq::<u8>::empty() =~= payload@);
    }
    loop
        invariant
            j < k <= nl,
            nl == ls.len(),
            ls == spec_split_lines(text@),
            lines.deep_view() == ls,
            label@ == spec_begin_label(spec_trim_end(ls[j as int])),
            spec_scan(ls, 0) == spec_collect(ls, label@, k as int, payload@),
        decreases nl - k,
    {
        if k == nl {
            return Err(DecodeError::MalformedPem);
        }
        proof {
            assert(ls[k as int] == lines@[k as int]@);
        }
        let tk = trim_end(&lines[k]);
        if line_is_end(&tk) {
            let el = tk.len();
            let end_label = crate::der::copy_range(&tk, 9, el - 14);
            proof {
                assert(end_label@ =~= spec_end_label(spec_trim_end(ls[k as int])));
            }
            if !bytes_eq(&label, &end_label) {
                return Err(DecodeError::MalformedPem);
            }
            match b64::decode(&payload) {
                Some(der) => {
                    return Ok(PemBlock { label, der });
                },
                None => {
                    return Err(DecodeError::MalformedPem);
                },
            }
        }
        let stripped = strip_blanks(&lines[k]);
        let ghost old_payload = payload@;
        let mut s2 = stripped;
        payload.append(&mut s2);
        proof {
            assert(payload@ == old_payload + spec_strip_blanks(ls[k as int]));
        }
        k = k + 1;
    }
}

/// The `BEGIN` armor line of a label.
pub open spec fn spec_begin_line_of(label: Seq<u8>) -> Seq<u8> {
    seq![45u8, 45, 45, 45, 45, 66, 69, 71, 73, 78, 32] + label + seq![45u8, 45, 45, 45, 45]
}

/// The `END` armor line of a label.
pub open spec fn spec_end_line_of(label: Seq<u8>) -> Seq<u8> {
    seq![45u8, 45, 45, 45, 45, 69, 78, 68, 32] + label + seq![45u8, 45, 45, 45, 45]
}

/// A fresh PEM block: the armor lines around a single payload line.
pub open spec fn spec_wrap(label: Seq<u8>, payload: Seq<u8>) -> Seq<u8> {
    spec_begin_line_of(label) + seq![0x0au8] + payload + seq![0x0au8] + spec_end_line_of(label)
        + seq![0x0au8]
}

/// Splitting at the first line feed of a text whose head holds none.
proof fn lemma_split_at_newline(a: Seq<u8>, rest: Seq<u8>)
    requires
        forall|i: int| 0 <= i < a.len() ==> a[i] != 0x0a,
    ensures
        spec_split_lines(a + seq![0x0au8] + rest) == seq![a] + spec_split_lines(rest),
    decreases a.len(),
{
    let s = a + seq![0x0au8] + rest;
    if a.len() == 0 {
        assert(s =~= seq![0x0au8] + rest);
        assert(s[0] == 0x0a);
        assert(s.skip(1) =~= rest);
        assert(seq![a] =~~= seq![Seq::<u8>::empty()]);
        assert(spec_split_lines(s) =~~= seq![a] + spec_split_lines(rest));
    } else {
        assert(s[0] == a[0]);
        assert(s.skip(1) =~= a.skip(1) + seq![0x0au8] + rest);
        lemma_split_at_newline(a.skip(1), rest);
        let rest2 = spec_split_lines(s.skip(1));
        assert(rest2 == seq![a.skip(1)] + spec_split_lines(rest));
        assert(rest2[0] == a.skip(1));
        assert(seq![s[0]] + rest2[0] =~= a);
        assert(rest2.skip(1) =~= spec_split_lines(rest));
        assert(spec_split_lines(s) =~~= seq![a] + spec_split_lines(rest));
    }
}

/// Trimming a line whose last byte is no blank leaves it unchanged.
proof fn lemma_trim_end_identity(l: Seq<u8>)
    requires
        l.len() == 0 || !spec_is_blank(l[l.len() - 1]),
    ensures
        spec_trim_end(l) == l,
{
}

/// Stripping blanks from a line that has none leaves it unchanged.
proof fn lemma_strip_blanks_identity(l: Seq<u8>)
    requires
        forall|i: int| 0 <= i < l.len() ==> !spec_is_blank(l[i]),
    ensures
        spec_strip_blanks(l) == l,
    decreases l.len(),
{
    if l.len() == 0 {
        assert(spec_strip_blanks(l) =~= l);
    } else {
        assert(forall|i: int| 0 <= i < l.skip(1).len() ==> l.skip(1)[i] == l[i + 1]);
        lemma_strip_blanks_identity(l.skip(1));
        assert(seq![l[0]] + l.skip(1) =~= l);
    }
}

/// Law: for every text whose PEM block decodes, re-encoding the decoded
/// bytes as base64 and wrapping them in fresh armor with the same label
/// gives a block that decodes to the same label and the same bytes: the
/// round trip preserves the content, though not the line wrapping.  (A
/// label never spans lines, which is what its side condition states.)
pub proof fn lemma_pem_round_trip(text: Seq<u8>, label: Seq<u8>, der: Seq<u8>)
    requires
        spec_pem_decode(text) == Ok::<(Seq<u8>, Seq<u8>), DecodeError>((label, der)),
        forall|i: int| 0 <= i < label.len() ==> label[i] != 0x0a,
    ensures
        spec_pem_decode(spec_wrap(label, b64::b64_encode(der))) == Ok::<
            (Seq<u8>, Seq<u8>),
            DecodeError,
        >((label, der)),
{
    let scanned = spec_scan(spec_split_lines(text), 0);
    let payload = scanned->Ok_0.1;
    assert(b64::b64_valid(payload));
    assert(der == b64::b64_decode(payload));
    b64::lemma_b64_round_trip(payload);
    assert(b64::b64_encode(der) == payload);
    b64::lemma_b64_valid_bytes(payload);
    assert(forall|i: int| 0 <= i < payload.len() ==> payload[i] != 0x0a && !spec_is_blank(
        payload[i],
    ) && payload[i] != 45);
    let bl = spec_begin_line_of(label);
    let el = spec_end_line_of(label);
    let w = spec_wrap(label, payload);
    assert(forall|i: int| 0 <= i < bl.len() ==> bl[i] != 0x0a);
    assert(forall|i: int| 0 <= i < el.len() ==> el[i] != 0x0a);
    let tail1 = payload + seq![0x0au8] + (el + seq![0x0au8] + Seq::<u8>::empty());
    assert(w =~= bl + seq![0x0au8] + tail1);
    lemma_split_at_newline(bl, tail1);
    lemma_split_at_newline(payload, el + seq![0x0au8] + Seq::<u8>::empty());
    lemma_split_at_newline(el, Seq::<u8>::empty());
    assert(spec_split_lines(Seq::<u8>::empty()) == seq![Seq::<u8>::empty()]);
    let ls = spec_split_lines(w);
    assert(ls =~~= seq![bl, payload, el, Seq::<u8>::empty()]);
    // armor lines end in a dash and the payload in an alphabet byte or
    // pad, so trimming leaves all three lines unchanged
    lemma_trim_end_identity(bl);
    lemma_trim_end_identity(el);
    lemma_trim_end_identity(payload);
    // the begin line opens the block with the same label
    assert(spec_is_begin(bl));
    assert(spec_begin_label(bl) =~= label);
    // the payload line is no end line
    assert(!spec_is_end(payload));
    // the end line closes it with the same label
    assert(spec_is_end(el));
    assert(spec_end_label(el) =~= label);
    // the scan gathers exactly the payload
    lemma_strip_blanks_identity(payload);
    assert(Seq::<u8>::empty() + spec_strip_blanks(payload) =~= payload);
    assert(spec_begin_label(bl) == label);
    assert(spec_end_label(el) == label);
    assert(spec_collect(ls, label, 2, payload) == Ok::<(Seq<u8>, Seq<u8>), DecodeError>(
        (label, payload),
    ));
    assert(spec_collect(ls, label, 1, Seq::empty()) == spec_collect(
        ls,
        label,
        2,
        Seq::<u8>::empty() + spec_strip_blanks(payload),
    ));
    assert(Seq::<u8>::empty() + spec_strip_blanks(payload) == payload);
    assert(spec_collect(ls, label, 1, Seq::empty()) == Ok::<(Seq<u8>, Seq<u8>), DecodeError>(
        (label, payload),
    ));
    assert(spec_scan(ls, 0) == Ok::<(Seq<u8>, Seq<u8>), DecodeError>((label, payload)));
}

/// A failed payload collection reports a decoding kind.
proof fn lemma_collect_error_kind(ls: Seq<Seq<u8>>, label: Seq<u8>, i: int, acc: Seq<u8>)
    requires
        spec_collect(ls, label, i, acc) is Err,
    ensures
        crate::err::spec_is_decode_error(spec_collect(ls, label, i, acc)->Err_0),
    decreases ls.len() - i,
{
    if 0 <= i < ls.len() && !spec_is_end(spec_trim_end(ls[i])) {
        lemma_collect_error_kind(ls, label, i + 1, acc + spec_strip_blanks(ls[i]));
    }
}

/// A failed armor scan reports a decoding kind.
proof fn lemma_scan_error_kind(ls: Seq<Seq<u8>>, i: int)
    requires
        spec_scan(ls, i) is Err,
    ensures
        crate::err::spec_is_decode_error(spec_scan(ls, i)->Err_0),
    decreases ls.len() - i,
{
    if 0 <= i < ls.len() {
        if spec_is_begin(spec_trim_end(ls[i])) {
            lemma_collect_error_kind(ls, spec_begin_label(spec_trim_end(ls[i])), i + 1, Seq::empty());
        } else {
            lemma_scan_error_kind(ls, i + 1);
        }
    }
}

/// A failed PEM decoding reports a decoding kind, never a usage or file
/// kind.
pub proof fn lemma_pem_decode_error_kind(s: Seq<u8>)
    requires
        spec_pem_decode(s) is Err,
    ensures
        crate::err::spec_is_decode_error(spec_pem_decode(s)->Err_0),
{
    if spec_scan(spec_split_lines(s), 0) is Err {
        lemma_scan_error_kind(spec_split_lines(s), 0);
    }
}

} // verus!
