//! A bounds-checked reader for DER tag-length-value triples.
//!
//! Every read is specified against a mathematical parser over the byte
//! sequence ([`spec_read_tlv`] and the value-level functions beside it), so
//! a declared length can never cause a read past the end of the buffer: a
//! length that exceeds the remaining bytes surfaces as
//! [`DecodeError::TruncatedInput`] instead.

use vstd::prelude::*;

use crate::err::DecodeError;

verus! {

/// A view (tag, offset, length) into the DER buffer; never a copy of it.
pub struct Tlv {
    /// The raw identifier octet.
    pub tag: u8,
    /// Whether the identifier octet carries the constructed bit.
    pub constructed: bool,
    /// Offset of the first value byte in the buffer.
    pub start: usize,
    /// Length of the value in bytes.
    pub len: usize,
}

/// The mathematical counterpart of [`Tlv`].
pub ghost struct GTlv {
    pub tag: u8,
    pub start: int,
    pub len: int,
}

impl View for Tlv {
    type V = GTlv;

    open spec fn view(&self) -> GTlv {
        GTlv { tag: self.tag, start: self.start as int, len: self.len as int }
    }
}

/// Whether an identifier octet has the constructed bit (bit 6) set.
pub open spec fn spec_is_constructed(tag: u8) -> bool {
    (tag / 32) % 2 == 1
}

/// The big-endian value of the `n` bytes of `data` starting at `start`.
pub open spec fn spec_be(data: Seq<u8>, start: int, n: int) -> int
    decreases n,
{
    if n <= 0 {
        0
    } else {
        spec_be(data, start, n - 1) * 256 + data[start + n - 1]
    }
}

/// The value offset and declared length of the TLV at `pos`, when the tag
/// and length octets lie within `end` and the length form is one this
/// reader handles (short form, or long form of one to four length bytes).
pub open spec fn spec_tlv_header(data: Seq<u8>, pos: int, end: int) -> Option<(int, int)> {
    if pos + 2 > end {
        None
    } else {
        let l0 = data[pos + 1];
        if l0 < 0x80 {
            Some((pos + 2, l0 as int))
        } else if l0 == 0x80 {
            None
        } else {
            let n = l0 - 0x80;
            if n > 4 {
                None
            } else if pos + 2 + n > end {
                None
            } else {
                Some((pos + 2 + n, spec_be(data, pos + 2, n as int)))
            }
        }
    }
}

/// The TLV read from `data` between `pos` and `end`: tag octet, DER length
/// (short form below 128, long form otherwise), and the bounds check that a
/// declared length never exceeds the remaining bytes.
pub open spec fn spec_read_tlv(data: Seq<u8>, pos: int, end: int) -> Result<GTlv, DecodeError> {
    if pos + 2 > end {
        Err(DecodeError::TruncatedInput)
    } else if data[pos + 1] == 0x80 {
        Err(DecodeError::InvalidEncoding)
    } else if data[pos + 1] > 0x80 && data[pos + 1] - 0x80 > 4 {
        Err(DecodeError::InvalidEncoding)
    } else {
        match spec_tlv_header(data, pos, end) {
            None => Err(DecodeError::TruncatedInput),
            Some((vstart, dlen)) => {
                if vstart + dlen > end {
                    Err(DecodeError::TruncatedInput)
                } else {
                    Ok(GTlv { tag: data[pos], start: vstart, len: dlen })
                }
            },
        }
    }
}

/// The big-endian value of any byte run is non-negative.
pub proof fn lemma_spec_be_nonneg(data: Seq<u8>, start: int, n: int)
    ensures
        spec_be(data, start, n) >= 0,
    decreases n,
{
    if n > 0 {
        lemma_spec_be_nonneg(data, start, n - 1);
    }
}

/// A TLV read successfully lies strictly after its tag and length octets
/// and within `end`.
pub proof fn lemma_read_tlv_ok_bounds(data: Seq<u8>, pos: int, end: int)
    requires
        spec_read_tlv(data, pos, end) is Ok,
    ensures
        pos + 2 <= spec_read_tlv(data, pos, end)->Ok_0.start,
        spec_read_tlv(data, pos, end)->Ok_0.len >= 0,
        spec_read_tlv(data, pos, end)->Ok_0.start + spec_read_tlv(data, pos, end)->Ok_0.len <= end,
{
    if pos + 2 <= end && data[pos + 1] > 0x80 {
        lemma_spec_be_nonneg(data, pos + 2, data[pos + 1] - 0x80);
    }
}

/// The value bytes of a TLV.
pub open spec fn spec_content(data: Seq<u8>, t: GTlv) -> Seq<u8> {
    data.subrange(t.start, t.start + t.len)
}

/// Law: wherever the tag and length octets of a TLV parse but the declared
/// length exceeds the bytes that remain before `end`, the reader reports
/// `TruncatedInput`.  Nested values are read through sub-cursors whose `end`
/// never exceeds the parent's, so this holds at every nesting depth, and no
/// declared length can make the reader touch a byte at or past `end`.
pub proof fn lemma_declared_length_truncated(data: Seq<u8>, pos: int, end: int)
    requires
        0 <= pos <= end <= data.len(),
        spec_tlv_header(data, pos, end) matches Some(h) && h.0 + h.1 > end,
    ensures
        spec_read_tlv(data, pos, end) == Err::<GTlv, DecodeError>(DecodeError::TruncatedInput),
{
}

/// Reads one TLV from `data` between `pos` and `end`, exactly as
/// [`spec_read_tlv`] describes.
pub fn read_tlv(data: &Vec<u8>, pos: usize, end: usize) -> (r: Result<Tlv, DecodeError>)
    requires
        pos <= end <= data@.len(),
    ensures
        match r {
            Ok(t) => {
                &&& spec_read_tlv(data@, pos as int, end as int) == Ok::<GTlv, DecodeError>(t@)
                &&& pos + 2 <= t.start
                &&& t.start + t.len <= end
                &&& t.constructed == spec_is_constructed(t.tag)
            },
            Err(e) => spec_read_tlv(data@, pos as int, end as int) == Err::<GTlv, DecodeError>(e),
        },
{
    if end - pos < 2 {
        return Err(DecodeError::TruncatedInput);
    }
    let tag = data[pos];
    let constructed = (tag / 32) % 2 == 1;
    let l0 = data[pos + 1];
    if l0 < 0x80 {
        let len = l0 as usize;
        if len > end - (pos + 2) {
            return Err(DecodeError::TruncatedInput);
        }
        Ok(Tlv { tag, constructed, start: pos + 2, len })
    } else if l0 == 0x80 {
        Err(DecodeError::InvalidEncoding)
    } else {
        let n = (l0 - 0x80) as usize;
        if n > 4 {
            return Err(DecodeError::InvalidEncoding);
        }
        if n > end - (pos + 2) {
            return Err(DecodeError::TruncatedInput);
        }
        let vstart = pos + 2 + n;
        proof {
            assert(spec_be(data@, pos + 2, 0) == 0);
        }
        let dlen: u64 = if n == 1 {
            data[pos + 2] as u64
        } else if n == 2 {
            (data[pos + 2] as u64) * 256 + (data[pos + 3] as u64)
        } else if n == 3 {
            (data[pos + 2] as u64) * 65536 + (data[pos + 3] as u64) * 256 + (data[pos + 4] as u64)
        } else {
            (data[pos + 2] as u64) * 16777216 + (data[pos + 3] as u64) * 65536
                + (data[pos + 4] as u64) * 256 + (data[pos + 5] as u64)
        };
        proof {
            assert(spec_be(data@, pos + 2, 1) == data@[pos + 2]);
            assert(spec_be(data@, pos + 2, 2) == data@[pos + 2] * 256 + data@[pos + 3]);
            assert(spec_be(data@, pos + 2, 3) == spec_be(data@, pos + 2, 2) * 256 + data@[pos + 4]);
            assert(spec_be(data@, pos + 2, 4) == spec_be(data@, pos + 2, 3) * 256 + data@[pos + 5]);
            assert(dlen == spec_be(data@, pos + 2, n as int));
        }
        if dlen > (end - vstart) as u64 {
            return Err(DecodeError::TruncatedInput);
        }
        Ok(Tlv { tag, constructed, start: vstart, len: dlen as usize })
    }
}

/// A cursor over a span of the DER buffer; reads advance `pos` toward `end`.
pub struct Cursor {
    pub pos: usize,
    pub end: usize,
}

impl Cursor {
    /// The cursor's span lies within the buffer.
    pub open spec fn wf(self, data: Seq<u8>) -> bool {
        self.pos <= self.end <= data.len()
    }

    /// A cursor over the whole buffer.
    pub fn new(data: &Vec<u8>) -> (c: Cursor)
        ensures
            c.wf(data@),
            c.pos == 0,
            c.end == data@.len(),
    {
        Cursor { pos: 0, end: data.len() }
    }

    /// A sub-cursor bounded to the value range of `t`, for recursive
    /// descent into a constructed value without copying.
    pub fn sub(data: &Vec<u8>, t: &Tlv) -> (c: Cursor)
        requires
            t.start + t.len <= data@.len(),
        ensures
            c.wf(data@),
            c.pos == t.start,
            c.end == t.start + t.len,
    {
        let n = data.len();
        Cursor { pos: t.start, end: t.start + t.len }
    }

    /// Whether the cursor has consumed its whole span.
    pub fn at_end(&self) -> (r: bool)
        ensures
            r == (self.pos == self.end),
    {
        self.pos == self.end
    }

    /// Reads the next TLV and advances past its value.
    pub fn read_tlv(&mut self, data: &Vec<u8>) -> (r: Result<Tlv, DecodeError>)
        requires
            old(self).wf(data@),
        ensures
            final(self).wf(data@),
            final(self).end == old(self).end,
            match r {
                Ok(t) => {
                    &&& spec_read_tlv(data@, old(self).pos as int, old(self).end as int)
                        == Ok::<GTlv, DecodeError>(t@)
                    &&& old(self).pos + 2 <= t.start
                    &&& t.start + t.len <= old(self).end
                    &&& t.constructed == spec_is_constructed(t.tag)
                    &&& final(self).pos == t.start + t.len
                },
                Err(e) => {
                    &&& spec_read_tlv(data@, old(self).pos as int, old(self).end as int)
                        == Err::<GTlv, DecodeError>(e)
                    &&& *final(self) == *old(self)
                },
            },
    {
        match read_tlv(data, self.pos, self.end) {
            Ok(t) => {
                self.pos = t.start + t.len;
                Ok(t)
            },
            Err(e) => Err(e),
        }
    }
}

/// Demands that a node carries the expected identifier octet; a mismatch is
/// always reported, never coerced.
pub fn expect_tag(t: &Tlv, expected: u8) -> (r: Result<(), DecodeError>)
    ensures
        r is Ok <==> t.tag == expected,
        r is Err ==> r == Err::<(), DecodeError>(DecodeError::InvalidStructure),
{
    if t.tag == expected {
        Ok(())
    } else {
        Err(DecodeError::InvalidStructure)
    }
}

/// Copies the bytes of `data` in `[start, start + len)` into a fresh vector.
pub fn copy_range(data: &Vec<u8>, start: usize, len: usize) -> (r: Vec<u8>)
    requires
        start + len <= data@.len(),
    ensures
        r@ == data@.subrange(start as int, start as int + len as int),
{
    let n = data.len();
    let mut out: Vec<u8> = Vec::new();
    let mut i: usize = 0;
    while i < len
        invariant
            i <= len,
            start + len <= data@.len(),
            data@.len() <= usize::MAX,
            out@ == data@.subrange(start as int, start as int + i as int),
        decreases len - i,
    {
        out.push(data[start + i]);
        proof {
            assert(out@ =~= data@.subrange(start as int, start as int + (i + 1) as int));
        }
        i = i + 1;
    }
    out
}

/// The minimality rule of a DER INTEGER: the content is non-empty and
/// carries no redundant leading octet (no `00` before a byte below `0x80`,
/// no `ff` before a byte at or above it).
pub open spec fn spec_int_minimal(c: Seq<u8>) -> bool {
    &&& c.len() >= 1
    &&& (c.len() >= 2 ==> !(c[0] == 0x00 && c[1] < 0x80) && !(c[0] == 0xff && c[1] >= 0x80))
}

/// The two's-complement value of a big-endian DER INTEGER content.
pub open spec fn spec_int_value(c: Seq<u8>) -> int {
    if c.len() == 0 {
        0
    } else if c[0] >= 0x80 {
        spec_be(c, 0, c.len() as int) - pow256(c.len() as nat)
    } else {
        spec_be(c, 0, c.len() as int)
    }
}

/// 256 raised to `n`.
pub open spec fn pow256(n: nat) -> int
    decreases n,
{
    if n == 0 {
        1
    } else {
        256 * pow256((n - 1) as nat)
    }
}

/// The content bytes of a DER INTEGER, accepted only in minimal encoding.
pub open spec fn spec_integer_bytes(c: Seq<u8>) -> Result<Seq<u8>, DecodeError> {
    if spec_int_minimal(c) {
        Ok(c)
    } else {
        Err(DecodeError::InvalidEncoding)
    }
}

/// Law: a DER INTEGER whose content carries non-minimal padding — a leading
/// zero octet before a byte without its high bit, or a leading `0xff` octet
/// before a byte with it — is rejected as `InvalidEncoding`.
pub proof fn lemma_padded_integer_rejected(c: Seq<u8>)
    requires
        c.len() >= 2,
        (c[0] == 0x00 && c[1] < 0x80) || (c[0] == 0xff && c[1] >= 0x80),
    ensures
        spec_integer_bytes(c) == Err::<Seq<u8>, DecodeError>(DecodeError::InvalidEncoding),
{
}

/// Reads an INTEGER value as its raw content bytes, validating minimality.
pub fn read_integer_bytes(data: &Vec<u8>, t: &Tlv) -> (r: Result<Vec<u8>, DecodeError>)
    requires
        t.start + t.len <= data@.len(),
    ensures
        match r {
            Ok(v) => spec_integer_bytes(spec_content(data@, t@)) == Ok::<Seq<u8>, DecodeError>(v@),
            Err(e) => spec_integer_bytes(spec_content(data@, t@)) == Err::<Seq<u8>, DecodeError>(e),
        },
{
    let n = data.len();
    if t.len == 0 {
        return Err(DecodeError::InvalidEncoding);
    }
    if t.len >= 2 {
        let b0 = data[t.start];
        let b1 = data[t.start + 1];
        if (b0 == 0x00 && b1 < 0x80) || (b0 == 0xff && b1 >= 0x80) {
            return Err(DecodeError::InvalidEncoding);
        }
    }
    Ok(copy_range(data, t.start, t.len))
}

/// A small non-negative INTEGER: one content octet below `0x80`.  Larger or
/// negative values are well-formed DER but outside what this reader needs.
pub open spec fn spec_small_int(c: Seq<u8>) -> Result<u8, DecodeError> {
    if !spec_int_minimal(c) {
        Err(DecodeError::InvalidEncoding)
    } else if c.len() == 1 && c[0] < 0x80 {
        Ok(c[0])
    } else {
        Err(DecodeError::UnsupportedEncoding)
    }
}

/// Reads a small non-negative INTEGER value; the result is the
/// mathematical value of the content.
pub fn read_small_integer(data: &Vec<u8>, t: &Tlv) -> (r: Result<u8, DecodeError>)
    requires
        t.start + t.len <= data@.len(),
    ensures
        r == spec_small_int(spec_content(data@, t@)),
        r matches Ok(v) ==> v == spec_int_value(spec_content(data@, t@)),
{
    let n = data.len();
    if t.len == 0 {
        return Err(DecodeError::InvalidEncoding);
    }
    if t.len >= 2 {
        let b0 = data[t.start];
        let b1 = data[t.start + 1];
        if (b0 == 0x00 && b1 < 0x80) || (b0 == 0xff && b1 >= 0x80) {
            return Err(DecodeError::InvalidEncoding);
        }
        return Err(DecodeError::UnsupportedEncoding);
    }
    let b = data[t.start];
    if b < 0x80 {
        proof {
            let c = spec_content(data@, t@);
            assert(c[0] == data@[t@.start]);
            assert(spec_be(c, 0, 1) == spec_be(c, 0, 0) * 256 + c[0]);
        }
        Ok(b)
    } else {
        Err(DecodeError::UnsupportedEncoding)
    }
}

/// A DER BOOLEAN: one octet, `0x00` for false, `0xff` for true.
pub open spec fn spec_boolean(c: Seq<u8>) -> Result<bool, DecodeError> {
    if c.len() != 1 {
        Err(DecodeError::InvalidEncoding)
    } else if c[0] == 0x00 {
        Ok(false)
    } else if c[0] == 0xff {
        Ok(true)
    } else {
        Err(DecodeError::InvalidEncoding)
    }
}

/// Reads a BOOLEAN value.
pub fn read_boolean(data: &Vec<u8>, t: &Tlv) -> (r: Result<bool, DecodeError>)
    requires
        t.start + t.len <= data@.len(),
    ensures
        r == spec_boolean(spec_content(data@, t@)),
{
    let n = data.len();
    if t.len != 1 {
        return Err(DecodeError::InvalidEncoding);
    }
    let b = data[t.start];
    if b == 0x00 {
        Ok(false)
    } else if b == 0xff {
        Ok(true)
    } else {
        Err(DecodeError::InvalidEncoding)
    }
}

/// A decoded BIT STRING: the count of unused trailing bits and the bytes.
pub struct BitString {
    pub unused: u8,
    pub bytes: Vec<u8>,
}

/// A DER BIT STRING content: a leading octet giving the unused-bit count
/// (at most 7, and 0 when no bytes follow), then the bit bytes.
pub open spec fn spec_bit_string(c: Seq<u8>) -> Result<(u8, Seq<u8>), DecodeError> {
    if c.len() == 0 {
        Err(DecodeError::InvalidEncoding)
    } else if c[0] > 7 {
        Err(DecodeError::InvalidEncoding)
    } else if c.len() == 1 && c[0] != 0 {
        Err(DecodeError::InvalidEncoding)
    } else {
        Ok((c[0], c.subrange(1, c.len() as int)))
    }
}

/// Reads a BIT STRING value.
pub fn read_bit_string(data: &Vec<u8>, t: &Tlv) -> (r: Result<BitString, DecodeError>)
    requires
        t.start + t.len <= data@.len(),
    ensures
        match r {
            Ok(b) => spec_bit_string(spec_content(data@, t@))
                == Ok::<(u8, Seq<u8>), DecodeError>((b.unused, b.bytes@)),
            Err(e) => spec_bit_string(spec_content(data@, t@))
                == Err::<(u8, Seq<u8>), DecodeError>(e),
        },
{
    let n = data.len();
    if t.len == 0 {
        return Err(DecodeError::InvalidEncoding);
    }
    let unused = data[t.start];
    if unused > 7 {
        return Err(DecodeError::InvalidEncoding);
    }
    if t.len == 1 && unused != 0 {
        return Err(DecodeError::InvalidEncoding);
    }
    let bytes = copy_range(data, t.start + 1, t.len - 1);
    proof {
        assert(bytes@ =~= spec_content(data@, t@).subrange(1, t@.len));
    }
    Ok(BitString { unused, bytes })
}

/// One step of scanning OBJECT IDENTIFIER content: base-128 groups, high
/// bit marking continuation, each group minimal (no leading `0x80`) and
/// fitting 64 bits.  `None` marks invalid content.
pub open spec fn spec_oid_scan(c: Seq<u8>, i: int, acc: u64, started: bool, out: Seq<u64>) -> Option<
    Seq<u64>,
>
    decreases c.len() - i,
{
    if i < 0 || i >= c.len() {
        if started {
            None
        } else {
            Some(out)
        }
    } else {
        let b = c[i];
        if !started && b == 0x80 {
            None
        } else if acc >= 0x0200000000000000 {
            None
        } else {
            let acc2 = acc * 128 + (b as int % 128);
            if b < 0x80 {
                spec_oid_scan(c, i + 1, 0, false, out.push(acc2 as u64))
            } else {
                spec_oid_scan(c, i + 1, acc2 as u64, true, out)
            }
        }
    }
}

/// The arcs of an OBJECT IDENTIFIER: the first scanned value splits into
/// the first two arcs, the rest follow unchanged.
pub open spec fn spec_oid_arcs(c: Seq<u8>) -> Option<Seq<u64>> {
    match spec_oid_scan(c, 0, 0, false, Seq::empty()) {
        None => None,
        Some(ids) => {
            if ids.len() == 0 {
                None
            } else {
                let f = ids[0];
                let a0: u64 = if f < 40 {
                    0
                } else if f < 80 {
                    1
                } else {
                    2
                };
                let a1: u64 = (f - 40 * a0) as u64;
                Some(seq![a0, a1] + ids.skip(1))
            }
        },
    }
}

/// Reads an OBJECT IDENTIFIER value as its arcs.
pub fn read_oid(data: &Vec<u8>, t: &Tlv) -> (r: Result<Vec<u64>, DecodeError>)
    requires
        t.start + t.len <= data@.len(),
    ensures
        match r {
            Ok(v) => spec_oid_arcs(spec_content(data@, t@)) == Some(v@),
            Err(e) => e == DecodeError::InvalidEncoding && spec_oid_arcs(spec_content(data@, t@))
                is None,
        },
{
    let n = data.len();
    let ghost c = spec_content(data@, t@);
    let mut i: usize = 0;
    let mut acc: u64 = 0;
    let mut started: bool = false;
    let mut ids: Vec<u64> = Vec::new();
    while i < t.len
        invariant
            i <= t.len,
            t.start + t.len <= data@.len(),
            data@.len() <= usize::MAX,
            c == spec_content(data@, t@),
            spec_oid_scan(c, 0, 0, false, Seq::empty()) == spec_oid_scan(
                c,
                i as int,
                acc,
                started,
                ids@,
            ),
        decreases t.len - i,
    {
        let b = data[t.start + i];
        proof {
            assert(c[i as int] == data@[t.start + i]);
        }
        if !started && b == 0x80 {
            return Err(DecodeError::InvalidEncoding);
        }
        if acc >= 0x0200000000000000 {
            return Err(DecodeError::InvalidEncoding);
        }
        let acc2: u64 = acc * 128 + (b % 128) as u64;
        if b < 0x80 {
            ids.push(acc2);
            acc = 0;
            started = false;
        } else {
            acc = acc2;
            started = true;
        }
        i = i + 1;
    }
    if started {
        return Err(DecodeError::InvalidEncoding);
    }
    if ids.len() == 0 {
        return Err(DecodeError::InvalidEncoding);
    }
    let f = ids[0];
    let a0: u64 = if f < 40 {
        0
    } else if f < 80 {
        1
    } else {
        2
    };
    let a1: u64 = f - 40 * a0;
    let mut arcs: Vec<u64> = Vec::new();
    arcs.push(a0);
    arcs.push(a1);
    let mut j: usize = 1;
    while j < ids.len()
        invariant
            1 <= j <= ids@.len(),
            arcs@ == seq![a0, a1] + ids@.subrange(1, j as int),
        decreases ids@.len() - j,
    {
        arcs.push(ids[j]);
        proof {
            assert(arcs@ =~= seq![a0, a1] + ids@.subrange(1, j + 1 as int));
        }
        j = j + 1;
    }
    proof {
        assert(ids@.subrange(1, ids@.len() as int) =~= ids@.skip(1));
    }
    Ok(arcs)
}

/// A calendar timestamp decoded from UTCTime or GeneralizedTime.
#[derive(Clone, Copy, Debug, PartialEq, Eq, Structural)]
pub struct DerTime {
    /// Whether the value came from a two-digit-year UTCTime.
    pub utc: bool,
    pub year: u16,
    pub month: u8,
    pub day: u8,
    pub hour: u8,
    pub minute: u8,
    pub second: u8,
}

/// Whether a byte is an ASCII decimal digit.
pub open spec fn spec_is_digit(b: u8) -> bool {
    0x30 <= b <= 0x39
}

/// The value of an ASCII decimal digit.
pub open spec fn spec_digit(b: u8) -> int {
    b - 0x30
}

/// The value of the two ASCII digits of `c` at `i`.
pub open spec fn spec_two_digits(c: Seq<u8>, i: int) -> int {
    spec_digit(c[i]) * 10 + spec_digit(c[i + 1])
}

/// Whether the decoded calendar fields lie in range.  A `not_after` earlier
/// than `not_before` is a semantic matter and deliberately not checked.
pub open spec fn spec_fields_in_range(month: int, day: int, hour: int, minute: int, second: int) -> bool {
    &&& 1 <= month <= 12
    &&& 1 <= day <= 31
    &&& 0 <= hour <= 23
    &&& 0 <= minute <= 59
    &&& 0 <= second <= 59
}

/// A UTCTime value: exactly `YYMMDDHHMMSSZ`, the century inferred from the
/// two-digit year (50 and above fall in 19xx, below 50 in 20xx).
pub open spec fn spec_utc_time(c: Seq<u8>) -> Result<DerTime, DecodeError> {
    if c.len() != 13 {
        Err(DecodeError::InvalidEncoding)
    } else if !(spec_is_digit(c[0]) && spec_is_digit(c[1]) && spec_is_digit(c[2]) && spec_is_digit(
        c[3],
    ) && spec_is_digit(c[4]) && spec_is_digit(c[5]) && spec_is_digit(c[6]) && spec_is_digit(c[7])
        && spec_is_digit(c[8]) && spec_is_digit(c[9]) && spec_is_digit(c[10]) && spec_is_digit(
        c[11],
    ) && c[12] == 0x5a) {
        Err(DecodeError::InvalidEncoding)
    } else if !spec_fields_in_range(
        spec_two_digits(c, 2),
        spec_two_digits(c, 4),
        spec_two_digits(c, 6),
        spec_two_digits(c, 8),
        spec_two_digits(c, 10),
    ) {
        Err(DecodeError::InvalidEncoding)
    } else {
        let yy = spec_two_digits(c, 0);
        Ok(
            DerTime {
                utc: true,
                year: if yy >= 50 {
                    (1900 + yy) as u16
                } else {
                    (2000 + yy) as u16
                },
                month: spec_two_digits(c, 2) as u8,
                day: spec_two_digits(c, 4) as u8,
                hour: spec_two_digits(c, 6) as u8,
                minute: spec_two_digits(c, 8) as u8,
                second: spec_two_digits(c, 10) as u8,
            },
        )
    }
}

/// A GeneralizedTime value: exactly `YYYYMMDDHHMMSSZ` with a four-digit
/// year.
pub open spec fn spec_generalized_time(c: Seq<u8>) -> Result<DerTime, DecodeError> {
    if c.len() != 15 {
        Err(DecodeError::InvalidEncoding)
    } else if !(spec_is_digit(c[0]) && spec_is_digit(c[1]) && spec_is_digit(c[2]) && spec_is_digit(
        c[3],
    ) && spec_is_digit(c[4]) && spec_is_digit(c[5]) && spec_is_digit(c[6]) && spec_is_digit(c[7])
        && spec_is_digit(c[8]) && spec_is_digit(c[9]) && spec_is_digit(c[10]) && spec_is_digit(
        c[11],
    ) && spec_is_digit(c[12]) && spec_is_digit(c[13]) && c[14] == 0x5a) {
        Err(DecodeError::InvalidEncoding)
    } else if !spec_fields_in_range(
        spec_two_digits(c, 4),
        spec_two_digits(c, 6),
        spec_two_digits(c, 8),
        spec_two_digits(c, 10),
        spec_two_digits(c, 12),
    ) {
        Err(DecodeError::InvalidEncoding)
    } else {
        Ok(
            DerTime {
                utc: false,
                year: (spec_two_digits(c, 0) * 100 + spec_two_digits(c, 2)) as u16,
                month: spec_two_digits(c, 4) as u8,
                day: spec_two_digits(c, 6) as u8,
                hour: spec_two_digits(c, 8) as u8,
                minute: spec_two_digits(c, 10) as u8,
                second: spec_two_digits(c, 12) as u8,
            },
        )
    }
}

/// A Time value under its tag: UTCTime or GeneralizedTime, anything else a
/// structural mismatch.
pub open spec fn spec_time(tag: u8, c: Seq<u8>) -> Result<DerTime, DecodeError> {
    if tag == 0x17 {
        spec_utc_time(c)
    } else if tag == 0x18 {
        spec_generalized_time(c)
    } else {
        Err(DecodeError::InvalidStructure)
    }
}

/// Law: in a well-formed UTCTime the century is inferred from the two-digit
/// year: 50 and above map to 19xx (so 50 falls in 1950), below 50 map to
/// 20xx (so 49 falls in 2049).
pub proof fn lemma_utc_century(c: Seq<u8>)
    requires
        spec_utc_time(c) is Ok,
    ensures
        spec_two_digits(c, 0) >= 50 ==> spec_utc_time(c)->Ok_0.year == 1900 + spec_two_digits(c, 0),
        spec_two_digits(c, 0) < 50 ==> spec_utc_time(c)->Ok_0.year == 2000 + spec_two_digits(c, 0),
{
}

/// Reads a two-digit number at offset `i` of the value of `t`.
fn read_two_digits(data: &Vec<u8>, t: &Tlv, i: usize) -> (r: Option<u8>)
    requires
        t.start + t.len <= data@.len(),
        i + 2 <= t.len,
    ensures
        match r {
            Some(v) => spec_is_digit(spec_content(data@, t@)[i as int]) && spec_is_digit(
                spec_content(data@, t@)[i + 1],
            ) && v == spec_two_digits(spec_content(data@, t@), i as int),
            None => !(spec_is_digit(spec_content(data@, t@)[i as int]) && spec_is_digit(
                spec_content(data@, t@)[i + 1],
            )),
        },
{
    let n = data.len();
    let b0 = data[t.start + i];
    let b1 = data[t.start + i + 1];
    proof {
        assert(spec_content(data@, t@)[i as int] == data@[t.start + i]);
        assert(spec_content(data@, t@)[i + 1] == data@[t.start + i + 1]);
    }
    if 0x30 <= b0 && b0 <= 0x39 && 0x30 <= b1 && b1 <= 0x39 {
        Some((b0 - 0x30) * 10 + (b1 - 0x30))
    } else {
        None
    }
}

/// Reads a Time value, UTCTime or GeneralizedTime by tag.
pub fn read_time(data: &Vec<u8>, t: &Tlv) -> (r: Result<DerTime, DecodeError>)
    requires
        t.start + t.len <= data@.len(),
    ensures
        r == spec_time(t.tag, spec_content(data@, t@)),
{
    let n = data.len();
    let ghost c = spec_content(data@, t@);
    if t.tag == 0x17 {
        if t.len != 13 {
            return Err(DecodeError::InvalidEncoding);
        }
        if data[t.start + 12] != 0x5a {
            proof {
                assert(c[12] == data@[t.start + 12]);
            }
            return Err(DecodeError::InvalidEncoding);
        }
        proof {
            assert(c[12] == data@[t.start + 12]);
        }
        let yy = match read_two_digits(data, t, 0) {
            Some(v) => v,
            None => { return Err(DecodeError::InvalidEncoding); },
        };
        let mo = match read_two_digits(data, t, 2) {
            Some(v) => v,
            None => { return Err(DecodeError::InvalidEncoding); },
        };
        let dd = match read_two_digits(data, t, 4) {
            Some(v) => v,
            None => { return Err(DecodeError::InvalidEncoding); },
        };
        let hh = match read_two_digits(data, t, 6) {
            Some(v) => v,
            None => { return Err(DecodeError::InvalidEncoding); },
        };
        let mi = match read_two_digits(data, t, 8) {
            Some(v) => v,
            None => { return Err(DecodeError::InvalidEncoding); },
        };
        let ss = match read_two_digits(data, t, 10) {
            Some(v) => v,
            None => { return Err(DecodeError::InvalidEncoding); },
        };
        if !(1 <= mo && mo <= 12 && 1 <= dd && dd <= 31 && hh <= 23 && mi <= 59 && ss <= 59) {
            return Err(DecodeError::InvalidEncoding);
        }
        let year: u16 = if yy >= 50 {
            1900 + yy as u16
        } else {
            2000 + yy as u16
        };
        Ok(DerTime { utc: true, year, month: mo, day: dd, hour: hh, minute: mi, second: ss })
    } else if t.tag == 0x18 {
        if t.len != 15 {
            return Err(DecodeError::InvalidEncoding);
        }
        if data[t.start + 14] != 0x5a {
            proof {
                assert(c[14] == data@[t.start + 14]);
            }
            return Err(DecodeError::InvalidEncoding);
        }
        proof {
            assert(c[14] == data@[t.start + 14]);
        }
        let y1 = match read_two_digits(data, t, 0) {
            Some(v) => v,
            None => { return Err(DecodeError::InvalidEncoding); },
        };
        let y2 = match read_two_digits(data, t, 2) {
            Some(v) => v,
            None => { return Err(DecodeError::InvalidEncoding); },
        };
        let mo = match read_two_digits(data, t, 4) {
            Some(v) => v,
            None => { return Err(DecodeError::InvalidEncoding); },
        };
        let dd = match read_two_digits(data, t, 6) {
            Some(v) => v,
            None => { return Err(DecodeError::InvalidEncoding); },
        };
        let hh = match read_two_digits(data, t, 8) {
            Some(v) => v,
            None => { return Err(DecodeError::InvalidEncoding); },
        };
        let mi = match read_two_digits(data, t, 10) {
            Some(v) => v,
            None => { return Err(DecodeError::InvalidEncoding); },
        };
        let ss = match read_two_digits(data, t, 12) {
            Some(v) => v,
            None => { return Err(DecodeError::InvalidEncoding); },
        };
        if !(1 <= mo && mo <= 12 && 1 <= dd && dd <= 31 && hh <= 23 && mi <= 59 && ss <= 59) {
            return Err(DecodeError::InvalidEncoding);
        }
        let year: u16 = (y1 as u16) * 100 + (y2 as u16);
        Ok(DerTime { utc: false, year, month: mo, day: dd, hour: hh, minute: mi, second: ss })
    } else {
        Err(DecodeError::InvalidStructure)
    }
}

/// A failed TLV read reports a decoding kind.
pub proof fn lemma_read_tlv_error_kind(data: Seq<u8>, pos: int, end: int)
    requires
        spec_read_tlv(data, pos, end) is Err,
    ensures
        crate::err::spec_is_decode_error(spec_read_tlv(data, pos, end)->Err_0),
{
}

/// A failed Time read reports a decoding kind.
pub proof fn lemma_time_error_kind(tag: u8, c: Seq<u8>)
    requires
        spec_time(tag, c) is Err,
    ensures
        crate::err::spec_is_decode_error(spec_time(tag, c)->Err_0),
{
}

} // verus!
