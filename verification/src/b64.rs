//! Base64 decoding for the PEM payload, with a proved round trip.
//!
//! Validity and decoding are specified group-wise over the byte sequence;
//! [`lemma_b64_round_trip`] proves that re-encoding the decoded bytes
//! reproduces the accepted text exactly.

use vstd::prelude::*;

verus! {

/// The value of a base64 alphabet byte, or -1 outside the alphabet.
pub open spec fn b64_val(b: u8) -> int {
    if 0x41 <= b <= 0x5a {
        b - 0x41
    } else if 0x61 <= b <= 0x7a {
        b - 0x61 + 26
    } else if 0x30 <= b <= 0x39 {
        b - 0x30 + 52
    } else if b == 0x2b {
        62
    } else if b == 0x2f {
        63
    } else {
        -1
    }
}

/// Whether a byte belongs to the base64 alphabet.
pub open spec fn is_b64(b: u8) -> bool {
    b64_val(b) >= 0
}

/// The alphabet byte of a six-bit value.
pub open spec fn b64_byte(v: int) -> u8 {
    if v < 26 {
        (0x41 + v) as u8
    } else if v < 52 {
        (0x61 + v - 26) as u8
    } else if v < 62 {
        (0x30 + v - 52) as u8
    } else if v == 62 {
        0x2b
    } else {
        0x2f
    }
}

/// The base64 encoding of a byte sequence, with `=` padding.
pub open spec fn b64_encode(bytes: Seq<u8>) -> Seq<u8>
    decreases bytes.len(),
{
    if bytes.len() == 0 {
        Seq::empty()
    } else if bytes.len() == 1 {
        let b0 = bytes[0] as int;
        seq![b64_byte(b0 / 4), b64_byte((b0 % 4) * 16), 0x3d, 0x3d]
    } else if bytes.len() == 2 {
        let b0 = bytes[0] as int;
        let b1 = bytes[1] as int;
        seq![b64_byte(b0 / 4), b64_byte((b0 % 4) * 16 + b1 / 16), b64_byte((b1 % 16) * 4), 0x3d]
    } else {
        let b0 = bytes[0] as int;
        let b1 = bytes[1] as int;
        let b2 = bytes[2] as int;
        seq![
            b64_byte(b0 / 4),
            b64_byte((b0 % 4) * 16 + b1 / 16),
            b64_byte((b1 % 16) * 4 + b2 / 64),
            b64_byte(b2 % 64),
        ] + b64_encode(bytes.skip(3))
    }
}

/// Whether the four bytes at `i` form a valid final base64 group: padding
/// only at the tail, and the unused low bits of the last data byte zero.
pub open spec fn valid_last_group(s: Seq<u8>, i: int) -> bool {
    if s[i + 3] == 0x3d {
        if s[i + 2] == 0x3d {
            is_b64(s[i]) && is_b64(s[i + 1]) && b64_val(s[i + 1]) % 16 == 0
        } else {
            is_b64(s[i]) && is_b64(s[i + 1]) && is_b64(s[i + 2]) && b64_val(s[i + 2]) % 4 == 0
        }
    } else {
        is_b64(s[i]) && is_b64(s[i + 1]) && is_b64(s[i + 2]) && is_b64(s[i + 3])
    }
}

/// Whether `s` is a valid base64 text: empty, or whole groups of four with
/// padding only in the last group.
pub open spec fn b64_valid(s: Seq<u8>) -> bool
    decreases s.len(),
{
    if s.len() == 0 {
        true
    } else if s.len() % 4 != 0 {
        false
    } else if s.len() == 4 {
        valid_last_group(s, 0)
    } else {
        is_b64(s[0]) && is_b64(s[1]) && is_b64(s[2]) && is_b64(s[3]) && b64_valid(s.skip(4))
    }
}

/// The three bytes encoded by a full group of four alphabet bytes.
pub open spec fn decode3(c0: u8, c1: u8, c2: u8, c3: u8) -> Seq<u8> {
    seq![
        (b64_val(c0) * 4 + b64_val(c1) / 16) as u8,
        ((b64_val(c1) % 16) * 16 + b64_val(c2) / 4) as u8,
        ((b64_val(c2) % 4) * 64 + b64_val(c3)) as u8,
    ]
}

/// The bytes encoded by the final group at `i`, honouring padding.
pub open spec fn decode_last(s: Seq<u8>, i: int) -> Seq<u8> {
    if s[i + 3] == 0x3d {
        if s[i + 2] == 0x3d {
            seq![(b64_val(s[i]) * 4 + b64_val(s[i + 1]) / 16) as u8]
        } else {
            seq![
                (b64_val(s[i]) * 4 + b64_val(s[i + 1]) / 16) as u8,
                ((b64_val(s[i + 1]) % 16) * 16 + b64_val(s[i + 2]) / 4) as u8,
            ]
        }
    } else {
        decode3(s[i], s[i + 1], s[i + 2], s[i + 3])
    }
}

/// The bytes a valid base64 text decodes to.
pub open spec fn b64_decode(s: Seq<u8>) -> Seq<u8>
    decreases s.len(),
{
    if s.len() < 4 {
        Seq::empty()
    } else if s.len() == 4 {
        decode_last(s, 0)
    } else {
        decode3(s[0], s[1], s[2], s[3]) + b64_decode(s.skip(4))
    }
}

/// Law: for every valid base64 text, re-encoding the decoded bytes
/// reproduces the text exactly, so decoding a PEM payload and encoding it
/// again preserves the content byte for byte.
pub proof fn lemma_b64_round_trip(s: Seq<u8>)
    requires
        b64_valid(s),
    ensures
        b64_encode(b64_decode(s)) == s,
    decreases s.len(),
{
    if s.len() == 0 {
        assert(b64_encode(b64_decode(s)) =~= s);
    } else if s.len() == 4 {
        lemma_last_group_round_trip(s, 0);
        assert(b64_encode(b64_decode(s)) =~= s);
    } else {
        let rest = s.skip(4);
        lemma_b64_round_trip(rest);
        let d = decode3(s[0], s[1], s[2], s[3]);
        let whole = d + b64_decode(rest);
        assert(whole.len() >= 3);
        assert(whole[0] == d[0] && whole[1] == d[1] && whole[2] == d[2]);
        assert(whole.skip(3) =~= b64_decode(rest));
        lemma_group3_round_trip(s[0], s[1], s[2], s[3]);
        assert(b64_encode(whole) =~= s);
    }
}

/// Re-encoding a decoded full group gives back its four bytes.
proof fn lemma_group3_round_trip(c0: u8, c1: u8, c2: u8, c3: u8)
    requires
        is_b64(c0),
        is_b64(c1),
        is_b64(c2),
        is_b64(c3),
    ensures
        ({
            let d = decode3(c0, c1, c2, c3);
            let b0 = d[0] as int;
            let b1 = d[1] as int;
            let b2 = d[2] as int;
            b64_byte(b0 / 4) == c0 && b64_byte((b0 % 4) * 16 + b1 / 16) == c1 && b64_byte(
                (b1 % 16) * 4 + b2 / 64,
            ) == c2 && b64_byte(b2 % 64) == c3
        }),
{
    assert(b64_byte(b64_val(c0)) == c0);
    assert(b64_byte(b64_val(c1)) == c1);
    assert(b64_byte(b64_val(c2)) == c2);
    assert(b64_byte(b64_val(c3)) == c3);
    let v0 = b64_val(c0);
    let v1 = b64_val(c1);
    let v2 = b64_val(c2);
    let v3 = b64_val(c3);
    let d = decode3(c0, c1, c2, c3);
    assert(d[0] == v0 * 4 + v1 / 16);
    assert(d[0] / 4 == v0) by (nonlinear_arith)
        requires
            d[0] == v0 * 4 + v1 / 16 && 0 <= v1 < 64 && 0 <= v0,
    ;
    assert(d[0] % 4 == v1 / 16) by (nonlinear_arith)
        requires
            d[0] == v0 * 4 + v1 / 16 && 0 <= v1 < 64 && 0 <= v0,
    ;
    assert(d[1] == (v1 % 16) * 16 + v2 / 4);
    assert(d[1] / 16 == v1 % 16) by (nonlinear_arith)
        requires
            d[1] == (v1 % 16) * 16 + v2 / 4 && 0 <= v2 < 64,
    ;
    assert(d[1] % 16 == v2 / 4) by (nonlinear_arith)
        requires
            d[1] == (v1 % 16) * 16 + v2 / 4 && 0 <= v2 < 64,
    ;
    assert((d[0] % 4) * 16 + d[1] / 16 == v1);
    assert(d[2] == (v2 % 4) * 64 + v3);
    assert(d[2] / 64 == v2 % 4) by (nonlinear_arith)
        requires
            d[2] == (v2 % 4) * 64 + v3 && 0 <= v3 < 64,
    ;
    assert(d[2] % 64 == v3) by (nonlinear_arith)
        requires
            d[2] == (v2 % 4) * 64 + v3 && 0 <= v3 < 64,
    ;
    assert((d[1] % 16) * 4 + d[2] / 64 == v2);
}

/// Re-encoding the decoded final group gives back its four bytes.
proof fn lemma_last_group_round_trip(s: Seq<u8>, i: int)
    requires
        0 <= i,
        i + 4 <= s.len(),
        valid_last_group(s, i),
    ensures
        b64_encode(decode_last(s, i)) =~= s.subrange(i, i + 4),
{
    let sub = s.subrange(i, i + 4);
    if s[i + 3] == 0x3d {
        if s[i + 2] == 0x3d {
            let v0 = b64_val(s[i]);
            let v1 = b64_val(s[i + 1]);
            let d = decode_last(s, i);
            assert(d.len() == 1);
            let b0 = d[0];
            assert(b0 == v0 * 4 + v1 / 16);
            assert(b0 / 4 == v0 && b0 % 4 == v1 / 16) by (nonlinear_arith)
                requires
                    b0 == v0 * 4 + v1 / 16 && 0 <= v1 < 64 && 0 <= v0,
            ;
            assert(v1 % 16 == 0);
            assert((v1 / 16) * 16 == v1) by (nonlinear_arith)
                requires
                    0 <= v1 < 64 && v1 % 16 == 0,
            ;
            assert(b64_byte(v0) == s[i]);
            assert(b64_byte(v1) == s[i + 1]);
        } else {
            let v0 = b64_val(s[i]);
            let v1 = b64_val(s[i + 1]);
            let v2 = b64_val(s[i + 2]);
            let d = decode_last(s, i);
            assert(d.len() == 2);
            let b0 = d[0];
            let b1 = d[1];
            assert(b0 == v0 * 4 + v1 / 16);
            assert(b1 == (v1 % 16) * 16 + v2 / 4);
            assert(b0 / 4 == v0 && b0 % 4 == v1 / 16) by (nonlinear_arith)
                requires
                    b0 == v0 * 4 + v1 / 16 && 0 <= v1 < 64 && 0 <= v0,
            ;
            assert(b1 / 16 == v1 % 16 && b1 % 16 == v2 / 4) by (nonlinear_arith)
                requires
                    b1 == (v1 % 16) * 16 + v2 / 4 && 0 <= v2 < 64,
            ;
            assert((b0 % 4) * 16 + b1 / 16 == v1);
            assert(v2 % 4 == 0);
            assert((v2 / 4) * 4 == v2) by (nonlinear_arith)
                requires
                    0 <= v2 < 64 && v2 % 4 == 0,
            ;
            assert(b64_byte(v0) == s[i]);
            assert(b64_byte(v1) == s[i + 1]);
            assert(b64_byte(v2) == s[i + 2]);
        }
    } else {
        lemma_group3_round_trip(s[i], s[i + 1], s[i + 2], s[i + 3]);
        let d = decode3(s[i], s[i + 1], s[i + 2], s[i + 3]);
        assert(decode_last(s, i) == d);
        assert(d.len() == 3);
        assert(d.skip(3) =~= Seq::<u8>::empty());
        assert(b64_encode(d) == seq![
            b64_byte(d[0] as int / 4),
            b64_byte((d[0] as int % 4) * 16 + d[1] as int / 16),
            b64_byte((d[1] as int % 16) * 4 + d[2] as int / 64),
            b64_byte(d[2] as int % 64),
        ] + b64_encode(d.skip(3)));
        assert(b64_encode(d).len() == 4);
    }
}

/// The value of an alphabet byte, or `None` outside the alphabet.
fn b64_value_of(b: u8) -> (r: Option<u8>)
    ensures
        match r {
            Some(v) => is_b64(b) && v == b64_val(b),
            None => !is_b64(b),
        },
{
    if 0x41 <= b && b <= 0x5a {
        Some(b - 0x41)
    } else if 0x61 <= b && b <= 0x7a {
        Some(b - 0x61 + 26)
    } else if 0x30 <= b && b <= 0x39 {
        Some(b - 0x30 + 52)
    } else if b == 0x2b {
        Some(62)
    } else if b == 0x2f {
        Some(63)
    } else {
        None
    }
}

/// Decodes a base64 text, accepting exactly the texts [`b64_valid`]
/// accepts and returning exactly the bytes [`b64_decode`] describes, so
/// that re-encoding the result reproduces the input.
pub fn decode(s: &Vec<u8>) -> (r: Option<Vec<u8>>)
    ensures
        match r {
            Some(v) => b64_valid(s@) && v@ == b64_decode(s@) && b64_encode(v@) == s@,
            None => !b64_valid(s@),
        },
{
    let n = s.len();
    if n == 0 {
        return Some(Vec::new());
    }
    if n % 4 != 0 {
        return None;
    }
    let mut out: Vec<u8> = Vec::new();
    let mut i: usize = 0;
    proof {
        assert(s@.skip(0) =~= s@);
        assert(out@ + b64_decode(s@) =~= b64_decode(s@));
    }
    while i + 4 < n
        invariant
            n == s@.len(),
            n % 4 == 0,
            n > 0,
            i % 4 == 0,
            i + 4 <= n,
            b64_valid(s@) == b64_valid(s@.skip(i as int)),
            b64_decode(s@) == out@ + b64_decode(s@.skip(i as int)),
        decreases n - i,
    {
        let c0 = match b64_value_of(s[i]) {
            Some(v) => v,
            None => {
                proof {
                    assert(s@.skip(i as int)[0] == s@[i as int]);
                }
                return None;
            },
        };
        let c1 = match b64_value_of(s[i + 1]) {
            Some(v) => v,
            None => {
                proof {
                    assert(s@.skip(i as int)[1] == s@[i + 1]);
                }
                return None;
            },
        };
        let c2 = match b64_value_of(s[i + 2]) {
            Some(v) => v,
            None => {
                proof {
                    assert(s@.skip(i as int)[2] == s@[i + 2]);
                }
                return None;
            },
        };
        let c3 = match b64_value_of(s[i + 3]) {
            Some(v) => v,
            None => {
                proof {
                    assert(s@.skip(i as int)[3] == s@[i + 3]);
                }
                return None;
            },
        };
        out.push(c0 * 4 + c1 / 16);
        out.push((c1 % 16) * 16 + c2 / 4);
        out.push((c2 % 4) * 64 + c3);
        proof {
            let sk = s@.skip(i as int);
            assert(sk[0] == s@[i as int]);
            assert(sk[1] == s@[i + 1]);
            assert(sk[2] == s@[i + 2]);
            assert(sk[3] == s@[i + 3]);
            assert(sk.len() > 4);
            assert(sk.skip(4) =~= s@.skip(i + 4));
            assert(b64_decode(sk) == decode3(sk[0], sk[1], sk[2], sk[3]) + b64_decode(
                s@.skip(i + 4),
            ));
            assert(out@ + b64_decode(s@.skip(i + 4)) =~= b64_decode(s@));
        }
        i = i + 4;
    }
    // the final group, where padding may stand
    let c3b = s[i + 3];
    let c2b = s[i + 2];
    proof {
        let sk = s@.skip(i as int);
        assert(sk.len() == 4);
        assert(sk[0] == s@[i as int]);
        assert(sk[1] == s@[i + 1]);
        assert(sk[2] == s@[i + 2]);
        assert(sk[3] == s@[i + 3]);
    }
    let c0 = match b64_value_of(s[i]) {
        Some(v) => v,
        None => { return None; },
    };
    let c1 = match b64_value_of(s[i + 1]) {
        Some(v) => v,
        None => { return None; },
    };
    if c3b == 0x3d {
        if c2b == 0x3d {
            if c1 % 16 != 0 {
                return None;
            }
            out.push(c0 * 4 + c1 / 16);
        } else {
            let c2 = match b64_value_of(c2b) {
                Some(v) => v,
                None => { return None; },
            };
            if c2 % 4 != 0 {
                return None;
            }
            out.push(c0 * 4 + c1 / 16);
            out.push((c1 % 16) * 16 + c2 / 4);
        }
    } else {
        let c2 = match b64_value_of(c2b) {
            Some(v) => v,
            None => { return None; },
        };
        let c3 = match b64_value_of(c3b) {
            Some(v) => v,
            None => { return None; },
        };
        out.push(c0 * 4 + c1 / 16);
        out.push((c1 % 16) * 16 + c2 / 4);
        out.push((c2 % 4) * 64 + c3);
    }
    proof {
        let sk = s@.skip(i as int);
        assert(valid_last_group(sk, 0));
        assert(b64_decode(sk) == decode_last(sk, 0));
        assert(out@ =~= b64_decode(s@));
        lemma_b64_round_trip(s@);
    }
    Some(out)
}

/// Every byte of a valid base64 text is an alphabet byte or the pad.
pub proof fn lemma_b64_valid_bytes(s: Seq<u8>)
    requires
        b64_valid(s),
    ensures
        forall|i: int| 0 <= i < s.len() ==> is_b64(s[i]) || s[i] == 0x3d,
    decreases s.len(),
{
    if s.len() == 0 {
    } else if s.len() == 4 {
        assert forall|i: int| 0 <= i < s.len() implies is_b64(s[i]) || s[i] == 0x3d by {
            assert(valid_last_group(s, 0));
        }
    } else {
        lemma_b64_valid_bytes(s.skip(4));
        assert forall|i: int| 0 <= i < s.len() implies is_b64(s[i]) || s[i] == 0x3d by {
            if i >= 4 {
                assert(s.skip(4)[i - 4] == s[i]);
            }
        }
    }
}

} // verus!
