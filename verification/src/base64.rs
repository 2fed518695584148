//! Unpadded Base64 (standard alphabet).
//!
//! Integrity tags travel as 43-character unpadded Base64 of 32 bytes.
//! The encoder and the decoder are verified against one spec-level
//! encoding, and decoding is strict: a string decodes only when it is
//! the canonical encoding of some byte string, so decode inverts encode.

use vstd::prelude::*;

verus! {

/// The standard-alphabet character for a 6-bit value.
pub open spec fn b64_char_of(v: u8) -> u8 {
    if v < 26 {
        (65 + v) as u8
    } else if v < 52 {
        (97 + (v - 26)) as u8
    } else if v < 62 {
        (48 + (v - 52)) as u8
    } else if v == 62 {
        43
    } else {
        47
    }
}

/// The 6-bit value of a standard-alphabet character, `None` outside the
/// alphabet.
pub open spec fn b64_val_of(c: u8) -> Option<u8> {
    if 65 <= c <= 90 {
        Some((c - 65) as u8)
    } else if 97 <= c <= 122 {
        Some((26 + (c - 97)) as u8)
    } else if 48 <= c <= 57 {
        Some((52 + (c - 48)) as u8)
    } else if c == 43 {
        Some(62u8)
    } else if c == 47 {
        Some(63u8)
    } else {
        None
    }
}

/// Unpadded Base64 of a byte string: four characters per three bytes,
/// a two-byte remainder as three characters, a one-byte remainder as two.
pub open spec fn b64_encode_seq(s: Seq<u8>) -> Seq<u8>
    decreases s.len(),
{
    if s.len() == 0 {
        Seq::empty()
    } else if s.len() == 1 {
        seq![b64_char_of(s[0] >> 2), b64_char_of((s[0] & 3) << 4)]
    } else if s.len() == 2 {
        seq![
            b64_char_of(s[0] >> 2),
            b64_char_of(((s[0] & 3) << 4) | (s[1] >> 4)),
            b64_char_of((s[1] & 15) << 2),
        ]
    } else {
        seq![
            b64_char_of(s[0] >> 2),
            b64_char_of(((s[0] & 3) << 4) | (s[1] >> 4)),
            b64_char_of(((s[1] & 15) << 2) | (s[2] >> 6)),
            b64_char_of(s[2] & 63),
        ] + b64_encode_seq(s.skip(3))
    }
}

/// Strict decoding of unpadded Base64: every character must be of the
/// alphabet, the length must not be 1 modulo 4, and the unused low bits
/// of a final fragment must be zero, so that exactly the canonical
/// encodings decode.
pub open spec fn b64_decode_seq(s: Seq<u8>) -> Option<Seq<u8>>
    decreases s.len(),
{
    if s.len() == 0 {
        Some(Seq::empty())
    } else if s.len() == 1 {
        None
    } else if s.len() == 2 {
        if b64_val_of(s[0]) is Some && b64_val_of(s[1]) is Some && (b64_val_of(s[1]).unwrap()
            & 15) == 0 {
            Some(seq![(b64_val_of(s[0]).unwrap() << 2) | (b64_val_of(s[1]).unwrap() >> 4)])
        } else {
            None
        }
    } else if s.len() == 3 {
        if b64_val_of(s[0]) is Some && b64_val_of(s[1]) is Some && b64_val_of(s[2]) is Some && (
        b64_val_of(s[2]).unwrap() & 3) == 0 {
            Some(
                seq![
                    (b64_val_of(s[0]).unwrap() << 2) | (b64_val_of(s[1]).unwrap() >> 4),
                    ((b64_val_of(s[1]).unwrap() & 15) << 4) | (b64_val_of(s[2]).unwrap() >> 2),
                ],
            )
        } else {
            None
        }
    } else {
        if b64_val_of(s[0]) is Some && b64_val_of(s[1]) is Some && b64_val_of(s[2]) is Some
            && b64_val_of(s[3]) is Some && b64_decode_seq(s.skip(4)) is Some {
            Some(
                seq![
                    (b64_val_of(s[0]).unwrap() << 2) | (b64_val_of(s[1]).unwrap() >> 4),
                    ((b64_val_of(s[1]).unwrap() & 15) << 4) | (b64_val_of(s[2]).unwrap() >> 2),
                    ((b64_val_of(s[2]).unwrap() & 3) << 6) | b64_val_of(s[3]).unwrap(),
                ] + b64_decode_seq(s.skip(4)).unwrap(),
            )
        } else {
            None
        }
    }
}

/// Every alphabet character comes back to its 6-bit value.
proof fn lemma_char_val_inverse(v: u8)
    requires
        v < 64,
    ensures
        b64_val_of(b64_char_of(v)) == Some(v),
{
}

/// The three bytes of a full group come back from its four characters.
proof fn lemma_group3_inverse(b0: u8, b1: u8, b2: u8)
    ensures
        ((b0 >> 2) << 2) | ((((b0 & 3) << 4) | (b1 >> 4)) >> 4) == b0,
        ((((b0 & 3) << 4) | (b1 >> 4)) & 15) << 4 | ((((b1 & 15) << 2) | (b2 >> 6)) >> 2) == b1,
        ((((b1 & 15) << 2) | (b2 >> 6)) & 3) << 6 | (b2 & 63) == b2,
        (b0 >> 2) < 64 && (((b0 & 3) << 4) | (b1 >> 4)) < 64 && (((b1 & 15) << 2) | (b2 >> 6))
            < 64 && (b2 & 63) < 64,
{
    assert(((b0 >> 2) << 2) | ((((b0 & 3) << 4) | (b1 >> 4)) >> 4) == b0) by (bit_vector);
    assert(((((b0 & 3) << 4) | (b1 >> 4)) & 15) << 4 | ((((b1 & 15) << 2) | (b2 >> 6)) >> 2) == b1)
        by (bit_vector);
    assert(((((b1 & 15) << 2) | (b2 >> 6)) & 3) << 6 | (b2 & 63) == b2) by (bit_vector);
    assert((b0 >> 2) < 64 && (((b0 & 3) << 4) | (b1 >> 4)) < 64 && (((b1 & 15) << 2) | (b2 >> 6))
        < 64 && (b2 & 63) < 64) by (bit_vector);
}

/// The final two bytes come back from their three characters, and the
/// canonical-bits check passes on an encoder output.
proof fn lemma_group2_inverse(b0: u8, b1: u8)
    ensures
        ((b0 >> 2) << 2) | ((((b0 & 3) << 4) | (b1 >> 4)) >> 4) == b0,
        ((((b0 & 3) << 4) | (b1 >> 4)) & 15) << 4 | (((b1 & 15) << 2) >> 2) == b1,
        ((b1 & 15) << 2) & 3 == 0,
        (b0 >> 2) < 64 && (((b0 & 3) << 4) | (b1 >> 4)) < 64 && ((b1 & 15) << 2) < 64,
{
    assert(((b0 >> 2) << 2) | ((((b0 & 3) << 4) | (b1 >> 4)) >> 4) == b0) by (bit_vector);
    assert(((((b0 & 3) << 4) | (b1 >> 4)) & 15) << 4 | (((b1 & 15) << 2) >> 2) == b1)
        by (bit_vector);
    assert(((b1 & 15) << 2) & 3 == 0) by (bit_vector);
    assert((b0 >> 2) < 64 && (((b0 & 3) << 4) | (b1 >> 4)) < 64 && ((b1 & 15) << 2) < 64)
        by (bit_vector);
}

/// The final single byte comes back from its two characters.
proof fn lemma_group1_inverse(b0: u8)
    ensures
        ((b0 >> 2) << 2) | (((b0 & 3) << 4) >> 4) == b0,
        ((b0 & 3) << 4) & 15 == 0,
        (b0 >> 2) < 64 && ((b0 & 3) << 4) < 64,
{
    assert(((b0 >> 2) << 2) | (((b0 & 3) << 4) >> 4) == b0) by (bit_vector);
    assert(((b0 & 3) << 4) & 15 == 0) by (bit_vector);
    assert((b0 >> 2) < 64 && ((b0 & 3) << 4) < 64) by (bit_vector);
}

/// The length of an encoding: four characters per full three-byte group
/// and one more than the remainder for a partial group.
pub proof fn lemma_encode_len(s: Seq<u8>)
    ensures
        b64_encode_seq(s).len() == 4 * (s.len() / 3) + (
        if s.len() % 3 == 0 {
            0int
        } else {
            s.len() % 3 + 1int
        }),
    decreases s.len(),
{
    if s.len() >= 3 {
        lemma_encode_len(s.skip(3));
    }
}

/// Decoding inverts encoding: the strict decoder maps the encoding of
/// any byte string back to that byte string.
pub proof fn lemma_b64_round_trip(s: Seq<u8>)
    ensures
        b64_decode_seq(b64_encode_seq(s)) == Some(s),
    decreases s.len(),
{
    let e = b64_encode_seq(s);
    if s.len() == 0 {
    } else if s.len() == 1 {
        lemma_group1_inverse(s[0]);
        lemma_char_val_inverse(s[0] >> 2);
        lemma_char_val_inverse((s[0] & 3) << 4);
        assert(b64_decode_seq(e).unwrap() =~= s);
    } else if s.len() == 2 {
        lemma_group2_inverse(s[0], s[1]);
        lemma_char_val_inverse(s[0] >> 2);
        lemma_char_val_inverse(((s[0] & 3) << 4) | (s[1] >> 4));
        lemma_char_val_inverse((s[1] & 15) << 2);
        assert(b64_decode_seq(e).unwrap() =~= s);
    } else {
        lemma_b64_round_trip(s.skip(3));
        lemma_group3_inverse(s[0], s[1], s[2]);
        lemma_char_val_inverse(s[0] >> 2);
        lemma_char_val_inverse(((s[0] & 3) << 4) | (s[1] >> 4));
        lemma_char_val_inverse(((s[1] & 15) << 2) | (s[2] >> 6));
        lemma_char_val_inverse(s[2] & 63);
        let rest = b64_encode_seq(s.skip(3));
        lemma_encode_len(s.skip(3));
        assert(e.len() >= 4);
        assert(e.skip(4) =~= rest);
        assert(b64_decode_seq(e).unwrap() =~= s);
    }
}

/// Every alphabet character is the character of its 6-bit value.
proof fn lemma_val_char_inverse(c: u8)
    requires
        b64_val_of(c) is Some,
    ensures
        b64_val_of(c).unwrap() < 64,
        b64_char_of(b64_val_of(c).unwrap()) == c,
{
}

/// The four characters of a full group come back from its three bytes.
proof fn lemma_vals_group3_inverse(v0: u8, v1: u8, v2: u8, v3: u8)
    requires
        v0 < 64,
        v1 < 64,
        v2 < 64,
        v3 < 64,
    ensures
        ((v0 << 2) | (v1 >> 4)) >> 2 == v0,
        ((((v0 << 2) | (v1 >> 4)) & 3) << 4) | ((((v1 & 15) << 4) | (v2 >> 2)) >> 4) == v1,
        (((((v1 & 15) << 4) | (v2 >> 2)) & 15) << 2) | ((((v2 & 3) << 6) | v3) >> 6) == v2,
        (((v2 & 3) << 6) | v3) & 63 == v3,
{
    assert(v0 < 64 && v1 < 64 ==> ((v0 << 2) | (v1 >> 4)) >> 2 == v0) by (bit_vector);
    assert(v1 < 64 && v2 < 64 ==> ((((v0 << 2) | (v1 >> 4)) & 3) << 4) | ((((v1 & 15) << 4) | (v2
        >> 2)) >> 4) == v1) by (bit_vector);
    assert(v2 < 64 && v3 < 64 ==> (((((v1 & 15) << 4) | (v2 >> 2)) & 15) << 2) | ((((v2 & 3) << 6)
        | v3) >> 6) == v2) by (bit_vector);
    assert(v3 < 64 ==> (((v2 & 3) << 6) | v3) & 63 == v3) by (bit_vector);
}

/// The characters of a final fragment come back from its bytes, when
/// the unused low bits are zero.
proof fn lemma_vals_tail_inverse(v0: u8, v1: u8, v2: u8)
    requires
        v0 < 64,
        v1 < 64,
        v2 < 64,
    ensures
        ((v0 << 2) | (v1 >> 4)) >> 2 == v0,
        v1 & 15 == 0 ==> (((v0 << 2) | (v1 >> 4)) & 3) << 4 == v1,
        ((((v0 << 2) | (v1 >> 4)) & 3) << 4) | ((((v1 & 15) << 4) | (v2 >> 2)) >> 4) == v1,
        v2 & 3 == 0 ==> ((((v1 & 15) << 4) | (v2 >> 2)) & 15) << 2 == v2,
{
    assert(v0 < 64 && v1 < 64 ==> ((v0 << 2) | (v1 >> 4)) >> 2 == v0) by (bit_vector);
    assert(v1 < 64 && v1 & 15 == 0 ==> (((v0 << 2) | (v1 >> 4)) & 3) << 4 == v1) by (bit_vector);
    assert(v1 < 64 && v2 < 64 ==> ((((v0 << 2) | (v1 >> 4)) & 3) << 4) | ((((v1 & 15) << 4) | (v2
        >> 2)) >> 4) == v1) by (bit_vector);
    assert(v2 < 64 && v2 & 3 == 0 ==> ((((v1 & 15) << 4) | (v2 >> 2)) & 15) << 2 == v2)
        by (bit_vector);
}

/// Decoding is sound: a string that decodes is the canonical encoding
/// of what it decodes to.  With the round trip this pins the decoder
/// down: exactly the encodings decode, each to its unique preimage.
pub proof fn lemma_b64_decode_sound(s: Seq<u8>)
    requires
        b64_decode_seq(s) is Some,
    ensures
        b64_encode_seq(b64_decode_seq(s).unwrap()) == s,
    decreases s.len(),
{
    let b = b64_decode_seq(s).unwrap();
    if s.len() == 0 {
        assert(b64_encode_seq(b) =~= s);
    } else if s.len() == 2 {
        let v0 = b64_val_of(s[0]).unwrap();
        let v1 = b64_val_of(s[1]).unwrap();
        lemma_val_char_inverse(s[0]);
        lemma_val_char_inverse(s[1]);
        lemma_vals_tail_inverse(v0, v1, 0);
        assert(b64_encode_seq(b) =~= s);
    } else if s.len() == 3 {
        let v0 = b64_val_of(s[0]).unwrap();
        let v1 = b64_val_of(s[1]).unwrap();
        let v2 = b64_val_of(s[2]).unwrap();
        lemma_val_char_inverse(s[0]);
        lemma_val_char_inverse(s[1]);
        lemma_val_char_inverse(s[2]);
        lemma_vals_tail_inverse(v0, v1, v2);
        assert(b64_encode_seq(b) =~= s);
    } else {
        let v0 = b64_val_of(s[0]).unwrap();
        let v1 = b64_val_of(s[1]).unwrap();
        let v2 = b64_val_of(s[2]).unwrap();
        let v3 = b64_val_of(s[3]).unwrap();
        lemma_val_char_inverse(s[0]);
        lemma_val_char_inverse(s[1]);
        lemma_val_char_inverse(s[2]);
        lemma_val_char_inverse(s[3]);
        lemma_vals_group3_inverse(v0, v1, v2, v3);
        lemma_b64_decode_sound(s.skip(4));
        let rest = b64_decode_seq(s.skip(4)).unwrap();
        assert(b.skip(3) =~= rest);
        assert(b[0] == (v0 << 2) | (v1 >> 4));
        assert(b[1] == ((v1 & 15) << 4) | (v2 >> 2));
        assert(b[2] == ((v2 & 3) << 6) | v3);
        assert(b64_encode_seq(b) =~= s);
    }
}

/// Tag round trip: a 32-byte tag encodes to exactly 43 characters, and
/// decoding the encoding yields the same 32 bytes.
pub proof fn lemma_tag_round_trip(tag: Seq<u8>)
    requires
        tag.len() == 32,
    ensures
        b64_encode_seq(tag).len() == 43,
        b64_decode_seq(b64_encode_seq(tag)) == Some(tag),
{
    lemma_encode_len(tag);
    lemma_b64_round_trip(tag);
}

/// The alphabet character for a 6-bit value.
fn b64_char(v: u8) -> (r: u8)
    requires
        v < 64,
    ensures
        r == b64_char_of(v),
{
    if v < 26 {
        65 + v
    } else if v < 52 {
        97 + (v - 26)
    } else if v < 62 {
        48 + (v - 52)
    } else if v == 62 {
        43
    } else {
        47
    }
}

/// The 6-bit value of an alphabet character, `None` outside the alphabet.
fn b64_val(c: u8) -> (r: Option<u8>)
    ensures
        r == b64_val_of(c),
{
    if 65 <= c && c <= 90 {
        Some(c - 65)
    } else if 97 <= c && c <= 122 {
        Some(26 + (c - 97))
    } else if 48 <= c && c <= 57 {
        Some(52 + (c - 48))
    } else if c == 43 {
        Some(62)
    } else if c == 47 {
        Some(63)
    } else {
        None
    }
}

/// Encodes a byte string as unpadded Base64.
pub fn base64_encode(data: &[u8]) -> (r: Vec<u8>)
    ensures
        r@ == b64_encode_seq(data@),
{
    let n = data.len();
    let mut out: Vec<u8> = Vec::new();
    let mut i: usize = 0;
    proof {
        assert(data@.skip(0) =~= data@);
    }
    while n - i >= 3
        invariant
            0 <= i <= n,
            n == data@.len(),
            b64_encode_seq(data@) =~= out@ + b64_encode_seq(data@.skip(i as int)),
        decreases n - i,
    {
        let b0 = data[i];
        let b1 = data[i + 1];
        let b2 = data[i + 2];
        proof {
            lemma_group3_inverse(b0, b1, b2);
            assert(data@.skip(i as int)[0] == b0);
            assert(data@.skip(i as int)[1] == b1);
            assert(data@.skip(i as int)[2] == b2);
            assert(data@.skip(i as int).skip(3) =~= data@.skip(i + 3));
        }
        out.push(b64_char(b0 >> 2));
        out.push(b64_char(((b0 & 3) << 4) | (b1 >> 4)));
        out.push(b64_char(((b1 & 15) << 2) | (b2 >> 6)));
        out.push(b64_char(b2 & 63));
        i += 3;
    }
    if n - i == 1 {
        let b0 = data[i];
        proof {
            lemma_group1_inverse(b0);
            assert(data@.skip(i as int) =~= seq![b0]);
        }
        out.push(b64_char(b0 >> 2));
        out.push(b64_char((b0 & 3) << 4));
    } else if n - i == 2 {
        let b0 = data[i];
        let b1 = data[i + 1];
        proof {
            lemma_group2_inverse(b0, b1);
            assert(data@.skip(i as int) =~= seq![b0, b1]);
        }
        out.push(b64_char(b0 >> 2));
        out.push(b64_char(((b0 & 3) << 4) | (b1 >> 4)));
        out.push(b64_char((b1 & 15) << 2));
    }
    out
}

/// Decodes unpadded Base64 strictly: `Some` exactly on canonical
/// encodings, and then the decoded bytes.
pub fn base64_decode(s: &[u8]) -> (r: Option<Vec<u8>>)
    ensures
        r is Some <==> b64_decode_seq(s@) is Some,
        r is Some ==> r.unwrap()@ == b64_decode_seq(s@).unwrap(),
{
    let n = s.len();
    let mut out: Vec<u8> = Vec::new();
    let mut i: usize = 0;
    proof {
        assert(s@.skip(0) =~= s@);
    }
    while n - i >= 4
        invariant
            0 <= i <= n,
            n == s@.len(),
            b64_decode_seq(s@.skip(i as int)) is Some ==> b64_decode_seq(s@) == Some(
                out@ + b64_decode_seq(s@.skip(i as int)).unwrap(),
            ),
            b64_decode_seq(s@.skip(i as int)) is None ==> b64_decode_seq(s@) is None,
        decreases n - i,
    {
        proof {
            assert(s@.skip(i as int)[0] == s@[i as int]);
            assert(s@.skip(i as int)[1] == s@[i as int + 1]);
            assert(s@.skip(i as int)[2] == s@[i as int + 2]);
            assert(s@.skip(i as int)[3] == s@[i as int + 3]);
            assert(s@.skip(i as int).skip(4) =~= s@.skip(i + 4));
        }
        let v0 = b64_val(s[i]);
        let v1 = b64_val(s[i + 1]);
        let v2 = b64_val(s[i + 2]);
        let v3 = b64_val(s[i + 3]);
        match (v0, v1, v2, v3) {
            (Some(v0), Some(v1), Some(v2), Some(v3)) => {
                out.push((v0 << 2) | (v1 >> 4));
                out.push(((v1 & 15) << 4) | (v2 >> 2));
                out.push(((v2 & 3) << 6) | v3);
            },
            _ => {
                return None;
            },
        }
        i += 4;
    }
    if n - i == 0 {
        proof {
            assert(s@.skip(i as int) =~= Seq::<u8>::empty());
            assert(out@ + Seq::<u8>::empty() =~= out@);
        }
        Some(out)
    } else if n - i == 2 {
        proof {
            assert(s@.skip(i as int) =~= seq![s@[i as int], s@[i as int + 1]]);
        }
        let v0 = b64_val(s[i]);
        let v1 = b64_val(s[i + 1]);
        match (v0, v1) {
            (Some(v0), Some(v1)) => {
                if v1 & 15 == 0 {
                    out.push((v0 << 2) | (v1 >> 4));
                    Some(out)
                } else {
                    None
                }
            },
            _ => None,
        }
    } else if n - i == 3 {
        proof {
            assert(s@.skip(i as int) =~= seq![s@[i as int], s@[i as int + 1], s@[i as int + 2]]);
        }
        let v0 = b64_val(s[i]);
        let v1 = b64_val(s[i + 1]);
        let v2 = b64_val(s[i + 2]);
        match (v0, v1, v2) {
            (Some(v0), Some(v1), Some(v2)) => {
                if v2 & 3 == 0 {
                    out.push((v0 << 2) | (v1 >> 4));
                    out.push(((v1 & 15) << 4) | (v2 >> 2));
                    Some(out)
                } else {
                    None
                }
            },
            _ => None,
        }
    } else {
        None
    }
}

} // verus!
