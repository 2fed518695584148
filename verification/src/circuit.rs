//! Circuit-id decoding.
//!
//! The reverse proxy names the client's circuit in an `X-Circuit-Id`
//! header holding an IPv6 textual address; the circuit id is the last
//! 32 bits of that address.  The grammar here is the standard textual
//! form: one to four hexadecimal digits per group, eight groups
//! separated by colons, at most one `::` eliding one or more zero
//! groups, and optionally a dotted-quad tail standing for the last two
//! groups.

use vstd::prelude::*;
use crate::scan::all_dec_digits;
use crate::scan::dec_val;
use crate::scan::hex_digit_val;
use crate::scan::hex_val;
use crate::scan::is_hex_digit;
use crate::scan::parse_u64_dec;
use crate::scan::split_at;
use crate::scan::split_bytes;
use crate::solution::SolutionError;

verus! {

/// All bytes of `s` are hexadecimal digits.
pub open spec fn all_hex_digits(s: Seq<u8>) -> bool {
    forall|i: int| 0 <= i < s.len() ==> is_hex_digit(#[trigger] s[i])
}

/// The value of a string of hexadecimal digits, most significant first.
pub open spec fn hex_val_seq(s: Seq<u8>) -> int
    decreases s.len(),
{
    if s.len() == 0 {
        0
    } else {
        hex_val_seq(s.drop_last()) * 16 + hex_digit_val(s.last())
    }
}

proof fn lemma_hex_val_seq_bound(s: Seq<u8>)
    ensures
        0 <= hex_val_seq(s),
        s.len() <= 4 ==> hex_val_seq(s) < 0x10000,
    decreases s.len(),
{
    if s.len() > 0 {
        lemma_hex_val_seq_bound(s.drop_last());
        if s.len() <= 4 {
            assert(hex_val_seq(s.drop_last()) < 0x1000) by {
                lemma_hex_val_seq_small(s.drop_last());
            }
        }
    }
}

proof fn lemma_hex_val_seq_small(s: Seq<u8>)
    ensures
        0 <= hex_val_seq(s),
        s.len() <= 3 ==> hex_val_seq(s) < 0x1000,
        s.len() <= 2 ==> hex_val_seq(s) < 0x100,
        s.len() <= 1 ==> hex_val_seq(s) < 0x10,
    decreases s.len(),
{
    if s.len() > 0 {
        lemma_hex_val_seq_small(s.drop_last());
    }
}

/// An address group: one to four hexadecimal digits.
pub open spec fn spec_parse_hex_group(s: Seq<u8>) -> Option<u16> {
    if 1 <= s.len() <= 4 && all_hex_digits(s) {
        Some(hex_val_seq(s) as u16)
    } else {
        None
    }
}

/// Parses an address group.
pub fn parse_hex_group(s: &[u8]) -> (r: Option<u16>)
    ensures
        r == spec_parse_hex_group(s@),
{
    let n = s.len();
    if n == 0 || n > 4 {
        return None;
    }
    let mut v: u32 = 0;
    let mut i: usize = 0;
    proof {
        assert(s@.take(0) =~= Seq::<u8>::empty());
    }
    while i < n
        invariant
            0 <= i <= n,
            n == s@.len() <= 4,
            all_hex_digits(s@.take(i as int)),
            v == hex_val_seq(s@.take(i as int)),
            v < 0x10000,
        decreases n - i,
    {
        proof {
            assert(s@.take(i + 1).drop_last() =~= s@.take(i as int));
            assert(s@.take(i + 1).last() == s@[i as int]);
            lemma_hex_val_seq_small(s@.take(i as int));
        }
        let d = match hex_val(s[i]) {
            Some(d) => d,
            None => {
                proof {
                    assert(!is_hex_digit(s@[i as int]));
                }
                return None;
            },
        };
        v = v * 16 + d as u32;
        i += 1;
    }
    proof {
        assert(s@.take(n as int) =~= s@);
        lemma_hex_val_seq_bound(s@);
    }
    Some(v as u16)
}

/// A strict decimal octet: digits only, no leading zero, at most 255.
pub open spec fn is_dec_octet(s: Seq<u8>) -> bool {
    &&& s.len() >= 1
    &&& all_dec_digits(s)
    &&& dec_val(s) <= 255
    &&& (s[0] != 48 || s.len() == 1)
}

/// The two address groups a dotted-quad tail stands for, `None` unless
/// the string is exactly four strict decimal octets.
pub open spec fn spec_parse_v4(s: Seq<u8>) -> Option<(u16, u16)> {
    let parts = split_at(s, 46);
    if parts.len() == 4 && is_dec_octet(parts[0]) && is_dec_octet(parts[1]) && is_dec_octet(
        parts[2],
    ) && is_dec_octet(parts[3]) {
        Some(
            (
                (dec_val(parts[0]) * 256 + dec_val(parts[1])) as u16,
                (dec_val(parts[2]) * 256 + dec_val(parts[3])) as u16,
            ),
        )
    } else {
        None
    }
}

/// Parses one strict decimal octet.
fn parse_octet(s: &[u8]) -> (r: Option<u8>)
    ensures
        r is Some <==> is_dec_octet(s@),
        r is Some ==> r.unwrap() == dec_val(s@),
{
    match parse_u64_dec(s) {
        Some(v) => {
            proof {
                crate::scan::lemma_dec_val_nonneg(s@);
            }
            if v <= 255 && (s[0] != 48 || s.len() == 1) {
                Some(v as u8)
            } else {
                None
            }
        },
        None => None,
    }
}

/// Parses a dotted-quad tail into its two address groups.
pub fn parse_v4(s: &[u8]) -> (r: Option<(u16, u16)>)
    ensures
        r == spec_parse_v4(s@),
{
    let ghost parts_spec = split_at(s@, 46);
    let mut parts = split_bytes(s, 46);
    proof {
        assert(parts@.len() == parts_spec.len());
    }
    if parts.len() != 4 {
        return None;
    }
    proof {
        assert(parts@[0]@ =~= parts_spec[0]);
        assert(parts@[1]@ =~= parts_spec[1]);
        assert(parts@[2]@ =~= parts_spec[2]);
        assert(parts@[3]@ =~= parts_spec[3]);
    }
    let p0 = parts.remove(0);
    let p1 = parts.remove(0);
    let p2 = parts.remove(0);
    let p3 = parts.remove(0);
    let a = parse_octet(p0.as_slice());
    let b = parse_octet(p1.as_slice());
    let c = parse_octet(p2.as_slice());
    let d = parse_octet(p3.as_slice());
    match (a, b, c, d) {
        (Some(a), Some(b), Some(c), Some(d)) => Some(
            ((a as u16) * 256 + (b as u16), (c as u16) * 256 + (d as u16)),
        ),
        _ => None,
    }
}

/// The position of the first `::`, if any.
pub open spec fn first_double_colon(s: Seq<u8>) -> Option<int>
    decreases s.len(),
{
    if s.len() < 2 {
        None
    } else if s[0] == 58 && s[1] == 58 {
        Some(0)
    } else {
        match first_double_colon(s.drop_first()) {
            Some(i) => Some(i + 1),
            None => None,
        }
    }
}

proof fn lemma_first_double_colon(s: Seq<u8>)
    ensures
        match first_double_colon(s) {
            Some(i) => 0 <= i && i + 1 < s.len() && s[i] == 58 && s[i + 1] == 58 && forall|j: int|
                0 <= j < i ==> !(#[trigger] s[j] == 58 && s[j + 1] == 58),
            None => forall|j: int|
                0 <= j && j + 1 < s.len() ==> !(#[trigger] s[j] == 58 && s[j + 1] == 58),
        },
    decreases s.len(),
{
    if s.len() >= 2 && !(s[0] == 58 && s[1] == 58) {
        let sd = s.drop_first();
        lemma_first_double_colon(sd);
        match first_double_colon(sd) {
            Some(k) => {
                assert(s[k + 1] == sd[k]);
                assert(s[k + 2] == sd[k + 1]);
                assert forall|j: int| 0 <= j < k + 1 implies !(#[trigger] s[j] == 58 && s[j + 1]
                    == 58) by {
                    if j >= 1 {
                        assert(sd[j - 1] == s[j]);
                        assert(sd[j] == s[j + 1]);
                        assert(!(sd[j - 1] == 58 && sd[j] == 58));
                    }
                }
            },
            None => {
                assert forall|j: int| 0 <= j && j + 1 < s.len() implies !(#[trigger] s[j] == 58
                    && s[j + 1] == 58) by {
                    if j >= 1 {
                        assert(sd[j - 1] == s[j]);
                        assert(sd[j] == s[j + 1]);
                        assert(!(sd[j - 1] == 58 && sd[j] == 58));
                    }
                }
            },
        }
    }
}

/// Finds the first `::`.
fn find_double_colon(s: &[u8]) -> (r: Option<usize>)
    ensures
        r is Some <==> first_double_colon(s@) is Some,
        r is Some ==> first_double_colon(s@) == Some(r.unwrap() as int),
{
    let n = s.len();
    if n < 2 {
        return None;
    }
    let mut i: usize = 0;
    while i < n - 1
        invariant
            0 <= i <= n - 1,
            n == s@.len(),
            forall|j: int| 0 <= j < i ==> !(#[trigger] s@[j] == 58 && s@[j + 1] == 58),
        decreases n - i,
    {
        if s[i] == 58 && s[i + 1] == 58 {
            proof {
                lemma_first_double_colon(s@);
                match first_double_colon(s@) {
                    Some(k) => {
                        if k < i as int {
                            assert(s@[k] == 58 && s@[k + 1] == 58);
                            assert(false);
                        }
                        if k > i as int {
                            assert(!(s@[i as int] == 58 && s@[i as int + 1] == 58));
                            assert(false);
                        }
                    },
                    None => {
                        assert(!(s@[i as int] == 58 && s@[i as int + 1] == 58));
                        assert(false);
                    },
                }
            }
            return Some(i);
        }
        i += 1;
    }
    proof {
        lemma_first_double_colon(s@);
        if first_double_colon(s@) is Some {
            let k = first_double_colon(s@).unwrap();
            assert(!(s@[k] == 58 && s@[k + 1] == 58));
            assert(false);
        }
    }
    None
}

/// The address groups a list of colon-separated pieces denotes: every
/// piece a hexadecimal group, except that the last may be a dotted
/// quad (two groups) where `v4_allowed`.
pub open spec fn spec_groups_of_parts(parts: Seq<Seq<u8>>, v4_allowed: bool) -> Option<Seq<u16>>
    decreases parts.len(),
{
    if parts.len() == 0 {
        Some(Seq::empty())
    } else if parts.len() == 1 {
        if spec_parse_hex_group(parts[0]) is Some {
            Some(seq![spec_parse_hex_group(parts[0]).unwrap()])
        } else if v4_allowed && spec_parse_v4(parts[0]) is Some {
            Some(seq![spec_parse_v4(parts[0]).unwrap().0, spec_parse_v4(parts[0]).unwrap().1])
        } else {
            None
        }
    } else {
        if spec_parse_hex_group(parts[0]) is Some && spec_groups_of_parts(
            parts.drop_first(),
            v4_allowed,
        ) is Some {
            Some(
                seq![spec_parse_hex_group(parts[0]).unwrap()] + spec_groups_of_parts(
                    parts.drop_first(),
                    v4_allowed,
                ).unwrap(),
            )
        } else {
            None
        }
    }
}

/// Parses a run of colon-separated pieces into address groups.
fn groups_of_parts(parts: &Vec<Vec<u8>>, v4_allowed: bool) -> (r: Option<Vec<u16>>)
    ensures
        r is Some <==> spec_groups_of_parts(parts.deep_view(), v4_allowed) is Some,
        r is Some ==> r.unwrap()@ == spec_groups_of_parts(parts.deep_view(), v4_allowed).unwrap(),
{
    let n = parts.len();
    let mut out: Vec<u16> = Vec::new();
    let mut i: usize = 0;
    proof {
        assert(parts.deep_view().skip(0) =~= parts.deep_view());
    }
    while i < n
        invariant
            0 <= i <= n,
            n == parts@.len(),
            parts.deep_view().len() == n,
            spec_groups_of_parts(parts.deep_view().skip(i as int), v4_allowed)
                is Some ==> spec_groups_of_parts(parts.deep_view(), v4_allowed) == Some(
                out@ + spec_groups_of_parts(parts.deep_view().skip(i as int), v4_allowed).unwrap(),
            ),
            spec_groups_of_parts(parts.deep_view().skip(i as int), v4_allowed)
                is None ==> spec_groups_of_parts(parts.deep_view(), v4_allowed) is None,
        decreases n - i,
    {
        proof {
            assert(parts.deep_view().skip(i as int)[0] == parts@[i as int].deep_view());
            assert(parts@[i as int].deep_view() == parts@[i as int]@);
            assert(parts.deep_view().skip(i as int).drop_first() =~= parts.deep_view().skip(i + 1));
        }
        let piece = &parts[i];
        if i == n - 1 {
            match parse_hex_group(piece.as_slice()) {
                Some(g) => {
                    out.push(g);
                    proof {
                        assert(parts.deep_view().skip(i as int).len() == 1);
                        assert(parts.deep_view().skip(i + 1) =~= Seq::<Seq<u8>>::empty());
                    }
                },
                None => {
                    if v4_allowed {
                        match parse_v4(piece.as_slice()) {
                            Some((hi, lo)) => {
                                out.push(hi);
                                out.push(lo);
                                proof {
                                    assert(parts.deep_view().skip(i as int).len() == 1);
                                    assert(parts.deep_view().skip(i + 1) =~= Seq::<
                                        Seq<u8>,
                                    >::empty());
                                }
                            },
                            None => {
                                return None;
                            },
                        }
                    } else {
                        return None;
                    }
                },
            }
        } else {
            match parse_hex_group(piece.as_slice()) {
                Some(g) => {
                    out.push(g);
                },
                None => {
                    return None;
                },
            }
        }
        i += 1;
    }
    proof {
        assert(parts.deep_view().skip(i as int) =~= Seq::<Seq<u8>>::empty());
        assert(out@ + Seq::<u16>::empty() =~= out@);
    }
    Some(out)
}

/// The eight 16-bit groups an IPv6 textual address denotes, `None` when
/// the string is not a well-formed address.
pub open spec fn spec_ipv6_groups(s: Seq<u8>) -> Option<Seq<u16>> {
    match first_double_colon(s) {
        None => {
            let g = spec_groups_of_parts(split_at(s, 58), true);
            if g is Some && g.unwrap().len() == 8 {
                g
            } else {
                None
            }
        },
        Some(i) => {
            let left = s.take(i);
            let right = s.skip(i + 2);
            let lparts = if left.len() == 0 {
                Seq::<Seq<u8>>::empty()
            } else {
                split_at(left, 58)
            };
            let rparts = if right.len() == 0 {
                Seq::<Seq<u8>>::empty()
            } else {
                split_at(right, 58)
            };
            let lg = spec_groups_of_parts(lparts, false);
            let rg = spec_groups_of_parts(rparts, true);
            if lg is Some && rg is Some && lg.unwrap().len() + rg.unwrap().len() <= 7 {
                Some(
                    lg.unwrap() + Seq::<u16>::new(
                        (8 - lg.unwrap().len() - rg.unwrap().len()) as nat,
                        |j: int| 0u16,
                    ) + rg.unwrap(),
                )
            } else {
                None
            }
        },
    }
}

/// Parses an IPv6 textual address into its eight groups.
pub fn parse_ipv6_groups(s: &[u8]) -> (r: Option<Vec<u16>>)
    ensures
        r is Some <==> spec_ipv6_groups(s@) is Some,
        r is Some ==> r.unwrap()@ == spec_ipv6_groups(s@).unwrap(),
        r is Some ==> r.unwrap()@.len() == 8,
{
    match find_double_colon(s) {
        None => {
            let parts = split_bytes(s, 58);
            match groups_of_parts(&parts, true) {
                Some(g) => {
                    if g.len() == 8 {
                        Some(g)
                    } else {
                        None
                    }
                },
                None => None,
            }
        },
        Some(i) => {
            let n = s.len();
            proof {
                lemma_first_double_colon(s@);
            }
            let left = vstd::slice::slice_subrange(s, 0, i);
            let right = vstd::slice::slice_subrange(s, i + 2, n);
            proof {
                assert(left@ =~= s@.take(i as int));
                assert(right@ =~= s@.skip(i as int + 2));
            }
            let lparts: Vec<Vec<u8>> = if left.len() == 0 {
                Vec::new()
            } else {
                split_bytes(left, 58)
            };
            let rparts: Vec<Vec<u8>> = if right.len() == 0 {
                Vec::new()
            } else {
                split_bytes(right, 58)
            };
            proof {
                if left@.len() == 0 {
                    assert(lparts.deep_view() =~= Seq::<Seq<u8>>::empty());
                }
                if right@.len() == 0 {
                    assert(rparts.deep_view() =~= Seq::<Seq<u8>>::empty());
                }
            }
            let lg = match groups_of_parts(&lparts, false) {
                Some(g) => g,
                None => {
                    return None;
                },
            };
            let rg = match groups_of_parts(&rparts, true) {
                Some(g) => g,
                None => {
                    return None;
                },
            };
            if lg.len() > 7 || rg.len() > 7 - lg.len() {
                return None;
            }
            let mut groups: Vec<u16> = Vec::new();
            let mut j: usize = 0;
            let llen = lg.len();
            let rlen = rg.len();
            while j < llen
                invariant
                    0 <= j <= llen,
                    llen == lg@.len(),
                    groups@ =~= lg@.take(j as int),
                decreases llen - j,
            {
                groups.push(lg[j]);
                j += 1;
            }
            let zeros = 8 - llen - rlen;
            let mut z: usize = 0;
            while z < zeros
                invariant
                    0 <= z <= zeros,
                    zeros == 8 - llen - rlen,
                    llen == lg@.len(),
                    groups@ =~= lg@ + Seq::<u16>::new(z as nat, |k: int| 0u16),
                decreases zeros - z,
            {
                groups.push(0);
                z += 1;
            }
            let mut k: usize = 0;
            while k < rlen
                invariant
                    0 <= k <= rlen,
                    rlen == rg@.len(),
                    llen == lg@.len(),
                    zeros == 8 - llen - rlen,
                    groups@ =~= lg@ + Seq::<u16>::new(zeros as nat, |m: int| 0u16) + rg@.take(
                        k as int,
                    ),
                decreases rlen - k,
            {
                groups.push(rg[k]);
                k += 1;
            }
            proof {
                assert(lg@.take(llen as int) =~= lg@);
                assert(rg@.take(rlen as int) =~= rg@);
            }
            Some(groups)
        },
    }
}

/// The circuit id an optional header value denotes: the last 32 bits of
/// the IPv6 address, big-endian, `None` when the header is missing or
/// not an address.
pub open spec fn spec_circuit_id(header: Option<Seq<u8>>) -> Option<u32> {
    match header {
        None => None,
        Some(s) => match spec_ipv6_groups(s) {
            Some(g) => Some(((g[6] as u32) * 0x10000 + g[7] as u32) as u32),
            None => None,
        },
    }
}

/// Extracts the circuit id from the `X-Circuit-Id` header value: the
/// low 32 bits of the IPv6 address it holds.  `CircuitIdError` exactly
/// when the header is missing or does not parse.
pub fn get_circuit_id(circuit_id_header: Option<&[u8]>) -> (r: Result<u32, SolutionError>)
    ensures
        r is Ok <==> spec_circuit_id(
            match circuit_id_header {
                Some(h) => Some(h@),
                None => None,
            },
        ) is Some,
        r is Ok ==> r.unwrap() == spec_circuit_id(
            match circuit_id_header {
                Some(h) => Some(h@),
                None => None,
            },
        ).unwrap(),
        r is Err ==> r.unwrap_err() == SolutionError::CircuitIdError,
{
    let header = match circuit_id_header {
        Some(h) => h,
        None => {
            return Err(SolutionError::CircuitIdError);
        },
    };
    match parse_ipv6_groups(header) {
        Some(groups) => Ok((groups[6] as u32) * 0x10000 + groups[7] as u32),
        None => Err(SolutionError::CircuitIdError),
    }
}

} // verus!
