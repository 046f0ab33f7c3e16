//! The canonical byte encoding's building blocks: length-prefixed byte
//! strings and fixed-width fields, with a spec-level parser and serializer
//! that the executable codec is proved against, and round-trip lemmas.

use vstd::prelude::*;
use crate::bytes::{spec_u64_le, spec_le_u64, write_u64_le, read_u64_le, lemma_u64_le_round_trip};

verus! {

/// A byte string rendered with its 8-byte little-endian length in front.
pub open spec fn spec_enc_bytes(b: Seq<u8>) -> Seq<u8> {
    spec_u64_le(b.len() as u64) + b
}

/// Parse a length-prefixed byte string from the front of `s`: the string
/// and the number of bytes consumed.
pub open spec fn spec_parse_bytes(s: Seq<u8>) -> Option<(Seq<u8>, int)> {
    if s.len() < 8 {
        None
    } else {
        let n = spec_le_u64(s) as int;
        if 8 + n <= s.len() {
            Some((s.subrange(8, 8 + n), 8 + n))
        } else {
            None
        }
    }
}

/// Parse a fixed-width field from the front of `s`.
pub open spec fn spec_parse_fixed(s: Seq<u8>, n: int) -> Option<(Seq<u8>, int)> {
    if 0 <= n <= s.len() {
        Some((s.subrange(0, n), n))
    } else {
        None
    }
}

/// The little-endian read looks only at the first 8 bytes.
pub proof fn lemma_le_u64_prefix(s1: Seq<u8>, s2: Seq<u8>)
    requires
        s1.len() >= 8,
        s2.len() >= 8,
        forall|i: int| 0 <= i < 8 ==> s1[i] == s2[i],
    ensures
        spec_le_u64(s1) == spec_le_u64(s2),
{
}

/// A length-prefixed byte string parses back to itself, whatever follows.
pub proof fn lemma_parse_bytes_round_trip(b: Seq<u8>, rest: Seq<u8>)
    requires
        b.len() <= u64::MAX,
    ensures
        spec_parse_bytes(spec_enc_bytes(b) + rest) == Some((b, 8 + b.len() as int)),
{
    let s = spec_enc_bytes(b) + rest;
    let prefix = spec_u64_le(b.len() as u64);
    assert(forall|i: int| 0 <= i < 8 ==> s[i] == prefix[i]);
    lemma_le_u64_prefix(s, prefix);
    lemma_u64_le_round_trip(b.len() as u64);
    assert(spec_le_u64(s) == b.len() as u64);
    assert(s.subrange(8, 8 + b.len() as int) =~= b);
}

/// A fixed-width field parses back to itself, whatever follows.
pub proof fn lemma_parse_fixed_round_trip(b: Seq<u8>, rest: Seq<u8>)
    ensures
        spec_parse_fixed(b + rest, b.len() as int) == Some((b, b.len() as int)),
{
    assert((b + rest).subrange(0, b.len() as int) =~= b);
}

/// Copy `s[from..to]` into a fresh vector.
pub fn copy_range(s: &Vec<u8>, from: usize, to: usize) -> (r: Vec<u8>)
    requires
        from <= to <= s@.len(),
    ensures
        r@ == s@.subrange(from as int, to as int),
{
    let mut r: Vec<u8> = Vec::new();
    let mut i: usize = from;
    while i < to
        invariant
            from <= i <= to <= s@.len(),
            r@ == s@.subrange(from as int, i as int),
        decreases to - i,
    {
        r.push(s[i]);
        assert(r@ =~= s@.subrange(from as int, i as int + 1));
        i += 1;
    }
    r
}

/// Append a length-prefixed byte string to `out`.
pub fn write_bytes(out: &mut Vec<u8>, b: &Vec<u8>)
    ensures
        final(out)@ == old(out)@ + spec_enc_bytes(b@),
{
    let n = b.len();
    write_u64_le(out, n as u64);
    out.extend_from_slice(b.as_slice());
    assert(out@ =~= old(out)@ + spec_enc_bytes(b@));
}

/// Parse a length-prefixed byte string at position `pos`; on success the
/// string and the position after it.
pub fn parse_bytes(s: &Vec<u8>, pos: usize) -> (r: Option<(Vec<u8>, usize)>)
    requires
        pos <= s@.len(),
    ensures
        match r {
            Some(p) => {
                &&& spec_parse_bytes(s@.skip(pos as int)) == Some((p.0@, p.1 - pos as int))
                &&& pos <= p.1 <= s@.len()
            },
            None => spec_parse_bytes(s@.skip(pos as int)) is None,
        },
{
    let n = s.len();
    let u = Ghost(s@.skip(pos as int));
    if n - pos < 8 {
        return None;
    }
    let len64 = read_u64_le(s, pos);
    proof {
        assert(s@.subrange(pos as int, pos as int + 8) =~= u@.subrange(0, 8));
        lemma_le_u64_prefix(s@.subrange(pos as int, pos as int + 8), u@);
    }
    if len64 > (n - pos - 8) as u64 {
        return None;
    }
    let len = len64 as usize;
    let b = copy_range(s, pos + 8, pos + 8 + len);
    proof {
        assert(u@.subrange(8, 8 + len as int) =~= s@.subrange(
            pos as int + 8,
            pos as int + 8 + len as int,
        ));
    }
    Some((b, pos + 8 + len))
}

/// Parse a fixed-width field of `width` bytes at position `pos`.
pub fn parse_fixed(s: &Vec<u8>, pos: usize, width: usize) -> (r: Option<(Vec<u8>, usize)>)
    requires
        pos <= s@.len(),
    ensures
        match r {
            Some(p) => {
                &&& spec_parse_fixed(s@.skip(pos as int), width as int) == Some((
                    p.0@,
                    p.1 - pos as int,
                ))
                &&& pos <= p.1 <= s@.len()
                &&& p.1 - pos == width
            },
            None => spec_parse_fixed(s@.skip(pos as int), width as int) is None,
        },
{
    let n = s.len();
    if n - pos < width {
        return None;
    }
    let b = copy_range(s, pos, pos + width);
    proof {
        assert(s@.skip(pos as int).subrange(0, width as int) =~= s@.subrange(
            pos as int,
            pos as int + width as int,
        ));
    }
    Some((b, pos + width))
}

/// Parse an 8-byte little-endian integer at position `pos`.
pub fn parse_u64(s: &Vec<u8>, pos: usize) -> (r: Option<(u64, usize)>)
    requires
        pos <= s@.len(),
    ensures
        match r {
            Some(p) => {
                &&& s@.skip(pos as int).len() >= 8
                &&& p.0 == spec_le_u64(s@.skip(pos as int))
                &&& p.1 == pos + 8 <= s@.len()
            },
            None => s@.skip(pos as int).len() < 8,
        },
{
    let n = s.len();
    if n - pos < 8 {
        return None;
    }
    let v = read_u64_le(s, pos);
    proof {
        assert(forall|i: int|
            0 <= i < 8 ==> s@.subrange(pos as int, pos as int + 8)[i] == s@.skip(pos as int)[i]);
        lemma_le_u64_prefix(s@.subrange(pos as int, pos as int + 8), s@.skip(pos as int));
    }
    Some((v, pos + 8))
}

/// Reading the rendering of a value gives the value back, whatever follows.
pub proof fn lemma_le_u64_of_enc(v: u64, rest: Seq<u8>)
    ensures
        spec_le_u64(spec_u64_le(v) + rest) == v,
{
    lemma_u64_le_round_trip(v);
    lemma_le_u64_prefix(spec_u64_le(v) + rest, spec_u64_le(v));
}

/// Rendering the value read from a string gives its first 8 bytes back.
pub proof fn lemma_u64_le_bytes_round_trip(s: Seq<u8>)
    requires
        s.len() >= 8,
    ensures
        spec_u64_le(spec_le_u64(s)) == s.take(8),
{
    let b0 = s[0];
    let b1 = s[1];
    let b2 = s[2];
    let b3 = s[3];
    let b4 = s[4];
    let b5 = s[5];
    let b6 = s[6];
    let b7 = s[7];
    assert(((((b0 as u64) | ((b1 as u64) << 8u64) | ((b2 as u64) << 16u64) | ((b3 as u64)
        << 24u64) | ((b4 as u64) << 32u64) | ((b5 as u64) << 40u64) | ((b6 as u64) << 48u64) | ((
    b7 as u64) << 56u64)) >> 0u64) & 0xff) as u8 == b0) by (bit_vector);
    assert(((((b0 as u64) | ((b1 as u64) << 8u64) | ((b2 as u64) << 16u64) | ((b3 as u64)
        << 24u64) | ((b4 as u64) << 32u64) | ((b5 as u64) << 40u64) | ((b6 as u64) << 48u64) | ((
    b7 as u64) << 56u64)) >> 8u64) & 0xff) as u8 == b1) by (bit_vector);
    assert(((((b0 as u64) | ((b1 as u64) << 8u64) | ((b2 as u64) << 16u64) | ((b3 as u64)
        << 24u64) | ((b4 as u64) << 32u64) | ((b5 as u64) << 40u64) | ((b6 as u64) << 48u64) | ((
    b7 as u64) << 56u64)) >> 16u64) & 0xff) as u8 == b2) by (bit_vector);
    assert(((((b0 as u64) | ((b1 as u64) << 8u64) | ((b2 as u64) << 16u64) | ((b3 as u64)
        << 24u64) | ((b4 as u64) << 32u64) | ((b5 as u64) << 40u64) | ((b6 as u64) << 48u64) | ((
    b7 as u64) << 56u64)) >> 24u64) & 0xff) as u8 == b3) by (bit_vector);
    assert(((((b0 as u64) | ((b1 as u64) << 8u64) | ((b2 as u64) << 16u64) | ((b3 as u64)
        << 24u64) | ((b4 as u64) << 32u64) | ((b5 as u64) << 40u64) | ((b6 as u64) << 48u64) | ((
    b7 as u64) << 56u64)) >> 32u64) & 0xff) as u8 == b4) by (bit_vector);
    assert(((((b0 as u64) | ((b1 as u64) << 8u64) | ((b2 as u64) << 16u64) | ((b3 as u64)
        << 24u64) | ((b4 as u64) << 32u64) | ((b5 as u64) << 40u64) | ((b6 as u64) << 48u64) | ((
    b7 as u64) << 56u64)) >> 40u64) & 0xff) as u8 == b5) by (bit_vector);
    assert(((((b0 as u64) | ((b1 as u64) << 8u64) | ((b2 as u64) << 16u64) | ((b3 as u64)
        << 24u64) | ((b4 as u64) << 32u64) | ((b5 as u64) << 40u64) | ((b6 as u64) << 48u64) | ((
    b7 as u64) << 56u64)) >> 48u64) & 0xff) as u8 == b6) by (bit_vector);
    assert(((((b0 as u64) | ((b1 as u64) << 8u64) | ((b2 as u64) << 16u64) | ((b3 as u64)
        << 24u64) | ((b4 as u64) << 32u64) | ((b5 as u64) << 40u64) | ((b6 as u64) << 48u64) | ((
    b7 as u64) << 56u64)) >> 56u64) & 0xff) as u8 == b7) by (bit_vector);
    assert(spec_u64_le(spec_le_u64(s)) =~= s.take(8));
}

/// A successful length-prefixed parse consumed exactly a canonical
/// encoding of what it returned.
pub proof fn lemma_parse_bytes_canonical(s: Seq<u8>)
    requires
        spec_parse_bytes(s) is Some,
    ensures
        spec_parse_bytes(s) matches Some(p) && spec_enc_bytes(p.0) == s.take(p.1),
{
    let (b, n) = spec_parse_bytes(s)->Some_0;
    lemma_u64_le_bytes_round_trip(s);
    assert(b.len() == spec_le_u64(s));
    assert(spec_enc_bytes(b) =~= s.take(n));
}

} // verus!
