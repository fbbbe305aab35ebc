//! Byte codec primitives of the ordered key format.
//!
//! Fixed-width fields are written in big-endian byte order so that multi-byte
//! fields sort correctly as unsigned byte sequences. Variable-length text is
//! written as an unsigned variable-length (base-128) length prefix followed
//! by the UTF-8 bytes. Decoding is cursor-style: each reader takes the buffer
//! and a position and returns the decoded value with the next position, and
//! fails with a typed error (never a panic) when fewer bytes remain than the
//! field requires or when UTF-8 validation fails.

use vstd::prelude::*;
use vstd::bytes::*;
use vstd::string::StringSliceAdditionalSpecFns;
use vstd::utf8::*;
use crate::errors::CodecError;

verus! {

/// The reserved separator scalar written between the fixed-width tenant
/// field and the variable-length name field of a lookup key.
pub const DB_LOOKUP_KEY_DELIMITER: char = '\u{1F40B}';

/// Width in bytes of the encoded delimiter: the fixed 4-byte representation
/// of its code point.
pub const DELIMITER_WIDTH: usize = 4;

// ---------------------------------------------------------------------------
// Fixed-width big-endian fields
// ---------------------------------------------------------------------------

/// Big-endian byte encoding of a 32-bit value.
pub open spec fn spec_u32_to_be_bytes(x: u32) -> Seq<u8> {
    spec_u32_to_le_bytes(x).reverse()
}

/// Big-endian byte encoding of a 64-bit value.
pub open spec fn spec_u64_to_be_bytes(x: u64) -> Seq<u8> {
    spec_u64_to_le_bytes(x).reverse()
}

/// The 64-bit value read from 8 big-endian bytes.
pub open spec fn spec_u64_from_be_bytes(s: Seq<u8>) -> u64
    recommends
        s.len() == 8,
{
    spec_u64_from_le_bytes(s.reverse())
}

/// Big-endian byte encoding of a 128-bit value.
pub open spec fn spec_u128_to_be_bytes(x: u128) -> Seq<u8> {
    spec_u128_to_le_bytes(x).reverse()
}

/// The 128-bit value read from 16 big-endian bytes.
pub open spec fn spec_u128_from_be_bytes(s: Seq<u8>) -> u128
    recommends
        s.len() == 16,
{
    spec_u128_from_le_bytes(s.reverse())
}

proof fn lemma_reverse_reverse<A>(s: Seq<A>)
    ensures
        s.reverse().reverse() == s,
{
    assert(s.reverse().reverse() =~= s);
}

/// A 64-bit value round-trips through its big-endian encoding; hence the
/// encoding is injective.
pub proof fn lemma_u64_be_round_trip(x: u64)
    ensures
        spec_u64_to_be_bytes(x).len() == 8,
        spec_u64_from_be_bytes(spec_u64_to_be_bytes(x)) == x,
{
    lemma_auto_spec_u64_to_from_le_bytes();
    lemma_reverse_reverse(spec_u64_to_le_bytes(x));
}

/// Any 8 bytes round-trip through the 64-bit value they encode.
pub proof fn lemma_u64_be_bytes_round_trip(s: Seq<u8>)
    requires
        s.len() == 8,
    ensures
        spec_u64_to_be_bytes(spec_u64_from_be_bytes(s)) == s,
{
    lemma_auto_spec_u64_to_from_le_bytes();
    lemma_reverse_reverse(s);
}

/// A 128-bit value round-trips through its big-endian encoding; hence the
/// encoding is injective.
pub proof fn lemma_u128_be_round_trip(x: u128)
    ensures
        spec_u128_to_be_bytes(x).len() == 16,
        spec_u128_from_be_bytes(spec_u128_to_be_bytes(x)) == x,
{
    lemma_auto_spec_u128_to_from_le_bytes();
    lemma_reverse_reverse(spec_u128_to_le_bytes(x));
}

/// Appends the 4 big-endian bytes of `x` to `out`.
pub fn write_fixed_u32(out: &mut Vec<u8>, x: u32)
    ensures
        final(out)@ == old(out)@ + spec_u32_to_be_bytes(x),
{
    let le = u32_to_le_bytes(x);
    let ghost be = spec_u32_to_be_bytes(x);
    let mut i: usize = 4;
    while i > 0
        invariant
            le@ == spec_u32_to_le_bytes(x),
            le@.len() == 4,
            be == le@.reverse(),
            i <= 4,
            out@ == old(out)@ + be.take(4 - i),
        decreases i,
    {
        i = i - 1;
        out.push(le[i]);
        proof {
            assert(be.take(4 - i) =~= be.take(3 - i).push(le@[i as int]));
        }
    }
    proof {
        assert(out@ =~= old(out)@ + be);
    }
}

/// Appends the 8 big-endian bytes of `x` to `out`.
pub fn write_fixed_u64(out: &mut Vec<u8>, x: u64)
    ensures
        final(out)@ == old(out)@ + spec_u64_to_be_bytes(x),
{
    let le = u64_to_le_bytes(x);
    let ghost be = spec_u64_to_be_bytes(x);
    let mut i: usize = 8;
    while i > 0
        invariant
            le@ == spec_u64_to_le_bytes(x),
            le@.len() == 8,
            be == le@.reverse(),
            i <= 8,
            out@ == old(out)@ + be.take(8 - i),
        decreases i,
    {
        i = i - 1;
        out.push(le[i]);
        proof {
            assert(be.take(8 - i) =~= be.take(7 - i).push(le@[i as int]));
        }
    }
    proof {
        assert(out@ =~= old(out)@ + be);
    }
}

/// Appends the 16 big-endian bytes of `x` to `out`.
pub fn write_fixed_u128(out: &mut Vec<u8>, x: u128)
    ensures
        final(out)@ == old(out)@ + spec_u128_to_be_bytes(x),
{
    let le = u128_to_le_bytes(x);
    let ghost be = spec_u128_to_be_bytes(x);
    let mut i: usize = 16;
    while i > 0
        invariant
            le@ == spec_u128_to_le_bytes(x),
            le@.len() == 16,
            be == le@.reverse(),
            i <= 16,
            out@ == old(out)@ + be.take(16 - i),
        decreases i,
    {
        i = i - 1;
        out.push(le[i]);
        proof {
            assert(be.take(16 - i) =~= be.take(15 - i).push(le@[i as int]));
        }
    }
    proof {
        assert(out@ =~= old(out)@ + be);
    }
}

/// Reads an 8-byte big-endian value at `pos`; fails when fewer than 8 bytes
/// remain.
pub fn read_fixed_u64(v: &[u8], pos: usize) -> (r: Result<(u64, usize), CodecError>)
    requires
        pos <= v@.len(),
    ensures
        match r {
            Ok((x, newpos)) => {
                &&& v@.len() - pos >= 8
                &&& newpos == pos + 8
                &&& x == spec_u64_from_be_bytes(v@.subrange(pos as int, pos + 8))
            },
            Err(e) => v@.len() - pos < 8 && e == CodecError::Truncated,
        },
{
    if v.len() - pos < 8 {
        return Err(CodecError::Truncated);
    }
    let ghost sub = v@.subrange(pos as int, pos + 8);
    let mut rev: Vec<u8> = Vec::new();
    let mut i: usize = 0;
    while i < 8
        invariant
            pos + 8 <= v@.len() <= usize::MAX,
            i <= 8,
            sub == v@.subrange(pos as int, pos + 8),
            rev@.len() == i,
            forall|j: int| 0 <= j < i ==> rev@[j] == sub[7 - j],
        decreases 8 - i,
    {
        rev.push(v[pos + 7 - i]);
        i = i + 1;
    }
    proof {
        assert(rev@ =~= sub.reverse());
    }
    let x = u64_from_le_bytes(rev.as_slice());
    Ok((x, pos + 8))
}

/// Reads a 16-byte big-endian value at `pos`; fails when fewer than 16 bytes
/// remain.
pub fn read_fixed_u128(v: &[u8], pos: usize) -> (r: Result<(u128, usize), CodecError>)
    requires
        pos <= v@.len(),
    ensures
        match r {
            Ok((x, newpos)) => {
                &&& v@.len() - pos >= 16
                &&& newpos == pos + 16
                &&& x == spec_u128_from_be_bytes(v@.subrange(pos as int, pos + 16))
            },
            Err(e) => v@.len() - pos < 16 && e == CodecError::Truncated,
        },
{
    if v.len() - pos < 16 {
        return Err(CodecError::Truncated);
    }
    let ghost sub = v@.subrange(pos as int, pos + 16);
    let mut rev: Vec<u8> = Vec::new();
    let mut i: usize = 0;
    while i < 16
        invariant
            pos + 16 <= v@.len() <= usize::MAX,
            i <= 16,
            sub == v@.subrange(pos as int, pos + 16),
            rev@.len() == i,
            forall|j: int| 0 <= j < i ==> rev@[j] == sub[15 - j],
        decreases 16 - i,
    {
        rev.push(v[pos + 15 - i]);
        i = i + 1;
    }
    proof {
        assert(rev@ =~= sub.reverse());
    }
    let x = u128_from_le_bytes(rev.as_slice());
    Ok((x, pos + 16))
}

/// Advances the cursor past a fixed-width field of `width` bytes without
/// reading it; fails when fewer than `width` bytes remain. Used to step over
/// the constant delimiter field, whose value the format does not require for
/// reconstructing a key.
pub fn skip_fixed(v: &[u8], pos: usize, width: usize) -> (r: Result<usize, CodecError>)
    requires
        pos <= v@.len(),
    ensures
        match r {
            Ok(newpos) => v@.len() - pos >= width && newpos == pos + width,
            Err(e) => v@.len() - pos < width && e == CodecError::Truncated,
        },
{
    if v.len() - pos < width {
        Err(CodecError::Truncated)
    } else {
        Ok(pos + width)
    }
}

// ---------------------------------------------------------------------------
// Variable-length unsigned length prefix (base-128)
// ---------------------------------------------------------------------------

/// Base-128 encoding of an unsigned 64-bit value, least-significant group
/// first; every byte but the last has its high bit set.
pub open spec fn spec_varint_encode(x: u64) -> Seq<u8>
    decreases x,
{
    if x < 0x80 {
        seq![x as u8]
    } else {
        seq![((x % 0x80) + 0x80) as u8] + spec_varint_encode(x / 0x80)
    }
}

/// Decodes a base-128 length prefix from the front of `s`: the value and the
/// number of bytes consumed, or the error. Values that do not fit in 64 bits
/// are rejected.
pub open spec fn spec_varint_decode(s: Seq<u8>) -> Result<(u64, int), CodecError>
    decreases s.len(),
{
    if s.len() == 0 {
        Err(CodecError::Truncated)
    } else if s[0] < 0x80 {
        Ok((s[0] as u64, 1))
    } else {
        match spec_varint_decode(s.drop_first()) {
            Err(e) => Err(e),
            Ok((v, used)) => {
                if v < 0x200000000000000 {
                    Ok((((s[0] - 0x80) + v * 0x80) as u64, used + 1))
                } else {
                    Err(CodecError::LengthOverflow)
                }
            },
        }
    }
}

/// A length prefix round-trips: decoding the encoding of `x`, with any bytes
/// following it, yields `x` and consumes exactly the encoding.
pub proof fn lemma_varint_round_trip(x: u64, rest: Seq<u8>)
    ensures
        1 <= spec_varint_encode(x).len(),
        spec_varint_decode(spec_varint_encode(x) + rest) == Ok::<(u64, int), CodecError>(
            (x, spec_varint_encode(x).len() as int),
        ),
    decreases x,
{
    let s = spec_varint_encode(x) + rest;
    if x < 0x80 {
        assert(s[0] == x as u8);
    } else {
        lemma_varint_round_trip(x / 0x80, rest);
        assert(s.drop_first() =~= spec_varint_encode(x / 0x80) + rest);
        assert(x / 0x80 < 0x200000000000000);
        assert(s[0] == ((x % 0x80) + 0x80) as u8);
        assert((s[0] - 0x80) + (x / 0x80) * 0x80 == x);
    }
}

/// A strictly truncated length prefix never decodes: every byte but the
/// last has its high bit set, so the cut is always detected.
pub proof fn lemma_varint_truncated(x: u64, j: int)
    requires
        0 <= j < spec_varint_encode(x).len(),
    ensures
        spec_varint_decode(spec_varint_encode(x).take(j)) is Err,
    decreases x,
{
    let enc = spec_varint_encode(x);
    if j == 0 {
        assert(enc.take(0) =~= Seq::<u8>::empty());
    } else {
        let t = enc.take(j);
        assert(x >= 0x80);
        assert(t[0] == ((x % 0x80) + 0x80) as u8);
        assert(t.drop_first() =~= spec_varint_encode(x / 0x80).take(j - 1));
        lemma_varint_truncated(x / 0x80, j - 1);
    }
}

/// Appends the base-128 encoding of `x` to `out`.
pub fn write_varint_u64(out: &mut Vec<u8>, x: u64)
    ensures
        final(out)@ == old(out)@ + spec_varint_encode(x),
{
    let mut rem: u64 = x;
    while rem >= 0x80
        invariant
            old(out)@ + spec_varint_encode(x) == out@ + spec_varint_encode(rem),
        decreases rem,
    {
        out.push(((rem % 0x80) + 0x80) as u8);
        rem = rem / 0x80;
    }
    out.push(rem as u8);
    proof {
        assert(out@ =~= old(out)@ + spec_varint_encode(x));
    }
}

/// Reads a base-128 length prefix at `pos`; fails when the buffer ends
/// before the final group or when the value does not fit in 64 bits.
pub fn read_varint_u64(v: &[u8], pos: usize) -> (r: Result<(u64, usize), CodecError>)
    requires
        pos <= v@.len(),
    ensures
        match r {
            Ok((x, newpos)) => {
                &&& pos < newpos <= v@.len()
                &&& spec_varint_decode(v@.skip(pos as int)) == Ok::<(u64, int), CodecError>(
                    (x, newpos - pos),
                )
            },
            Err(e) => spec_varint_decode(v@.skip(pos as int)) == Err::<(u64, int), CodecError>(e),
        },
    decreases v@.len() - pos,
{
    if pos >= v.len() {
        return Err(CodecError::Truncated);
    }
    let b = v[pos];
    proof {
        assert(v@.skip(pos as int)[0] == b);
    }
    if b < 0x80 {
        Ok((b as u64, pos + 1))
    } else {
        proof {
            assert(v@.skip(pos as int).drop_first() =~= v@.skip(pos + 1));
        }
        match read_varint_u64(v, pos + 1) {
            Err(e) => Err(e),
            Ok((rest_val, newpos)) => {
                if rest_val < 0x200000000000000 {
                    Ok((((b - 0x80) as u64) + rest_val * 0x80, newpos))
                } else {
                    Err(CodecError::LengthOverflow)
                }
            },
        }
    }
}

// ---------------------------------------------------------------------------
// Length-prefixed UTF-8 text
// ---------------------------------------------------------------------------

/// The encoding of a text field: base-128 length prefix of the UTF-8 byte
/// length, then the UTF-8 bytes.
pub open spec fn spec_length_prefixed_utf8(name: Seq<char>) -> Seq<u8> {
    spec_varint_encode(encode_utf8(name).len() as u64) + encode_utf8(name)
}

/// Decodes a text field from the front of `s`: the character sequence and
/// the number of bytes consumed, or the error.
pub open spec fn spec_read_length_prefixed_utf8(s: Seq<u8>) -> Result<
    (Seq<char>, int),
    CodecError,
> {
    match spec_varint_decode(s) {
        Err(e) => Err(e),
        Ok((n, used)) => {
            if s.len() - used < n {
                Err(CodecError::Truncated)
            } else {
                let body = s.subrange(used, used + n);
                if valid_utf8(body) {
                    Ok((decode_utf8(body), used + n))
                } else {
                    Err(CodecError::InvalidUtf8)
                }
            }
        },
    }
}

/// Relies on core::str::from_utf8: it returns Ok exactly on valid UTF-8
/// input, and the returned string slice's bytes are the input bytes.
#[verifier::external_body]
fn str_from_utf8(v: &[u8]) -> (r: Option<&str>)
    ensures
        r is Some <==> valid_utf8(v@),
        r matches Some(s) ==> s.spec_bytes() == v@,
{
    core::str::from_utf8(v).ok()
}

/// Appends the length-prefixed UTF-8 encoding of `s` to `out`.
pub fn write_length_prefixed_utf8(out: &mut Vec<u8>, s: &str)
    ensures
        final(out)@ == old(out)@ + spec_length_prefixed_utf8(s@),
{
    let bytes = s.as_bytes();
    write_varint_u64(out, bytes.len() as u64);
    let mut tail = vstd::slice::slice_to_vec(bytes);
    out.append(&mut tail);
    proof {
        assert(out@ =~= old(out)@ + spec_length_prefixed_utf8(s@));
    }
}

/// Reads a length-prefixed UTF-8 text field at `pos`; fails when the buffer
/// is truncated or the bytes are not valid UTF-8.
pub fn read_length_prefixed_utf8(v: &[u8], pos: usize) -> (r: Result<
    (String, usize),
    CodecError,
>)
    requires
        pos <= v@.len(),
    ensures
        match r {
            Ok((s, newpos)) => {
                &&& pos < newpos <= v@.len()
                &&& spec_read_length_prefixed_utf8(v@.skip(pos as int)) == Ok::<
                    (Seq<char>, int),
                    CodecError,
                >((s@, newpos - pos))
            },
            Err(e) => spec_read_length_prefixed_utf8(v@.skip(pos as int)) == Err::<
                (Seq<char>, int),
                CodecError,
            >(e),
        },
{
    let (n, body_pos) = match read_varint_u64(v, pos) {
        Ok(p) => p,
        Err(e) => {
            return Err(e);
        },
    };
    let remaining = v.len() - body_pos;
    if (remaining as u64) < n {
        proof {
            let s = v@.skip(pos as int);
            assert(s.len() - (body_pos - pos) < n);
        }
        return Err(CodecError::Truncated);
    }
    let n_usize = n as usize;
    let body = vstd::slice::slice_subrange(v, body_pos, body_pos + n_usize);
    let ghost s = v@.skip(pos as int);
    proof {
        assert(body@ =~= s.subrange(body_pos - pos, body_pos - pos + n));
    }
    match str_from_utf8(body) {
        Some(text) => {
            let owned = text.to_owned();
            proof {
                broadcast use encode_utf8_decode_utf8;

            }
            Ok((owned, body_pos + n_usize))
        },
        None => Err(CodecError::InvalidUtf8),
    }
}

} // verus!
