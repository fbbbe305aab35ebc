//! The ordered key contract.
//!
//! Keys serialize to bytes whose unsigned byte-wise order matches the
//! declared logical order: grouping by tenant first (the fixed-width tenant
//! field sorts first), then by name. Within one tenant and for names of
//! equal encoded byte length, the byte order of two serialized keys agrees
//! exactly with the Unicode scalar order of the names; across different
//! lengths the variable-length length prefix sorts first, an artifact of the
//! layout. Across tenants the order is that of the tenant field's byte
//! representation, an implementation artifact that callers must not rely on
//! for tenant enumeration semantics.

use vstd::prelude::*;
use vstd::utf8::*;
use crate::codec::spec_varint_encode;
use crate::keys::{spec_encode_key, spec_tenant_prefix};

verus! {

/// Strict unsigned byte-wise (lexicographic) order, the order of the
/// underlying store; a strict prefix sorts before its extensions.
pub open spec fn lex_lt(a: Seq<u8>, b: Seq<u8>) -> bool
    decreases a.len(),
{
    if b.len() == 0 {
        false
    } else if a.len() == 0 {
        true
    } else if a[0] < b[0] {
        true
    } else if a[0] > b[0] {
        false
    } else {
        lex_lt(a.drop_first(), b.drop_first())
    }
}

/// Strict order over character sequences by Unicode scalar values, the
/// declared logical order of names within one tenant.
pub open spec fn chars_lt(a: Seq<char>, b: Seq<char>) -> bool
    decreases a.len(),
{
    if b.len() == 0 {
        false
    } else if a.len() == 0 {
        true
    } else if (a[0] as u32) < (b[0] as u32) {
        true
    } else if (a[0] as u32) > (b[0] as u32) {
        false
    } else {
        chars_lt(a.drop_first(), b.drop_first())
    }
}

/// True when `p` is a byte prefix of `k`.
pub open spec fn has_prefix(k: Seq<u8>, p: Seq<u8>) -> bool {
    p.len() <= k.len() && k.take(p.len() as int) == p
}

/// Byte-wise order is unchanged by prepending a common prefix.
pub proof fn lemma_lex_lt_concat(p: Seq<u8>, x: Seq<u8>, y: Seq<u8>)
    ensures
        lex_lt(p + x, p + y) == lex_lt(x, y),
    decreases p.len(),
{
    if p.len() == 0 {
        assert(p + x =~= x);
        assert(p + y =~= y);
    } else {
        assert((p + x).drop_first() =~= p.drop_first() + x);
        assert((p + y).drop_first() =~= p.drop_first() + y);
        lemma_lex_lt_concat(p.drop_first(), x, y);
    }
}

/// Two sequences that agree before position `j` and differ there are
/// byte-wise ordered by that position.
pub proof fn lemma_lex_lt_diff(x: Seq<u8>, y: Seq<u8>, j: int)
    requires
        0 <= j < x.len(),
        j < y.len(),
        x[j] < y[j],
        forall|m: int| 0 <= m < j ==> x[m] == y[m],
    ensures
        lex_lt(x, y),
    decreases j,
{
    if j > 0 {
        lemma_lex_lt_diff(x.drop_first(), y.drop_first(), j - 1);
    }
}

/// Byte-wise order is asymmetric.
pub proof fn lemma_lex_lt_asym(x: Seq<u8>, y: Seq<u8>)
    requires
        lex_lt(x, y),
    ensures
        !lex_lt(y, x),
    decreases x.len(),
{
    if x.len() > 0 && y.len() > 0 && x[0] == y[0] {
        lemma_lex_lt_asym(x.drop_first(), y.drop_first());
    }
}

/// Byte-wise order is irreflexive.
pub proof fn lemma_lex_lt_irrefl(x: Seq<u8>)
    ensures
        !lex_lt(x, x),
    decreases x.len(),
{
    if x.len() > 0 {
        lemma_lex_lt_irrefl(x.drop_first());
    }
}

/// Byte-wise order is transitive.
pub proof fn lemma_lex_lt_trans(x: Seq<u8>, y: Seq<u8>, z: Seq<u8>)
    requires
        lex_lt(x, y),
        lex_lt(y, z),
    ensures
        lex_lt(x, z),
    decreases x.len(),
{
    if x.len() > 0 && y.len() > 0 && z.len() > 0 && x[0] == y[0] && y[0] == z[0] {
        lemma_lex_lt_trans(x.drop_first(), y.drop_first(), z.drop_first());
    }
}

/// Byte-wise order is total: two sequences are ordered or equal.
pub proof fn lemma_lex_lt_total(x: Seq<u8>, y: Seq<u8>)
    ensures
        lex_lt(x, y) || lex_lt(y, x) || x == y,
    decreases x.len(),
{
    if x.len() > 0 && y.len() > 0 && x[0] == y[0] {
        lemma_lex_lt_total(x.drop_first(), y.drop_first());
        if x.drop_first() == y.drop_first() {
            assert forall|i: int| 0 <= i < x.len() implies x[i] == y[i] by {
                if i > 0 {
                    assert(x[i] == x.drop_first()[i - 1]);
                    assert(y[i] == y.drop_first()[i - 1]);
                }
            }
            assert(x =~= y);
        }
    } else if x.len() == 0 && y.len() == 0 {
        assert(x =~= y);
    }
}

/// Bounds of the leading byte of each UTF-8 width class: the classes occupy
/// disjoint, increasing byte ranges.
proof fn lemma_lead_byte_bounds(s: u32)
    requires
        is_scalar(s),
    ensures
        has_width_1_encoding(s) ==> encode_scalar(s)[0] <= 0x7F,
        has_width_2_encoding(s) ==> 0xC2 <= encode_scalar(s)[0] <= 0xDF,
        has_width_3_encoding(s) ==> 0xE0 <= encode_scalar(s)[0] <= 0xEF,
        has_width_4_encoding(s) ==> 0xF0 <= encode_scalar(s)[0] <= 0xF4,
{
    assert(s <= 0x7F ==> ((s & 0x7F) as u8) <= 0x7F) by (bit_vector);
    assert(0x80 <= s && s <= 0x7FF ==> 0xC2 <= (0xC0 | ((s >> 6) & 0x1F) as u8) <= 0xDF)
        by (bit_vector);
    assert(0x800 <= s && s <= 0xFFFF ==> 0xE0 <= (0xE0 | ((s >> 12) & 0x0F) as u8) <= 0xEF)
        by (bit_vector);
    assert(0x10000 <= s && s <= 0x10FFFF ==> 0xF0 <= (0xF0 | ((s >> 18) & 0x7) as u8) <= 0xF4)
        by (bit_vector);
}

/// A smaller scalar's UTF-8 encoding sorts byte-wise before a larger
/// scalar's, whatever bytes follow each.
proof fn lemma_encode_scalar_lt(s1: u32, s2: u32, r1: Seq<u8>, r2: Seq<u8>)
    requires
        is_scalar(s1),
        is_scalar(s2),
        s1 < s2,
    ensures
        lex_lt(encode_scalar(s1) + r1, encode_scalar(s2) + r2),
{
    let e1 = encode_scalar(s1);
    let e2 = encode_scalar(s2);
    let x = e1 + r1;
    let y = e2 + r2;
    lemma_lead_byte_bounds(s1);
    lemma_lead_byte_bounds(s2);
    if has_width_1_encoding(s1) && has_width_1_encoding(s2) {
        assert(s1 < s2 && s2 <= 0x7F ==> ((s1 & 0x7F) as u8) < ((s2 & 0x7F) as u8)) by (bit_vector);
        lemma_lex_lt_diff(x, y, 0);
    } else if has_width_2_encoding(s1) && has_width_2_encoding(s2) {
        assert(s1 < s2 && 0x80 <= s1 && s2 <= 0x7FF ==> ((0xC0 | ((s1 >> 6) & 0x1F) as u8) < (0xC0
            | ((s2 >> 6) & 0x1F) as u8) || ((0xC0 | ((s1 >> 6) & 0x1F) as u8) == (0xC0 | ((s2 >> 6)
            & 0x1F) as u8) && (0x80 | (s1 & 0x3F) as u8) < (0x80 | (s2 & 0x3F) as u8))))
            by (bit_vector);
        if e1[0] < e2[0] {
            lemma_lex_lt_diff(x, y, 0);
        } else {
            lemma_lex_lt_diff(x, y, 1);
        }
    } else if has_width_3_encoding(s1) && has_width_3_encoding(s2) {
        assert(s1 < s2 && 0x800 <= s1 && s2 <= 0xFFFF ==> ((0xE0 | ((s1 >> 12) & 0x0F) as u8)
            < (0xE0 | ((s2 >> 12) & 0x0F) as u8) || ((0xE0 | ((s1 >> 12) & 0x0F) as u8) == (0xE0 | (
        (s2 >> 12) & 0x0F) as u8) && ((0x80 | ((s1 >> 6) & 0x3F) as u8) < (0x80 | ((s2 >> 6)
            & 0x3F) as u8) || ((0x80 | ((s1 >> 6) & 0x3F) as u8) == (0x80 | ((s2 >> 6) & 0x3F) as u8)
            && (0x80 | (s1 & 0x3F) as u8) < (0x80 | (s2 & 0x3F) as u8)))))) by (bit_vector);
        if e1[0] < e2[0] {
            lemma_lex_lt_diff(x, y, 0);
        } else if e1[1] < e2[1] {
            lemma_lex_lt_diff(x, y, 1);
        } else {
            lemma_lex_lt_diff(x, y, 2);
        }
    } else if has_width_4_encoding(s1) && has_width_4_encoding(s2) {
        assert(s1 < s2 && 0x10000 <= s1 && s2 <= 0x10FFFF ==> ((0xF0 | ((s1 >> 18) & 0x7) as u8)
            < (0xF0 | ((s2 >> 18) & 0x7) as u8) || ((0xF0 | ((s1 >> 18) & 0x7) as u8) == (0xF0 | ((
        s2 >> 18) & 0x7) as u8) && ((0x80 | ((s1 >> 12) & 0x3F) as u8) < (0x80 | ((s2 >> 12)
            & 0x3F) as u8) || ((0x80 | ((s1 >> 12) & 0x3F) as u8) == (0x80 | ((s2 >> 12)
            & 0x3F) as u8) && ((0x80 | ((s1 >> 6) & 0x3F) as u8) < (0x80 | ((s2 >> 6) & 0x3F) as u8)
            || ((0x80 | ((s1 >> 6) & 0x3F) as u8) == (0x80 | ((s2 >> 6) & 0x3F) as u8) && (0x80 | (
        s1 & 0x3F) as u8) < (0x80 | (s2 & 0x3F) as u8)))))))) by (bit_vector);
        if e1[0] < e2[0] {
            lemma_lex_lt_diff(x, y, 0);
        } else if e1[1] < e2[1] {
            lemma_lex_lt_diff(x, y, 1);
        } else if e1[2] < e2[2] {
            lemma_lex_lt_diff(x, y, 2);
        } else {
            lemma_lex_lt_diff(x, y, 3);
        }
    } else {
        // Different width classes: since s1 < s2 the first class is the
        // smaller one, and the leading-byte ranges are disjoint and
        // increasing, so the leading bytes decide.
        assert(e1[0] < e2[0]);
        lemma_lex_lt_diff(x, y, 0);
    }
}

/// The UTF-8 encoding of no character sequence is empty but the empty one.
proof fn lemma_encode_utf8_empty(a: Seq<char>)
    ensures
        encode_utf8(a).len() == 0 <==> a.len() == 0,
{
    if a.len() > 0 {
        char_is_scalar(a[0]);
        assert(encode_scalar(a[0] as u32).len() >= 1);
    }
}

/// For names of equal encoded byte length, Unicode scalar order of the
/// names agrees exactly with unsigned byte-wise order of their UTF-8
/// encodings.
pub proof fn lemma_utf8_order(a: Seq<char>, b: Seq<char>)
    requires
        encode_utf8(a).len() == encode_utf8(b).len(),
    ensures
        chars_lt(a, b) <==> lex_lt(encode_utf8(a), encode_utf8(b)),
    decreases a.len(),
{
    lemma_encode_utf8_empty(a);
    lemma_encode_utf8_empty(b);
    if a.len() > 0 && b.len() > 0 {
        let s1 = a[0] as u32;
        let s2 = b[0] as u32;
        char_is_scalar(a[0]);
        char_is_scalar(b[0]);
        let ea = encode_utf8(a);
        let eb = encode_utf8(b);
        if s1 == s2 {
            char_u32_cast(a[0], s1);
            char_u32_cast(b[0], s2);
            assert(a[0] == b[0]);
            assert(encode_scalar(s1).len() == encode_scalar(s2).len());
            lemma_lex_lt_concat(
                encode_scalar(s1),
                encode_utf8(a.drop_first()),
                encode_utf8(b.drop_first()),
            );
            lemma_utf8_order(a.drop_first(), b.drop_first());
        } else if s1 < s2 {
            lemma_encode_scalar_lt(s1, s2, encode_utf8(a.drop_first()), encode_utf8(b.drop_first()));
        } else {
            lemma_encode_scalar_lt(s2, s1, encode_utf8(b.drop_first()), encode_utf8(a.drop_first()));
            lemma_lex_lt_asym(eb, ea);
        }
    }
}

/// Order preservation of the key codec: under one tenant, for names of
/// equal encoded byte length, a name sorts before another in Unicode scalar
/// order exactly when its serialized key sorts before the other's in
/// unsigned byte-wise order.
pub proof fn lemma_order_preservation(tenant: u128, a: Seq<char>, b: Seq<char>)
    requires
        encode_utf8(a).len() == encode_utf8(b).len(),
    ensures
        chars_lt(a, b) <==> lex_lt(spec_encode_key(tenant, a), spec_encode_key(tenant, b)),
{
    let p = spec_tenant_prefix(tenant) + spec_varint_encode(encode_utf8(a).len() as u64);
    assert(spec_encode_key(tenant, a) =~= p + encode_utf8(a));
    assert(spec_encode_key(tenant, b) =~= p + encode_utf8(b));
    lemma_lex_lt_concat(p, encode_utf8(a), encode_utf8(b));
    lemma_utf8_order(a, b);
}

/// The exact order of serialized keys under one tenant, for names whose
/// encodings are short enough for a one-byte length prefix: the length
/// prefix sorts first, then names of equal byte length sort by Unicode
/// scalar order. The length-first step is an artifact of the layout: a
/// longer name sorts after every shorter one, whatever the characters.
pub proof fn lemma_key_order_length_first(tenant: u128, a: Seq<char>, b: Seq<char>)
    requires
        encode_utf8(a).len() < 0x80,
        encode_utf8(b).len() < 0x80,
    ensures
        lex_lt(spec_encode_key(tenant, a), spec_encode_key(tenant, b)) <==> (encode_utf8(a).len()
            < encode_utf8(b).len() || (encode_utf8(a).len() == encode_utf8(b).len() && chars_lt(
            a,
            b,
        ))),
{
    let p = spec_tenant_prefix(tenant);
    let ea = encode_utf8(a);
    let eb = encode_utf8(b);
    let ta = spec_varint_encode(ea.len() as u64) + ea;
    let tb = spec_varint_encode(eb.len() as u64) + eb;
    assert(spec_encode_key(tenant, a) =~= p + ta);
    assert(spec_encode_key(tenant, b) =~= p + tb);
    lemma_lex_lt_concat(p, ta, tb);
    assert(ta[0] == ea.len() as u8);
    assert(tb[0] == eb.len() as u8);
    if ea.len() < eb.len() {
        lemma_lex_lt_diff(ta, tb, 0);
    } else if ea.len() > eb.len() {
        lemma_lex_lt_diff(tb, ta, 0);
        lemma_lex_lt_asym(tb, ta);
    } else {
        assert(ta.drop_first() =~= ea);
        assert(tb.drop_first() =~= eb);
        lemma_utf8_order(a, b);
    }
}

} // verus!
