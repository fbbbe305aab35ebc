//! Lookup key and value types.
//!
//! A lookup key pairs a fixed-width tenant identifier with a variable-length
//! resource name; the reserved delimiter scalar is fixed by the codec and is
//! not discriminating: two keys are equal exactly when tenant and name are
//! equal. The serialized layout is byte-stable:
//!
//! tenant id (16 bytes, big-endian), delimiter (4 bytes, the code point of
//! the reserved scalar), name length (variable-length unsigned prefix), name
//! bytes (UTF-8).

use vstd::prelude::*;
use vstd::utf8::*;
use crate::codec::{
    spec_u128_to_be_bytes, spec_u128_from_be_bytes, spec_u32_to_be_bytes, spec_u64_to_be_bytes,
    spec_u64_from_be_bytes, spec_varint_encode, spec_varint_decode, spec_length_prefixed_utf8,
    spec_read_length_prefixed_utf8, lemma_u128_be_round_trip, lemma_u64_be_round_trip,
    lemma_varint_round_trip, lemma_varint_truncated, write_fixed_u128, write_fixed_u32,
    write_fixed_u64,
    write_length_prefixed_utf8, read_fixed_u128, read_fixed_u64, read_length_prefixed_utf8,
    skip_fixed, DB_LOOKUP_KEY_DELIMITER, DELIMITER_WIDTH,
};
use crate::errors::CodecError;

verus! {

/// A 128-bit tenant identifier, fixed-width and never reused. Its byte
/// encoding is big-endian, so keys of one tenant are contiguous under
/// unsigned byte-wise order; the induced order over tenants is an
/// implementation artifact that callers must not rely on.
#[derive(Clone, Copy, Debug, PartialEq, Eq, Structural)]
pub struct TenantId(pub u128);

/// The serialized bytes of a lookup key for `tenant` and `name`.
pub open spec fn spec_encode_key(tenant: u128, name: Seq<char>) -> Seq<u8> {
    spec_u128_to_be_bytes(tenant) + spec_u32_to_be_bytes(DB_LOOKUP_KEY_DELIMITER as u32)
        + spec_length_prefixed_utf8(name)
}

/// The byte prefix shared by every serialized key of `tenant`: the tenant
/// field followed by the delimiter field.
pub open spec fn spec_tenant_prefix(tenant: u128) -> Seq<u8> {
    spec_u128_to_be_bytes(tenant) + spec_u32_to_be_bytes(DB_LOOKUP_KEY_DELIMITER as u32)
}

/// Decodes serialized key bytes into (tenant, name), or the decode error.
/// The delimiter field is stepped over without re-validating its value: it
/// is constant across all keys of this codec version, so the key can be
/// reconstructed without reading it. Bytes past the name field are ignored.
pub open spec fn spec_decode_key(s: Seq<u8>) -> Result<(u128, Seq<char>), CodecError> {
    if s.len() < 20 {
        Err(CodecError::Truncated)
    } else {
        let tenant = spec_u128_from_be_bytes(s.subrange(0, 16));
        match spec_read_length_prefixed_utf8(s.skip(20)) {
            Ok((name, _)) => Ok((tenant, name)),
            Err(e) => Err(e),
        }
    }
}

/// The name-to-id entry key of the database lookup index: one tenant
/// identifier and one database name, unique only within the tenant.
#[derive(Clone, Debug)]
pub struct DatabaseLookupKey {
    pub tenant_id: TenantId,
    pub database_name: String,
}

impl PartialEq for DatabaseLookupKey {
    fn eq(&self, other: &Self) -> (r: bool) {
        self.tenant_id.0 == other.tenant_id.0 && self.database_name == other.database_name
    }
}

impl vstd::std_specs::cmp::PartialEqSpecImpl for DatabaseLookupKey {
    open spec fn obeys_eq_spec() -> bool {
        true
    }

    open spec fn eq_spec(&self, other: &Self) -> bool {
        self.tenant_id == other.tenant_id && self.database_name@ == other.database_name@
    }
}

impl DatabaseLookupKey {
    /// Builds the key for `database_name` under `tenant_id`; the delimiter
    /// is fixed internally and cannot be supplied by callers.
    pub fn new(tenant_id: TenantId, database_name: String) -> (r: Self)
        ensures
            r.tenant_id == tenant_id,
            r.database_name@ == database_name@,
    {
        DatabaseLookupKey { tenant_id, database_name }
    }

    /// The tenant that owns this key.
    pub fn tenant_id(&self) -> (r: TenantId)
        ensures
            r == self.tenant_id,
    {
        self.tenant_id
    }

    /// The database name this key looks up.
    pub fn get_database_name(&self) -> (r: String)
        ensures
            r@ == self.database_name@,
    {
        self.database_name.clone()
    }

    /// The tenant field of this key, as seen in contracts.
    pub open spec fn spec_tenant(&self) -> u128 {
        self.tenant_id.0
    }

    /// The name field of this key, as seen in contracts.
    pub open spec fn spec_name(&self) -> Seq<char> {
        self.database_name@
    }

    /// Serializes this key into the stable byte layout. The result's
    /// unsigned byte-wise order groups keys by tenant first.
    pub fn ser(&self) -> (r: Result<Vec<u8>, CodecError>)
        ensures
            r matches Ok(b) && b@ == spec_encode_key(self.spec_tenant(), self.spec_name()),
    {
        Ok(encode_key_bytes(self.tenant_id, self.database_name.as_str()))
    }

    /// Deserializes a key from bytes, failing with a typed error (never a
    /// panic) on truncated or malformed input.
    pub fn de(v: &[u8]) -> (r: Result<Self, CodecError>)
        ensures
            match r {
                Ok(k) => spec_decode_key(v@) == Ok::<(u128, Seq<char>), CodecError>(
                    (k.spec_tenant(), k.spec_name()),
                ),
                Err(e) => spec_decode_key(v@) == Err::<(u128, Seq<char>), CodecError>(e),
            },
    {
        if v.len() < 20 {
            return Err(CodecError::Truncated);
        }
        let (tenant, pos) = match read_fixed_u128(v, 0) {
            Ok(p) => p,
            Err(e) => {
                return Err(e);
            },
        };
        let pos = match skip_fixed(v, pos, DELIMITER_WIDTH) {
            Ok(p) => p,
            Err(e) => {
                return Err(e);
            },
        };
        match read_length_prefixed_utf8(v, pos) {
            Ok((name, _)) => Ok(
                DatabaseLookupKey { tenant_id: TenantId(tenant), database_name: name },
            ),
            Err(e) => Err(e),
        }
    }
}

/// Serializes the key of (`tenant`, `name`) into the stable byte layout.
pub fn encode_key_bytes(tenant: TenantId, name: &str) -> (r: Vec<u8>)
    ensures
        r@ == spec_encode_key(tenant.0, name@),
{
    let mut out: Vec<u8> = Vec::new();
    write_fixed_u128(&mut out, tenant.0);
    write_fixed_u32(&mut out, DB_LOOKUP_KEY_DELIMITER as u32);
    write_length_prefixed_utf8(&mut out, name);
    proof {
        assert(out@ =~= spec_encode_key(tenant.0, name@));
    }
    out
}

/// The byte prefix shared by every serialized key of `tenant`.
pub fn encode_prefix_bytes(tenant: TenantId) -> (r: Vec<u8>)
    ensures
        r@ == spec_tenant_prefix(tenant.0),
{
    let mut out: Vec<u8> = Vec::new();
    write_fixed_u128(&mut out, tenant.0);
    write_fixed_u32(&mut out, DB_LOOKUP_KEY_DELIMITER as u32);
    proof {
        assert(out@ =~= spec_tenant_prefix(tenant.0));
    }
    out
}

/// A lookup key deserializes back to exactly the key that was serialized,
/// for every tenant and every name, including the empty name and names
/// holding multi-byte characters or the delimiter's literal character.
pub proof fn lemma_key_round_trip(tenant: u128, name: Seq<char>)
    requires
        encode_utf8(name).len() <= u64::MAX,
    ensures
        spec_decode_key(spec_encode_key(tenant, name)) == Ok::<(u128, Seq<char>), CodecError>(
            (tenant, name),
        ),
{
    let enc = spec_encode_key(tenant, name);
    let tb = spec_u128_to_be_bytes(tenant);
    let db = spec_u32_to_be_bytes(DB_LOOKUP_KEY_DELIMITER as u32);
    let lp = spec_length_prefixed_utf8(name);
    let nb = encode_utf8(name);
    lemma_u128_be_round_trip(tenant);
    vstd::bytes::lemma_auto_spec_u32_to_from_le_bytes();
    lemma_varint_round_trip(nb.len() as u64, nb);
    assert(enc.len() >= 21);
    assert(enc.subrange(0, 16) =~= tb);
    assert(enc.skip(20) =~= lp);
    let used = spec_varint_encode(nb.len() as u64).len() as int;
    assert(spec_varint_decode(lp) == Ok::<(u64, int), CodecError>((nb.len() as u64, used)));
    assert(lp.len() - used == nb.len());
    assert(lp.subrange(used, used + nb.len()) =~= nb);
    broadcast use encode_utf8_valid_utf8, encode_utf8_decode_utf8;

    assert(spec_read_length_prefixed_utf8(lp) == Ok::<(Seq<char>, int), CodecError>(
        (name, used + nb.len()),
    ));
}

/// Two distinct (tenant, name) pairs never serialize to the same bytes, so
/// the store's map-per-byte-key semantics is a map per lookup key.
pub proof fn lemma_key_encoding_injective(t1: u128, n1: Seq<char>, t2: u128, n2: Seq<char>)
    requires
        encode_utf8(n1).len() <= u64::MAX,
        encode_utf8(n2).len() <= u64::MAX,
        spec_encode_key(t1, n1) == spec_encode_key(t2, n2),
    ensures
        t1 == t2,
        n1 == n2,
{
    lemma_key_round_trip(t1, n1);
    lemma_key_round_trip(t2, n2);
}

/// Corruption detection: a strictly truncated encoding of any lookup key
/// is rejected with a decode error, never read as a different valid key.
pub proof fn lemma_truncation_detected(tenant: u128, name: Seq<char>, n: int)
    requires
        encode_utf8(name).len() <= u64::MAX,
        0 <= n < spec_encode_key(tenant, name).len(),
    ensures
        spec_decode_key(spec_encode_key(tenant, name).take(n)) is Err,
{
    let enc = spec_encode_key(tenant, name);
    let t = enc.take(n);
    lemma_u128_be_round_trip(tenant);
    vstd::bytes::lemma_auto_spec_u32_to_from_le_bytes();
    if n >= 20 {
        let nb = encode_utf8(name);
        let vi = spec_varint_encode(nb.len() as u64);
        lemma_varint_round_trip(nb.len() as u64, nb);
        let m = n - 20;
        assert(t.skip(20) =~= (vi + nb).take(m));
        if m < vi.len() {
            assert((vi + nb).take(m) =~= vi.take(m));
            lemma_varint_truncated(nb.len() as u64, m);
        } else {
            assert((vi + nb).take(m) =~= vi + nb.take(m - vi.len()));
            lemma_varint_round_trip(nb.len() as u64, nb.take(m - vi.len()));
            assert((vi + nb.take(m - vi.len())).len() - vi.len() < nb.len());
        }
    }
}

/// The value a lookup key maps to: the compact numeric identifier of the
/// database, used to redirect name-based lookups to the id-keyed primary
/// record stored elsewhere.
#[derive(Clone, Copy, Debug, PartialEq, Eq, Structural)]
pub struct DatabaseLookupValue(pub u64);

impl Default for DatabaseLookupValue {
    fn default() -> (r: Self)
        ensures
            r.0 == 0,
    {
        DatabaseLookupValue(0)
    }
}

/// The serialized bytes of a lookup value: its identifier, fixed-width
/// big-endian.
pub open spec fn spec_encode_value(id: u64) -> Seq<u8> {
    spec_u64_to_be_bytes(id)
}

/// Decodes lookup value bytes; any length but the fixed width is malformed.
pub open spec fn spec_decode_value(s: Seq<u8>) -> Result<u64, CodecError> {
    if s.len() != 8 {
        Err(CodecError::Truncated)
    } else {
        Ok(spec_u64_from_be_bytes(s))
    }
}

impl DatabaseLookupValue {
    /// Serializes this value into its fixed-width layout.
    pub fn ser(&self) -> (r: Vec<u8>)
        ensures
            r@ == spec_encode_value(self.0),
    {
        let mut out: Vec<u8> = Vec::new();
        write_fixed_u64(&mut out, self.0);
        proof {
            assert(out@ =~= spec_encode_value(self.0));
        }
        out
    }

    /// Deserializes a value, failing with a typed error on any length but
    /// the fixed width.
    pub fn de(v: &[u8]) -> (r: Result<Self, CodecError>)
        ensures
            match r {
                Ok(val) => spec_decode_value(v@) == Ok::<u64, CodecError>(val.0),
                Err(e) => spec_decode_value(v@) == Err::<u64, CodecError>(e),
            },
    {
        if v.len() != 8 {
            return Err(CodecError::Truncated);
        }
        match read_fixed_u64(v, 0) {
            Ok((id, _)) => {
                proof {
                    assert(v@.subrange(0, 8) =~= v@);
                }
                Ok(DatabaseLookupValue(id))
            },
            Err(_) => Err(CodecError::Truncated),
        }
    }
}

/// A lookup value round-trips through its serialized form.
pub proof fn lemma_value_round_trip(id: u64)
    ensures
        spec_decode_value(spec_encode_value(id)) == Ok::<u64, CodecError>(id),
{
    lemma_u64_be_round_trip(id);
}

} // verus!
