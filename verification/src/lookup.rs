//! The database lookup index.
//!
//! Name-based operations against the ordered store: get-by-name, put,
//! delete, and prefix-scan-by-tenant. A decode failure on bytes read back
//! from the store is an unrecoverable corruption signal: it is reported as
//! a "store damaged" condition, never silently skipped.

use vstd::prelude::*;
use crate::errors::{CodecError, IndexError};
use crate::keys::{
    DatabaseLookupKey, DatabaseLookupValue, TenantId, encode_key_bytes, encode_prefix_bytes,
    spec_encode_key, spec_encode_value, spec_decode_key, spec_decode_value, spec_tenant_prefix,
};
use crate::codec::{lemma_u128_be_round_trip, spec_u128_to_be_bytes};
use crate::ordering::has_prefix;
use crate::store::{OrderedStore, spec_find, entries_view};

verus! {

/// The entries of the store that carry `tenant`'s key prefix, in ascending
/// byte-wise key order.
pub open spec fn tenant_entries(store: Seq<(Seq<u8>, Seq<u8>)>, tenant: u128) -> Seq<
    (Seq<u8>, Seq<u8>),
> {
    store.filter(|e: (Seq<u8>, Seq<u8>)| has_prefix(e.0, spec_tenant_prefix(tenant)))
}

/// Prefix isolation: a serialized key of one tenant never carries another
/// tenant's key prefix, whatever the names; so a prefix scan for a tenant
/// can never surface an entry written for a different tenant, even one
/// whose identifier differs in a single bit.
pub proof fn lemma_prefix_isolation(t1: u128, t2: u128, name: Seq<char>)
    requires
        t1 != t2,
    ensures
        !has_prefix(spec_encode_key(t2, name), spec_tenant_prefix(t1)),
{
    lemma_u128_be_round_trip(t1);
    lemma_u128_be_round_trip(t2);
    vstd::bytes::lemma_auto_spec_u32_to_from_le_bytes();
    let k = spec_encode_key(t2, name);
    let p = spec_tenant_prefix(t1);
    if has_prefix(k, p) {
        assert forall|j: int| 0 <= j < 16 implies spec_u128_to_be_bytes(t1)[j]
            == spec_u128_to_be_bytes(t2)[j] by {
            assert(k.take(p.len() as int)[j] == k[j]);
        }
        assert(spec_u128_to_be_bytes(t1) =~= spec_u128_to_be_bytes(t2));
        assert(t1 == t2);
    }
}

/// The database lookup index over the ordered store.
pub struct DatabaseLookupIndex {
    pub store: OrderedStore,
}

impl DatabaseLookupIndex {
    /// The store invariant carried by every operation.
    pub open spec fn wf(&self) -> bool {
        self.store.wf()
    }

    /// An empty index.
    pub fn new() -> (r: Self)
        ensures
            r.wf(),
            r.store@ == Seq::<(Seq<u8>, Seq<u8>)>::empty(),
    {
        DatabaseLookupIndex { store: OrderedStore::new() }
    }

    /// Point lookup by name; absence is not an error. A present entry
    /// whose value bytes fail to decode reports the store as damaged.
    pub fn get(&self, tenant: TenantId, name: &str) -> (r: Result<
        Option<DatabaseLookupValue>,
        IndexError,
    >)
        ensures
            ({
                let k = spec_encode_key(tenant.0, name@);
                match r {
                    Ok(Some(val)) => spec_find(self.store@, k) == Some(spec_encode_value(val.0)),
                    Ok(None) => spec_find(self.store@, k) is None,
                    Err(e) => {
                        &&& e == IndexError::StoreDamaged
                        &&& spec_find(self.store@, k) matches Some(v) && spec_decode_value(v)
                            is Err
                    },
                }
            }),
    {
        let kb = encode_key_bytes(tenant, name);
        match self.store.get(&kb) {
            None => Ok(None),
            Some(vb) => match DatabaseLookupValue::de(vb.as_slice()) {
                Ok(val) => {
                    proof {
                        crate::codec::lemma_u64_be_bytes_round_trip(vb@);
                    }
                    Ok(Some(val))
                },
                Err(_) => Err(IndexError::StoreDamaged),
            },
        }
    }

    /// Existence check that reads no value bytes: true exactly when the
    /// store holds an entry for (tenant, name), decodable or not.
    pub fn contains(&self, tenant: TenantId, name: &str) -> (r: bool)
        ensures
            r == (spec_find(self.store@, spec_encode_key(tenant.0, name@)) is Some),
    {
        let kb = encode_key_bytes(tenant, name);
        match self.store.get(&kb) {
            Some(_) => true,
            None => false,
        }
    }

    /// Unconditional upsert of the (tenant, name) entry to `value`; the
    /// apply path performs any "must not already exist" check as a prior
    /// `get`.
    pub fn put(&mut self, tenant: TenantId, name: &str, value: DatabaseLookupValue)
        requires
            old(self).wf(),
        ensures
            final(self).wf(),
            final(self).store.as_map() == old(self).store.as_map().insert(
                spec_encode_key(tenant.0, name@),
                spec_encode_value(value.0),
            ),
            spec_find(final(self).store@, spec_encode_key(tenant.0, name@)) == Some(
                spec_encode_value(value.0),
            ),
            forall|k: Seq<u8>|
                k != spec_encode_key(tenant.0, name@) ==> #[trigger] spec_find(
                    final(self).store@,
                    k,
                ) == spec_find(old(self).store@, k),
    {
        let kb = encode_key_bytes(tenant, name);
        let vb = value.ser();
        self.store.put(&kb, vb);
    }

    /// Removes the (tenant, name) entry; absence is a no-op, not an error,
    /// and leaves the store untouched.
    pub fn delete(&mut self, tenant: TenantId, name: &str)
        requires
            old(self).wf(),
        ensures
            final(self).wf(),
            final(self).store.as_map() == old(self).store.as_map().remove(
                spec_encode_key(tenant.0, name@),
            ),
            spec_find(final(self).store@, spec_encode_key(tenant.0, name@)) is None,
            forall|k: Seq<u8>|
                k != spec_encode_key(tenant.0, name@) ==> #[trigger] spec_find(
                    final(self).store@,
                    k,
                ) == spec_find(old(self).store@, k),
            spec_find(old(self).store@, spec_encode_key(tenant.0, name@)) is None ==> *final(self)
                == *old(self),
    {
        let kb = encode_key_bytes(tenant, name);
        self.store.delete(&kb);
    }

    /// Enumerates `tenant`'s entries: derives the tenant's byte prefix,
    /// scans the keys sharing it in ascending byte-wise order, and decodes
    /// each into (name, value). Any entry that fails to decode reports the
    /// store as damaged instead of being skipped.
    pub fn scan_prefix(&self, tenant: TenantId) -> (r: Result<
        Vec<(String, DatabaseLookupValue)>,
        IndexError,
    >)
        ensures
            ({
                let sub = tenant_entries(self.store@, tenant.0);
                match r {
                    Ok(out) => {
                        &&& out@.len() == sub.len()
                        &&& forall|j: int|
                            0 <= j < sub.len() ==> spec_decode_key(#[trigger] sub[j].0) == Ok::<
                                (u128, Seq<char>),
                                CodecError,
                            >((tenant.0, out@[j].0@)) && spec_decode_value(sub[j].1) == Ok::<
                                u64,
                                CodecError,
                            >(out@[j].1.0)
                    },
                    Err(e) => {
                        &&& e == IndexError::StoreDamaged
                        &&& exists|j: int|
                            0 <= j < sub.len() && (spec_decode_key(#[trigger] sub[j].0) is Err
                                || spec_decode_value(sub[j].1) is Err)
                    },
                }
            }),
    {
        let pb = encode_prefix_bytes(tenant);
        let raw = self.store.scan_prefix(&pb);
        let ghost sub = tenant_entries(self.store@, tenant.0);
        proof {
            assert(entries_view(raw@) == sub);
        }
        let mut out: Vec<(String, DatabaseLookupValue)> = Vec::new();
        let n = raw.len();
        let mut i: usize = 0;
        while i < n
            invariant
                n == raw@.len(),
                i <= n,
                entries_view(raw@) == sub,
                sub == tenant_entries(self.store@, tenant.0),
                out@.len() == i,
                forall|j: int|
                    0 <= j < i ==> spec_decode_key(#[trigger] sub[j].0) == Ok::<
                        (u128, Seq<char>),
                        CodecError,
                    >((tenant.0, out@[j].0@)) && spec_decode_value(sub[j].1) == Ok::<
                        u64,
                        CodecError,
                    >(out@[j].1.0),
            decreases n - i,
        {
            proof {
                assert(sub[i as int] == (raw@[i as int].0@, raw@[i as int].1@));
            }
            let key = match DatabaseLookupKey::de(raw[i].0.as_slice()) {
                Ok(key) => key,
                Err(_) => {
                    return Err(IndexError::StoreDamaged);
                },
            };
            let val = match DatabaseLookupValue::de(raw[i].1.as_slice()) {
                Ok(val) => val,
                Err(_) => {
                    return Err(IndexError::StoreDamaged);
                },
            };
            proof {
                // a key carrying this tenant's prefix decodes to this
                // tenant: its first 16 bytes are the tenant's encoding
                assert(has_prefix(sub[i as int].0, spec_tenant_prefix(tenant.0)));
                lemma_tenant_of_prefixed_key(sub[i as int].0, tenant.0);
            }
            out.push((key.get_database_name(), val));
            i = i + 1;
        }
        Ok(out)
    }
}

/// A stored key that carries `tenant`'s prefix decodes, if it decodes at
/// all, to `tenant` itself.
proof fn lemma_tenant_of_prefixed_key(k: Seq<u8>, tenant: u128)
    requires
        has_prefix(k, spec_tenant_prefix(tenant)),
    ensures
        spec_decode_key(k) matches Ok(p) ==> p.0 == tenant,
{
    lemma_u128_be_round_trip(tenant);
    vstd::bytes::lemma_auto_spec_u32_to_from_le_bytes();
    let p = spec_tenant_prefix(tenant);
    assert(p.len() == 20);
    assert(k.len() >= 20);
    assert forall|j: int| 0 <= j < 16 implies k[j] == spec_u128_to_be_bytes(tenant)[j] by {
        assert(k.take(p.len() as int)[j] == k[j]);
    }
    assert(k.subrange(0, 16) =~= spec_u128_to_be_bytes(tenant));
}

} // verus!
