//! Lookup-index layer of a replicated metadata catalog.
//!
//! Tenant-scoped resource names are mapped to compact numeric identifiers,
//! persisted in an ordered key-value store. The ordered binary key codec is
//! the precision-critical part: keys must serialize to bytes whose unsigned
//! byte-wise order matches the logical order (grouping by tenant, then by
//! name), must round-trip exactly, and must fail loudly on corrupt bytes.

pub mod apply;
pub mod codec;
pub mod errors;
pub mod keys;
pub mod lookup;
pub mod null_array;
pub mod ordering;
pub mod store;
