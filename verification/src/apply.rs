//! The state machine apply path.
//!
//! A single-threaded, deterministic function consumes one committed log
//! entry at a time, in log order. For an index-affecting entry it performs
//! the existence check and the lookup-index mutation as one all-or-nothing
//! step: every check runs before the first write, so a failed entry leaves
//! persisted state untouched. An unrecoverable decode error read back from
//! the store faults the replica: it refuses every later entry until an
//! operator resyncs it from a snapshot.

use vstd::prelude::*;
use crate::errors::{ApplyError, IndexError};
use crate::keys::{
    DatabaseLookupValue, TenantId, spec_encode_key, spec_encode_value, spec_decode_value,
};
use crate::lookup::DatabaseLookupIndex;
use crate::store::spec_find;

verus! {

/// One committed, index-affecting log entry.
#[derive(Clone, Debug)]
pub enum LogEntry {
    /// Bind (tenant, name) to a fresh database id.
    CreateDatabase { tenant: TenantId, name: String, id: u64 },
    /// Remove the binding of (tenant, name).
    DropDatabase { tenant: TenantId, name: String },
    /// Move the binding of (tenant, name) to (tenant, new_name), keeping
    /// the id.
    RenameDatabase { tenant: TenantId, name: String, new_name: String },
}

/// The replica's apply-path state.
#[derive(Clone, Copy, Debug, PartialEq, Eq, Structural)]
pub enum ApplyState {
    /// Ready for the next entry.
    Idle,
    /// Mid-entry; never observable between calls.
    Applying,
    /// Entry application failed irrecoverably: the store is damaged. The
    /// replica refuses consensus-path writes until operator intervention.
    Faulted,
}

/// The deterministic state machine owning the lookup index: the only
/// writer, driven by the replicated log.
pub struct StateMachine {
    pub index: DatabaseLookupIndex,
    pub state: ApplyState,
}

/// What one application of `entry` from `pre` must yield: the post state,
/// the result, and the exact store mutation, entry kind by entry kind.
pub open spec fn apply_post(
    pre: StateMachine,
    post: StateMachine,
    entry: LogEntry,
    r: Result<(), ApplyError>,
) -> bool {
    let m0 = pre.index.store.as_map();
    let m1 = post.index.store.as_map();
    match entry {
        LogEntry::CreateDatabase { tenant, name, id } => {
            let k = spec_encode_key(tenant.0, name@);
            match spec_find(pre.index.store@, k) {
                None => {
                    &&& r is Ok
                    &&& m1 == m0.insert(k, spec_encode_value(id))
                    &&& post.state == ApplyState::Idle
                },
                Some(v) => if spec_decode_value(v) is Ok {
                    &&& r == Err::<(), ApplyError>(ApplyError::DatabaseAlreadyExists)
                    &&& post == pre
                } else {
                    &&& r == Err::<(), ApplyError>(ApplyError::StoreDamaged)
                    &&& m1 == m0
                    &&& post.state == ApplyState::Faulted
                },
            }
        },
        LogEntry::DropDatabase { tenant, name } => {
            let k = spec_encode_key(tenant.0, name@);
            match spec_find(pre.index.store@, k) {
                None => {
                    &&& r == Err::<(), ApplyError>(ApplyError::UnknownDatabase)
                    &&& post == pre
                },
                Some(v) => if spec_decode_value(v) is Ok {
                    &&& r is Ok
                    &&& m1 == m0.remove(k)
                    &&& post.state == ApplyState::Idle
                } else {
                    &&& r == Err::<(), ApplyError>(ApplyError::StoreDamaged)
                    &&& m1 == m0
                    &&& post.state == ApplyState::Faulted
                },
            }
        },
        LogEntry::RenameDatabase { tenant, name, new_name } => {
            let k0 = spec_encode_key(tenant.0, name@);
            let k1 = spec_encode_key(tenant.0, new_name@);
            match spec_find(pre.index.store@, k0) {
                None => {
                    &&& r == Err::<(), ApplyError>(ApplyError::UnknownDatabase)
                    &&& post == pre
                },
                Some(v) => if spec_decode_value(v) is Err {
                    &&& r == Err::<(), ApplyError>(ApplyError::StoreDamaged)
                    &&& m1 == m0
                    &&& post.state == ApplyState::Faulted
                } else if spec_find(pre.index.store@, k1) is Some {
                    &&& r == Err::<(), ApplyError>(ApplyError::DatabaseAlreadyExists)
                    &&& post == pre
                } else {
                    &&& r is Ok
                    &&& m1 == m0.remove(k0).insert(k1, v)
                    &&& post.state == ApplyState::Idle
                },
            }
        },
    }
}

impl StateMachine {
    /// Between entries the machine is never mid-apply, and the index is
    /// well formed.
    pub open spec fn wf(&self) -> bool {
        &&& self.index.wf()
        &&& self.state != ApplyState::Applying
    }

    /// A fresh replica: empty index, ready for the first entry.
    pub fn new() -> (r: Self)
        ensures
            r.wf(),
            r.state == ApplyState::Idle,
            r.index.store@ == Seq::<(Seq<u8>, Seq<u8>)>::empty(),
    {
        StateMachine { index: DatabaseLookupIndex::new(), state: ApplyState::Idle }
    }

    /// Applies one committed entry. A faulted replica refuses the entry
    /// and changes nothing; otherwise the entry either commits as one
    /// atomic step or fails with persisted state untouched, and only an
    /// unrecoverable decode error faults the replica.
    pub fn apply(&mut self, entry: &LogEntry) -> (r: Result<(), ApplyError>)
        requires
            old(self).wf(),
        ensures
            final(self).wf(),
            old(self).state == ApplyState::Faulted ==> r == Err::<(), ApplyError>(
                ApplyError::ReplicaFaulted,
            ) && *final(self) == *old(self),
            old(self).state == ApplyState::Idle ==> apply_post(
                *old(self),
                *final(self),
                *entry,
                r,
            ),
    {
        match self.state {
            ApplyState::Faulted => {
                return Err(ApplyError::ReplicaFaulted);
            },
            _ => {},
        }
        self.state = ApplyState::Applying;
        match entry {
            LogEntry::CreateDatabase { tenant, name, id } => {
                match self.index.get(*tenant, name.as_str()) {
                    Err(IndexError::StoreDamaged) => {
                        self.state = ApplyState::Faulted;
                        Err(ApplyError::StoreDamaged)
                    },
                    Ok(Some(val)) => {
                        proof {
                            crate::keys::lemma_value_round_trip(val.0);
                        }
                        self.state = ApplyState::Idle;
                        Err(ApplyError::DatabaseAlreadyExists)
                    },
                    Ok(None) => {
                        self.index.put(*tenant, name.as_str(), DatabaseLookupValue(*id));
                        self.state = ApplyState::Idle;
                        Ok(())
                    },
                }
            },
            LogEntry::DropDatabase { tenant, name } => {
                match self.index.get(*tenant, name.as_str()) {
                    Err(IndexError::StoreDamaged) => {
                        self.state = ApplyState::Faulted;
                        Err(ApplyError::StoreDamaged)
                    },
                    Ok(None) => {
                        self.state = ApplyState::Idle;
                        Err(ApplyError::UnknownDatabase)
                    },
                    Ok(Some(val)) => {
                        proof {
                            crate::keys::lemma_value_round_trip(val.0);
                        }
                        self.index.delete(*tenant, name.as_str());
                        self.state = ApplyState::Idle;
                        Ok(())
                    },
                }
            },
            LogEntry::RenameDatabase { tenant, name, new_name } => {
                match self.index.get(*tenant, name.as_str()) {
                    Err(IndexError::StoreDamaged) => {
                        self.state = ApplyState::Faulted;
                        Err(ApplyError::StoreDamaged)
                    },
                    Ok(None) => {
                        self.state = ApplyState::Idle;
                        Err(ApplyError::UnknownDatabase)
                    },
                    Ok(Some(val)) => {
                        proof {
                            crate::keys::lemma_value_round_trip(val.0);
                        }
                        if self.index.contains(*tenant, new_name.as_str()) {
                            self.state = ApplyState::Idle;
                            Err(ApplyError::DatabaseAlreadyExists)
                        } else {
                            self.index.delete(*tenant, name.as_str());
                            self.index.put(*tenant, new_name.as_str(), val);
                            self.state = ApplyState::Idle;
                            Ok(())
                        }
                    },
                }
            },
        }
    }
}

} // verus!
