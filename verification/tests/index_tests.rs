use lookup_index::apply::{ApplyState, LogEntry, StateMachine};
use lookup_index::errors::{ApplyError, IndexError};
use lookup_index::keys::{DatabaseLookupValue, TenantId, encode_key_bytes};
use lookup_index::lookup::DatabaseLookupIndex;

#[test]
fn get_put_get() {
    let mut index = DatabaseLookupIndex::new();
    let t = TenantId(1);
    assert_eq!(index.get(t, "alpha"), Ok(None));
    index.put(t, "alpha", DatabaseLookupValue(10));
    assert_eq!(index.get(t, "alpha"), Ok(Some(DatabaseLookupValue(10))));
    // upsert: last write wins
    index.put(t, "alpha", DatabaseLookupValue(11));
    assert_eq!(index.get(t, "alpha"), Ok(Some(DatabaseLookupValue(11))));
}

#[test]
fn delete_nonexistent_is_success_and_no_change() {
    let mut index = DatabaseLookupIndex::new();
    let t = TenantId(1);
    index.put(t, "alpha", DatabaseLookupValue(10));
    index.delete(t, "beta");
    index.delete(TenantId(2), "alpha");
    assert_eq!(index.get(t, "alpha"), Ok(Some(DatabaseLookupValue(10))));
    let entries = index.scan_prefix(t).unwrap();
    assert_eq!(entries.len(), 1);
    assert_eq!(entries[0], (String::from("alpha"), DatabaseLookupValue(10)));
    // deleting the present entry removes exactly it
    index.delete(t, "alpha");
    assert_eq!(index.get(t, "alpha"), Ok(None));
    assert_eq!(index.scan_prefix(t).unwrap().len(), 0);
}

#[test]
fn prefix_isolation_tenants_differing_in_one_bit() {
    let mut index = DatabaseLookupIndex::new();
    let t1 = TenantId(0x4000_0000_0000_0000_0000_0000_0000_0000);
    let t2 = TenantId(0x4000_0000_0000_0000_0000_0000_0000_0001);
    index.put(t1, "db", DatabaseLookupValue(1));
    index.put(t2, "db", DatabaseLookupValue(2));
    let s1 = index.scan_prefix(t1).unwrap();
    let s2 = index.scan_prefix(t2).unwrap();
    assert_eq!(s1, vec![(String::from("db"), DatabaseLookupValue(1))]);
    assert_eq!(s2, vec![(String::from("db"), DatabaseLookupValue(2))]);
}

#[test]
fn scan_returns_names_in_byte_order() {
    let mut index = DatabaseLookupIndex::new();
    let t = TenantId(3);
    index.put(t, "cherry", DatabaseLookupValue(3));
    index.put(t, "apple1", DatabaseLookupValue(1));
    index.put(t, "banana", DatabaseLookupValue(2));
    let names: Vec<String> = index
        .scan_prefix(t)
        .unwrap()
        .into_iter()
        .map(|(name, _)| name)
        .collect();
    assert_eq!(
        names,
        vec![
            String::from("apple1"),
            String::from("banana"),
            String::from("cherry")
        ]
    );
}

#[test]
fn corrupt_value_bytes_report_store_damaged() {
    let mut index = DatabaseLookupIndex::new();
    let t = TenantId(4);
    index.put(t, "good", DatabaseLookupValue(1));
    // write bad value bytes behind the index's back, straight to the store
    let kb = encode_key_bytes(t, "bad");
    index.store.put(&kb, vec![1, 2, 3]);
    assert_eq!(index.get(t, "bad"), Err(IndexError::StoreDamaged));
    assert_eq!(index.scan_prefix(t), Err(IndexError::StoreDamaged));
    // the undamaged entry still reads fine
    assert_eq!(index.get(t, "good"), Ok(Some(DatabaseLookupValue(1))));
}

#[test]
fn end_to_end_create_rename_scan() {
    let mut sm = StateMachine::new();
    let t1 = TenantId(100);
    let create = LogEntry::CreateDatabase {
        tenant: t1,
        name: String::from("alpha"),
        id: 1,
    };
    assert_eq!(sm.apply(&create), Ok(()));
    let rename = LogEntry::RenameDatabase {
        tenant: t1,
        name: String::from("alpha"),
        new_name: String::from("beta"),
    };
    assert_eq!(sm.apply(&rename), Ok(()));
    let entries = sm.index.scan_prefix(t1).unwrap();
    assert_eq!(entries, vec![(String::from("beta"), DatabaseLookupValue(1))]);
    assert_eq!(sm.index.get(t1, "alpha"), Ok(None));
    assert_eq!(sm.state, ApplyState::Idle);
}

#[test]
fn end_to_end_two_tenants_same_name() {
    let mut sm = StateMachine::new();
    let t1 = TenantId(1);
    let t2 = TenantId(2);
    assert_eq!(
        sm.apply(&LogEntry::CreateDatabase {
            tenant: t1,
            name: String::from("shared"),
            id: 7,
        }),
        Ok(())
    );
    assert_eq!(
        sm.apply(&LogEntry::CreateDatabase {
            tenant: t2,
            name: String::from("shared"),
            id: 8,
        }),
        Ok(())
    );
    let s1 = sm.index.scan_prefix(t1).unwrap();
    assert_eq!(s1, vec![(String::from("shared"), DatabaseLookupValue(7))]);
    let s2 = sm.index.scan_prefix(t2).unwrap();
    assert_eq!(s2, vec![(String::from("shared"), DatabaseLookupValue(8))]);
}

#[test]
fn apply_error_taxonomy() {
    let mut sm = StateMachine::new();
    let t = TenantId(5);
    let create = LogEntry::CreateDatabase {
        tenant: t,
        name: String::from("db"),
        id: 1,
    };
    assert_eq!(sm.apply(&create), Ok(()));
    // creating the same name again fails, state unchanged
    assert_eq!(sm.apply(&create), Err(ApplyError::DatabaseAlreadyExists));
    assert_eq!(sm.state, ApplyState::Idle);
    // dropping an unknown name fails
    assert_eq!(
        sm.apply(&LogEntry::DropDatabase {
            tenant: t,
            name: String::from("ghost"),
        }),
        Err(ApplyError::UnknownDatabase)
    );
    // renaming an unknown name fails
    assert_eq!(
        sm.apply(&LogEntry::RenameDatabase {
            tenant: t,
            name: String::from("ghost"),
            new_name: String::from("db2"),
        }),
        Err(ApplyError::UnknownDatabase)
    );
    // renaming onto an existing name fails
    assert_eq!(sm.apply(&LogEntry::CreateDatabase {
        tenant: t,
        name: String::from("db2"),
        id: 2,
    }), Ok(()));
    assert_eq!(
        sm.apply(&LogEntry::RenameDatabase {
            tenant: t,
            name: String::from("db"),
            new_name: String::from("db2"),
        }),
        Err(ApplyError::DatabaseAlreadyExists)
    );
    // the failed entries left both bindings as they were
    assert_eq!(sm.index.get(t, "db"), Ok(Some(DatabaseLookupValue(1))));
    assert_eq!(sm.index.get(t, "db2"), Ok(Some(DatabaseLookupValue(2))));
}

#[test]
fn damaged_store_faults_the_replica() {
    let mut sm = StateMachine::new();
    let t = TenantId(6);
    let kb = encode_key_bytes(t, "broken");
    sm.index.store.put(&kb, vec![0xAB]);
    let drop = LogEntry::DropDatabase {
        tenant: t,
        name: String::from("broken"),
    };
    assert_eq!(sm.apply(&drop), Err(ApplyError::StoreDamaged));
    assert_eq!(sm.state, ApplyState::Faulted);
    // a faulted replica refuses every later entry and changes nothing
    let create = LogEntry::CreateDatabase {
        tenant: t,
        name: String::from("fresh"),
        id: 9,
    };
    assert_eq!(sm.apply(&create), Err(ApplyError::ReplicaFaulted));
    assert_eq!(sm.state, ApplyState::Faulted);
}
