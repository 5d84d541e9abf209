use frame_storage::hashing::twox_128;
use frame_storage::key::item_prefix;
use frame_storage::map::StorageMap;
use frame_storage::hashing::Hasher;
use frame_storage::query::QueryKind;
use frame_storage::store::MemoryStore;
use frame_storage::version::{
    check_version, initialize_version, legacy_key, migrate_legacy_version, migrate_legacy_versions,
    on_chain_version, run_upgrade, set_version, version_exists, version_key, Migration,
    RemoveStorage, UpgradeError, VersionCheckError,
};

fn remove_item(name: &[u8], from: u16, to: u16) -> RemoveStorage {
    RemoveStorage { module: b"Example".to_vec(), name: name.to_vec(), from, to, write_weight: 3 }
}

#[test]
fn version_keys_use_the_module_prefix() {
    assert_eq!(version_key(b"Example"), item_prefix(b"Example", b":__STORAGE_VERSION__:"));
    assert_eq!(legacy_key(b"Example"), item_prefix(b"Example", b":__PALLET_VERSION__:"));
    assert_eq!(&version_key(b"Example")[..16], &twox_128(b"Example")[..]);
}

#[test]
fn absent_version_reads_as_zero() {
    let mut store = MemoryStore::new();
    assert_eq!(on_chain_version(&store, b"Example"), Some(0));
    assert!(!version_exists(&store, b"Example"));
    set_version(&mut store, b"Example", 4);
    assert_eq!(on_chain_version(&store, b"Example"), Some(4));
    assert_eq!(store.get(&version_key(b"Example")), Some(vec![4, 0]));
}

#[test]
fn migrate_from_pallet_version_to_storage_version() {
    let mut store = MemoryStore::new();
    for m in [&b"Example"[..], b"Example2", b"System"] {
        store.put(&legacy_key(m), &[1, 2, 3]);
        assert_eq!(on_chain_version(&store, m), Some(0));
    }
    assert_eq!(on_chain_version(&store, b"Example4"), Some(0));
    let modules = vec![
        (b"Example".to_vec(), 10u16),
        (b"Example2".to_vec(), 4u16),
        (b"System".to_vec(), 0u16),
        (b"Example4".to_vec(), 0u16),
    ];
    let weight = migrate_legacy_versions(&mut store, &modules, 5);
    assert_eq!(weight, 4 * 2 * 5);
    for (m, v) in &modules {
        assert!(store.get(&legacy_key(m)).is_none());
        assert_eq!(on_chain_version(&store, m), Some(*v));
        assert!(version_exists(&store, m));
    }
}

#[test]
fn legacy_marker_replaced_by_compiled_version() {
    let mut store = MemoryStore::new();
    store.put(&legacy_key(b"Example"), &[1, 0, 0, 0]);
    let w = migrate_legacy_version(&mut store, b"Example", 10, 7);
    assert_eq!(w, 14);
    assert_eq!(on_chain_version(&store, b"Example"), Some(10));
    assert!(!store.contains(&legacy_key(b"Example")));
    assert_eq!(migrate_legacy_version(&mut store, b"Example", 10, u64::MAX), u64::MAX);
}

#[test]
fn upgrade_runs_matching_migrations_then_records_version() {
    let mut store = MemoryStore::new();
    let old_item = StorageMap::<u8, u8, u8>::new(b"Example", b"Old", Hasher::Identity, QueryKind::OptionQuery);
    let kept = StorageMap::<u8, u8, u8>::new(b"Example", b"Kept", Hasher::Identity, QueryKind::OptionQuery);
    old_item.insert(&mut store, &1, &1);
    old_item.insert(&mut store, &2, &2);
    kept.insert(&mut store, &1, &1);
    set_version(&mut store, b"Example", 1);
    let migrations = vec![
        remove_item(b"Old", 1, 2),
        remove_item(b"Kept", 5, 6),
        remove_item(b"Kept", 2, 9),
    ];
    let r = run_upgrade(&mut store, b"Example", 3, &migrations);
    assert_eq!(r, Ok(6));
    assert!(!old_item.contains_key(&store, &1));
    assert!(!old_item.contains_key(&store, &2));
    assert!(kept.contains_key(&store, &1));
    assert_eq!(on_chain_version(&store, b"Example"), Some(3));
}

#[test]
fn upgrade_twice_changes_nothing_the_second_time() {
    let mut store = MemoryStore::new();
    let item = StorageMap::<u8, u8, u8>::new(b"Example", b"Old", Hasher::Identity, QueryKind::OptionQuery);
    item.insert(&mut store, &1, &1);
    let migrations = vec![remove_item(b"Old", 0, 1)];
    assert_eq!(run_upgrade(&mut store, b"Example", 1, &migrations), Ok(3));
    let after_first = store.iter_prefix(&[]);
    item.insert(&mut store, &1, &1);
    let snapshot = store.iter_prefix(&[]);
    assert_ne!(after_first, snapshot);
    assert_eq!(run_upgrade(&mut store, b"Example", 1, &migrations), Ok(0));
    assert_eq!(store.iter_prefix(&[]), snapshot);
    assert_eq!(on_chain_version(&store, b"Example"), Some(1));
}

#[test]
fn upgrade_refuses_a_downgrade() {
    let mut store = MemoryStore::new();
    set_version(&mut store, b"Example", 7);
    let migrations: Vec<RemoveStorage> = vec![];
    assert_eq!(
        run_upgrade(&mut store, b"Example", 5, &migrations),
        Err(UpgradeError::Downgrade { on_chain: 7, in_code: 5 })
    );
    assert_eq!(on_chain_version(&store, b"Example"), Some(7));
}

#[test]
fn upgrade_refuses_an_undecodable_record() {
    let mut store = MemoryStore::new();
    store.put(&version_key(b"Example"), &[1, 2, 3]);
    let migrations: Vec<RemoveStorage> = vec![];
    assert_eq!(run_upgrade(&mut store, b"Example", 5, &migrations), Err(UpgradeError::Undecodable));
    assert_eq!(check_version(&store, b"Example", Some(5)), Err(VersionCheckError::Undecodable));
}

#[test]
fn unversioned_module_upgrades_to_compiled_version() {
    let mut store = MemoryStore::new();
    store.put(&legacy_key(b"Example"), &[1, 2, 3]);
    let w = migrate_legacy_version(&mut store, b"Example", 10, 1);
    assert_eq!(w, 2);
    let migrations: Vec<RemoveStorage> = vec![];
    assert_eq!(run_upgrade(&mut store, b"Example", 10, &migrations), Ok(0));
    assert_eq!(on_chain_version(&store, b"Example"), Some(10));
    assert!(store.get(&legacy_key(b"Example")).is_none());
}

#[test]
fn pallet_on_chain_storage_version_initializes_correctly() {
    let mut store = MemoryStore::new();
    assert!(initialize_version(&mut store, b"Example", 10));
    assert_eq!(on_chain_version(&store, b"Example"), Some(10));

    let mut store = MemoryStore::new();
    assert_eq!(on_chain_version(&store, b"Example4"), Some(0));
    assert!(initialize_version(&mut store, b"Example4", 0));
    assert!(version_exists(&store, b"Example4"));
    assert_eq!(on_chain_version(&store, b"Example4"), Some(0));

    let mut store = MemoryStore::new();
    let item = StorageMap::<u8, u8, u8>::new(b"Example", b"Map", Hasher::Identity, QueryKind::OptionQuery);
    item.insert(&mut store, &1, &1);
    assert!(!initialize_version(&mut store, b"Example", 10));
    assert!(!version_exists(&store, b"Example"));
}

#[test]
fn post_runtime_upgrade_detects_storage_version_issues() {
    let mut store = MemoryStore::new();
    set_version(&mut store, b"Example2", 9);
    assert_eq!(
        check_version(&store, b"Example2", Some(10)),
        Err(VersionCheckError::Mismatch { on_chain: 9, in_code: 10 })
    );
    set_version(&mut store, b"Example2", 10);
    assert_eq!(check_version(&store, b"Example2", Some(10)), Ok(()));
    assert_eq!(check_version(&store, b"Example4", None), Ok(()));
    set_version(&mut store, b"Example4", 100);
    assert_eq!(check_version(&store, b"Example4", None), Err(VersionCheckError::UnexpectedVersion));
}

#[test]
fn remove_storage_migration_reports_versions_and_weight() {
    let mut store = MemoryStore::new();
    let item = StorageMap::<u8, u8, u8>::new(b"Example", b"Gone", Hasher::Identity, QueryKind::OptionQuery);
    item.insert(&mut store, &1, &1);
    item.insert(&mut store, &2, &1);
    let m = remove_item(b"Gone", 2, 3);
    assert_eq!(m.from_version(), 2);
    assert_eq!(m.to_version(), 3);
    assert_eq!(m.migrate(&mut store), 6);
    assert!(!item.contains_key(&store, &1));
    item.insert(&mut store, &1, &1);
    assert_eq!(m.remove_entries(&mut store), 1);
}

fn step(name: &[u8], from: u16, to: u16, write_weight: u64) -> RemoveStorage {
    RemoveStorage { module: b"Example".to_vec(), name: name.to_vec(), from, to, write_weight }
}

fn fill(store: &mut MemoryStore, name: &[u8]) -> StorageMap<u8, u8, u8> {
    let item = StorageMap::<u8, u8, u8>::new(b"Example", name, Hasher::Identity, QueryKind::OptionQuery);
    item.insert(store, &1, &1);
    item
}

#[test]
fn upgrade_follows_revision_chain_and_records_each_step() {
    let mut store = MemoryStore::new();
    set_version(&mut store, b"Example", 1);
    let a = fill(&mut store, b"A");
    let b = fill(&mut store, b"B");
    let c = fill(&mut store, b"C");
    let d = fill(&mut store, b"D");
    let e = fill(&mut store, b"E");
    let migrations = vec![
        step(b"A", 1, 2, 10),
        step(b"B", 1, 3, 100),
        step(b"C", 2, 4, u64::MAX),
        step(b"D", 4, 9, 1),
        step(b"E", 4, 5, 7),
    ];
    assert_eq!(run_upgrade(&mut store, b"Example", 5, &migrations), Ok(u64::MAX));
    assert!(!a.contains_key(&store, &1));
    assert!(b.contains_key(&store, &1));
    assert!(!c.contains_key(&store, &1));
    assert!(d.contains_key(&store, &1));
    assert!(!e.contains_key(&store, &1));
    assert_eq!(on_chain_version(&store, b"Example"), Some(5));
}

#[test]
fn upgrade_sums_reported_weights() {
    let mut store = MemoryStore::new();
    set_version(&mut store, b"Example", 1);
    fill(&mut store, b"A");
    fill(&mut store, b"B");
    let migrations = vec![step(b"A", 1, 2, 10), step(b"B", 2, 3, 7)];
    assert_eq!(run_upgrade(&mut store, b"Example", 3, &migrations), Ok(17));
}

#[test]
fn upgrade_records_target_even_when_no_migration_applies() {
    let mut store = MemoryStore::new();
    let x = fill(&mut store, b"X");
    let migrations = vec![step(b"X", 3, 4, 9)];
    assert_eq!(run_upgrade(&mut store, b"Example", 2, &migrations), Ok(0));
    assert!(x.contains_key(&store, &1));
    assert_eq!(on_chain_version(&store, b"Example"), Some(2));
}
