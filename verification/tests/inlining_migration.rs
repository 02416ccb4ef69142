use shard_state::column::{Column, Entry};
use shard_state::flat_state_value::{FlatStateValue, INLINE_DISK_VALUE_THRESHOLD};
use shard_state::flat_storage_manager::FlatStorageManager;
use shard_state::hash::{hash, ValueHash};
use shard_state::inlining_migration::{commit_batch, inline_flat_state_values, scan_batch, KeyRange};
use shard_state::migration_stats::{log_skipped, MigrationStats};
use shard_state::shard_uid::{encode_flat_state_db_key, get_key_from_shard_uid_and_hash, ShardUid};
use shard_state::state_value_reader::{read_value, ReadValueRequest, StateValueReader};
use shard_state::store::{DBCol, Store};

const SHARD: ShardUid = ShardUid { version: 0, shard_id: 0 };

fn decoded(entries: Vec<Entry>) -> Vec<FlatStateValue> {
    entries.iter().map(|entry| FlatStateValue::decode(&entry.value).unwrap()).collect()
}

fn values_of(entries: Vec<Entry>) -> Vec<Vec<u8>> {
    entries.into_iter().map(|entry| entry.value).collect()
}

/// Stores each value in the trie store and a reference to it in flat state,
/// under the trie keys `[0]`, `[1]`, and so on.
fn seeded(values: &[Vec<u8>]) -> Store {
    let mut store = Store::new();
    let mut store_update = store.store_update();
    for (i, value) in values.iter().enumerate() {
        let trie_key = get_key_from_shard_uid_and_hash(SHARD, &hash(value));
        store_update.increment_refcount(DBCol::State, &trie_key, value);
        let fs_key = encode_flat_state_db_key(SHARD, &[i as u8]);
        let fs_value = FlatStateValue::value_ref(value).encode().unwrap();
        store_update.set(DBCol::FlatState, &fs_key, &fs_value);
    }
    store_update.commit(&mut store);
    store
}

fn six_values() -> [Vec<u8>; 6] {
    [vec![0], vec![1], vec![2; INLINE_DISK_VALUE_THRESHOLD + 1], vec![3], vec![4], vec![5]]
}

#[test]
fn full_migration() {
    let mut store = Store::new();
    let shard_uid = ShardUid { version: 0, shard_id: 0 };
    let values =
        [vec![0], vec![1], vec![2; INLINE_DISK_VALUE_THRESHOLD + 1], vec![3], vec![4], vec![5]];
    {
        let mut store_update = store.store_update();
        for (i, value) in values.iter().enumerate() {
            let trie_key = get_key_from_shard_uid_and_hash(shard_uid, &hash(&value));
            store_update.increment_refcount(DBCol::State, &trie_key, &value);
            let fs_key = encode_flat_state_db_key(shard_uid, &[i as u8]);
            let fs_value = FlatStateValue::value_ref(&value).encode().unwrap();
            store_update.set(DBCol::FlatState, &fs_key, &fs_value);
        }
        store_update.commit(&mut store);
    }
    inline_flat_state_values(&mut store, &mut FlatStorageManager::new(), 2, 4);
    assert_eq!(
        decoded(store.iter(DBCol::FlatState)),
        vec![
            FlatStateValue::inlined(&values[0]),
            FlatStateValue::inlined(&values[1]),
            FlatStateValue::value_ref(&values[2]),
            FlatStateValue::inlined(&values[3]),
            FlatStateValue::inlined(&values[4]),
            FlatStateValue::inlined(&values[5]),
        ]
    );
}

#[test]
fn full_migration_counts() {
    let mut store = seeded(&six_values());
    let mut manager = FlatStorageManager::new();
    let stats = inline_flat_state_values(&mut store, &mut manager, 2, 4);
    assert_eq!(
        stats,
        MigrationStats {
            processed_count: 6,
            processed_total_values_size: 5 + INLINE_DISK_VALUE_THRESHOLD as u64 + 1,
            inlined_count: 5,
            inlined_total_values_size: 5,
            skipped_count: 0,
            paused_count: 2,
        }
    );
    assert!(manager.flat_state_updates_enabled());
}

#[test]
fn migration_keeps_keys_and_other_columns() {
    let mut store = seeded(&six_values());
    let keys_before: Vec<Vec<u8>> =
        store.iter(DBCol::FlatState).into_iter().map(|entry| entry.key).collect();
    let state_before = store.iter(DBCol::State);
    inline_flat_state_values(&mut store, &mut FlatStorageManager::new(), 1, 4);
    let keys_after: Vec<Vec<u8>> =
        store.iter(DBCol::FlatState).into_iter().map(|entry| entry.key).collect();
    assert_eq!(keys_after, keys_before);
    assert_eq!(store.iter(DBCol::State), state_before);
    assert_eq!(store.iter(DBCol::StateParts), vec![]);
    assert_eq!(store.iter(DBCol::StateSyncDumpProgress), vec![]);
}

#[test]
fn value_at_the_threshold_is_inlined() {
    let values = [
        vec![1u8; INLINE_DISK_VALUE_THRESHOLD],
        vec![2u8; INLINE_DISK_VALUE_THRESHOLD + 1],
        vec![],
    ];
    let mut store = seeded(&values);
    let stats = inline_flat_state_values(&mut store, &mut FlatStorageManager::new(), 3, 10);
    assert_eq!(
        decoded(store.iter(DBCol::FlatState)),
        vec![
            FlatStateValue::inlined(&values[0]),
            FlatStateValue::value_ref(&values[1]),
            FlatStateValue::inlined(&values[2]),
        ]
    );
    assert_eq!(stats.inlined_count, 2);
    assert_eq!(stats.inlined_total_values_size, INLINE_DISK_VALUE_THRESHOLD as u64);
}

#[test]
fn outcome_does_not_depend_on_batches_or_threads() {
    let mut expected = seeded(&six_values());
    inline_flat_state_values(&mut expected, &mut FlatStorageManager::new(), 2, 4);
    for batch_size in [1usize, 2, 3, 5, 6, 7, 1000] {
        for threads in [0usize, 1, 8] {
            let mut store = seeded(&six_values());
            let stats =
                inline_flat_state_values(&mut store, &mut FlatStorageManager::new(), threads, batch_size);
            assert_eq!(store.iter(DBCol::FlatState), expected.iter(DBCol::FlatState));
            assert_eq!(stats.processed_count, 6);
            assert_eq!(stats.inlined_count, 5);
            let batches = (6 + batch_size - 1) / batch_size;
            let only_the_large_value = if batch_size == 1 { 1 } else { 0 };
            assert_eq!(stats.paused_count, (batches - only_the_large_value) as u64);
        }
    }
}

#[test]
fn empty_store_migrates_to_itself() {
    let mut store = Store::new();
    let mut manager = FlatStorageManager::new();
    manager.set_flat_state_updates_mode(false);
    let stats = inline_flat_state_values(&mut store, &mut manager, 2, 4);
    assert_eq!(stats, MigrationStats::new());
    assert_eq!(store.iter(DBCol::FlatState), vec![]);
    assert!(!manager.flat_state_updates_enabled());
}

#[test]
fn missing_backing_bytes() {
    let mut store = Store::new();
    let key = encode_flat_state_db_key(SHARD, &[1]);
    let value = FlatStateValue::value_ref(&[1, 2, 3]).encode().unwrap();
    let mut store_update = store.store_update();
    store_update.set(DBCol::FlatState, &key, &value);
    store_update.commit(&mut store);
    let mut manager = FlatStorageManager::new();
    manager.set_flat_state_updates_mode(false);
    let stats = inline_flat_state_values(&mut store, &mut manager, 2, 4);
    assert_eq!(decoded(store.iter(DBCol::FlatState)), vec![FlatStateValue::value_ref(&[1, 2, 3])]);
    assert!(stats.skipped_count >= 1);
    assert_eq!(
        stats,
        MigrationStats {
            processed_count: 1,
            processed_total_values_size: 3,
            inlined_count: 0,
            inlined_total_values_size: 3,
            skipped_count: 1,
            paused_count: 0,
        }
    );
    assert!(!manager.flat_state_updates_enabled());
}

#[test]
fn undecodable_entries_are_skipped() {
    let mut store = seeded(&[vec![7u8, 7]]);
    let mut store_update = store.store_update();
    store_update.set(DBCol::FlatState, &[0, 0, 1], &FlatStateValue::value_ref(&[7, 7]).encode().unwrap());
    store_update.set(DBCol::FlatState, &encode_flat_state_db_key(SHARD, &[9]), &[5, 5, 5]);
    store_update.set(DBCol::FlatState, &encode_flat_state_db_key(SHARD, &[10]), &[]);
    store_update.commit(&mut store);
    let before = store.iter(DBCol::FlatState);
    let stats = inline_flat_state_values(&mut store, &mut FlatStorageManager::new(), 2, 10);
    let after = store.iter(DBCol::FlatState);
    assert_eq!(after.len(), 4);
    assert_eq!(after[0].value, FlatStateValue::inlined(&[7, 7]).encode().unwrap());
    assert_eq!(after[1], before[1]);
    assert_eq!(after[2], before[2]);
    assert_eq!(after[3], before[3]);
    assert_eq!(after[3].key, vec![0, 0, 1]);
    assert_eq!(
        stats,
        MigrationStats {
            processed_count: 4,
            processed_total_values_size: 2,
            inlined_count: 1,
            inlined_total_values_size: 2,
            skipped_count: 3,
            paused_count: 1,
        }
    );
}

#[test]
fn second_migration_changes_nothing() {
    let mut values = six_values().to_vec();
    values.push(vec![6; 100]);
    let mut store = seeded(&values);
    let mut store_update = store.store_update();
    let lost = FlatStateValue::value_ref(&[42]).encode().unwrap();
    store_update.set(DBCol::FlatState, &encode_flat_state_db_key(SHARD, &[200]), &lost);
    store_update.set(DBCol::FlatState, &encode_flat_state_db_key(SHARD, &[201]), &[3]);
    store_update.commit(&mut store);
    let first = inline_flat_state_values(&mut store, &mut FlatStorageManager::new(), 2, 4);
    let once = store.iter(DBCol::FlatState);
    let second = inline_flat_state_values(&mut store, &mut FlatStorageManager::new(), 2, 4);
    assert_eq!(store.iter(DBCol::FlatState), once);
    assert_eq!(first.inlined_count, 6);
    assert_eq!(second.inlined_count, 0);
    assert_eq!(second.processed_count, first.processed_count);
    assert_eq!(second.skipped_count, 2);
}

#[test]
fn log_skipped_counts_one() {
    let mut stats = MigrationStats::new();
    log_skipped(&mut stats);
    log_skipped(&mut stats);
    assert_eq!(stats.skipped_count, 2);
    assert_eq!(stats.processed_count, 0);
    stats.skipped_count = u64::MAX;
    log_skipped(&mut stats);
    assert_eq!(stats.skipped_count, u64::MAX);
}

#[test]
fn reader_answers_by_digest() {
    let store = seeded(&[vec![1], vec![2]]);
    let mut stats = MigrationStats::new();
    let mut reader = StateValueReader::new(3);
    assert_eq!(reader.num_threads(), 3);
    reader.submit(SHARD, hash(&[1]));
    reader.submit(SHARD, hash(&[3]));
    reader.submit(SHARD, hash(&[1]));
    reader.submit(ShardUid { version: 0, shard_id: 1 }, hash(&[2]));
    reader.submit(SHARD, hash(&[2]));
    assert_eq!(reader.pending_requests(), 5);
    let values = reader.receive_all(&store, &mut stats);
    assert_eq!(reader.pending_requests(), 0);
    assert_eq!(values.len(), 2);
    assert_eq!(values.get(hash(&[1]).as_bytes()), Some(vec![1]));
    assert_eq!(values.get(hash(&[2]).as_bytes()), Some(vec![2]));
    assert_eq!(values.get(hash(&[3]).as_bytes()), None);
    assert_eq!(stats.skipped_count, 2);
    let again = reader.receive_all(&store, &mut stats);
    assert_eq!(again.len(), 0);
    assert_eq!(stats.skipped_count, 2);
    reader.close();
}

#[test]
fn read_value_answers_one_request() {
    let store = seeded(&[vec![1, 1]]);
    let mut stats = MigrationStats::new();
    let found = read_value(
        &store,
        &ReadValueRequest { shard_uid: SHARD, value_hash: hash(&[1, 1]) },
        &mut stats,
    );
    assert_eq!(found.value_hash, hash(&[1, 1]));
    assert_eq!(found.value_bytes, Some(vec![1, 1]));
    assert_eq!(stats.skipped_count, 0);
    let lost = read_value(
        &store,
        &ReadValueRequest { shard_uid: SHARD, value_hash: ValueHash([0; 32]) },
        &mut stats,
    );
    assert_eq!(lost.value_hash, ValueHash([0; 32]));
    assert_eq!(lost.value_bytes, None);
    assert_eq!(stats.skipped_count, 1);
}

#[test]
fn scan_selects_small_references() {
    let store = seeded(&six_values());
    let batch = store.iter(DBCol::FlatState);
    let mut reader = StateValueReader::new(1);
    let mut stats = MigrationStats::new();
    let range = scan_batch(&batch, &mut reader, &mut stats);
    assert_eq!(reader.pending_requests(), 5);
    assert_eq!(range.min_key, Some(encode_flat_state_db_key(SHARD, &[0])));
    assert_eq!(range.max_key, Some(encode_flat_state_db_key(SHARD, &[5])));
    assert_eq!(stats.processed_count, 6);
    assert_eq!(stats.inlined_total_values_size, 5);
    let only_large = vec![batch[2].clone()];
    let mut reader = StateValueReader::new(1);
    let range = scan_batch(&only_large, &mut reader, &mut stats);
    assert_eq!(reader.pending_requests(), 0);
    assert_eq!(range, KeyRange { min_key: None, max_key: None });
}

/// Scans and reads as the migration does, lets `writes` change the store as
/// block processing would, and commits.
fn migrate_with_writes_between(store: &mut Store, writes: &[(Vec<u8>, Option<Vec<u8>>)]) -> usize {
    let batch = store.iter(DBCol::FlatState);
    let mut reader = StateValueReader::new(2);
    let mut stats = MigrationStats::new();
    let range = scan_batch(&batch, &mut reader, &mut stats);
    let values = reader.receive_all(store, &mut stats);
    let mut store_update = store.store_update();
    for (key, value) in writes {
        match value {
            Some(value) => store_update.set(DBCol::FlatState, key, value),
            None => store_update.delete(DBCol::FlatState, key),
        }
    }
    store_update.commit(store);
    let mut manager = FlatStorageManager::new();
    let count = commit_batch(store, &mut manager, &range, &values, &mut stats);
    assert!(manager.flat_state_updates_enabled());
    assert_eq!(stats.inlined_count, count as u64);
    assert_eq!(stats.paused_count, 1);
    count
}

#[test]
fn commit_respects_what_was_written_since_the_scan() {
    let values = [vec![0u8], vec![1], vec![2], vec![3], vec![4]];
    let mut store = seeded(&values);
    let key = |i: u8| encode_flat_state_db_key(SHARD, &[i]);
    let fresh_inlined = FlatStateValue::inlined(&[77]).encode().unwrap();
    let fresh_ref = FlatStateValue::value_ref(&[88, 88]).encode().unwrap();
    let same_ref = FlatStateValue::value_ref(&[4]).encode().unwrap();
    let count = migrate_with_writes_between(
        &mut store,
        &[
            (key(0), Some(fresh_inlined.clone())),
            (key(1), Some(fresh_ref.clone())),
            (key(2), None),
            (key(3), Some(vec![9, 9])),
            (vec![0, 0, 0, 0, 0, 0, 0, 0, 3, 1], Some(same_ref)),
            (key(9), Some(FlatStateValue::value_ref(&[0]).encode().unwrap())),
        ],
    );
    assert_eq!(
        values_of(store.iter(DBCol::FlatState)),
        vec![
            fresh_inlined,
            fresh_ref,
            vec![9, 9],
            FlatStateValue::inlined(&[4]).encode().unwrap(),
            FlatStateValue::inlined(&[4]).encode().unwrap(),
            FlatStateValue::value_ref(&[0]).encode().unwrap(),
        ]
    );
    assert_eq!(count, 2);
}

#[test]
fn commit_with_nothing_read_does_nothing() {
    let mut store = seeded(&[vec![1u8]]);
    let before = store.iter(DBCol::FlatState);
    let mut manager = FlatStorageManager::new();
    manager.set_flat_state_updates_mode(false);
    let mut stats = MigrationStats::new();
    let range = KeyRange { min_key: None, max_key: None };
    let count = commit_batch(&mut store, &mut manager, &range, &Column::new(), &mut stats);
    assert_eq!(count, 0);
    assert_eq!(store.iter(DBCol::FlatState), before);
    assert!(!manager.flat_state_updates_enabled());
    assert_eq!(stats, MigrationStats::new());
}

#[test]
fn commit_looks_between_the_keys_only() {
    let values = [vec![0u8], vec![1], vec![2], vec![3]];
    let mut store = seeded(&values);
    let mut resolved = Column::new();
    for value in &values {
        resolved.set(hash(value).as_bytes(), value);
    }
    let range = KeyRange {
        min_key: Some(encode_flat_state_db_key(SHARD, &[1])),
        max_key: Some(encode_flat_state_db_key(SHARD, &[2])),
    };
    let mut manager = FlatStorageManager::new();
    manager.set_flat_state_updates_mode(false);
    let mut stats = MigrationStats::new();
    let count = commit_batch(&mut store, &mut manager, &range, &resolved, &mut stats);
    assert_eq!(count, 2);
    assert!(manager.flat_state_updates_enabled());
    assert_eq!(
        decoded(store.iter(DBCol::FlatState)),
        vec![
            FlatStateValue::value_ref(&values[0]),
            FlatStateValue::inlined(&values[1]),
            FlatStateValue::inlined(&values[2]),
            FlatStateValue::value_ref(&values[3]),
        ]
    );
}

#[test]
fn commit_rewrites_every_reference_in_the_range() {
    let other = ShardUid { version: 1, shard_id: 0 };
    let mut store = seeded(&[vec![1u8]]);
    let mut store_update = store.store_update();
    let reference = FlatStateValue::value_ref(&[1]).encode().unwrap();
    let large = FlatStateValue::Ref { hash: hash(&[1]), length: u32::MAX }.encode().unwrap();
    store_update.set(DBCol::FlatState, &[0, 0, 0, 0, 5], &reference);
    store_update.set(DBCol::FlatState, &[0, 0, 0, 0, 6], &large);
    let trie_key = get_key_from_shard_uid_and_hash(other, &hash(&[2]));
    store_update.increment_refcount(DBCol::State, &trie_key, &[2]);
    store_update.set(
        DBCol::FlatState,
        &encode_flat_state_db_key(other, &[0]),
        &FlatStateValue::value_ref(&[2]).encode().unwrap(),
    );
    store_update.set(DBCol::FlatState, &encode_flat_state_db_key(other, &[1]), &reference);
    store_update.commit(&mut store);
    let stats = inline_flat_state_values(&mut store, &mut FlatStorageManager::new(), 2, 10);
    assert_eq!(
        decoded(store.iter(DBCol::FlatState)),
        vec![
            FlatStateValue::inlined(&[1]),
            FlatStateValue::inlined(&[1]),
            FlatStateValue::inlined(&[1]),
            FlatStateValue::inlined(&[2]),
            FlatStateValue::inlined(&[1]),
        ]
    );
    assert_eq!(stats.processed_count, 5);
    assert_eq!(stats.inlined_count, 5);
    assert_eq!(stats.skipped_count, 3);
}
