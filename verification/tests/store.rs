use shard_state::column::{Column, Entry};
use shard_state::hash::hash;
use shard_state::shard_uid::{get_key_from_shard_uid_and_hash, ShardUid};
use shard_state::store::{DBCol, StorageError, Store};

fn entry(key: &[u8], value: &[u8]) -> Entry {
    Entry { key: key.to_vec(), value: value.to_vec() }
}

#[test]
fn column_keeps_keys_in_order() {
    let mut column = Column::new();
    assert_eq!(column.len(), 0);
    column.set(&[2], &[20]);
    column.set(&[1, 5], &[15]);
    column.set(&[1], &[10]);
    column.set(&[3], &[30]);
    column.set(&[], &[0]);
    assert_eq!(
        column.iter(),
        vec![
            entry(&[], &[0]),
            entry(&[1], &[10]),
            entry(&[1, 5], &[15]),
            entry(&[2], &[20]),
            entry(&[3], &[30]),
        ]
    );
    assert_eq!(column.len(), 5);
    assert_eq!(column.get(&[1, 5]), Some(vec![15]));
    assert_eq!(column.get(&[1, 4]), None);
    assert_eq!(column.get(&[4]), None);
    assert_eq!(column.lower_bound(&[1, 5]), 2);
    assert_eq!(column.lower_bound(&[1, 6]), 3);
    assert_eq!(column.lower_bound(&[9]), 5);
}

#[test]
fn column_set_replaces_and_delete_removes() {
    let mut column = Column::new();
    column.set(&[1], &[10]);
    column.set(&[2], &[20]);
    column.set(&[1], &[11]);
    assert_eq!(column.iter(), vec![entry(&[1], &[11]), entry(&[2], &[20])]);
    column.delete(&[3]);
    assert_eq!(column.len(), 2);
    column.delete(&[1]);
    assert_eq!(column.iter(), vec![entry(&[2], &[20])]);
    column.delete(&[2]);
    assert_eq!(column.iter(), vec![]);
}

#[test]
fn column_range_has_lower_bound_and_not_upper() {
    let mut column = Column::new();
    for key in [1u8, 3, 5, 7, 9] {
        column.set(&[key], &[key * 2]);
    }
    assert_eq!(
        column.iter_range(Some(&[3]), Some(&[7])),
        vec![entry(&[3], &[6]), entry(&[5], &[10])]
    );
    assert_eq!(
        column.iter_range(Some(&[3]), Some(&[7, 0])),
        vec![entry(&[3], &[6]), entry(&[5], &[10]), entry(&[7], &[14])]
    );
    assert_eq!(column.iter_range(Some(&[4]), Some(&[5])), vec![]);
    assert_eq!(column.iter_range(Some(&[8]), Some(&[2])), vec![]);
    assert_eq!(column.iter_range(None, Some(&[3])), vec![entry(&[1], &[2])]);
    assert_eq!(column.iter_range(Some(&[9]), None), vec![entry(&[9], &[18])]);
    assert_eq!(column.iter_range(None, None), column.iter());
}

#[test]
fn batch_writes_nothing_before_commit() {
    let mut store = Store::new();
    let mut update = store.store_update();
    update.set(DBCol::FlatState, &[1], &[10]);
    update.set(DBCol::StateParts, &[2], &[20]);
    assert_eq!(update.len(), 2);
    assert_eq!(store.get(DBCol::FlatState, &[1]), None);
    update.commit(&mut store);
    assert_eq!(store.get(DBCol::FlatState, &[1]), Some(vec![10]));
    assert_eq!(store.get(DBCol::StateParts, &[2]), Some(vec![20]));
    assert_eq!(store.get(DBCol::State, &[1]), None);
    assert_eq!(store.iter(DBCol::StateSyncDumpProgress), vec![]);
}

#[test]
fn dropped_batch_writes_nothing() {
    let store = Store::new();
    {
        let mut update = store.store_update();
        update.set(DBCol::FlatState, &[1], &[10]);
    }
    assert_eq!(store.iter(DBCol::FlatState), vec![]);
}

#[test]
fn batch_is_applied_in_order() {
    let mut store = Store::new();
    let mut update = store.store_update();
    update.set(DBCol::FlatState, &[1], &[10]);
    update.set(DBCol::FlatState, &[1], &[11]);
    update.set(DBCol::FlatState, &[2], &[20]);
    update.delete(DBCol::FlatState, &[2]);
    update.delete(DBCol::FlatState, &[3]);
    update.set(DBCol::FlatState, &[3], &[30]);
    update.commit(&mut store);
    assert_eq!(
        store.iter(DBCol::FlatState),
        vec![entry(&[1], &[11]), entry(&[3], &[30])]
    );
    assert_eq!(
        store.iter_range(DBCol::FlatState, Some(&[2]), None),
        vec![entry(&[3], &[30])]
    );
}

#[test]
fn references_are_counted() {
    let mut store = Store::new();
    let uid = ShardUid { version: 0, shard_id: 0 };
    let value = vec![1u8, 2, 3];
    let digest = hash(&value);
    let key = get_key_from_shard_uid_and_hash(uid, &digest);
    assert_eq!(store.retrieve_raw_bytes(uid, &digest), Err(StorageError::MissingTrieValue));
    let mut update = store.store_update();
    update.increment_refcount(DBCol::State, &key, &value);
    update.commit(&mut store);
    assert_eq!(store.get(DBCol::State, &key), Some(vec![1, 2, 3, 1, 0, 0, 0, 0, 0, 0, 0]));
    assert_eq!(store.retrieve_raw_bytes(uid, &digest), Ok(value.clone()));
    let mut update = store.store_update();
    update.increment_refcount(DBCol::State, &key, &value);
    update.increment_refcount(DBCol::State, &key, &value);
    update.commit(&mut store);
    assert_eq!(store.get(DBCol::State, &key), Some(vec![1, 2, 3, 3, 0, 0, 0, 0, 0, 0, 0]));
    assert_eq!(store.retrieve_raw_bytes(uid, &digest), Ok(value));
    let other = ShardUid { version: 0, shard_id: 1 };
    assert_eq!(store.retrieve_raw_bytes(other, &digest), Err(StorageError::MissingTrieValue));
}

#[test]
fn trie_values_without_a_count_are_not_read() {
    let mut store = Store::new();
    let uid = ShardUid { version: 1, shard_id: 2 };
    let digest = hash(&[9]);
    let key = get_key_from_shard_uid_and_hash(uid, &digest);
    let mut update = store.store_update();
    update.set(DBCol::State, &key, &[9, 9, 9]);
    update.commit(&mut store);
    assert_eq!(store.retrieve_raw_bytes(uid, &digest), Err(StorageError::MalformedValue));
    let mut update = store.store_update();
    update.set(DBCol::State, &key, &[9, 0, 0, 0, 0, 0, 0, 0, 0]);
    update.commit(&mut store);
    assert_eq!(store.retrieve_raw_bytes(uid, &digest), Err(StorageError::MissingTrieValue));
    let mut update = store.store_update();
    update.increment_refcount(DBCol::State, &key, &[7]);
    update.commit(&mut store);
    assert_eq!(store.retrieve_raw_bytes(uid, &digest), Ok(vec![7]));
    let mut update = store.store_update();
    update.set(DBCol::State, &key, &[9, 255, 255, 255, 255, 255, 255, 255, 255]);
    update.increment_refcount(DBCol::State, &key, &[7]);
    update.commit(&mut store);
    assert_eq!(
        store.get(DBCol::State, &key),
        Some(vec![9, 255, 255, 255, 255, 255, 255, 255, 255])
    );
}
