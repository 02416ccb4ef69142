//! The key-value store: four ordered columns, write batches that are applied
//! as a whole, and reference-counted values.

use crate::bytes::{
    copy_bytes, copy_range, get_u64_le, lemma_u64_le_round_trip, put_u64_le, u64_from_le, u64_le,
};
use crate::column::{
    lemma_rows_delete, lemma_rows_set, lookup, option_view, range_rows, rows_delete, rows_of,
    rows_set, sorted, Column, Entry, Rows,
};
use crate::hash::ValueHash;
use crate::shard_uid::{get_key_from_shard_uid_and_hash, trie_store_key, ShardUid};
use vstd::prelude::*;

verus! {

/// The columns of the store.
#[derive(Clone, Copy, Debug, PartialEq, Eq, Hash, Structural)]
pub enum DBCol {
    /// Flat state: key to encoded flat-state value.
    FlatState,
    /// The trie store: shard and digest to value, reference-counted.
    State,
    /// Obtained state parts.
    StateParts,
    /// Progress of the state dump, per shard.
    StateSyncDumpProgress,
}

/// Number of bytes of the count that follows a reference-counted value.
pub const REFCOUNT_LEN: usize = 8;

/// What a store holds: the rows of each column.
pub struct StoreRows {
    pub flat_state: Rows,
    pub state: Rows,
    pub state_parts: Rows,
    pub dump_progress: Rows,
}

impl StoreRows {
    /// The rows of one column.
    pub open spec fn column(self, col: DBCol) -> Rows {
        match col {
            DBCol::FlatState => self.flat_state,
            DBCol::State => self.state,
            DBCol::StateParts => self.state_parts,
            DBCol::StateSyncDumpProgress => self.dump_progress,
        }
    }

    /// The same store with other rows in one column.
    pub open spec fn with_column(self, col: DBCol, rows: Rows) -> StoreRows {
        match col {
            DBCol::FlatState => StoreRows { flat_state: rows, ..self },
            DBCol::State => StoreRows { state: rows, ..self },
            DBCol::StateParts => StoreRows { state_parts: rows, ..self },
            DBCol::StateSyncDumpProgress => StoreRows { dump_progress: rows, ..self },
        }
    }

    /// Whether the keys of every column strictly increase.
    pub open spec fn wf(self) -> bool {
        &&& sorted(self.flat_state)
        &&& sorted(self.state)
        &&& sorted(self.state_parts)
        &&& sorted(self.dump_progress)
    }

    /// The store after one write.
    pub open spec fn apply(self, op: OpView) -> StoreRows {
        match op {
            OpView::Put { col, key, value } => self.with_column(
                col,
                rows_set(self.column(col), key, value),
            ),
            OpView::IncrementRefcount { col, key, value } => self.with_column(
                col,
                rows_increment(self.column(col), key, value),
            ),
            OpView::Delete { col, key } => self.with_column(col, rows_delete(self.column(col), key)),
        }
    }

    /// The store after the writes of a batch, in the order in which they
    /// were added.
    pub open spec fn apply_all(self, ops: Seq<OpView>) -> StoreRows
        decreases ops.len(),
    {
        if ops.len() == 0 {
            self
        } else {
            self.apply_all(ops.drop_last()).apply(ops.last())
        }
    }

    /// The value that the trie store holds for shard `shard_uid` under
    /// digest `hash`: what is stored there with a count above zero.
    pub open spec fn trie_value(self, shard_uid: ShardUid, hash: Seq<u8>) -> Option<Seq<u8>> {
        match lookup(self.state, trie_store_key(shard_uid, hash)) {
            Some(stored) => match refcounted(stored) {
                Some((value, count)) => if count > 0 {
                    Some(value)
                } else {
                    None
                },
                None => None,
            },
            None => None,
        }
    }
}

/// A reference-counted value as it is stored: the value, then its count as
/// eight little-endian bytes.
pub open spec fn with_refcount(value: Seq<u8>, count: u64) -> Seq<u8> {
    value + u64_le(count)
}

/// The value and the count that stored bytes hold, if they are long enough
/// to hold a count.
pub open spec fn refcounted(stored: Seq<u8>) -> Option<(Seq<u8>, u64)> {
    if stored.len() < REFCOUNT_LEN {
        None
    } else {
        Some(
            (
                stored.subrange(0, stored.len() - REFCOUNT_LEN),
                u64_from_le(stored.skip(stored.len() - REFCOUNT_LEN)) as u64,
            ),
        )
    }
}

/// A stored value with its count is taken apart into the same two.
pub proof fn lemma_refcount_round_trip(value: Seq<u8>, count: u64)
    ensures
        refcounted(with_refcount(value, count)) == Some((value, count)),
{
    lemma_u64_le_round_trip(count);
    let stored = with_refcount(value, count);
    assert(stored.skip(stored.len() - REFCOUNT_LEN).subrange(0, 8) =~= u64_le(count));
}

/// The count after one more reference; it stays at the largest count.
pub open spec fn next_count(count: u64) -> u64 {
    if count < u64::MAX {
        (count + 1) as u64
    } else {
        count
    }
}

/// The rows after one more reference to `value` under `key`: a counted
/// value gets its count raised, anything else is replaced by `value` with
/// count one.
pub open spec fn rows_increment(rows: Rows, key: Seq<u8>, value: Seq<u8>) -> Rows {
    rows_set(rows, key, incremented(lookup(rows, key), value))
}

/// What is stored after one more reference to `value`, where `stored` was
/// there before.
pub open spec fn incremented(stored: Option<Seq<u8>>, value: Seq<u8>) -> Seq<u8> {
    match stored {
        Some(bytes) => match refcounted(bytes) {
            Some((held, count)) => if count > 0 {
                with_refcount(held, next_count(count))
            } else {
                with_refcount(value, 1)
            },
            None => with_refcount(value, 1),
        },
        None => with_refcount(value, 1),
    }
}

/// One write of a batch.
#[derive(Clone, Debug, PartialEq, Eq)]
pub enum StoreOp {
    /// Store `value` under `key`.
    Put { col: DBCol, key: Vec<u8>, value: Vec<u8> },
    /// Count one more reference to `value` under `key`.
    IncrementRefcount { col: DBCol, key: Vec<u8>, value: Vec<u8> },
    /// Remove `key`.
    Delete { col: DBCol, key: Vec<u8> },
}

/// What a `StoreOp` stands for.
pub enum OpView {
    Put { col: DBCol, key: Seq<u8>, value: Seq<u8> },
    IncrementRefcount { col: DBCol, key: Seq<u8>, value: Seq<u8> },
    Delete { col: DBCol, key: Seq<u8> },
}

impl View for StoreOp {
    type V = OpView;

    open spec fn view(&self) -> OpView {
        match self {
            StoreOp::Put { col, key, value } => OpView::Put { col: *col, key: key@, value: value@ },
            StoreOp::IncrementRefcount { col, key, value } => OpView::IncrementRefcount {
                col: *col,
                key: key@,
                value: value@,
            },
            StoreOp::Delete { col, key } => OpView::Delete { col: *col, key: key@ },
        }
    }
}

/// Why a value could not be read from the trie store.
#[derive(Clone, Copy, Debug, PartialEq, Eq)]
pub enum StorageError {
    /// Nothing is stored under the digest, or its count is zero.
    MissingTrieValue,
    /// What is stored under the digest is too short to hold a count.
    MalformedValue,
}

/// A batch of writes. Nothing is written until the batch is committed; a
/// batch that is dropped writes nothing.
pub struct StoreUpdate {
    ops: Vec<StoreOp>,
}

impl View for StoreUpdate {
    type V = Seq<OpView>;

    closed spec fn view(&self) -> Seq<OpView> {
        self.ops@.map_values(|op: StoreOp| op@)
    }
}

impl StoreUpdate {
    /// Adds: store `value` under `key` in column `col`.
    pub fn set(&mut self, col: DBCol, key: &[u8], value: &[u8])
        ensures
            final(self)@ == old(self)@.push(OpView::Put { col, key: key@, value: value@ }),
    {
        let op = StoreOp::Put { col, key: copy_bytes(key), value: copy_bytes(value) };
        self.ops.push(op);
    }

    /// Adds: count one more reference to `value` under `key` in column
    /// `col`.
    pub fn increment_refcount(&mut self, col: DBCol, key: &[u8], value: &[u8])
        ensures
            final(self)@ == old(self)@.push(
                OpView::IncrementRefcount { col, key: key@, value: value@ },
            ),
    {
        let op = StoreOp::IncrementRefcount { col, key: copy_bytes(key), value: copy_bytes(value) };
        self.ops.push(op);
    }

    /// Adds: remove `key` from column `col`.
    pub fn delete(&mut self, col: DBCol, key: &[u8])
        ensures
            final(self)@ == old(self)@.push(OpView::Delete { col, key: key@ }),
    {
        let op = StoreOp::Delete { col, key: copy_bytes(key) };
        self.ops.push(op);
    }

    /// The number of writes in the batch.
    pub fn len(&self) -> (len: usize)
        ensures
            len == self@.len(),
    {
        self.ops.len()
    }

    /// Applies all writes of the batch to `store`, in the order in which
    /// they were added, as one step.
    pub fn commit(self, store: &mut Store)
        ensures
            final(store)@ == old(store)@.apply_all(self@),
            final(store)@.wf(),
    {
        store.validate();
        let mut i: usize = 0;
        while i < self.ops.len()
            invariant
                i <= self.ops@.len(),
                self@.len() == self.ops@.len(),
                store@ == old(store)@.apply_all(self@.subrange(0, i as int)),
                store@.wf(),
            decreases self.ops@.len() - i,
        {
            proof {
                let done = self@.subrange(0, i + 1);
                assert(done.drop_last() =~= self@.subrange(0, i as int));
            }
            match &self.ops[i] {
                StoreOp::Put { col, key, value } => {
                    store.set_in(*col, key.as_slice(), value.as_slice());
                },
                StoreOp::IncrementRefcount { col, key, value } => {
                    store.increment_in(*col, key.as_slice(), value.as_slice());
                },
                StoreOp::Delete { col, key } => {
                    store.delete_in(*col, key.as_slice());
                },
            }
            i += 1;
        }
        assert(self@.subrange(0, i as int) =~= self@);
    }
}

/// The store.
pub struct Store {
    flat_state: Column,
    state: Column,
    state_parts: Column,
    dump_progress: Column,
}

impl View for Store {
    type V = StoreRows;

    closed spec fn view(&self) -> StoreRows {
        StoreRows {
            flat_state: self.flat_state@,
            state: self.state@,
            state_parts: self.state_parts@,
            dump_progress: self.dump_progress@,
        }
    }
}

impl Store {
    /// An empty store.
    pub fn new() -> (store: Store)
        ensures
            store@.wf(),
            forall|col: DBCol| #[trigger] store@.column(col) == Seq::<(Seq<u8>, Seq<u8>)>::empty(),
    {
        Store {
            flat_state: Column::new(),
            state: Column::new(),
            state_parts: Column::new(),
            dump_progress: Column::new(),
        }
    }

    /// Does nothing; tells the caller's proof that the keys of every column
    /// strictly increase, as they do in every store.
    pub fn validate(&self)
        ensures
            self@.wf(),
    {
        let _ = self.flat_state.len();
        let _ = self.state.len();
        let _ = self.state_parts.len();
        let _ = self.dump_progress.len();
    }

    fn column_ref(&self, col: DBCol) -> (column: &Column)
        ensures
            column@ == self@.column(col),
    {
        match col {
            DBCol::FlatState => &self.flat_state,
            DBCol::State => &self.state,
            DBCol::StateParts => &self.state_parts,
            DBCol::StateSyncDumpProgress => &self.dump_progress,
        }
    }

    /// All keys of column `col` with their values, in key order.
    pub fn iter(&self, col: DBCol) -> (entries: Vec<Entry>)
        ensures
            self@.wf(),
            rows_of(entries@) == self@.column(col),
    {
        self.validate();
        self.column_ref(col).iter()
    }

    /// The keys of column `col` between the bounds with their values, in
    /// key order: those at or after `lower` and before `upper`. A missing
    /// bound does not restrict.
    pub fn iter_range(&self, col: DBCol, lower: Option<&[u8]>, upper: Option<&[u8]>) -> (entries:
        Vec<Entry>)
        ensures
            self@.wf(),
            rows_of(entries@) == range_rows(
                self@.column(col),
                option_view(lower),
                option_view(upper),
            ),
    {
        self.validate();
        self.column_ref(col).iter_range(lower, upper)
    }

    /// What column `col` holds under `key`, if anything.
    pub fn get(&self, col: DBCol, key: &[u8]) -> (value: Option<Vec<u8>>)
        ensures
            self@.wf(),
            match value {
                Some(bytes) => lookup(self@.column(col), key@) == Some(bytes@),
                None => lookup(self@.column(col), key@) is None,
            },
    {
        self.validate();
        self.column_ref(col).get(key)
    }

    /// An empty batch of writes.
    pub fn store_update(&self) -> (update: StoreUpdate)
        ensures
            update@ == Seq::<OpView>::empty(),
    {
        let update = StoreUpdate { ops: Vec::new() };
        update
    }

    /// The value that the trie store holds for shard `shard_uid` under
    /// digest `hash`.
    pub fn retrieve_raw_bytes(&self, shard_uid: ShardUid, hash: &ValueHash) -> (value: Result<
        Vec<u8>,
        StorageError,
    >)
        ensures
            self@.wf(),
            match value {
                Ok(bytes) => self@.trie_value(shard_uid, hash@) == Some(bytes@),
                Err(_) => self@.trie_value(shard_uid, hash@) is None,
            },
            value is Err ==> (value == Err::<Vec<u8>, StorageError>(StorageError::MalformedValue)
                <==> {
                &&& lookup(self@.state, trie_store_key(shard_uid, hash@)) matches Some(stored)
                &&& stored.len() < REFCOUNT_LEN
            }),
    {
        let key = get_key_from_shard_uid_and_hash(shard_uid, hash);
        match self.get(DBCol::State, key.as_slice()) {
            None => Err(StorageError::MissingTrieValue),
            Some(stored) => {
                let len: usize = stored.len();
                if len < REFCOUNT_LEN {
                    return Err(StorageError::MalformedValue);
                }
                let count: u64 = get_u64_le(stored.as_slice(), len - REFCOUNT_LEN);
                if count == 0 {
                    Err(StorageError::MissingTrieValue)
                } else {
                    Ok(copy_range(stored.as_slice(), 0, len - REFCOUNT_LEN))
                }
            },
        }
    }

    fn set_in(&mut self, col: DBCol, key: &[u8], value: &[u8])
        requires
            old(self)@.wf(),
        ensures
            final(self)@ == old(self)@.apply(OpView::Put { col, key: key@, value: value@ }),
            final(self)@.wf(),
    {
        proof {
            lemma_rows_set(self@.column(col), key@, value@);
        }
        match col {
            DBCol::FlatState => self.flat_state.set(key, value),
            DBCol::State => self.state.set(key, value),
            DBCol::StateParts => self.state_parts.set(key, value),
            DBCol::StateSyncDumpProgress => self.dump_progress.set(key, value),
        }
    }

    fn delete_in(&mut self, col: DBCol, key: &[u8])
        requires
            old(self)@.wf(),
        ensures
            final(self)@ == old(self)@.apply(OpView::Delete { col, key: key@ }),
            final(self)@.wf(),
    {
        proof {
            lemma_rows_delete(self@.column(col), key@);
        }
        match col {
            DBCol::FlatState => self.flat_state.delete(key),
            DBCol::State => self.state.delete(key),
            DBCol::StateParts => self.state_parts.delete(key),
            DBCol::StateSyncDumpProgress => self.dump_progress.delete(key),
        }
    }

    fn increment_in(&mut self, col: DBCol, key: &[u8], value: &[u8])
        requires
            old(self)@.wf(),
        ensures
            final(self)@ == old(self)@.apply(
                OpView::IncrementRefcount { col, key: key@, value: value@ },
            ),
            final(self)@.wf(),
    {
        let stored = self.get(col, key);
        let mut fresh = true;
        let mut next: Vec<u8> = Vec::new();
        if let Some(bytes) = stored {
            let len: usize = bytes.len();
            if len >= REFCOUNT_LEN {
                let count: u64 = get_u64_le(bytes.as_slice(), len - REFCOUNT_LEN);
                if count > 0 {
                    let raised: u64 = if count < u64::MAX {
                        count + 1
                    } else {
                        count
                    };
                    next = copy_range(bytes.as_slice(), 0, len - REFCOUNT_LEN);
                    put_u64_le(&mut next, raised);
                    fresh = false;
                }
            }
        }
        if fresh {
            next = copy_bytes(value);
            put_u64_le(&mut next, 1);
        }
        self.set_in(col, key, next.as_slice());
    }
}

} // verus!
