//! How far the dump of a shard's state has come, and where that is kept.

use crate::bytes::{get_u64_le, lemma_u64_le_round_trip, put_bytes, put_u64_le, u64_from_le, u64_le};
use crate::column::lookup;
use crate::hash::{ValueHash, HASH_LEN};
use crate::store::{DBCol, OpView, Store, StoreRows};
use vstd::prelude::*;

verus! {

/// Names an epoch.
#[derive(Clone, Copy, Debug, PartialEq, Eq, Hash)]
pub struct EpochId(pub ValueHash);

impl View for EpochId {
    type V = Seq<u8>;

    open spec fn view(&self) -> Seq<u8> {
        self.0@
    }
}

impl EpochId {
    /// Whether both name the same epoch.
    pub fn same_as(&self, other: &EpochId) -> (same: bool)
        ensures
            same == (self@ == other@),
            same == (*self == *other),
    {
        self.0.same_as(&other.0)
    }
}

/// How far the dump of one shard has come.
#[derive(Clone, Copy, Debug, PartialEq, Eq)]
pub enum StateSyncDumpProgress {
    /// All parts of the epoch are in external storage.
    AllDumped { epoch_id: EpochId, epoch_height: u64, num_parts: u64 },
    /// The parts of the epoch are being dumped; `sync_hash` is the block that
    /// pins the state.
    InProgress { epoch_id: EpochId, epoch_height: u64, sync_hash: ValueHash },
}

/// What a `StateSyncDumpProgress` stands for.
pub enum ProgressView {
    AllDumped { epoch_id: Seq<u8>, epoch_height: u64, num_parts: u64 },
    InProgress { epoch_id: Seq<u8>, epoch_height: u64, sync_hash: Seq<u8> },
}

impl View for StateSyncDumpProgress {
    type V = ProgressView;

    open spec fn view(&self) -> ProgressView {
        match self {
            StateSyncDumpProgress::AllDumped {
                epoch_id,
                epoch_height,
                num_parts,
            } => ProgressView::AllDumped {
                epoch_id: epoch_id@,
                epoch_height: *epoch_height,
                num_parts: *num_parts,
            },
            StateSyncDumpProgress::InProgress {
                epoch_id,
                epoch_height,
                sync_hash,
            } => ProgressView::InProgress {
                epoch_id: epoch_id@,
                epoch_height: *epoch_height,
                sync_hash: sync_hash@,
            },
        }
    }
}

/// Tag byte of an encoded `AllDumped`.
pub const TAG_ALL_DUMPED: u8 = 0;

/// Tag byte of an encoded `InProgress`.
pub const TAG_IN_PROGRESS: u8 = 1;

/// Length of an encoded `AllDumped`: tag, epoch, height, number of parts.
pub const ALL_DUMPED_LEN: usize = 49;

/// Length of an encoded `InProgress`: tag, epoch, height, block.
pub const IN_PROGRESS_LEN: usize = 73;

impl ProgressView {
    /// The height of the epoch that the progress speaks of.
    pub open spec fn epoch_height(self) -> u64 {
        match self {
            ProgressView::AllDumped { epoch_id, epoch_height, num_parts } => epoch_height,
            ProgressView::InProgress { epoch_id, epoch_height, sync_hash } => epoch_height,
        }
    }

    /// The epoch that the progress speaks of.
    pub open spec fn epoch_id(self) -> Seq<u8> {
        match self {
            ProgressView::AllDumped { epoch_id, epoch_height, num_parts } => epoch_id,
            ProgressView::InProgress { epoch_id, epoch_height, sync_hash } => epoch_id,
        }
    }

    /// Whether the identifiers in the progress have 32 bytes each.
    pub open spec fn wf(self) -> bool {
        match self {
            ProgressView::AllDumped { epoch_id, epoch_height, num_parts } => epoch_id.len()
                == HASH_LEN,
            ProgressView::InProgress { epoch_id, epoch_height, sync_hash } => epoch_id.len()
                == HASH_LEN && sync_hash.len() == HASH_LEN,
        }
    }

    /// The stored form: a tag byte, the epoch, the height as eight
    /// little-endian bytes, then the number of parts in the same form, or the
    /// block.
    pub open spec fn encoding(self) -> Seq<u8> {
        match self {
            ProgressView::AllDumped { epoch_id, epoch_height, num_parts } => seq![TAG_ALL_DUMPED]
                + epoch_id + u64_le(epoch_height) + u64_le(num_parts),
            ProgressView::InProgress { epoch_id, epoch_height, sync_hash } => seq![TAG_IN_PROGRESS]
                + epoch_id + u64_le(epoch_height) + sync_hash,
        }
    }
}

/// The progress that `bytes` encode, if they encode one.
pub open spec fn progress_decoding(bytes: Seq<u8>) -> Option<ProgressView> {
    if bytes.len() == ALL_DUMPED_LEN && bytes[0] == TAG_ALL_DUMPED {
        Some(
            ProgressView::AllDumped {
                epoch_id: bytes.subrange(1, 33),
                epoch_height: u64_from_le(bytes.subrange(33, 41)) as u64,
                num_parts: u64_from_le(bytes.subrange(41, 49)) as u64,
            },
        )
    } else if bytes.len() == IN_PROGRESS_LEN && bytes[0] == TAG_IN_PROGRESS {
        Some(
            ProgressView::InProgress {
                epoch_id: bytes.subrange(1, 33),
                epoch_height: u64_from_le(bytes.subrange(33, 41)) as u64,
                sync_hash: bytes.subrange(41, 73),
            },
        )
    } else {
        None
    }
}

/// Decoding stored progress gives it back.
pub proof fn lemma_progress_round_trip(progress: ProgressView)
    requires
        progress.wf(),
    ensures
        progress_decoding(progress.encoding()) == Some(progress),
{
    let bytes = progress.encoding();
    match progress {
        ProgressView::AllDumped { epoch_id, epoch_height, num_parts } => {
            lemma_u64_le_round_trip(epoch_height);
            lemma_u64_le_round_trip(num_parts);
            assert(bytes.subrange(1, 33) =~= epoch_id);
        },
        ProgressView::InProgress { epoch_id, epoch_height, sync_hash } => {
            lemma_u64_le_round_trip(epoch_height);
            assert(bytes.subrange(1, 33) =~= epoch_id);
            assert(bytes.subrange(41, 73) =~= sync_hash);
        },
    }
}

/// What a read of the progress gave.
#[derive(Clone, Copy, Debug, PartialEq, Eq)]
pub enum ProgressRead {
    /// The progress that is stored.
    Found(StateSyncDumpProgress),
    /// Nothing is stored for the shard.
    Absent,
    /// What is stored is no progress.
    Undecodable,
    /// The store could not be read.
    Failed,
}

impl StateSyncDumpProgress {
    /// The stored form of the progress.
    pub fn encode(&self) -> (bytes: Vec<u8>)
        ensures
            bytes@ == self@.encoding(),
            self@.wf(),
    {
        let mut bytes: Vec<u8> = Vec::new();
        match self {
            StateSyncDumpProgress::AllDumped { epoch_id, epoch_height, num_parts } => {
                bytes.push(TAG_ALL_DUMPED);
                put_bytes(&mut bytes, epoch_id.0.as_bytes());
                put_u64_le(&mut bytes, *epoch_height);
                put_u64_le(&mut bytes, *num_parts);
            },
            StateSyncDumpProgress::InProgress { epoch_id, epoch_height, sync_hash } => {
                bytes.push(TAG_IN_PROGRESS);
                put_bytes(&mut bytes, epoch_id.0.as_bytes());
                put_u64_le(&mut bytes, *epoch_height);
                put_bytes(&mut bytes, sync_hash.as_bytes());
            },
        }
        bytes
    }

    /// The progress that `bytes` encode, if they encode one.
    pub fn decode(bytes: &[u8]) -> (progress: Option<StateSyncDumpProgress>)
        ensures
            match progress {
                Some(p) => progress_decoding(bytes@) == Some(p@),
                None => progress_decoding(bytes@) is None,
            },
    {
        let len: usize = bytes.len();
        if len == ALL_DUMPED_LEN && bytes[0] == TAG_ALL_DUMPED {
            let epoch_id = EpochId(ValueHash::from_slice(bytes, 1));
            let epoch_height: u64 = get_u64_le(bytes, 33);
            let num_parts: u64 = get_u64_le(bytes, 41);
            Some(StateSyncDumpProgress::AllDumped { epoch_id, epoch_height, num_parts })
        } else if len == IN_PROGRESS_LEN && bytes[0] == TAG_IN_PROGRESS {
            let epoch_id = EpochId(ValueHash::from_slice(bytes, 1));
            let epoch_height: u64 = get_u64_le(bytes, 33);
            let sync_hash = ValueHash::from_slice(bytes, 41);
            Some(StateSyncDumpProgress::InProgress { epoch_id, epoch_height, sync_hash })
        } else {
            None
        }
    }
}

/// The key of a shard's progress: the shard number as eight little-endian
/// bytes.
pub open spec fn progress_key(shard_id: u64) -> Seq<u8> {
    u64_le(shard_id)
}

/// What a read of the progress of shard `shard_id` gives in a store.
pub open spec fn stored_progress(store: StoreRows, shard_id: u64) -> Option<Option<ProgressView>> {
    match lookup(store.dump_progress, progress_key(shard_id)) {
        Some(bytes) => Some(progress_decoding(bytes)),
        None => None,
    }
}

/// Reads the progress of shard `shard_id`.
pub fn get_state_sync_dump_progress(store: &Store, shard_id: u64) -> (read: ProgressRead)
    ensures
        match read {
            ProgressRead::Found(progress) => stored_progress(store@, shard_id) == Some(
                Some(progress@),
            ),
            ProgressRead::Absent => stored_progress(store@, shard_id) is None,
            ProgressRead::Undecodable => stored_progress(store@, shard_id) == Some(
                None::<ProgressView>,
            ),
            ProgressRead::Failed => false,
        },
{
    let mut key: Vec<u8> = Vec::new();
    put_u64_le(&mut key, shard_id);
    match store.get(DBCol::StateSyncDumpProgress, key.as_slice()) {
        None => ProgressRead::Absent,
        Some(bytes) => match StateSyncDumpProgress::decode(bytes.as_slice()) {
            Some(progress) => ProgressRead::Found(progress),
            None => ProgressRead::Undecodable,
        },
    }
}

/// The write that sets or clears the progress of a shard.
pub open spec fn progress_write(shard_id: u64, value: Option<ProgressView>) -> OpView {
    match value {
        Some(progress) => OpView::Put {
            col: DBCol::StateSyncDumpProgress,
            key: progress_key(shard_id),
            value: progress.encoding(),
        },
        None => OpView::Delete { col: DBCol::StateSyncDumpProgress, key: progress_key(shard_id) },
    }
}

/// The progress of an optional value.
pub open spec fn progress_view(value: Option<StateSyncDumpProgress>) -> Option<ProgressView> {
    match value {
        Some(progress) => Some(progress@),
        None => None,
    }
}

/// Stores `value` as the progress of shard `shard_id`, or removes the
/// progress where `value` is `None`.
pub fn set_state_sync_dump_progress(
    store: &mut Store,
    shard_id: u64,
    value: Option<StateSyncDumpProgress>,
)
    ensures
        final(store)@ == old(store)@.apply(progress_write(shard_id, progress_view(value))),
        final(store)@.wf(),
        stored_progress(final(store)@, shard_id) == match value {
            Some(progress) => Some(Some(progress@)),
            None => None,
        },
        forall|other: u64|
            other != shard_id ==> #[trigger] stored_progress(final(store)@, other)
                == stored_progress(old(store)@, other),
{
    let mut key: Vec<u8> = Vec::new();
    put_u64_le(&mut key, shard_id);
    let mut update = store.store_update();
    match value {
        Some(progress) => {
            let bytes = progress.encode();
            update.set(DBCol::StateSyncDumpProgress, key.as_slice(), bytes.as_slice());
            proof {
                lemma_progress_round_trip(progress@);
            }
        },
        None => {
            update.delete(DBCol::StateSyncDumpProgress, key.as_slice());
        },
    }
    let ghost op = progress_write(shard_id, progress_view(value));
    proof {
        assert(old(store)@.apply_all(update@.drop_last()) == old(store)@);
    }
    store.validate();
    update.commit(store);
    proof {
        let before = old(store)@.dump_progress;
        let after = store@.dump_progress;
        crate::column::lemma_rows_set(before, progress_key(shard_id), op->Put_value);
        crate::column::lemma_rows_delete(before, progress_key(shard_id));
        assert forall|other: u64| other != shard_id implies #[trigger] stored_progress(
            store@,
            other,
        ) == stored_progress(old(store)@, other) by {
            lemma_progress_keys_differ(shard_id, other);
            lemma_lookup_is_map(before, progress_key(other));
            lemma_lookup_is_map(after, progress_key(other));
        }
        lemma_lookup_is_map(after, progress_key(shard_id));
    }
}

/// Different shards have different keys.
pub proof fn lemma_progress_keys_differ(first: u64, second: u64)
    requires
        first != second,
    ensures
        progress_key(first) != progress_key(second),
{
    lemma_u64_le_round_trip(first);
    lemma_u64_le_round_trip(second);
}

/// Looking a key up in rows is looking it up in their map.
pub proof fn lemma_lookup_is_map(rows: crate::column::Rows, key: Seq<u8>)
    ensures
        lookup(rows, key) == if crate::column::to_map(rows).contains_key(key) {
            Some(crate::column::to_map(rows)[key])
        } else {
            None
        },
{
}

} // verus!
