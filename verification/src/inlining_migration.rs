//! The migration that inlines small flat-state values.
//!
//! Flat-state entries are looked at in batches. For each batch, the values
//! behind its small references are read from the trie store while block
//! processing goes on; then flat-state updates are switched off, the range
//! of the batch is read again, every reference in it whose value was read is
//! rewritten into inlined bytes, and updates are switched on again.

use crate::bytes::{copy_bytes, lemma_lex_successor, lemma_lex_total, lex_lt};
use crate::column::{
    has_key, in_range, index_of, lemma_range_rows, lemma_sorted_index, range_from, range_to,
    rows_of, rows_set, sorted, Column, Entry, Rows,
};
use crate::flat_state_value::{decoding, FlatStateValue, FlatValue, INLINE_DISK_VALUE_THRESHOLD};
use crate::flat_storage_manager::FlatStorageManager;
use crate::migration_stats::{lemma_sat_add_twice, log_skipped, MigrationStats};
use crate::shard_uid::{decode_flat_state_db_key, key_shard_uid};
use crate::state_value_reader::{count_unresolved, resolve_all, RequestView, StateValueReader};
use crate::store::{DBCol, OpView, Store, StoreRows};
use itertools::Itertools;
use vstd::prelude::*;

verus! {

/// One key with its value.
pub type Row = (Seq<u8>, Seq<u8>);

/// The request that the scan makes for a row: one for every row whose key
/// names a shard and whose value is a reference to at most
/// `INLINE_DISK_VALUE_THRESHOLD` bytes.
pub open spec fn row_request(row: Row) -> Option<RequestView> {
    match key_shard_uid(row.0) {
        Some(shard_uid) => match decoding(row.1) {
            Ok(FlatValue::Ref { hash, length }) => if length <= INLINE_DISK_VALUE_THRESHOLD {
                Some(RequestView { shard_uid, value_hash: hash })
            } else {
                None
            },
            _ => None,
        },
        None => None,
    }
}

/// Whether the scan selects a row for inlining.
pub open spec fn selected(row: Row) -> bool {
    row_request(row) is Some
}

/// Whether the scan passes over a row because its key or its value cannot be
/// decoded.
pub open spec fn undecodable(row: Row) -> bool {
    key_shard_uid(row.0) is None || decoding(row.1) is Err
}

/// Whether the commit rewrites a row: its key lies between the bounds, its
/// value is a reference, and the value behind the reference was read.
pub open spec fn rewritable(
    row: Row,
    lower: Option<Seq<u8>>,
    upper: Option<Seq<u8>>,
    resolved: Map<Seq<u8>, Seq<u8>>,
) -> bool {
    &&& in_range(row.0, lower, upper)
    &&& decoding(row.1) matches Ok(FlatValue::Ref { hash, length })
    &&& resolved.contains_key(hash)
}

/// The value that was read for the reference in a rewritable row.
pub open spec fn resolved_bytes(row: Row, resolved: Map<Seq<u8>, Seq<u8>>) -> Seq<u8> {
    resolved[decoding(row.1)->Ok_0->Ref_hash]
}

/// A row after the commit: a rewritable row whose value has an encoding
/// holds that value inlined; every other row is as before.
pub open spec fn inlined_row(
    row: Row,
    lower: Option<Seq<u8>>,
    upper: Option<Seq<u8>>,
    resolved: Map<Seq<u8>, Seq<u8>>,
) -> Row {
    if rewritable(row, lower, upper, resolved) && resolved_bytes(row, resolved).len() <= u32::MAX {
        (row.0, (FlatValue::Inlined { bytes: resolved_bytes(row, resolved) }).encoding())
    } else {
        row
    }
}

/// The rows after the commit.
pub open spec fn inlined_rows(
    rows: Rows,
    lower: Option<Seq<u8>>,
    upper: Option<Seq<u8>>,
    resolved: Map<Seq<u8>, Seq<u8>>,
) -> Rows {
    Seq::new(rows.len(), |i: int| inlined_row(rows[i], lower, upper, resolved))
}

/// The exclusive upper bound that includes `max_key`: the key followed by a
/// zero byte.
pub open spec fn upper_bound_key(max_key: Option<Seq<u8>>) -> Option<Seq<u8>> {
    match max_key {
        Some(key) => Some(key.push(0u8)),
        None => None,
    }
}

/// What is counted per row.
pub enum RowMeasure {
    /// One for a row that the scan passes over.
    Undecodable,
    /// The number of bytes that a decodable row stands for.
    ValueLen,
    /// The number of bytes that a selected row stands for.
    EligibleLen,
    /// One for a row that the commit rewrites.
    Inlined { lower: Option<Seq<u8>>, upper: Option<Seq<u8>>, resolved: Map<Seq<u8>, Seq<u8>> },
    /// One for a row that the commit would rewrite, had the value an
    /// encoding.
    TooLong { lower: Option<Seq<u8>>, upper: Option<Seq<u8>>, resolved: Map<Seq<u8>, Seq<u8>> },
}

impl RowMeasure {
    /// What one row counts.
    pub open spec fn of(self, row: Row) -> nat {
        match self {
            RowMeasure::Undecodable => if undecodable(row) {
                1
            } else {
                0
            },
            RowMeasure::ValueLen => if undecodable(row) {
                0
            } else {
                decoding(row.1)->Ok_0.value_len()
            },
            RowMeasure::EligibleLen => if selected(row) {
                decoding(row.1)->Ok_0.value_len()
            } else {
                0
            },
            RowMeasure::Inlined { lower, upper, resolved } => if rewritable(
                row,
                lower,
                upper,
                resolved,
            ) && resolved_bytes(row, resolved).len() <= u32::MAX {
                1
            } else {
                0
            },
            RowMeasure::TooLong { lower, upper, resolved } => if rewritable(
                row,
                lower,
                upper,
                resolved,
            ) && resolved_bytes(row, resolved).len() > u32::MAX {
                1
            } else {
                0
            },
        }
    }

    /// What all rows count together.
    pub open spec fn total(self, rows: Rows) -> nat
        decreases rows.len(),
    {
        if rows.len() == 0 {
            0
        } else {
            self.total(rows.drop_last()) + self.of(rows.last())
        }
    }

    /// The total of two runs of rows is the sum of their totals.
    pub proof fn lemma_total_concat(self, first: Rows, second: Rows)
        ensures
            self.total(first + second) == self.total(first) + self.total(second),
        decreases second.len(),
    {
        if second.len() == 0 {
            assert(first + second =~= first);
        } else {
            assert((first + second).drop_last() =~= first + second.drop_last());
            self.lemma_total_concat(first, second.drop_last());
        }
    }

    /// Rows that count nothing each count nothing together.
    pub proof fn lemma_total_zero(self, rows: Rows)
        requires
            forall|i: int| 0 <= i < rows.len() ==> self.of(#[trigger] rows[i]) == 0,
        ensures
            self.total(rows) == 0,
        decreases rows.len(),
    {
        if rows.len() > 0 {
            self.lemma_total_zero(rows.drop_last());
        }
    }

    /// The total over rows is the total over a stretch of them, where the
    /// rows outside the stretch count nothing.
    pub proof fn lemma_total_of_stretch(self, rows: Rows, from: int, to: int)
        requires
            0 <= from <= to <= rows.len(),
            forall|i: int|
                0 <= i < rows.len() && !(from <= i < to) ==> self.of(#[trigger] rows[i]) == 0,
        ensures
            self.total(rows) == self.total(rows.subrange(from, to)),
    {
        let before = rows.subrange(0, from);
        let stretch = rows.subrange(from, to);
        let after = rows.subrange(to, rows.len() as int);
        assert(rows =~= before + stretch + after);
        self.lemma_total_concat(before + stretch, after);
        self.lemma_total_concat(before, stretch);
        assert forall|i: int| 0 <= i < before.len() implies self.of(#[trigger] before[i]) == 0 by {
            assert(before[i] == rows[i]);
        }
        assert forall|i: int| 0 <= i < after.len() implies self.of(#[trigger] after[i]) == 0 by {
            assert(after[i] == rows[to + i]);
        }
        self.lemma_total_zero(before);
        self.lemma_total_zero(after);
    }
}

/// The requests that the scan of `rows` makes, in the order of the rows.
pub open spec fn batch_requests(rows: Rows) -> Seq<RequestView>
    decreases rows.len(),
{
    if rows.len() == 0 {
        Seq::empty()
    } else {
        let earlier = batch_requests(rows.drop_last());
        match row_request(rows.last()) {
            Some(request) => earlier.push(request),
            None => earlier,
        }
    }
}

/// The key of the first selected row.
pub open spec fn first_selected(rows: Rows) -> Option<Seq<u8>>
    decreases rows.len(),
{
    if rows.len() == 0 {
        None
    } else {
        match first_selected(rows.drop_last()) {
            Some(key) => Some(key),
            None => if selected(rows.last()) {
                Some(rows.last().0)
            } else {
                None
            },
        }
    }
}

/// The key of the last selected row.
pub open spec fn last_selected(rows: Rows) -> Option<Seq<u8>>
    decreases rows.len(),
{
    if rows.len() == 0 {
        None
    } else if selected(rows.last()) {
        Some(rows.last().0)
    } else {
        last_selected(rows.drop_last())
    }
}

/// The keys between which the commit of a batch looks: the first and the
/// last key that the scan selected.
#[derive(Clone, Debug, PartialEq, Eq)]
pub struct KeyRange {
    pub min_key: Option<Vec<u8>>,
    pub max_key: Option<Vec<u8>>,
}

impl KeyRange {
    /// The first selected key.
    pub open spec fn lower(&self) -> Option<Seq<u8>> {
        match self.min_key {
            Some(key) => Some(key@),
            None => None,
        }
    }

    /// The last selected key.
    pub open spec fn upper(&self) -> Option<Seq<u8>> {
        match self.max_key {
            Some(key) => Some(key@),
            None => None,
        }
    }
}

/// Looks at the entries of one batch: counts them, submits a request for
/// every selected entry, and returns the first and the last selected key.
/// An entry whose key or value cannot be decoded is counted as skipped and
/// passed over.
pub fn scan_batch(batch: &Vec<Entry>, reader: &mut StateValueReader, stats: &mut MigrationStats) -> (range:
    KeyRange)
    ensures
        final(reader)@ == old(reader)@ + batch_requests(rows_of(batch@)),
        final(reader).threads() == old(reader).threads(),
        range.lower() == first_selected(rows_of(batch@)),
        range.upper() == last_selected(rows_of(batch@)),
        *final(stats) == old(stats).raised(
            batch@.len() as int,
            RowMeasure::ValueLen.total(rows_of(batch@)) as int,
            0,
            RowMeasure::EligibleLen.total(rows_of(batch@)) as int,
            RowMeasure::Undecodable.total(rows_of(batch@)) as int,
        ),
{
    let ghost rows = rows_of(batch@);
    let mut range = KeyRange { min_key: None, max_key: None };
    let mut i: usize = 0;
    while i < batch.len()
        invariant
            i <= batch@.len(),
            rows == rows_of(batch@),
            reader@ == old(reader)@ + batch_requests(rows.subrange(0, i as int)),
            reader.threads() == old(reader).threads(),
            range.lower() == first_selected(rows.subrange(0, i as int)),
            range.upper() == last_selected(rows.subrange(0, i as int)),
            *stats == old(stats).raised(
                i as int,
                RowMeasure::ValueLen.total(rows.subrange(0, i as int)) as int,
                0,
                RowMeasure::EligibleLen.total(rows.subrange(0, i as int)) as int,
                RowMeasure::Undecodable.total(rows.subrange(0, i as int)) as int,
            ),
        decreases batch@.len() - i,
    {
        let entry = &batch[i];
        let ghost row = rows[i as int];
        let ghost done = rows.subrange(0, i as int);
        let ghost next = rows.subrange(0, i + 1);
        proof {
            assert(next.drop_last() =~= done);
            lemma_sat_add_twice(old(stats).processed_count, i as int, 1);
            lemma_sat_add_twice(
                old(stats).processed_total_values_size,
                RowMeasure::ValueLen.total(done) as int,
                RowMeasure::ValueLen.of(row) as int,
            );
            lemma_sat_add_twice(
                old(stats).inlined_total_values_size,
                RowMeasure::EligibleLen.total(done) as int,
                RowMeasure::EligibleLen.of(row) as int,
            );
            lemma_sat_add_twice(
                old(stats).skipped_count,
                RowMeasure::Undecodable.total(done) as int,
                RowMeasure::Undecodable.of(row) as int,
            );
        }
        stats.processed_count = stats.processed_count.saturating_add(1);
        match decode_flat_state_db_key(entry.key.as_slice()) {
            Err(_) => {
                log_skipped(stats);
            },
            Ok((shard_uid, _)) => {
                match FlatStateValue::decode(entry.value.as_slice()) {
                    Err(_) => {
                        log_skipped(stats);
                    },
                    Ok(value) => {
                        let value_size: u64 = value.value_len();
                        stats.processed_total_values_size =
                        stats.processed_total_values_size.saturating_add(value_size);
                        if let FlatStateValue::Ref { hash, length } = value {
                            if length as usize <= INLINE_DISK_VALUE_THRESHOLD {
                                if range.min_key.is_none() {
                                    range.min_key = Some(copy_bytes(entry.key.as_slice()));
                                }
                                range.max_key = Some(copy_bytes(entry.key.as_slice()));
                                stats.inlined_total_values_size =
                                stats.inlined_total_values_size.saturating_add(value_size);
                                reader.submit(shard_uid, hash);
                            }
                        }
                    },
                }
            },
        }
        i += 1;
    }
    assert(rows.subrange(0, i as int) =~= rows);
    range
}

/// Rewrites, with flat-state updates switched off, every reference between
/// the two keys of `range` (both included) whose value is in `hash_to_value`
/// into that value inlined, and returns the number of rewritten entries. The
/// entries are read again from the store for this, so that what was written
/// since the scan is respected: an entry that is no reference any more, or a
/// reference to some other value, stays as it is. A value too long to have an
/// encoding is counted as skipped. With nothing in `hash_to_value` nothing
/// happens, and updates are not switched.
pub fn commit_batch(
    store: &mut Store,
    flat_storage_manager: &mut FlatStorageManager,
    range: &KeyRange,
    hash_to_value: &Column,
    stats: &mut MigrationStats,
) -> (inlined_batch_count: usize)
    ensures
        final(store)@.wf(),
        final(store)@ == (StoreRows {
            flat_state: inlined_rows(
                old(store)@.flat_state,
                range.lower(),
                upper_bound_key(range.upper()),
                hash_to_value.map(),
            ),
            ..old(store)@
        }),
        forall|i: int|
            0 <= i < old(store)@.flat_state.len() && #[trigger] final(store)@.flat_state[i] != old(
                store,
            )@.flat_state[i] ==> {
                &&& decoding(old(store)@.flat_state[i].1) matches Ok(
                    FlatValue::Ref { hash, length },
                )
                &&& hash_to_value.map().contains_key(hash)
            },
        final(flat_storage_manager)@ == (hash_to_value@.len() > 0 || old(flat_storage_manager)@),
        inlined_batch_count == (RowMeasure::Inlined {
            lower: range.lower(),
            upper: upper_bound_key(range.upper()),
            resolved: hash_to_value.map(),
        }).total(old(store)@.flat_state),
        *final(stats) == old(stats).raised(
            0,
            0,
            inlined_batch_count as int,
            0,
            (RowMeasure::TooLong {
                lower: range.lower(),
                upper: upper_bound_key(range.upper()),
                resolved: hash_to_value.map(),
            }).total(old(store)@.flat_state) as int,
        ).paused(
            if hash_to_value@.len() > 0 {
                1
            } else {
                0
            },
        ),
{
    store.validate();
    let ghost rows = store@.flat_state;
    let ghost lower = range.lower();
    let ghost upper = upper_bound_key(range.upper());
    let ghost resolved = hash_to_value.map();
    let ghost inlined = RowMeasure::Inlined { lower, upper, resolved };
    let ghost too_long = RowMeasure::TooLong { lower, upper, resolved };
    if hash_to_value.len() == 0 {
        proof {
            lemma_nothing_resolved(rows, lower, upper, hash_to_value@);
        }
        return 0;
    }
    flat_storage_manager.set_flat_state_updates_mode(false);
    stats.paused_count = stats.paused_count.saturating_add(1);
    let mut store_update = store.store_update();
    let upper_bound: Option<Vec<u8>> = match &range.max_key {
        Some(key) => {
            let mut bound = copy_bytes(key.as_slice());
            bound.push(0u8);
            Some(bound)
        },
        None => None,
    };
    let entries = store.iter_range(
        DBCol::FlatState,
        match &range.min_key {
            Some(key) => Some(key.as_slice()),
            None => None,
        },
        match &upper_bound {
            Some(key) => Some(key.as_slice()),
            None => None,
        },
    );
    let ghost from = range_from(rows, lower);
    let ghost to = range_to(rows, lower, upper);
    proof {
        lemma_range_rows(rows, lower, upper);
        assert(rows_of(entries@) == rows.subrange(from, to));
        assert(partly_inlined(rows, from, 0, lower, upper, resolved) =~= rows);
    }
    let mut inlined_batch_count: usize = 0;
    let mut i: usize = 0;
    while i < entries.len()
        invariant
            i <= entries@.len(),
            sorted(rows),
            0 <= from <= to <= rows.len(),
            entries@.len() == to - from,
            rows_of(entries@) == rows.subrange(from, to),
            forall|k: int| from <= k < to ==> in_range(#[trigger] rows[k].0, lower, upper),
            inlined == (RowMeasure::Inlined { lower, upper, resolved }),
            too_long == (RowMeasure::TooLong { lower, upper, resolved }),
            resolved == hash_to_value.map(),
            old(store)@.apply_all(store_update@) == (StoreRows {
                flat_state: partly_inlined(rows, from, i as int, lower, upper, resolved),
                ..old(store)@
            }),
            old(store)@.flat_state == rows,
            inlined_batch_count == inlined.total(rows.subrange(from, from + i)),
            *stats == old(stats).raised(
                0,
                0,
                inlined_batch_count as int,
                0,
                too_long.total(rows.subrange(from, from + i)) as int,
            ).paused(1),
        decreases entries@.len() - i,
    {
        let entry = &entries[i];
        let ghost at = from + i;
        let ghost row = rows[at];
        let ghost before = partly_inlined(rows, from, i as int, lower, upper, resolved);
        let ghost after = partly_inlined(rows, from, i + 1, lower, upper, resolved);
        proof {
            assert(rows_of(entries@)[i as int] == row);
            let done = rows.subrange(from, at);
            let next = rows.subrange(from, at + 1);
            assert(next.drop_last() =~= done);
            assert(inlined.total(next) <= next.len()) by {
                lemma_count_at_most_len(inlined, next);
            }
            lemma_sat_add_twice(
                old(stats).inlined_count,
                inlined.total(done) as int,
                inlined.of(row) as int,
            );
            lemma_sat_add_twice(
                old(stats).skipped_count,
                too_long.total(done) as int,
                too_long.of(row) as int,
            );
            lemma_keys_kept(rows, from, i as int, lower, upper, resolved);
            lemma_sorted_index(before, at);
        }
        let mut rewritten = false;
        if let Ok(FlatStateValue::Ref { hash, length }) = FlatStateValue::decode(
            entry.value.as_slice(),
        ) {
            if let Some(bytes) = hash_to_value.get(hash.as_bytes()) {
                match FlatStateValue::inlined(bytes.as_slice()).encode() {
                    Ok(encoded) => {
                        let ghost earlier = store_update@;
                        store_update.set(DBCol::FlatState, entry.key.as_slice(), encoded.as_slice());
                        inlined_batch_count += 1;
                        stats.inlined_count = stats.inlined_count.saturating_add(1);
                        rewritten = true;
                        proof {
                            let op = OpView::Put {
                                col: DBCol::FlatState,
                                key: row.0,
                                value: encoded@,
                            };
                            assert(store_update@.drop_last() =~= earlier);
                            assert(rows_set(before, row.0, encoded@) == after);
                            assert(old(store)@.apply_all(store_update@) == old(store)@.apply_all(
                                earlier,
                            ).apply(op));
                        }
                    },
                    Err(_) => {
                        log_skipped(stats);
                    },
                }
            }
        }
        proof {
            if !rewritten {
                assert(after =~= before);
            }
        }
        i += 1;
    }
    proof {
        assert(partly_inlined(rows, from, to - from, lower, upper, resolved) =~= inlined_rows(
            rows,
            lower,
            upper,
            resolved,
        )) by {
            assert forall|k: int| 0 <= k < rows.len() implies partly_inlined(
                rows,
                from,
                to - from,
                lower,
                upper,
                resolved,
            )[k] == inlined_row(rows[k], lower, upper, resolved) by {
                if !(from <= k < to) {
                    assert(!in_range(rows[k].0, lower, upper));
                }
            }
        }
        assert forall|k: int| 0 <= k < rows.len() && !(from <= k < to) implies inlined.of(
            #[trigger] rows[k],
        ) == 0 && too_long.of(rows[k]) == 0 by {
            assert(!in_range(rows[k].0, lower, upper));
        }
        inlined.lemma_total_of_stretch(rows, from, to);
        too_long.lemma_total_of_stretch(rows, from, to);
    }
    store_update.commit(store);
    flat_storage_manager.set_flat_state_updates_mode(true);
    inlined_batch_count
}

/// The rows while the commit is at work: the first `done` rows of the range
/// that starts at `from` are as after the commit, the others as before.
pub open spec fn partly_inlined(
    rows: Rows,
    from: int,
    done: int,
    lower: Option<Seq<u8>>,
    upper: Option<Seq<u8>>,
    resolved: Map<Seq<u8>, Seq<u8>>,
) -> Rows {
    Seq::new(
        rows.len(),
        |i: int|
            if from <= i < from + done {
                inlined_row(rows[i], lower, upper, resolved)
            } else {
                rows[i]
            },
    )
}

/// Inlining keeps every key where it is, so sorted rows stay sorted.
pub proof fn lemma_keys_kept(
    rows: Rows,
    from: int,
    done: int,
    lower: Option<Seq<u8>>,
    upper: Option<Seq<u8>>,
    resolved: Map<Seq<u8>, Seq<u8>>,
)
    requires
        sorted(rows),
    ensures
        sorted(partly_inlined(rows, from, done, lower, upper, resolved)),
        forall|i: int|
            0 <= i < rows.len() ==> (#[trigger] partly_inlined(
                rows,
                from,
                done,
                lower,
                upper,
                resolved,
            )[i]).0 == rows[i].0,
{
    let after = partly_inlined(rows, from, done, lower, upper, resolved);
    assert forall|i: int, j: int| 0 <= i < j < after.len() implies lex_lt(
        #[trigger] after[i].0,
        #[trigger] after[j].0,
    ) by {
        assert(after[i].0 == rows[i].0 && after[j].0 == rows[j].0);
    }
}

/// A count of rows is at most their number.
pub proof fn lemma_count_at_most_len(measure: RowMeasure, rows: Rows)
    requires
        measure is Inlined || measure is TooLong || measure is Undecodable,
    ensures
        measure.total(rows) <= rows.len(),
    decreases rows.len(),
{
    if rows.len() > 0 {
        lemma_count_at_most_len(measure, rows.drop_last());
    }
}

/// With no value read, the commit has nothing to rewrite.
pub proof fn lemma_nothing_resolved(
    rows: Rows,
    lower: Option<Seq<u8>>,
    upper: Option<Seq<u8>>,
    resolved_rows: Rows,
)
    requires
        resolved_rows.len() == 0,
    ensures
        inlined_rows(rows, lower, upper, crate::column::to_map(resolved_rows)) == rows,
        (RowMeasure::Inlined {
            lower,
            upper,
            resolved: crate::column::to_map(resolved_rows),
        }).total(rows) == 0,
        (RowMeasure::TooLong {
            lower,
            upper,
            resolved: crate::column::to_map(resolved_rows),
        }).total(rows) == 0,
{
    let resolved = crate::column::to_map(resolved_rows);
    assert forall|hash: Seq<u8>| !resolved.contains_key(hash) by {
        if has_key(resolved_rows, hash) {
            let i = index_of(resolved_rows, hash);
            assert(0 <= i < resolved_rows.len());
        }
    }
    assert(inlined_rows(rows, lower, upper, resolved) =~= rows);
    (RowMeasure::Inlined { lower, upper, resolved }).lemma_total_zero(rows);
    (RowMeasure::TooLong { lower, upper, resolved }).lemma_total_zero(rows);
}

/// The number of batches into which `len` rows fall.
pub open spec fn num_batches(len: int, batch_size: int) -> int {
    (len + batch_size - 1) / batch_size
}

/// The rows of batch number `batch`: `batch_size` rows, fewer in the last.
pub open spec fn batch_of(rows: Rows, batch_size: int, batch: int) -> Rows {
    rows.subrange(
        batch * batch_size,
        if (batch + 1) * batch_size < rows.len() {
            (batch + 1) * batch_size
        } else {
            rows.len() as int
        },
    )
}

/// Calls `itertools::Itertools::chunks` on the entries and collects each
/// chunk. Trusted: the chunks hold the entries in their order, `batch_size`
/// in each and the rest in the last; no chunk is empty.
#[verifier::external_body]
fn chunk_entries(entries: Vec<Entry>, batch_size: usize) -> (batches: Vec<Vec<Entry>>)
    requires
        batch_size > 0,
    ensures
        batches@.len() == num_batches(entries@.len() as int, batch_size as int),
        forall|batch: int|
            0 <= batch < batches@.len() ==> rows_of((#[trigger] batches@[batch])@) == batch_of(
                rows_of(entries@),
                batch_size as int,
                batch,
            ),
{
    entries.into_iter().chunks(batch_size).into_iter().map(|chunk| chunk.collect()).collect()
}

/// The values that were read for the requests of a batch.
pub open spec fn batch_resolved(store: StoreRows, batch: Rows) -> Map<Seq<u8>, Seq<u8>> {
    resolve_all(store, batch_requests(batch))
}

/// A row after the migration. What becomes of a row is decided within its
/// batch: it is rewritten if it is a reference between the first and the
/// last selected key of the batch, and a request of the batch found the
/// value for its digest.
pub open spec fn migrated_row(rows: Rows, store: StoreRows, batch_size: int, i: int) -> Row {
    let batch = batch_of(rows, batch_size, i / batch_size);
    inlined_row(
        rows[i],
        first_selected(batch),
        upper_bound_key(last_selected(batch)),
        batch_resolved(store, batch),
    )
}

/// The flat-state rows after the migration of the first `batches` batches.
pub open spec fn migrated_prefix(rows: Rows, store: StoreRows, batch_size: int, batches: int) -> Rows {
    Seq::new(
        rows.len(),
        |i: int|
            if i < batches * batch_size {
                migrated_row(rows, store, batch_size, i)
            } else {
                rows[i]
            },
    )
}

/// The flat-state rows after the migration.
pub open spec fn migrated_rows(rows: Rows, store: StoreRows, batch_size: int) -> Rows {
    Seq::new(rows.len(), |i: int| migrated_row(rows, store, batch_size, i))
}

/// The counters after one more batch.
pub open spec fn stats_of_batch(stats: MigrationStats, store: StoreRows, batch: Rows) -> MigrationStats {
    let lower = first_selected(batch);
    let upper = upper_bound_key(last_selected(batch));
    let resolved = batch_resolved(store, batch);
    stats.raised(
        batch.len() as int,
        RowMeasure::ValueLen.total(batch) as int,
        (RowMeasure::Inlined { lower, upper, resolved }).total(batch) as int,
        RowMeasure::EligibleLen.total(batch) as int,
        (RowMeasure::Undecodable.total(batch) + count_unresolved(store, batch_requests(batch)) + (
        RowMeasure::TooLong { lower, upper, resolved }).total(batch)) as int,
    ).paused(
        if resolved != Map::<Seq<u8>, Seq<u8>>::empty() {
            1
        } else {
            0
        },
    )
}

/// The counters after the first `batches` batches, from zero.
pub open spec fn stats_after(rows: Rows, store: StoreRows, batch_size: int, batches: int) -> MigrationStats
    decreases batches,
{
    if batches <= 0 {
        MigrationStats::zero()
    } else {
        stats_of_batch(
            stats_after(rows, store, batch_size, batches - 1),
            store,
            batch_of(rows, batch_size, batches - 1),
        )
    }
}

/// Whether one of the first `batches` batches had a value read, so that its
/// commit switched flat-state updates off and on.
pub open spec fn any_commit(rows: Rows, store: StoreRows, batch_size: int, batches: int) -> bool
    decreases batches,
{
    if batches <= 0 {
        false
    } else {
        any_commit(rows, store, batch_size, batches - 1) || batch_resolved(
            store,
            batch_of(rows, batch_size, batches - 1),
        ) != Map::<Seq<u8>, Seq<u8>>::empty()
    }
}

/// Where the batches lie: batch `batch` starts before the end of the rows,
/// and the rows of its stretch are those whose position divided by the batch
/// size gives `batch`.
pub proof fn lemma_batch_bounds(len: int, batch_size: int, batch: int)
    requires
        batch_size > 0,
        len >= 0,
        0 <= batch < num_batches(len, batch_size),
    ensures
        0 <= batch * batch_size < len,
        (batch + 1) * batch_size == batch * batch_size + batch_size,
        forall|i: int|
            batch * batch_size <= i < (batch + 1) * batch_size ==> #[trigger] (i / batch_size)
                == batch,
        forall|i: int|
            0 <= i < len && #[trigger] (i / batch_size) == batch ==> batch * batch_size <= i < (
            batch + 1) * batch_size,
        num_batches(len, batch_size) * batch_size >= len,
{
    let count = num_batches(len, batch_size);
    vstd::arithmetic::div_mod::lemma_fundamental_div_mod(len + batch_size - 1, batch_size);
    let rest = (len + batch_size - 1) % batch_size;
    assert(0 <= rest < batch_size);
    assert(batch * batch_size <= (count - 1) * batch_size) by (nonlinear_arith)
        requires
            batch <= count - 1,
            batch_size > 0,
    ;
    assert((count - 1) * batch_size == batch_size * count - batch_size) by (nonlinear_arith);
    assert(0 <= batch * batch_size) by (nonlinear_arith)
        requires
            batch >= 0,
            batch_size > 0,
    ;
    assert((batch + 1) * batch_size == batch * batch_size + batch_size) by (nonlinear_arith);
    assert(count * batch_size == batch_size * count) by (nonlinear_arith);
    assert forall|i: int| batch * batch_size <= i < (batch + 1) * batch_size implies #[trigger] (i
        / batch_size) == batch by {
        vstd::arithmetic::div_mod::lemma_fundamental_div_mod_converse(
            i,
            batch_size,
            batch,
            i - batch * batch_size,
        );
    }
    assert forall|i: int| 0 <= i < len && #[trigger] (i / batch_size) == batch implies batch
        * batch_size <= i < (batch + 1) * batch_size by {
        vstd::arithmetic::div_mod::lemma_fundamental_div_mod(i, batch_size);
        assert(batch_size * batch == batch * batch_size) by (nonlinear_arith);
    }
}

/// The selected keys of a batch are keys of the batch, and a batch with a
/// request has a first and a last selected key.
pub proof fn lemma_selected_keys(rows: Rows)
    ensures
        first_selected(rows) matches Some(key) ==> has_key(rows, key),
        last_selected(rows) matches Some(key) ==> has_key(rows, key),
        batch_requests(rows).len() > 0 ==> first_selected(rows) is Some && last_selected(rows) is Some,
    decreases rows.len(),
{
    if rows.len() > 0 {
        let earlier = rows.drop_last();
        lemma_selected_keys(earlier);
        let last = rows.len() - 1;
        if let Some(key) = first_selected(rows) {
            if first_selected(earlier) is Some {
                let i = index_of(earlier, key);
                assert(rows[i].0 == key);
            } else {
                assert(rows[last].0 == key);
            }
        }
        if let Some(key) = last_selected(rows) {
            if selected(rows.last()) {
                assert(rows[last].0 == key);
            } else {
                let i = index_of(earlier, key);
                assert(rows[i].0 == key);
            }
        }
    }
}

/// What the requests find depends on the trie store alone.
pub proof fn lemma_resolve_same_state(first: StoreRows, second: StoreRows, requests: Seq<RequestView>)
    requires
        first.state == second.state,
    ensures
        resolve_all(first, requests) == resolve_all(second, requests),
        count_unresolved(first, requests)
            == count_unresolved(second, requests),
    decreases requests.len(),
{
    if requests.len() > 0 {
        lemma_resolve_same_state(first, second, requests.drop_last());
    }
}

/// Values are found only where requests were made.
pub proof fn lemma_resolved_needs_requests(store: StoreRows, requests: Seq<RequestView>)
    requires
        requests.len() == 0,
    ensures
        resolve_all(store, requests) == Map::<Seq<u8>, Seq<u8>>::empty(),
{
}

/// The commit of batch `batch` changes the rows of that batch alone, and
/// brings them to what they are after the migration.
pub proof fn lemma_commit_of_batch(rows: Rows, store: StoreRows, batch_size: int, batch: int)
    requires
        sorted(rows),
        batch_size > 0,
        0 <= batch < num_batches(rows.len() as int, batch_size),
    ensures
        ({
            let rows_of_batch = batch_of(rows, batch_size, batch);
            let lower = first_selected(rows_of_batch);
            let upper = upper_bound_key(last_selected(rows_of_batch));
            let resolved = batch_resolved(store, rows_of_batch);
            let current = migrated_prefix(rows, store, batch_size, batch);
            &&& sorted(current)
            &&& inlined_rows(current, lower, upper, resolved) == migrated_prefix(
                rows,
                store,
                batch_size,
                batch + 1,
            )
            &&& (RowMeasure::Inlined { lower, upper, resolved }).total(current) == (
            RowMeasure::Inlined { lower, upper, resolved }).total(rows_of_batch)
            &&& (RowMeasure::TooLong { lower, upper, resolved }).total(current) == (
            RowMeasure::TooLong { lower, upper, resolved }).total(rows_of_batch)
        }),
{
    let len = rows.len() as int;
    let rows_of_batch = batch_of(rows, batch_size, batch);
    let lower = first_selected(rows_of_batch);
    let upper = upper_bound_key(last_selected(rows_of_batch));
    let resolved = batch_resolved(store, rows_of_batch);
    let current = migrated_prefix(rows, store, batch_size, batch);
    let next = migrated_prefix(rows, store, batch_size, batch + 1);
    let start = batch * batch_size;
    let end = if (batch + 1) * batch_size < len {
        (batch + 1) * batch_size
    } else {
        len
    };
    lemma_batch_bounds(len, batch_size, batch);
    lemma_selected_keys(rows_of_batch);
    assert forall|i: int, j: int| 0 <= i < j < current.len() implies lex_lt(
        #[trigger] current[i].0,
        #[trigger] current[j].0,
    ) by {
        assert(current[i].0 == rows[i].0 && current[j].0 == rows[j].0);
    }
    assert(current.subrange(start, end) =~= rows_of_batch);
    // Rows outside the batch lie outside the range of its commit.
    assert forall|i: int| 0 <= i < len && !(start <= i < end) implies !rewritable(
        #[trigger] current[i],
        lower,
        upper,
        resolved,
    ) by {
        if batch_requests(rows_of_batch).len() == 0 {
            lemma_resolved_needs_requests(store, batch_requests(rows_of_batch));
        } else if i < start {
            let low = lower->Some_0;
            let j = index_of(rows_of_batch, low);
            lemma_lex_total(rows[i].0, low);
        } else {
            let high = last_selected(rows_of_batch)->Some_0;
            let j = index_of(rows_of_batch, high);
            lemma_lex_successor(rows[i].0, high);
            lemma_lex_total(high, rows[i].0);
        }
    }
    assert forall|i: int| 0 <= i < len implies inlined_rows(current, lower, upper, resolved)[i]
        == next[i] by {
        if start <= i < end {
            assert(current[i] == rows[i]);
        } else {
            if i < start {
            } else {
                assert(end == len || i >= (batch + 1) * batch_size);
            }
        }
    }
    let inlined = RowMeasure::Inlined { lower, upper, resolved };
    let too_long = RowMeasure::TooLong { lower, upper, resolved };
    assert forall|i: int| 0 <= i < len && !(start <= i < end) implies inlined.of(
        #[trigger] current[i],
    ) == 0 && too_long.of(current[i]) == 0 by {
        assert(!rewritable(current[i], lower, upper, resolved));
    }
    inlined.lemma_total_of_stretch(current, start, end);
    too_long.lemma_total_of_stretch(current, start, end);
}

/// Inlines every flat-state value that is a reference to at most
/// `INLINE_DISK_VALUE_THRESHOLD` bytes and whose bytes the trie store holds,
/// and returns what was counted on the way.
///
/// The entries are taken in batches of `batch_size`, in key order. For each
/// batch the values are read first; flat-state updates are switched off only
/// while the range of the batch is read again and rewritten. An entry that
/// cannot be decoded, or whose value cannot be read, is counted as skipped
/// and stays as it is. The trie store and the other columns are not written.
///
/// `read_state_threads` is the number of workers that the reader of values
/// is made for; the outcome does not depend on it.
pub fn inline_flat_state_values(
    store: &mut Store,
    flat_storage_manager: &mut FlatStorageManager,
    read_state_threads: usize,
    batch_size: usize,
) -> (stats: MigrationStats)
    requires
        batch_size > 0,
    ensures
        final(store)@.wf(),
        final(store)@ == (StoreRows {
            flat_state: migrated_rows(old(store)@.flat_state, old(store)@, batch_size as int),
            ..old(store)@
        }),
        final(flat_storage_manager)@ == (old(flat_storage_manager)@ || any_commit(
            old(store)@.flat_state,
            old(store)@,
            batch_size as int,
            num_batches(old(store)@.flat_state.len() as int, batch_size as int),
        )),
        stats == stats_after(
            old(store)@.flat_state,
            old(store)@,
            batch_size as int,
            num_batches(old(store)@.flat_state.len() as int, batch_size as int),
        ),
{
    let mut stats = MigrationStats::new();
    let mut value_reader = StateValueReader::new(read_state_threads);
    let entries = store.iter(DBCol::FlatState);
    let ghost rows = store@.flat_state;
    let ghost before = store@;
    let ghost size = batch_size as int;
    let ghost count = num_batches(rows.len() as int, size);
    let batches = chunk_entries(entries, batch_size);
    proof {
        assert(migrated_prefix(rows, before, size, 0) =~= rows);
        assert(0 * size == 0) by (nonlinear_arith);
    }
    let mut batch_index: usize = 0;
    while batch_index < batches.len()
        invariant
            batch_index <= batches@.len(),
            batches@.len() == count,
            count == num_batches(rows.len() as int, size),
            size == batch_size as int,
            size > 0,
            sorted(rows),
            rows == before.flat_state,
            forall|batch: int|
                0 <= batch < batches@.len() ==> rows_of((#[trigger] batches@[batch])@) == batch_of(
                    rows,
                    size,
                    batch,
                ),
            value_reader@ == Seq::<RequestView>::empty(),
            store@.wf(),
            store@ == (StoreRows {
                flat_state: migrated_prefix(rows, before, size, batch_index as int),
                ..before
            }),
            flat_storage_manager@ == (old(flat_storage_manager)@ || any_commit(
                rows,
                before,
                size,
                batch_index as int,
            )),
            stats == stats_after(rows, before, size, batch_index as int),
        decreases batches@.len() - batch_index,
    {
        let batch = &batches[batch_index];
        let ghost rows_of_batch = batch_of(rows, size, batch_index as int);
        let ghost earlier = stats;
        proof {
            assert(rows_of(batch@) == rows_of_batch);
            lemma_commit_of_batch(rows, before, size, batch_index as int);
            lemma_resolve_same_state(store@, before, batch_requests(rows_of_batch));
            assert(Seq::<RequestView>::empty() + batch_requests(rows_of_batch) =~= batch_requests(
                rows_of_batch,
            ));
        }
        let range = scan_batch(batch, &mut value_reader, &mut stats);
        let hash_to_value = value_reader.receive_all(store, &mut stats);
        let ghost resolved = batch_resolved(before, rows_of_batch);
        proof {
            assert(hash_to_value.map() == resolved);
            if hash_to_value@.len() > 0 {
                lemma_sorted_index(hash_to_value@, 0);
                assert(resolved.contains_key(hash_to_value@[0].0));
                assert(resolved != Map::<Seq<u8>, Seq<u8>>::empty());
            } else {
                assert forall|hash: Seq<u8>| !resolved.contains_key(hash) by {
                    if has_key(hash_to_value@, hash) {
                        let i = index_of(hash_to_value@, hash);
                        assert(0 <= i < hash_to_value@.len());
                    }
                }
                assert(resolved =~= Map::<Seq<u8>, Seq<u8>>::empty());
            }
        }
        commit_batch(store, flat_storage_manager, &range, &hash_to_value, &mut stats);
        proof {
            let lower = first_selected(rows_of_batch);
            let upper = upper_bound_key(last_selected(rows_of_batch));
            let undecodable = RowMeasure::Undecodable.total(rows_of_batch) as int;
            let unresolved = count_unresolved(
                before,
                batch_requests(rows_of_batch),
            ) as int;
            let too_long = (RowMeasure::TooLong { lower, upper, resolved }).total(
                rows_of_batch,
            ) as int;
            lemma_sat_add_twice(earlier.skipped_count, undecodable, unresolved);
            lemma_sat_add_twice(earlier.skipped_count, undecodable + unresolved, too_long);
            assert(stats == stats_of_batch(earlier, before, rows_of_batch));
        }
        batch_index += 1;
    }
    value_reader.close();
    proof {
        if count > 0 {
            lemma_batch_bounds(rows.len() as int, size, count - 1);
        } else {
            assert(rows.len() == 0) by {
                assert(num_batches(rows.len() as int, size) >= 1 || rows.len() == 0) by {
                    if rows.len() > 0 {
                        vstd::arithmetic::div_mod::lemma_fundamental_div_mod(
                            rows.len() + size - 1,
                            size,
                        );
                        assert(size * 0 == 0);
                        assert(num_batches(rows.len() as int, size) > 0) by (nonlinear_arith)
                            requires
                                rows.len() + size - 1 == size * num_batches(
                                    rows.len() as int,
                                    size,
                                ) + (rows.len() + size - 1) % size,
                                0 <= (rows.len() + size - 1) % size < size,
                                rows.len() > 0,
                                size > 0,
                        ;
                    }
                }
            }
        }
        assert(migrated_prefix(rows, before, size, count) =~= migrated_rows(rows, before, size));
    }
    stats
}

} // verus!
