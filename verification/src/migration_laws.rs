//! What holds of the inlining migration as a whole.

use crate::bytes::{lemma_lex_successor, lex_le, lex_lt};
use crate::column::{in_range, sorted, Rows};
use crate::flat_state_value::{
    decoding, lemma_decode_encode, DecodeError, FlatValue, INLINE_DISK_VALUE_THRESHOLD,
};
use crate::inlining_migration::{
    batch_of, batch_requests, batch_resolved, first_selected, inlined_row, inlined_rows,
    last_selected, lemma_batch_bounds, migrated_rows, num_batches, rewritable, resolved_bytes,
    row_request, selected, stats_after, upper_bound_key, Row, RowMeasure,
};
use crate::migration_stats::sat_add;
use crate::shard_uid::key_shard_uid;

use crate::store::StoreRows;
use vstd::prelude::*;

verus! {

/// Whether the request of `row` is for digest `hash` and finds a value in
/// the trie store of `store`.
pub open spec fn finds(store: StoreRows, row: Row, hash: Seq<u8>) -> bool {
    &&& row_request(row) matches Some(request)
    &&& request.value_hash == hash
    &&& store.trie_value(request.shard_uid, hash) is Some
}

/// The value that the request of `row` finds.
pub open spec fn found(store: StoreRows, row: Row) -> Seq<u8> {
    let request = row_request(row)->Some_0;
    store.trie_value(request.shard_uid, request.value_hash)->Some_0
}

/// Whether `at` is the last row whose request is for `hash` and finds a
/// value.
pub open spec fn is_last_finding(store: StoreRows, rows: Rows, hash: Seq<u8>, at: int) -> bool {
    &&& 0 <= at < rows.len()
    &&& finds(store, rows[at], hash)
    &&& forall|later: int| at < later < rows.len() ==> !finds(store, #[trigger] rows[later], hash)
}

/// What the requests of a batch find, one row more: the last row adds its
/// value under its digest if its request finds one.
pub proof fn lemma_batch_resolved_step(store: StoreRows, rows: Rows)
    requires
        rows.len() > 0,
    ensures
        batch_resolved(store, rows) == if row_request(rows.last()) is Some && store.trie_value(
            row_request(rows.last())->Some_0.shard_uid,
            row_request(rows.last())->Some_0.value_hash,
        ) is Some {
            batch_resolved(store, rows.drop_last()).insert(
                row_request(rows.last())->Some_0.value_hash,
                found(store, rows.last()),
            )
        } else {
            batch_resolved(store, rows.drop_last())
        },
{
    let earlier = batch_requests(rows.drop_last());
    if let Some(request) = row_request(rows.last()) {
        assert(earlier.push(request).drop_last() =~= earlier);
    }
}

/// A digest has a value among those read exactly if the request of some row
/// is for it and finds one; the value is what the last such row finds.
pub proof fn lemma_resolved_is_last_found(store: StoreRows, rows: Rows, hash: Seq<u8>)
    ensures
        batch_resolved(store, rows).contains_key(hash) <==> exists|at: int|
            0 <= at < rows.len() && finds(store, #[trigger] rows[at], hash),
        batch_resolved(store, rows).contains_key(hash) ==> exists|at: int|
            #[trigger] is_last_finding(store, rows, hash, at) && batch_resolved(store, rows)[hash]
                == found(store, rows[at]),
    decreases rows.len(),
{
    if rows.len() > 0 {
        let earlier = rows.drop_last();
        let last = rows.len() - 1;
        lemma_batch_resolved_step(store, rows);
        lemma_resolved_is_last_found(store, earlier, hash);
        if finds(store, rows[last], hash) {
            assert(is_last_finding(store, rows, hash, last));
        } else if batch_resolved(store, earlier).contains_key(hash) {
            let at = choose|at: int|
                #[trigger] is_last_finding(store, earlier, hash, at) && batch_resolved(
                    store,
                    earlier,
                )[hash] == found(store, earlier[at]);
            assert(rows[at] == earlier[at]);
            assert forall|later: int| at < later < rows.len() implies !finds(
                store,
                #[trigger] rows[later],
                hash,
            ) by {
                if later < last {
                    assert(rows[later] == earlier[later]);
                }
            }
            assert(is_last_finding(store, rows, hash, at));
        }
        if exists|at: int| 0 <= at < rows.len() && finds(store, #[trigger] rows[at], hash) {
            let at = choose|at: int| 0 <= at < rows.len() && finds(store, #[trigger] rows[at], hash);
            if at < last {
                assert(earlier[at] == rows[at]);
            }
        }
        if batch_resolved(store, rows).contains_key(hash) && !finds(store, rows[last], hash) {
            let at = choose|at: int| 0 <= at < earlier.len() && finds(
                store,
                #[trigger] earlier[at],
                hash,
            );
            assert(rows[at] == earlier[at]);
        }
    }
}

/// Every selected key of sorted rows lies between the first and the last
/// selected key.
pub proof fn lemma_selected_within(rows: Rows, at: int)
    requires
        sorted(rows),
        0 <= at < rows.len(),
        selected(rows[at]),
    ensures
        first_selected(rows) matches Some(low) && lex_le(low, rows[at].0),
        last_selected(rows) matches Some(high) && lex_le(rows[at].0, high),
        in_range(rows[at].0, first_selected(rows), upper_bound_key(last_selected(rows))),
    decreases rows.len(),
{
    let earlier = rows.drop_last();
    let last = rows.len() - 1;
    assert forall|i: int, j: int| 0 <= i < j < earlier.len() implies lex_lt(
        #[trigger] earlier[i].0,
        #[trigger] earlier[j].0,
    ) by {
        assert(earlier[i] == rows[i] && earlier[j] == rows[j]);
    }
    crate::inlining_migration::lemma_selected_keys(earlier);
    if at < last {
        lemma_selected_within(earlier, at);
        if selected(rows.last()) {
            assert(lex_lt(rows[at].0, rows[last].0));
        }
    } else {
        if let Some(low) = first_selected(earlier) {
            let i = crate::column::index_of(earlier, low);
            assert(rows[i].0 == low);
        }
    }
    lemma_lex_successor(rows[at].0, last_selected(rows)->Some_0);
}

/// Whether the trie store backs every reference in `rows`: the key of the
/// row names a shard, the trie store holds a value under the digest for that
/// shard, and the value is as long as the reference says.
pub open spec fn trie_backs_refs(rows: Rows, store: StoreRows) -> bool {
    forall|i: int|
        0 <= i < rows.len() ==> (decoding((#[trigger] rows[i]).1) matches Ok(
            FlatValue::Ref { hash, length },
        ) ==> {
            &&& key_shard_uid(rows[i].0) matches Some(shard_uid)
            &&& store.trie_value(shard_uid, hash) matches Some(bytes)
            &&& bytes.len() == length
        })
}

/// Whether a digest names one value in `rows`: two references with the same
/// digest have the same value behind them, in whatever shards they are.
pub open spec fn one_value_per_digest(rows: Rows, store: StoreRows) -> bool {
    forall|i: int, j: int|
        0 <= i < rows.len() && 0 <= j < rows.len() ==> ({
            &&& key_shard_uid((#[trigger] rows[i]).0) matches Some(first_shard)
            &&& key_shard_uid((#[trigger] rows[j]).0) matches Some(second_shard)
            &&& decoding(rows[i].1) matches Ok(FlatValue::Ref { hash: first, length: _ })
            &&& decoding(rows[j].1) matches Ok(FlatValue::Ref { hash: second, length: _ })
            &&& first == second
        } ==> store.trie_value(
            key_shard_uid(rows[i].0)->Some_0,
            decoding(rows[i].1)->Ok_0->Ref_hash,
        ) == store.trie_value(
            key_shard_uid(rows[j].0)->Some_0,
            decoding(rows[j].1)->Ok_0->Ref_hash,
        ))
}

/// A full migration inlines every small value and leaves the rest alone.
///
/// Over a store whose trie store backs every reference, and in which a
/// digest names one value: after the migration, every entry that was a
/// reference to at most `INLINE_DISK_VALUE_THRESHOLD` bytes holds exactly
/// the bytes that the trie store has for it, inlined; every other entry is
/// unchanged, whether a reference to more bytes, inlined bytes, or bytes
/// that are no flat-state value.
pub proof fn lemma_full_migration(rows: Rows, store: StoreRows, batch_size: int, i: int)
    requires
        sorted(rows),
        batch_size > 0,
        trie_backs_refs(rows, store),
        one_value_per_digest(rows, store),
        0 <= i < rows.len(),
    ensures
        migrated_rows(rows, store, batch_size)[i].0 == rows[i].0,
        match decoding(rows[i].1) {
            Ok(FlatValue::Ref { hash, length }) => if length <= INLINE_DISK_VALUE_THRESHOLD {
                let bytes = store.trie_value(key_shard_uid(rows[i].0)->Some_0, hash)->Some_0;
                &&& bytes.len() == length
                &&& migrated_rows(rows, store, batch_size)[i].1 == (FlatValue::Inlined {
                    bytes,
                }).encoding()
                &&& decoding(migrated_rows(rows, store, batch_size)[i].1) == Ok::<
                    FlatValue,
                    DecodeError,
                >(FlatValue::Inlined { bytes })
            } else {
                migrated_rows(rows, store, batch_size)[i] == rows[i]
            },
            _ => migrated_rows(rows, store, batch_size)[i] == rows[i],
        },
{
    let len = rows.len() as int;
    let batch = i / batch_size;
    lemma_index_in_batch(len, batch_size, i);
    lemma_batch_bounds(len, batch_size, batch);
    let start = batch * batch_size;
    let rows_of_batch = batch_of(rows, batch_size, batch);
    let resolved = batch_resolved(store, rows_of_batch);
    let lower = first_selected(rows_of_batch);
    let upper = upper_bound_key(last_selected(rows_of_batch));
    let row = rows[i];
    assert(rows_of_batch[i - start] == row);
    assert forall|a: int, b: int| 0 <= a < b < rows_of_batch.len() implies lex_lt(
        #[trigger] rows_of_batch[a].0,
        #[trigger] rows_of_batch[b].0,
    ) by {
        assert(rows_of_batch[a] == rows[start + a] && rows_of_batch[b] == rows[start + b]);
    }
    if let Ok(FlatValue::Ref { hash, length }) = decoding(row.1) {
        let shard_uid = key_shard_uid(row.0)->Some_0;
        let bytes = store.trie_value(shard_uid, hash)->Some_0;
        lemma_resolved_is_last_found(store, rows_of_batch, hash);
        if resolved.contains_key(hash) {
            let at = choose|at: int|
                #[trigger] is_last_finding(store, rows_of_batch, hash, at) && resolved[hash]
                    == found(store, rows_of_batch[at]);
            let other = rows_of_batch[at];
            assert(bytes.len() == decoding(other.1)->Ok_0->Ref_length);
        }
        if length <= INLINE_DISK_VALUE_THRESHOLD {
            lemma_selected_within(rows_of_batch, i - start);
            assert(rewritable(row, lower, upper, resolved));
            lemma_decode_encode(FlatValue::Inlined { bytes });
        }
    }
}

/// Every row lies in one of the batches.
pub proof fn lemma_index_in_batch(len: int, batch_size: int, i: int)
    requires
        batch_size > 0,
        0 <= i < len,
    ensures
        0 <= i / batch_size < num_batches(len, batch_size),
{
    vstd::arithmetic::div_mod::lemma_fundamental_div_mod(i, batch_size);
    vstd::arithmetic::div_mod::lemma_fundamental_div_mod(len + batch_size - 1, batch_size);
    let q = i / batch_size;
    let count = num_batches(len, batch_size);
    assert(q >= 0) by (nonlinear_arith)
        requires
            i == batch_size * q + i % batch_size,
            0 <= i % batch_size < batch_size,
            i >= 0,
            batch_size > 0,
    ;
    assert(q < count) by (nonlinear_arith)
        requires
            i == batch_size * q + i % batch_size,
            0 <= i % batch_size < batch_size,
            len + batch_size - 1 == batch_size * count + (len + batch_size - 1) % batch_size,
            0 <= (len + batch_size - 1) % batch_size < batch_size,
            i < len,
            batch_size > 0,
    ;
}

/// Within one batch, a second commit finds nothing to do: what the first
/// left as a reference, the second leaves too.
pub proof fn lemma_batch_idempotent(store: StoreRows, rows: Rows, at: int)
    requires
        sorted(rows),
        0 <= at < rows.len(),
    ensures
        ({
            let once = inlined_rows(
                rows,
                first_selected(rows),
                upper_bound_key(last_selected(rows)),
                batch_resolved(store, rows),
            );
            inlined_row(
                once[at],
                first_selected(once),
                upper_bound_key(last_selected(once)),
                batch_resolved(store, once),
            ) == once[at]
        }),
{
    let lower = first_selected(rows);
    let upper = upper_bound_key(last_selected(rows));
    let resolved = batch_resolved(store, rows);
    let once = inlined_rows(rows, lower, upper, resolved);
    let lower_again = first_selected(once);
    let upper_again = upper_bound_key(last_selected(once));
    let resolved_again = batch_resolved(store, once);
    // A row that the first commit rewrote holds inlined bytes, and a row
    // that is still selected was not rewritten.
    assert forall|k: int| 0 <= k < rows.len() && #[trigger] once[k] != rows[k] implies decoding(
        once[k].1,
    ) is Ok && decoding(once[k].1)->Ok_0 is Inlined by {
        lemma_decode_encode(FlatValue::Inlined { bytes: resolved_bytes(rows[k], resolved) });
    }
    if rewritable(once[at], lower_again, upper_again, resolved_again) && resolved_bytes(
        once[at],
        resolved_again,
    ).len() <= u32::MAX {
        let hash = decoding(rows[at].1)->Ok_0->Ref_hash;
        lemma_resolved_is_last_found(store, once, hash);
        lemma_resolved_is_last_found(store, rows, hash);
        let again = choose|k: int|
            #[trigger] is_last_finding(store, once, hash, k) && resolved_again[hash] == found(
                store,
                once[k],
            );
        let first = choose|k: int|
            #[trigger] is_last_finding(store, rows, hash, k) && resolved[hash] == found(
                store,
                rows[k],
            );
        // The row that decided the value the first time is selected, so it
        // lies in the range; it is still a reference, so its value was too
        // long; so it is still there the second time, and decides again.
        lemma_selected_within(rows, again);
        lemma_selected_within(rows, first);
        assert(finds(store, once[first], hash));
    }
}

/// Running the migration a second time changes nothing.
///
/// Whatever the store holds: the flat state after two migrations with the
/// same batch size, over the same trie store, is the flat state after one.
pub proof fn lemma_migration_idempotent(
    rows: Rows,
    store: StoreRows,
    store_after: StoreRows,
    batch_size: int,
)
    requires
        sorted(rows),
        batch_size > 0,
        store_after.state == store.state,
    ensures
        migrated_rows(migrated_rows(rows, store, batch_size), store_after, batch_size)
            == migrated_rows(rows, store, batch_size),
{
    let once = migrated_rows(rows, store, batch_size);
    let twice = migrated_rows(once, store_after, batch_size);
    let len = rows.len() as int;
    assert forall|i: int| 0 <= i < len implies twice[i] == once[i] by {
        let batch = i / batch_size;
        lemma_index_in_batch(len, batch_size, i);
        lemma_batch_bounds(len, batch_size, batch);
        let start = batch * batch_size;
        let rows_of_batch = batch_of(rows, batch_size, batch);
        let once_of_batch = batch_of(once, batch_size, batch);
        assert forall|a: int, b: int| 0 <= a < b < rows_of_batch.len() implies lex_lt(
            #[trigger] rows_of_batch[a].0,
            #[trigger] rows_of_batch[b].0,
        ) by {
            assert(rows_of_batch[a] == rows[start + a] && rows_of_batch[b] == rows[start + b]);
        }
        assert(once_of_batch =~= inlined_rows(
            rows_of_batch,
            first_selected(rows_of_batch),
            upper_bound_key(last_selected(rows_of_batch)),
            batch_resolved(store, rows_of_batch),
        )) by {
            assert forall|k: int| 0 <= k < rows_of_batch.len() implies once_of_batch[k]
                == inlined_row(
                rows_of_batch[k],
                first_selected(rows_of_batch),
                upper_bound_key(last_selected(rows_of_batch)),
                batch_resolved(store, rows_of_batch),
            ) by {
                assert(once_of_batch[k] == once[start + k]);
            }
        }
        crate::inlining_migration::lemma_resolve_same_state(
            store_after,
            store,
            batch_requests(once_of_batch),
        );
        lemma_batch_idempotent(store, rows_of_batch, i - start);
    }
}

/// The rows that lie in the first `batches` batches.
pub open spec fn rows_before(rows: Rows, batch_size: int, batches: int) -> Rows {
    rows.subrange(
        0,
        if batches * batch_size < rows.len() {
            batches * batch_size
        } else {
            rows.len() as int
        },
    )
}

/// How many of the first `batches` batches had a value read, so that they
/// were committed.
pub open spec fn committed_batches(rows: Rows, store: StoreRows, batch_size: int, batches: int) -> nat
    decreases batches,
{
    if batches <= 0 {
        0
    } else {
        committed_batches(rows, store, batch_size, batches - 1) + if batch_resolved(
            store,
            batch_of(rows, batch_size, batches - 1),
        ) != Map::<Seq<u8>, Seq<u8>>::empty() {
            1nat
        } else {
            0nat
        }
    }
}

/// How many of the rows the migration rewrites.
pub open spec fn rewritten_rows(rows: Rows, after: Rows) -> nat
    decreases rows.len(),
{
    if rows.len() == 0 || after.len() != rows.len() {
        0
    } else {
        rewritten_rows(rows.drop_last(), after.drop_last()) + if after.last() != rows.last() {
            1nat
        } else {
            0nat
        }
    }
}

/// The rewritten rows of two runs of rows are those of the first and those
/// of the second.
pub proof fn lemma_rewritten_concat(first: Rows, first_after: Rows, second: Rows, second_after: Rows)
    requires
        first.len() == first_after.len(),
        second.len() == second_after.len(),
    ensures
        rewritten_rows(first + second, first_after + second_after) == rewritten_rows(
            first,
            first_after,
        ) + rewritten_rows(second, second_after),
    decreases second.len(),
{
    if second.len() == 0 {
        assert(first_after + second_after =~= first_after);
    } else {
        assert((first + second).drop_last() =~= first + second.drop_last());
        assert((first_after + second_after).drop_last() =~= first_after + second_after.drop_last());
        lemma_rewritten_concat(first, first_after, second.drop_last(), second_after.drop_last());
    }
}

/// The commit counts the rows that it rewrites.
pub proof fn lemma_inlined_are_rewritten(
    rows: Rows,
    lower: Option<Seq<u8>>,
    upper: Option<Seq<u8>>,
    resolved: Map<Seq<u8>, Seq<u8>>,
)
    ensures
        (RowMeasure::Inlined { lower, upper, resolved }).total(rows) == rewritten_rows(
            rows,
            inlined_rows(rows, lower, upper, resolved),
        ),
    decreases rows.len(),
{
    if rows.len() > 0 {
        let after = inlined_rows(rows, lower, upper, resolved);
        assert(after.drop_last() =~= inlined_rows(rows.drop_last(), lower, upper, resolved));
        lemma_inlined_are_rewritten(rows.drop_last(), lower, upper, resolved);
        let row = rows.last();
        if rewritable(row, lower, upper, resolved) && resolved_bytes(row, resolved).len()
            <= u32::MAX {
            lemma_decode_encode(FlatValue::Inlined { bytes: resolved_bytes(row, resolved) });
        }
    }
}

/// What the migration counts, in whole.
///
/// It looks at every entry once, and adds up the bytes that the decodable
/// and the selected entries stand for. It counts as inlined exactly the
/// entries that it rewrites, and it switches flat-state updates off once for
/// every batch in which a value was read. Each counter stays at `u64::MAX`
/// once it has reached it.
pub proof fn lemma_migration_counts(rows: Rows, store: StoreRows, batch_size: int, batches: int)
    requires
        batch_size > 0,
        0 <= batches <= num_batches(rows.len() as int, batch_size),
    ensures
        ({
            let stats = stats_after(rows, store, batch_size, batches);
            let seen = rows_before(rows, batch_size, batches);
            let after = rows_before(migrated_rows(rows, store, batch_size), batch_size, batches);
            &&& stats.processed_count == sat_add(0, seen.len() as int)
            &&& stats.processed_total_values_size == sat_add(
                0,
                RowMeasure::ValueLen.total(seen) as int,
            )
            &&& stats.inlined_total_values_size == sat_add(
                0,
                RowMeasure::EligibleLen.total(seen) as int,
            )
            &&& stats.inlined_count == sat_add(0, rewritten_rows(seen, after) as int)
            &&& stats.paused_count == sat_add(
                0,
                committed_batches(rows, store, batch_size, batches) as int,
            )
            &&& stats.skipped_count >= sat_add(0, RowMeasure::Undecodable.total(seen) as int)
        }),
        batches == num_batches(rows.len() as int, batch_size) ==> rows_before(
            rows,
            batch_size,
            batches,
        ) == rows,
    decreases batches,
{
    let len = rows.len() as int;
    if batches == 0 {
        assert(0 * batch_size == 0) by (nonlinear_arith);
        if num_batches(len, batch_size) == 0 {
            vstd::arithmetic::div_mod::lemma_fundamental_div_mod(len + batch_size - 1, batch_size);
        }
    } else {
        let batch = batches - 1;
        lemma_migration_counts(rows, store, batch_size, batch);
        lemma_batch_bounds(len, batch_size, batch);
        let migrated = migrated_rows(rows, store, batch_size);
        let seen = rows_before(rows, batch_size, batch);
        let after = rows_before(migrated, batch_size, batch);
        let rows_of_batch = batch_of(rows, batch_size, batch);
        let lower = first_selected(rows_of_batch);
        let upper = upper_bound_key(last_selected(rows_of_batch));
        let resolved = batch_resolved(store, rows_of_batch);
        let batch_after = inlined_rows(rows_of_batch, lower, upper, resolved);
        assert(rows_before(rows, batch_size, batches) =~= seen + rows_of_batch);
        assert(batch_of(migrated, batch_size, batch) =~= batch_after) by {
            assert forall|k: int| 0 <= k < rows_of_batch.len() implies batch_of(
                migrated,
                batch_size,
                batch,
            )[k] == batch_after[k] by {
                assert(batch_of(migrated, batch_size, batch)[k] == migrated[batch * batch_size
                    + k]);
            }
        }
        assert(rows_before(migrated, batch_size, batches) =~= after + batch_after);
        RowMeasure::ValueLen.lemma_total_concat(seen, rows_of_batch);
        RowMeasure::EligibleLen.lemma_total_concat(seen, rows_of_batch);
        RowMeasure::Undecodable.lemma_total_concat(seen, rows_of_batch);
        lemma_rewritten_concat(seen, after, rows_of_batch, batch_after);
        lemma_inlined_are_rewritten(rows_of_batch, lower, upper, resolved);
        if batches == num_batches(len, batch_size) {
            assert(rows_before(rows, batch_size, batches) =~= rows);
        }
    }
}

} // verus!
