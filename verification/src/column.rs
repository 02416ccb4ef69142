//! One column of the key-value store: byte keys to byte values, kept and
//! handed out in key order.

use crate::bytes::{
    compare_keys, copy_bytes, lemma_lex_le_lt, lemma_lex_total, lemma_lex_transitive, lex_le, lex_lt,
    KeyOrder,
};
use vstd::prelude::*;

verus! {

/// One key with its value, as a column hands it out.
#[derive(Clone, Debug, PartialEq, Eq)]
pub struct Entry {
    /// The key.
    pub key: Vec<u8>,
    /// The value stored under the key.
    pub value: Vec<u8>,
}

/// The contents of a column, or of a part of it: keys with their values.
pub type Rows = Seq<(Seq<u8>, Seq<u8>)>;

/// The keys and values that `entries` hold.
pub open spec fn rows_of(entries: Seq<Entry>) -> Rows {
    entries.map_values(|e: Entry| (e.key@, e.value@))
}

/// Whether the keys of `rows` strictly increase.
pub open spec fn sorted(rows: Rows) -> bool {
    forall|i: int, j: int| 0 <= i < j < rows.len() ==> lex_lt(#[trigger] rows[i].0, #[trigger] rows[j].0)
}

/// Whether `rows` hold `key`.
pub open spec fn has_key(rows: Rows, key: Seq<u8>) -> bool {
    exists|i: int| 0 <= i < rows.len() && #[trigger] rows[i].0 == key
}

/// Where `rows` hold `key`, if they do.
pub open spec fn index_of(rows: Rows, key: Seq<u8>) -> int {
    choose|i: int| 0 <= i < rows.len() && #[trigger] rows[i].0 == key
}

/// The value that `rows` hold under `key`.
pub open spec fn lookup(rows: Rows, key: Seq<u8>) -> Option<Seq<u8>> {
    if has_key(rows, key) {
        Some(rows[index_of(rows, key)].1)
    } else {
        None
    }
}

/// The rows as a map from key to value.
pub open spec fn to_map(rows: Rows) -> Map<Seq<u8>, Seq<u8>> {
    Map::new(|key: Seq<u8>| has_key(rows, key), |key: Seq<u8>| rows[index_of(rows, key)].1)
}

/// Whether `key` lies between the bounds: at or after `lower`, and before
/// `upper`. A missing bound does not restrict.
pub open spec fn in_range(key: Seq<u8>, lower: Option<Seq<u8>>, upper: Option<Seq<u8>>) -> bool {
    &&& lower matches Some(low) ==> lex_le(low, key)
    &&& upper matches Some(up) ==> lex_lt(key, up)
}

/// The first position of `rows` whose key is not before `key`: where `key`
/// stands, or where it would be put.
pub open spec fn is_lower_bound(rows: Rows, key: Seq<u8>, at: int) -> bool {
    &&& 0 <= at <= rows.len()
    &&& forall|i: int| 0 <= i < at ==> lex_lt(#[trigger] rows[i].0, key)
    &&& forall|i: int| at <= i < rows.len() ==> !lex_lt(#[trigger] rows[i].0, key)
}

/// Where `key` stands in `rows`, or where it would be put.
pub open spec fn lower_bound_of(rows: Rows, key: Seq<u8>) -> int {
    choose|at: int| is_lower_bound(rows, key, at)
}

/// The rows after `value` was stored under `key`: in place of the old value
/// where the key was there, else as a new row at the key's place.
pub open spec fn rows_set(rows: Rows, key: Seq<u8>, value: Seq<u8>) -> Rows {
    if has_key(rows, key) {
        rows.update(index_of(rows, key), (key, value))
    } else {
        rows.insert(lower_bound_of(rows, key), (key, value))
    }
}

/// The rows after `key` was removed.
pub open spec fn rows_delete(rows: Rows, key: Seq<u8>) -> Rows {
    if has_key(rows, key) {
        rows.remove(index_of(rows, key))
    } else {
        rows
    }
}

/// A key has one lower bound only.
pub proof fn lemma_lower_bound_unique(rows: Rows, key: Seq<u8>, at: int)
    requires
        is_lower_bound(rows, key, at),
    ensures
        lower_bound_of(rows, key) == at,
{
    let other = lower_bound_of(rows, key);
    if other < at {
        assert(lex_lt(rows[other].0, key));
    } else if at < other {
        assert(lex_lt(rows[at].0, key));
    }
}

/// Storing a value keeps the rows sorted, and changes the map at that key
/// alone.
pub proof fn lemma_rows_set(rows: Rows, key: Seq<u8>, value: Seq<u8>)
    requires
        sorted(rows),
    ensures
        sorted(rows_set(rows, key, value)),
        to_map(rows_set(rows, key, value)) == to_map(rows).insert(key, value),
        has_key(rows, key) ==> rows_set(rows, key, value).len() == rows.len(),
{
    if has_key(rows, key) {
        lemma_update_value(rows, index_of(rows, key), value);
    } else {
        lemma_lower_bound_exists(rows, key, 0);
        lemma_insert_row(rows, lower_bound_of(rows, key), key, value);
    }
}

/// Every key has a lower bound in sorted rows: the first position at or
/// after `from` whose key is not before it.
proof fn lemma_lower_bound_exists(rows: Rows, key: Seq<u8>, from: int)
    requires
        sorted(rows),
        0 <= from <= rows.len(),
        forall|i: int| 0 <= i < from ==> lex_lt(#[trigger] rows[i].0, key),
    ensures
        exists|at: int| is_lower_bound(rows, key, at),
    decreases rows.len() - from,
{
    if from == rows.len() || !lex_lt(rows[from].0, key) {
        assert forall|i: int| from <= i < rows.len() implies !lex_lt(#[trigger] rows[i].0, key) by {
            if i > from && lex_lt(rows[i].0, key) {
                lemma_lex_transitive(rows[from].0, rows[i].0, key);
            }
        }
        assert(is_lower_bound(rows, key, from));
    } else {
        lemma_lower_bound_exists(rows, key, from + 1);
    }
}

/// Removing a key keeps the rows sorted, and changes the map at that key
/// alone.
pub proof fn lemma_rows_delete(rows: Rows, key: Seq<u8>)
    requires
        sorted(rows),
    ensures
        sorted(rows_delete(rows, key)),
        to_map(rows_delete(rows, key)) == to_map(rows).remove(key),
{
    if has_key(rows, key) {
        lemma_remove_row(rows, index_of(rows, key));
    } else {
        assert(to_map(rows) =~= to_map(rows).remove(key));
    }
}

/// Where the keys between the bounds start in `rows`.
pub open spec fn range_from(rows: Rows, lower: Option<Seq<u8>>) -> int {
    match lower {
        Some(low) => lower_bound_of(rows, low),
        None => 0,
    }
}

/// Where the keys between the bounds end in `rows`.
pub open spec fn range_to(rows: Rows, lower: Option<Seq<u8>>, upper: Option<Seq<u8>>) -> int {
    let from = range_from(rows, lower);
    let to = match upper {
        Some(up) => lower_bound_of(rows, up),
        None => rows.len() as int,
    };
    if to < from {
        from
    } else {
        to
    }
}

/// The rows whose keys lie between the bounds, in key order.
pub open spec fn range_rows(rows: Rows, lower: Option<Seq<u8>>, upper: Option<Seq<u8>>) -> Rows {
    rows.subrange(range_from(rows, lower), range_to(rows, lower, upper))
}

/// The rows of a range are those whose keys lie between the bounds, all of
/// them and no others.
pub proof fn lemma_range_rows(rows: Rows, lower: Option<Seq<u8>>, upper: Option<Seq<u8>>)
    requires
        sorted(rows),
    ensures
        0 <= range_from(rows, lower) <= range_to(rows, lower, upper) <= rows.len(),
        forall|i: int|
            0 <= i < rows.len() ==> ((range_from(rows, lower) <= i < range_to(rows, lower, upper))
                <==> in_range(#[trigger] rows[i].0, lower, upper)),
{
    if let Some(low) = lower {
        lemma_lower_bound_exists(rows, low, 0);
    }
    if let Some(up) = upper {
        lemma_lower_bound_exists(rows, up, 0);
    }
    let from = range_from(rows, lower);
    let to = range_to(rows, lower, upper);
    assert forall|i: int| 0 <= i < rows.len() implies ((from <= i < to) <==> in_range(
        #[trigger] rows[i].0,
        lower,
        upper,
    )) by {
        if let Some(low) = lower {
            lemma_lex_total(rows[i].0, low);
        }
        if let (Some(low), Some(up)) = (lower, upper) {
            let end = lower_bound_of(rows, up);
            if end < from && in_range(rows[i].0, lower, upper) {
                lemma_lex_le_lt(low, rows[i].0, up);
                lemma_lex_transitive(rows[end].0, low, up);
            }
        }
    }
}

/// In sorted rows a key stands at one place only.
pub proof fn lemma_sorted_index(rows: Rows, i: int)
    requires
        sorted(rows),
        0 <= i < rows.len(),
    ensures
        has_key(rows, rows[i].0),
        index_of(rows, rows[i].0) == i,
        lookup(rows, rows[i].0) == Some(rows[i].1),
{
    let j = index_of(rows, rows[i].0);
    if j < i {
        lemma_lex_total(rows[j].0, rows[i].0);
    } else if i < j {
        lemma_lex_total(rows[i].0, rows[j].0);
    }
}

/// At the lower bound of a key stands that key or a later one.
pub proof fn lemma_lower_bound_finds(rows: Rows, key: Seq<u8>, at: int)
    requires
        sorted(rows),
        is_lower_bound(rows, key, at),
    ensures
        has_key(rows, key) <==> (at < rows.len() && rows[at].0 == key),
        has_key(rows, key) ==> index_of(rows, key) == at,
{
    if has_key(rows, key) {
        let j = index_of(rows, key);
        lemma_lex_total(key, key);
        if j > at {
            lemma_lex_total(rows[at].0, key);
        }
    }
    if at < rows.len() && rows[at].0 == key {
        lemma_sorted_index(rows, at);
    }
}

/// Replacing the value at one place keeps the keys, and changes the lookup
/// of that key alone.
pub proof fn lemma_update_value(rows: Rows, i: int, value: Seq<u8>)
    requires
        sorted(rows),
        0 <= i < rows.len(),
    ensures
        sorted(rows.update(i, (rows[i].0, value))),
        to_map(rows.update(i, (rows[i].0, value))) == to_map(rows).insert(rows[i].0, value),
{
    let key = rows[i].0;
    let after = rows.update(i, (key, value));
    assert forall|a: int, b: int| 0 <= a < b < after.len() implies lex_lt(
        #[trigger] after[a].0,
        #[trigger] after[b].0,
    ) by {
        assert(after[a].0 == rows[a].0 && after[b].0 == rows[b].0);
    }
    assert forall|k: Seq<u8>| has_key(after, k) == has_key(rows, k) by {
        if has_key(after, k) {
            let j = index_of(after, k);
            assert(rows[j].0 == k);
        }
        if has_key(rows, k) {
            let j = index_of(rows, k);
            assert(after[j].0 == k);
        }
    }
    assert forall|k: Seq<u8>| has_key(after, k) implies #[trigger] to_map(after)[k] == to_map(
        rows,
    ).insert(key, value)[k] by {
        let j = index_of(after, k);
        lemma_sorted_index(rows, i);
        lemma_sorted_index(rows, j);
        lemma_sorted_index(after, j);
        if j != i {
            assert(to_map(rows)[k] == rows[j].1);
        }
    }
    lemma_sorted_index(rows, i);
}

/// Putting a new key at its lower bound keeps the rows sorted and adds that
/// key alone.
pub proof fn lemma_insert_row(rows: Rows, at: int, key: Seq<u8>, value: Seq<u8>)
    requires
        sorted(rows),
        is_lower_bound(rows, key, at),
        !has_key(rows, key),
    ensures
        sorted(rows.insert(at, (key, value))),
        to_map(rows.insert(at, (key, value))) == to_map(rows).insert(key, value),
{
    let after = rows.insert(at, (key, value));
    assert forall|a: int, b: int| 0 <= a < b < after.len() implies lex_lt(
        #[trigger] after[a].0,
        #[trigger] after[b].0,
    ) by {
        if b == at {
            assert(after[a] == rows[a]);
        } else if a == at {
            lemma_lex_total(rows[b - 1].0, key);
        } else {
            let ra = if a < at { a } else { a - 1 };
            let rb = if b < at { b } else { b - 1 };
            assert(after[a] == rows[ra] && after[b] == rows[rb]);
        }
    }
    assert forall|k: Seq<u8>| has_key(after, k) == (k == key || has_key(rows, k)) by {
        if has_key(after, k) {
            let j = index_of(after, k);
            if j < at {
                assert(rows[j].0 == k);
            } else if j > at {
                assert(rows[j - 1].0 == k);
            }
        }
        if has_key(rows, k) {
            let j = index_of(rows, k);
            let aj = if j < at { j } else { j + 1 };
            assert(after[aj].0 == k);
        }
        if k == key {
            assert(after[at].0 == k);
        }
    }
    assert forall|k: Seq<u8>| has_key(after, k) implies #[trigger] to_map(after)[k] == to_map(
        rows,
    ).insert(key, value)[k] by {
        let j = index_of(after, k);
        lemma_sorted_index(after, j);
        if j < at {
            lemma_sorted_index(rows, j);
        } else if j > at {
            lemma_sorted_index(rows, j - 1);
        }
    }
}

/// Taking out the row at one place keeps the rows sorted and drops that key
/// alone.
pub proof fn lemma_remove_row(rows: Rows, at: int)
    requires
        sorted(rows),
        0 <= at < rows.len(),
    ensures
        sorted(rows.remove(at)),
        to_map(rows.remove(at)) == to_map(rows).remove(rows[at].0),
{
    let key = rows[at].0;
    let after = rows.remove(at);
    assert forall|a: int, b: int| 0 <= a < b < after.len() implies lex_lt(
        #[trigger] after[a].0,
        #[trigger] after[b].0,
    ) by {
        let ra = if a < at { a } else { a + 1 };
        let rb = if b < at { b } else { b + 1 };
        assert(after[a] == rows[ra] && after[b] == rows[rb]);
    }
    assert forall|k: Seq<u8>| has_key(after, k) == (k != key && has_key(rows, k)) by {
        if has_key(after, k) {
            let j = index_of(after, k);
            let rj = if j < at { j } else { j + 1 };
            lemma_sorted_index(rows, rj);
            lemma_sorted_index(rows, at);
        }
        if has_key(rows, k) && k != key {
            let j = index_of(rows, k);
            let aj = if j < at { j } else { j - 1 };
            assert(after[aj].0 == k);
        }
    }
    assert forall|k: Seq<u8>| has_key(after, k) implies #[trigger] to_map(after)[k] == to_map(
        rows,
    ).remove(key)[k] by {
        let j = index_of(after, k);
        lemma_sorted_index(after, j);
        let rj = if j < at { j } else { j + 1 };
        lemma_sorted_index(rows, rj);
    }
}

/// A column: keys with their values, in strictly increasing key order.
pub struct Column {
    entries: Vec<Entry>,
}

impl View for Column {
    type V = Rows;

    closed spec fn view(&self) -> Rows {
        rows_of(self.entries@)
    }
}

impl Column {
    #[verifier::type_invariant]
    spec fn keys_increase(&self) -> bool {
        sorted(rows_of(self.entries@))
    }

    /// What every column satisfies: its keys strictly increase.
    pub open spec fn wf(&self) -> bool {
        sorted(self@)
    }

    /// The column as a map from key to value.
    pub open spec fn map(&self) -> Map<Seq<u8>, Seq<u8>> {
        to_map(self@)
    }

    /// An empty column.
    pub fn new() -> (column: Column)
        ensures
            column.wf(),
            column@ == Seq::<(Seq<u8>, Seq<u8>)>::empty(),
            column.map() == Map::<Seq<u8>, Seq<u8>>::empty(),
    {
        let column = Column { entries: Vec::new() };
        column
    }

    /// The number of keys.
    pub fn len(&self) -> (len: usize)
        ensures
            self.wf(),
            len == self@.len(),
    {
        proof {
            use_type_invariant(self);
        }
        self.entries.len()
    }

    /// The first position whose key is not before `key`.
    pub fn lower_bound(&self, key: &[u8]) -> (at: usize)
        ensures
            self.wf(),
            is_lower_bound(self@, key@, at as int),
    {
        proof {
            use_type_invariant(self);
        }
        let mut low: usize = 0;
        let mut high: usize = self.entries.len();
        while low < high
            invariant
                self.wf(),
                0 <= low <= high <= self@.len(),
                self@.len() == self.entries@.len(),
                forall|i: int| 0 <= i < low ==> lex_lt(#[trigger] self@[i].0, key@),
                forall|i: int| high <= i < self@.len() ==> !lex_lt(#[trigger] self@[i].0, key@),
            decreases high - low,
        {
            let mid: usize = low + (high - low) / 2;
            let order = compare_keys(self.entries[mid].key.as_slice(), key);
            match order {
                KeyOrder::Before => {
                    assert forall|i: int| 0 <= i < mid + 1 implies lex_lt(
                        #[trigger] self@[i].0,
                        key@,
                    ) by {
                        if i < mid {
                            lemma_lex_transitive(self@[i].0, self@[mid as int].0, key@);
                        }
                    }
                    low = mid + 1;
                },
                _ => {
                    assert forall|i: int| mid <= i < self@.len() implies !lex_lt(
                        #[trigger] self@[i].0,
                        key@,
                    ) by {
                        lemma_lex_total(self@[mid as int].0, key@);
                        if i > mid && lex_lt(self@[i].0, key@) {
                            lemma_lex_transitive(self@[mid as int].0, self@[i].0, key@);
                        }
                    }
                    high = mid;
                },
            }
        }
        low
    }

    /// The value stored under `key`, if any.
    pub fn get(&self, key: &[u8]) -> (value: Option<Vec<u8>>)
        ensures
            self.wf(),
            match value {
                Some(bytes) => lookup(self@, key@) == Some(bytes@),
                None => lookup(self@, key@) is None,
            },
    {
        let at = self.lower_bound(key);
        proof {
            lemma_lower_bound_finds(self@, key@, at as int);
        }
        if at < self.entries.len() {
            let order = compare_keys(self.entries[at].key.as_slice(), key);
            if order == KeyOrder::Same {
                return Some(copy_bytes(self.entries[at].value.as_slice()));
            }
        }
        None
    }

    /// Stores `value` under `key`, in place of what was stored there.
    pub fn set(&mut self, key: &[u8], value: &[u8])
        ensures
            old(self).wf(),
            final(self).wf(),
            final(self)@ == rows_set(old(self)@, key@, value@),
            final(self).map() == old(self).map().insert(key@, value@),
    {
        let at = self.lower_bound(key);
        proof {
            lemma_lower_bound_finds(self@, key@, at as int);
            lemma_lower_bound_unique(self@, key@, at as int);
        }
        let mut found = false;
        if at < self.entries.len() {
            let order = compare_keys(self.entries[at].key.as_slice(), key);
            found = order == KeyOrder::Same;
        }
        let entry = Entry { key: copy_bytes(key), value: copy_bytes(value) };
        if found {
            proof {
                lemma_update_value(self@, at as int, value@);
            }
            let mut entries: Vec<Entry> = Vec::new();
            core::mem::swap(&mut self.entries, &mut entries);
            entries[at] = entry;
            assert(rows_of(entries@) =~= old(self)@.update(at as int, (key@, value@)));
            self.entries = entries;
        } else {
            proof {
                lemma_insert_row(self@, at as int, key@, value@);
            }
            let mut entries: Vec<Entry> = Vec::new();
            core::mem::swap(&mut self.entries, &mut entries);
            entries.insert(at, entry);
            assert(rows_of(entries@) =~= old(self)@.insert(at as int, (key@, value@)));
            self.entries = entries;
        }
    }

    /// Removes `key` and its value, if the column holds it.
    pub fn delete(&mut self, key: &[u8])
        ensures
            old(self).wf(),
            final(self).wf(),
            final(self)@ == rows_delete(old(self)@, key@),
            final(self).map() == old(self).map().remove(key@),
    {
        let at = self.lower_bound(key);
        proof {
            lemma_lower_bound_finds(self@, key@, at as int);
        }
        if at < self.entries.len() {
            let order = compare_keys(self.entries[at].key.as_slice(), key);
            if order == KeyOrder::Same {
                proof {
                    lemma_remove_row(self@, at as int);
                }
                let mut entries: Vec<Entry> = Vec::new();
                core::mem::swap(&mut self.entries, &mut entries);
                entries.remove(at);
                assert(rows_of(entries@) =~= old(self)@.remove(at as int));
                self.entries = entries;
                return ;
            }
        }
    }

    /// All keys with their values, in key order.
    pub fn iter(&self) -> (entries: Vec<Entry>)
        ensures
            self.wf(),
            rows_of(entries@) == self@,
    {
        proof {
            use_type_invariant(self);
        }
        let entries = self.copy_entries(0, self.entries.len());
        entries
    }

    /// The keys between the bounds with their values, in key order: those at
    /// or after `lower` and before `upper`. A missing bound does not
    /// restrict.
    pub fn iter_range(&self, lower: Option<&[u8]>, upper: Option<&[u8]>) -> (entries: Vec<Entry>)
        ensures
            self.wf(),
            rows_of(entries@) == range_rows(self@, option_view(lower), option_view(upper)),
    {
        proof {
            use_type_invariant(self);
        }
        let from: usize = match lower {
            Some(low) => {
                let at = self.lower_bound(low);
                proof {
                    lemma_lower_bound_unique(self@, low@, at as int);
                }
                at
            },
            None => 0,
        };
        let end: usize = match upper {
            Some(up) => {
                let at = self.lower_bound(up);
                proof {
                    lemma_lower_bound_unique(self@, up@, at as int);
                }
                at
            },
            None => self.entries.len(),
        };
        let to: usize = if end < from {
            from
        } else {
            end
        };
        self.copy_entries(from, to)
    }

    /// Copies of the entries at positions `from..to`.
    fn copy_entries(&self, from: usize, to: usize) -> (entries: Vec<Entry>)
        requires
            from <= to <= self@.len(),
        ensures
            rows_of(entries@) == self@.subrange(from as int, to as int),
    {
        let mut entries: Vec<Entry> = Vec::new();
        let mut i: usize = from;
        while i < to
            invariant
                from <= i <= to <= self@.len(),
                self@.len() == self.entries@.len(),
                rows_of(entries@) == self@.subrange(from as int, i as int),
            decreases to - i,
        {
            let entry = Entry {
                key: copy_bytes(self.entries[i].key.as_slice()),
                value: copy_bytes(self.entries[i].value.as_slice()),
            };
            let ghost before = entries@;
            let ghost row = (entry.key@, entry.value@);
            entries.push(entry);
            i += 1;
            assert(rows_of(entries@) =~= rows_of(before).push(row));
        }
        entries
    }
}

/// The bytes of an optional byte string.
pub open spec fn option_view(bytes: Option<&[u8]>) -> Option<Seq<u8>> {
    match bytes {
        Some(b) => Some(b@),
        None => None,
    }
}

} // verus!
