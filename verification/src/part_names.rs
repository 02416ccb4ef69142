//! Names of state parts in external storage.
//!
//! A part is stored at
//! `<chain_id>/epoch_height=<h>/shard_id=<s>/state_part_<id>_of_<n>`, numbers
//! in decimal. The directory of a part is its location without the last
//! segment. Names and locations are byte strings.

use crate::bytes::put_bytes;
use crate::decimal::{
    decimal, digits_end, digits_value, lemma_decimal, lemma_digits_end, put_decimal,
    read_decimal,
};
use crate::dump_progress::EpochId;
use std::collections::HashSet;
use vstd::prelude::*;

verus! {

broadcast use vstd::std_specs::hash::group_hash_axioms;

/// The bytes of `state_part_`.
pub open spec fn name_prefix() -> Seq<u8> {
    seq![115u8, 116u8, 97u8, 116u8, 101u8, 95u8, 112u8, 97u8, 114u8, 116u8, 95u8]
}

/// The bytes of `_of_`.
pub open spec fn name_middle() -> Seq<u8> {
    seq![95u8, 111u8, 102u8, 95u8]
}

/// The bytes of `/epoch_height=`.
pub open spec fn epoch_height_label() -> Seq<u8> {
    seq![
        47u8,
        101u8,
        112u8,
        111u8,
        99u8,
        104u8,
        95u8,
        104u8,
        101u8,
        105u8,
        103u8,
        104u8,
        116u8,
        61u8,
    ]
}

/// The bytes of `/shard_id=`.
pub open spec fn shard_id_label() -> Seq<u8> {
    seq![47u8, 115u8, 104u8, 97u8, 114u8, 100u8, 95u8, 105u8, 100u8, 61u8]
}

/// The byte `/`.
pub const SLASH: u8 = 47;

/// The name of part `part_id` of `num_parts`: `state_part_<id>_of_<n>`.
pub open spec fn part_name(part_id: u64, num_parts: u64) -> Seq<u8> {
    name_prefix() + decimal(part_id as nat) + name_middle() + decimal(num_parts as nat)
}

/// The directory of the parts of one shard in one epoch:
/// `<chain_id>/epoch_height=<h>/shard_id=<s>`.
pub open spec fn location_directory(chain_id: Seq<u8>, epoch_height: u64, shard_id: u64) -> Seq<u8> {
    chain_id + epoch_height_label() + decimal(epoch_height as nat) + shard_id_label() + decimal(
        shard_id as nat,
    )
}

/// The location of one part: its directory, `/`, and its name.
pub open spec fn location(
    chain_id: Seq<u8>,
    epoch_height: u64,
    shard_id: u64,
    part_id: u64,
    num_parts: u64,
) -> Seq<u8> {
    location_directory(chain_id, epoch_height, shard_id).push(SLASH) + part_name(
        part_id,
        num_parts,
    )
}

/// The part number and the number of parts that a name says, if it is the
/// name of a part: `state_part_`, digits, `_of_`, digits and nothing more,
/// with both numbers at most `u64::MAX`. Leading zeros are allowed.
pub open spec fn parse_part_name(name: Seq<u8>) -> Option<(u64, u64)> {
    let id_start = name_prefix().len() as int;
    let id_end = digits_end(name, id_start);
    let num_start = id_end + name_middle().len();
    let num_end = digits_end(name, num_start);
    if name.len() < id_start || name.subrange(0, id_start) != name_prefix() {
        None
    } else if id_end == id_start {
        None
    } else if name.len() < num_start || name.subrange(id_end, num_start) != name_middle() {
        None
    } else if num_end == num_start || num_end != name.len() {
        None
    } else if digits_value(name.subrange(id_start, id_end)) > u64::MAX || digits_value(
        name.subrange(num_start, num_end),
    ) > u64::MAX {
        None
    } else {
        Some(
            (
                digits_value(name.subrange(id_start, id_end)) as u64,
                digits_value(name.subrange(num_start, num_end)) as u64,
            ),
        )
    }
}

/// The name of a part says its number and the number of parts.
pub proof fn lemma_part_name_round_trip(part_id: u64, num_parts: u64)
    ensures
        parse_part_name(part_name(part_id, num_parts)) == Some((part_id, num_parts)),
{
    let name = part_name(part_id, num_parts);
    let id = decimal(part_id as nat);
    let num = decimal(num_parts as nat);
    lemma_decimal(part_id as nat);
    lemma_decimal(num_parts as nat);
    let id_start = name_prefix().len() as int;
    let id_end = id_start + id.len();
    let num_start = id_end + name_middle().len();
    let num_end = num_start + num.len();
    assert(name.subrange(0, id_start) =~= name_prefix());
    assert(name.subrange(id_start, id_end) =~= id);
    assert(name.subrange(id_end, num_start) =~= name_middle());
    assert(name.subrange(num_start, num_end) =~= num);
    lemma_digits_end(name, id_start, id_end);
    lemma_digits_end(name, num_start, num_end);
}

/// Appends `state_part_`.
fn put_name_prefix(out: &mut Vec<u8>)
    ensures
        final(out)@ == old(out)@ + name_prefix(),
{
    let label: [u8; 11] = [115, 116, 97, 116, 101, 95, 112, 97, 114, 116, 95];
    put_bytes(out, label.as_slice());
}

/// Appends `_of_`.
fn put_name_middle(out: &mut Vec<u8>)
    ensures
        final(out)@ == old(out)@ + name_middle(),
{
    let label: [u8; 4] = [95, 111, 102, 95];
    put_bytes(out, label.as_slice());
}

/// Appends `/epoch_height=`.
fn put_epoch_height_label(out: &mut Vec<u8>)
    ensures
        final(out)@ == old(out)@ + epoch_height_label(),
{
    let label: [u8; 14] = [47, 101, 112, 111, 99, 104, 95, 104, 101, 105, 103, 104, 116, 61];
    put_bytes(out, label.as_slice());
}

/// Appends `/shard_id=`.
fn put_shard_id_label(out: &mut Vec<u8>)
    ensures
        final(out)@ == old(out)@ + shard_id_label(),
{
    let label: [u8; 10] = [47, 115, 104, 97, 114, 100, 95, 105, 100, 61];
    put_bytes(out, label.as_slice());
}

/// Whether `bytes` hold `pattern` at `at`.
fn holds_at(bytes: &[u8], at: usize, pattern: &[u8]) -> (holds: bool)
    requires
        at <= bytes@.len(),
    ensures
        holds == (at + pattern@.len() <= bytes@.len() && bytes@.subrange(
            at as int,
            at + pattern@.len(),
        ) == pattern@),
{
    let len: usize = bytes.len();
    let width: usize = pattern.len();
    if len - at < width {
        return false;
    }
    let mut i: usize = 0;
    while i < width
        invariant
            i <= width == pattern@.len(),
            at + width <= len == bytes@.len(),
            bytes@.subrange(at as int, at + i) == pattern@.subrange(0, i as int),
        decreases width - i,
    {
        if bytes[at + i] != pattern[i] {
            return false;
        }
        i += 1;
    }
    assert(pattern@.subrange(0, i as int) =~= pattern@);
    true
}

/// The name of part `part_id` of `num_parts`.
pub fn part_filename(part_id: u64, num_parts: u64) -> (name: Vec<u8>)
    ensures
        name@ == part_name(part_id, num_parts),
{
    let mut name: Vec<u8> = Vec::new();
    put_name_prefix(&mut name);
    put_decimal(&mut name, part_id);
    put_name_middle(&mut name);
    put_decimal(&mut name, num_parts);
    name
}

/// The part number and the number of parts that `name` says, if it is the
/// name of a part.
pub fn parse_part_filename(name: &[u8]) -> (fields: Option<(u64, u64)>)
    ensures
        fields == parse_part_name(name@),
{
    let mut prefix: Vec<u8> = Vec::new();
    put_name_prefix(&mut prefix);
    let mut middle: Vec<u8> = Vec::new();
    put_name_middle(&mut middle);
    let len: usize = name.len();
    if !holds_at(name, 0, prefix.as_slice()) {
        return None;
    }
    let id_start: usize = prefix.len();
    let (id_end, part_id) = read_decimal(name, id_start);
    if id_end == id_start {
        return None;
    }
    if !holds_at(name, id_end, middle.as_slice()) {
        return None;
    }
    let num_start: usize = id_end + middle.len();
    let (num_end, num_parts) = read_decimal(name, num_start);
    if num_end == num_start || num_end != len {
        return None;
    }
    match (part_id, num_parts) {
        (Some(id), Some(num)) => Some((id, num)),
        _ => None,
    }
}

/// Whether `name` is the name of a part.
pub fn is_part_filename(name: &[u8]) -> (is_part: bool)
    ensures
        is_part == parse_part_name(name@) is Some,
{
    parse_part_filename(name).is_some()
}

/// The part number that `name` says, if it is the name of a part.
pub fn get_part_id_from_filename(name: &[u8]) -> (part_id: Option<u64>)
    ensures
        part_id == match parse_part_name(name@) {
            Some((id, num)) => Some(id),
            None => None,
        },
{
    match parse_part_filename(name) {
        Some((id, _)) => Some(id),
        None => None,
    }
}

/// The number of parts that `name` says, if it is the name of a part.
pub fn get_num_parts_from_filename(name: &[u8]) -> (num_parts: Option<u64>)
    ensures
        num_parts == match parse_part_name(name@) {
            Some((id, num)) => Some(num),
            None => None,
        },
{
    match parse_part_filename(name) {
        Some((_, num)) => Some(num),
        None => None,
    }
}

/// The part number in the name of a part.
pub fn extract_part_id_from_part_file_name(file_name: &[u8]) -> (part_id: u64)
    requires
        parse_part_name(file_name@) is Some,
    ensures
        part_id == parse_part_name(file_name@)->Some_0.0,
{
    match parse_part_filename(file_name) {
        Some((id, _)) => id,
        None => 0,
    }
}

/// The directory of the parts of shard `shard_id` in the epoch of height
/// `epoch_height`. The epoch stands in the path by its height; its
/// identifier is not part of it.
pub fn external_storage_location_directory(
    chain_id: &[u8],
    epoch_id: &EpochId,
    epoch_height: u64,
    shard_id: u64,
) -> (directory: Vec<u8>)
    ensures
        directory@ == location_directory(chain_id@, epoch_height, shard_id),
{
    let mut directory: Vec<u8> = Vec::new();
    put_bytes(&mut directory, chain_id);
    put_epoch_height_label(&mut directory);
    put_decimal(&mut directory, epoch_height);
    put_shard_id_label(&mut directory);
    put_decimal(&mut directory, shard_id);
    directory
}

/// The location of part `part_id` of `num_parts` of shard `shard_id` in the
/// epoch of height `epoch_height`.
pub fn external_storage_location(
    chain_id: &[u8],
    epoch_id: &EpochId,
    epoch_height: u64,
    shard_id: u64,
    part_id: u64,
    num_parts: u64,
) -> (path: Vec<u8>)
    ensures
        path@ == location(chain_id@, epoch_height, shard_id, part_id, num_parts),
{
    let mut path = external_storage_location_directory(chain_id, epoch_id, epoch_height, shard_id);
    path.push(SLASH);
    let name = part_filename(part_id, num_parts);
    put_bytes(&mut path, name.as_slice());
    path
}

/// Whether `name` is the name of part `part_id`, of however many.
pub open spec fn names_part(name: Seq<u8>, part_id: u64) -> bool {
    match parse_part_name(name) {
        Some((id, num)) => id == part_id,
        None => false,
    }
}

/// The part numbers that the names in `file_names` say.
pub open spec fn listed_parts(file_names: Seq<Vec<u8>>) -> Set<u64> {
    Set::new(
        |part_id: u64|
            exists|i: int|
                0 <= i < file_names.len() && names_part((#[trigger] file_names[i])@, part_id),
    )
}

/// Whether the numbers strictly increase.
pub open spec fn increasing(numbers: Seq<u64>) -> bool {
    forall|i: int, j: int| 0 <= i < j < numbers.len() ==> numbers[i] < numbers[j]
}

/// The numbers below `bound` that are not in `listed`, in increasing order.
pub open spec fn missing_below(bound: u64, listed: Set<u64>) -> Seq<u64>
    decreases bound,
{
    if bound == 0 {
        Seq::empty()
    } else {
        let last = (bound - 1) as u64;
        if listed.contains(last) {
            missing_below(last, listed)
        } else {
            missing_below(last, listed).push(last)
        }
    }
}

/// The parts of an epoch that are not yet in external storage: the numbers
/// below `total_parts` that no name in `file_names` says, in increasing
/// order.
pub open spec fn missing_parts(total_parts: u64, file_names: Seq<Vec<u8>>) -> Seq<u64> {
    missing_below(total_parts, listed_parts(file_names))
}

/// The missing numbers increase, and are exactly the numbers below the bound
/// that are not listed.
pub proof fn lemma_missing_below(bound: u64, listed: Set<u64>)
    ensures
        increasing(missing_below(bound, listed)),
        forall|i: int|
            0 <= i < missing_below(bound, listed).len() ==> #[trigger] missing_below(
                bound,
                listed,
            )[i] < bound,
        forall|id: u64|
            missing_below(bound, listed).contains(id) <==> id < bound && !listed.contains(id),
    decreases bound,
{
    if bound > 0 {
        let last = (bound - 1) as u64;
        let rest = missing_below(last, listed);
        let all = missing_below(bound, listed);
        lemma_missing_below(last, listed);
        assert forall|id: u64| all.contains(id) <==> id < bound && !listed.contains(id) by {
            if all.contains(id) {
                let k = choose|k: int| 0 <= k < all.len() && all[k] == id;
                if k < rest.len() {
                    assert(rest[k] == id);
                }
            }
            if id < bound && !listed.contains(id) {
                if id == last {
                    assert(all[rest.len() as int] == id);
                } else {
                    let k = choose|k: int| 0 <= k < rest.len() && rest[k] == id;
                    assert(all[k] == id);
                }
            }
        }
    }
}

/// Numbers that strictly increase hold no number twice.
pub proof fn lemma_increasing_is_distinct(numbers: Seq<u64>)
    requires
        increasing(numbers),
    ensures
        numbers.no_duplicates(),
{
    assert forall|i: int, j: int|
        0 <= i < numbers.len() && 0 <= j < numbers.len() && i != j implies numbers[i]
        != numbers[j] by {
        if i < j {
            assert(numbers[i] < numbers[j]);
        } else {
            assert(numbers[j] < numbers[i]);
        }
    }
}

/// The parts of an epoch that are not yet in external storage: the numbers
/// below `total_parts` that no name in `file_names` says, in increasing
/// order. `file_names` is the listing of the epoch's directory.
pub fn get_missing_part_ids_for_epoch(total_parts: u64, file_names: &Vec<Vec<u8>>) -> (missing: Vec<
    u64,
>)
    requires
        forall|i: int|
            0 <= i < file_names@.len() ==> parse_part_name((#[trigger] file_names@[i])@) is Some,
    ensures
        missing@ == missing_parts(total_parts, file_names@),
        increasing(missing@),
        forall|part_id: u64|
            missing@.contains(part_id) <==> part_id < total_parts && !listed_parts(
                file_names@,
            ).contains(part_id),
{
    let mut existing_nums: HashSet<u64> = HashSet::new();
    let mut i: usize = 0;
    while i < file_names.len()
        invariant
            i <= file_names@.len(),
            forall|k: int|
                0 <= k < file_names@.len() ==> parse_part_name((#[trigger] file_names@[k])@)
                    is Some,
            existing_nums@ == listed_parts(file_names@.subrange(0, i as int)),
        decreases file_names@.len() - i,
    {
        let part_id = extract_part_id_from_part_file_name(file_names[i].as_slice());
        existing_nums.insert(part_id);
        i += 1;
        proof {
            let before = file_names@.subrange(0, i - 1);
            let now = file_names@.subrange(0, i as int);
            assert forall|id: u64| listed_parts(now).contains(id) <==> (id == part_id
                || listed_parts(before).contains(id)) by {
                if listed_parts(now).contains(id) {
                    let k = choose|k: int| 0 <= k < now.len() && names_part((#[trigger] now[k])@, id);
                    if k < i - 1 {
                        assert(before[k] == now[k]);
                    }
                }
                if listed_parts(before).contains(id) {
                    let k = choose|k: int|
                        0 <= k < before.len() && names_part((#[trigger] before[k])@, id);
                    assert(now[k] == before[k]);
                }
                if id == part_id {
                    assert(now[i - 1] == file_names@[i - 1]);
                }
            }
        }
    }
    assert(file_names@.subrange(0, i as int) =~= file_names@);
    let ghost listed = listed_parts(file_names@);
    let mut missing: Vec<u64> = Vec::new();
    let mut part_id: u64 = 0;
    while part_id < total_parts
        invariant
            part_id <= total_parts,
            listed == listed_parts(file_names@),
            existing_nums@ == listed,
            missing@ == missing_below(part_id, listed),
        decreases total_parts - part_id,
    {
        let present = existing_nums.contains(&part_id);
        if !present {
            missing.push(part_id);
        }
        part_id += 1;
    }
    proof {
        lemma_missing_below(total_parts, listed);
    }
    missing
}

} // verus!
