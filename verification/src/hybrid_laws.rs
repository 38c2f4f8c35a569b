//! What holds of the hybrid storage: what each half gets, and which half is read.
use crate::hybrid_storage::HybridStorage;
use crate::storage::{Entry, StopSign, Storage, StorageModel, StorageOp, StorageResult};
use crate::util;
use crate::util::Ballot;
use vstd::prelude::*;

verus! {

/// A hybrid storage that was opened has the disk that it was given, and nothing in memory.
pub proof fn opened_storage_is_empty_in_memory<T: Entry, D: Storage<T>>(
    disk: D,
    storage: HybridStorage<T, D>,
)
    requires
        call_ensures(HybridStorage::<T, D>::open, (disk,), storage),
    ensures
        storage.disk() == disk,
        storage.mem().log.len() == 0,
        storage.mem().promise is None,
        storage.mem().accepted_round is None,
        storage.mem().decided_idx == 0,
        storage.mem().compacted_idx == 0,
        storage.mem().snapshot is None,
        storage.mem().stopsign is None,
{
}

/// An entry goes to memory, whatever the disk answers, and to the disk, whose
/// answer is the result.
pub proof fn entry_goes_to_both<T: Entry, D: Storage<T>>(
    before: HybridStorage<T, D>,
    entry: T,
    result: StorageResult<()>,
    after: HybridStorage<T, D>,
)
    requires
        exists|d: &mut HybridStorage<T, D>|
            *d == before && *final(d) == after && #[trigger] call_ensures(
                HybridStorage::<T, D>::append_entry,
                (d, entry),
                result,
            ),
    ensures
        after.mem() == (StorageModel {
            log: before.mem().log.push(entry@),
            ..before.mem()
        }),
        exists|e: &mut D|
            *e == before.disk() && *final(e) == after.disk() && #[trigger] call_ensures(
                D::append_entry,
                (e, entry),
                result,
            ),
{
}

/// Entries go to memory, whatever the disk answers, and to the disk, whose
/// answer is the result.
pub proof fn entries_go_to_both<T: Entry, D: Storage<T>>(
    before: HybridStorage<T, D>,
    entries: Vec<T>,
    result: StorageResult<()>,
    after: HybridStorage<T, D>,
)
    requires
        exists|d: &mut HybridStorage<T, D>|
            *d == before && *final(d) == after && #[trigger] call_ensures(
                HybridStorage::<T, D>::append_entries,
                (d, entries),
                result,
            ),
    ensures
        after.mem() == (StorageModel {
            log: before.mem().log + util::views(entries@),
            ..before.mem()
        }),
        exists|e: &mut D|
            *e == before.disk() && *final(e) == after.disk() && #[trigger] call_ensures(
                D::append_entries,
                (e, entries),
                result,
            ),
{
}

/// A promise goes to memory, whatever the disk answers, and to the disk, whose
/// answer is the result.
pub proof fn promise_goes_to_both<T: Entry, D: Storage<T>>(
    before: HybridStorage<T, D>,
    n: Ballot,
    result: StorageResult<()>,
    after: HybridStorage<T, D>,
)
    requires
        exists|d: &mut HybridStorage<T, D>|
            *d == before && *final(d) == after && #[trigger] call_ensures(
                HybridStorage::<T, D>::set_promise,
                (d, n),
                result,
            ),
    ensures
        after.mem() == (StorageModel {
            promise: Some(n),
            ..before.mem()
        }),
        exists|e: &mut D|
            *e == before.disk() && *final(e) == after.disk() && #[trigger] call_ensures(
                D::set_promise,
                (e, n),
                result,
            ),
{
}

/// An accepted round goes to memory, whatever the disk answers, and to the disk, whose
/// answer is the result.
pub proof fn accepted_round_goes_to_both<T: Entry, D: Storage<T>>(
    before: HybridStorage<T, D>,
    n: Ballot,
    result: StorageResult<()>,
    after: HybridStorage<T, D>,
)
    requires
        exists|d: &mut HybridStorage<T, D>|
            *d == before && *final(d) == after && #[trigger] call_ensures(
                HybridStorage::<T, D>::set_accepted_round,
                (d, n),
                result,
            ),
    ensures
        after.mem() == (StorageModel {
            accepted_round: Some(n),
            ..before.mem()
        }),
        exists|e: &mut D|
            *e == before.disk() && *final(e) == after.disk() && #[trigger] call_ensures(
                D::set_accepted_round,
                (e, n),
                result,
            ),
{
}

/// A decided index goes to memory, whatever the disk answers, and to the disk, whose
/// answer is the result.
pub proof fn decided_index_goes_to_both<T: Entry, D: Storage<T>>(
    before: HybridStorage<T, D>,
    idx: usize,
    result: StorageResult<()>,
    after: HybridStorage<T, D>,
)
    requires
        exists|d: &mut HybridStorage<T, D>|
            *d == before && *final(d) == after && #[trigger] call_ensures(
                HybridStorage::<T, D>::set_decided_idx,
                (d, idx),
                result,
            ),
    ensures
        after.mem() == (StorageModel {
            decided_idx: idx as nat,
            ..before.mem()
        }),
        exists|e: &mut D|
            *e == before.disk() && *final(e) == after.disk() && #[trigger] call_ensures(
                D::set_decided_idx,
                (e, idx),
                result,
            ),
{
}

/// A compacted index goes to memory, whatever the disk answers, and to the disk, whose
/// answer is the result.
pub proof fn compacted_index_goes_to_both<T: Entry, D: Storage<T>>(
    before: HybridStorage<T, D>,
    idx: usize,
    result: StorageResult<()>,
    after: HybridStorage<T, D>,
)
    requires
        exists|d: &mut HybridStorage<T, D>|
            *d == before && *final(d) == after && #[trigger] call_ensures(
                HybridStorage::<T, D>::set_compacted_idx,
                (d, idx),
                result,
            ),
    ensures
        after.mem() == (StorageModel {
            compacted_idx: idx as nat,
            ..before.mem()
        }),
        exists|e: &mut D|
            *e == before.disk() && *final(e) == after.disk() && #[trigger] call_ensures(
                D::set_compacted_idx,
                (e, idx),
                result,
            ),
{
}

/// A stopsign goes to memory, whatever the disk answers, and to the disk, whose
/// answer is the result.
pub proof fn stopsign_goes_to_both<T: Entry, D: Storage<T>>(
    before: HybridStorage<T, D>,
    ss: Option<StopSign>,
    result: StorageResult<()>,
    after: HybridStorage<T, D>,
)
    requires
        exists|d: &mut HybridStorage<T, D>|
            *d == before && *final(d) == after && #[trigger] call_ensures(
                HybridStorage::<T, D>::set_stopsign,
                (d, ss),
                result,
            ),
    ensures
        after.mem() == (StorageModel {
            stopsign: util::view_option(ss),
            ..before.mem()
        }),
        exists|e: &mut D|
            *e == before.disk() && *final(e) == after.disk() && #[trigger] call_ensures(
                D::set_stopsign,
                (e, ss),
                result,
            ),
{
}

/// A snapshot goes to memory, whatever the disk answers, and to the disk, whose
/// answer is the result.
pub proof fn snapshot_goes_to_both<T: Entry, D: Storage<T>>(
    before: HybridStorage<T, D>,
    snapshot: Option<T::Snapshot>,
    result: StorageResult<()>,
    after: HybridStorage<T, D>,
)
    requires
        exists|d: &mut HybridStorage<T, D>|
            *d == before && *final(d) == after && #[trigger] call_ensures(
                HybridStorage::<T, D>::set_snapshot,
                (d, snapshot),
                result,
            ),
    ensures
        after.mem() == (StorageModel {
            snapshot: util::view_option(snapshot),
            ..before.mem()
        }),
        exists|e: &mut D|
            *e == before.disk() && *final(e) == after.disk() && #[trigger] call_ensures(
                D::set_snapshot,
                (e, snapshot),
                result,
            ),
{
}

/// Entries that are written on a prefix go to memory and to the disk, whose answer is the
/// result.
pub proof fn prefix_write_goes_to_both<T: Entry, D: Storage<T>>(
    before: HybridStorage<T, D>,
    from_idx: usize,
    entries: Vec<T>,
    result: StorageResult<()>,
    after: HybridStorage<T, D>,
)
    requires
        before.mem().compacted_idx <= from_idx <= before.mem().end(),
        exists|d: &mut HybridStorage<T, D>|
            *d == before && *final(d) == after && #[trigger] call_ensures(
                HybridStorage::<T, D>::append_on_prefix,
                (d, from_idx, entries),
                result,
            ),
    ensures
        after.mem() == (StorageModel {
            log: before.mem().log.take(from_idx - before.mem().compacted_idx) + util::views(
                entries@,
            ),
            ..before.mem()
        }),
        exists|e: &mut D|
            *e == before.disk() && *final(e) == after.disk() && #[trigger] call_ensures(
                D::append_on_prefix,
                (e, from_idx, entries),
                result,
            ),
{
}

/// Memory and disk are trimmed at the same index, and the disk's answer is the result.
pub proof fn trimming_goes_to_both<T: Entry, D: Storage<T>>(
    before: HybridStorage<T, D>,
    idx: usize,
    result: StorageResult<()>,
    after: HybridStorage<T, D>,
)
    requires
        before.mem().compacted_idx <= idx <= before.mem().end(),
        exists|d: &mut HybridStorage<T, D>|
            *d == before && *final(d) == after && #[trigger] call_ensures(
                HybridStorage::<T, D>::trim,
                (d, idx),
                result,
            ),
    ensures
        after.mem() == (StorageModel {
            log: before.mem().log.skip(idx - before.mem().compacted_idx),
            compacted_idx: idx as nat,
            ..before.mem()
        }),
        exists|e: &mut D|
            *e == before.disk() && *final(e) == after.disk() && #[trigger] call_ensures(
                D::trim,
                (e, idx),
                result,
            ),
{
}

/// An atomic write goes to the disk in one call, whose answer is the result, and leaves
/// memory as it is.
pub proof fn atomic_write_goes_to_disk<T: Entry, D: Storage<T>>(
    before: HybridStorage<T, D>,
    ops: Vec<StorageOp<T>>,
    result: StorageResult<()>,
    after: HybridStorage<T, D>,
)
    requires
        exists|d: &mut HybridStorage<T, D>|
            *d == before && *final(d) == after && #[trigger] call_ensures(
                HybridStorage::<T, D>::write_atomically,
                (d, ops),
                result,
            ),
    ensures
        after.mem() == before.mem(),
        exists|e: &mut D|
            *e == before.disk() && *final(e) == after.disk() && #[trigger] call_ensures(
                D::write_atomically,
                (e, ops),
                result,
            ),
{
}

/// Entries are read from memory where it has them all, and otherwise from disk, whose
/// answer is the result.
pub proof fn memory_is_read_first<T: Entry, D: Storage<T>>(
    storage: HybridStorage<T, D>,
    from: usize,
    to: usize,
    result: StorageResult<Vec<T>>,
)
    requires
        storage.mem().compacted_idx <= from,
        storage.mem().compacted_idx <= to,
        call_ensures(HybridStorage::<T, D>::get_entries, (&storage, from, to), result),
    ensures
        if from < to && to <= storage.mem().end() {
            result matches Ok(entries) && util::views(entries@) == storage.mem().log.subrange(
                from - storage.mem().compacted_idx,
                to - storage.mem().compacted_idx,
            )
        } else {
            call_ensures(D::get_entries, (&storage.disk(), from, to), result)
        },
{
}

/// The rest of the log is read from memory where it has any of it, and otherwise from
/// disk, whose answer is the result.
pub proof fn memory_is_read_first_for_the_rest<T: Entry, D: Storage<T>>(
    storage: HybridStorage<T, D>,
    from: usize,
    result: StorageResult<Vec<T>>,
)
    requires
        storage.mem().compacted_idx <= from,
        call_ensures(HybridStorage::<T, D>::get_suffix, (&storage, from), result),
    ensures
        if from < storage.mem().end() {
            result matches Ok(entries) && util::views(entries@) == storage.mem().log.skip(
                from - storage.mem().compacted_idx,
            )
        } else {
            call_ensures(D::get_suffix, (&storage.disk(), from), result)
        },
{
    if from < storage.mem().end() {
        assert(storage.mem().suffix(from as nat) =~= storage.mem().log.skip(
            from - storage.mem().compacted_idx,
        ));
        assert(storage.mem().suffix(from as nat).len() > 0);
    }
}

/// The log is as long as the longer of the two halves.
pub proof fn longer_half_counts<T: Entry, D: Storage<T>>(
    storage: HybridStorage<T, D>,
    len: usize,
)
    requires
        storage.disk().faithful(),
        call_ensures(HybridStorage::<T, D>::get_log_len, (&storage,), Ok(len)),
    ensures
        len >= storage.mem().log.len(),
        len >= storage.disk().model().log.len(),
        len == storage.mem().log.len() || len == storage.disk().model().log.len(),
{
}

/// Everything but the log is read from disk.
pub proof fn settings_are_read_from_disk<T: Entry, D: Storage<T>>(
    storage: HybridStorage<T, D>,
    promise: StorageResult<Option<Ballot>>,
    accepted_round: StorageResult<Option<Ballot>>,
    decided_idx: StorageResult<usize>,
    compacted_idx: StorageResult<usize>,
    stopsign: StorageResult<Option<StopSign>>,
    snapshot: StorageResult<Option<T::Snapshot>>,
)
    requires
        call_ensures(HybridStorage::<T, D>::get_promise, (&storage,), promise),
        call_ensures(HybridStorage::<T, D>::get_accepted_round, (&storage,), accepted_round),
        call_ensures(HybridStorage::<T, D>::get_decided_idx, (&storage,), decided_idx),
        call_ensures(HybridStorage::<T, D>::get_compacted_idx, (&storage,), compacted_idx),
        call_ensures(HybridStorage::<T, D>::get_stopsign, (&storage,), stopsign),
        call_ensures(HybridStorage::<T, D>::get_snapshot, (&storage,), snapshot),
    ensures
        call_ensures(D::get_promise, (&storage.disk(),), promise),
        call_ensures(D::get_accepted_round, (&storage.disk(),), accepted_round),
        call_ensures(D::get_decided_idx, (&storage.disk(),), decided_idx),
        call_ensures(D::get_compacted_idx, (&storage.disk(),), compacted_idx),
        call_ensures(D::get_stopsign, (&storage.disk(),), stopsign),
        call_ensures(D::get_snapshot, (&storage.disk(),), snapshot),
{
}

} // verus!
