//! What holds of every faithful storage: what a write leaves, and what is read of it.
use crate::storage::{Entry, OpView, StopSign, Storage, StorageModel, StorageOp};
use crate::util;
use crate::util::Ballot;
use vstd::prelude::*;

verus! {

/// An entry that is appended is the last one; nothing else changes.
pub proof fn appended_entry_is_last<T: Entry, S: Storage<T>>(before: S, entry: T, after: S)
    requires
        before.faithful(),
        exists|d: &mut S|
            *d == before && *final(d) == after && #[trigger] call_ensures(
                S::append_entry,
                (d, entry),
                Ok(()),
            ),
    ensures
        after.faithful(),
        after.model() == (StorageModel {
            log: before.model().log.push(entry@),
            ..before.model()
        }),
{
}

/// Entries that are appended follow those before them, in order; nothing else changes.
pub proof fn appended_entries_follow<T: Entry, S: Storage<T>>(before: S, entries: Vec<T>, after: S)
    requires
        before.faithful(),
        exists|d: &mut S|
            *d == before && *final(d) == after && #[trigger] call_ensures(
                S::append_entries,
                (d, entries),
                Ok(()),
            ),
    ensures
        after.faithful(),
        after.model() == (StorageModel {
            log: before.model().log + util::views(entries@),
            ..before.model()
        }),
{
}

/// The promised round is the one that was set; nothing else changes.
pub proof fn promise_is_kept<T: Entry, S: Storage<T>>(before: S, n: Ballot, after: S)
    requires
        before.faithful(),
        exists|d: &mut S|
            *d == before && *final(d) == after && #[trigger] call_ensures(
                S::set_promise,
                (d, n),
                Ok(()),
            ),
    ensures
        after.faithful(),
        after.model() == (StorageModel {
            promise: Some(n),
            ..before.model()
        }),
{
}

/// The accepted round is the one that was set; nothing else changes.
pub proof fn accepted_round_is_kept<T: Entry, S: Storage<T>>(before: S, n: Ballot, after: S)
    requires
        before.faithful(),
        exists|d: &mut S|
            *d == before && *final(d) == after && #[trigger] call_ensures(
                S::set_accepted_round,
                (d, n),
                Ok(()),
            ),
    ensures
        after.faithful(),
        after.model() == (StorageModel {
            accepted_round: Some(n),
            ..before.model()
        }),
{
}

/// The decided index is the one that was set; nothing else changes.
pub proof fn decided_index_is_kept<T: Entry, S: Storage<T>>(before: S, idx: usize, after: S)
    requires
        before.faithful(),
        exists|d: &mut S|
            *d == before && *final(d) == after && #[trigger] call_ensures(
                S::set_decided_idx,
                (d, idx),
                Ok(()),
            ),
    ensures
        after.faithful(),
        after.model() == (StorageModel {
            decided_idx: idx as nat,
            ..before.model()
        }),
{
}

/// The compacted index is the one that was set; nothing else changes.
pub proof fn compacted_index_is_kept<T: Entry, S: Storage<T>>(before: S, idx: usize, after: S)
    requires
        before.faithful(),
        exists|d: &mut S|
            *d == before && *final(d) == after && #[trigger] call_ensures(
                S::set_compacted_idx,
                (d, idx),
                Ok(()),
            ),
    ensures
        after.faithful(),
        after.model() == (StorageModel {
            compacted_idx: idx as nat,
            ..before.model()
        }),
{
}

/// The stopsign is the one that was set; nothing else changes.
pub proof fn stopsign_is_kept<T: Entry, S: Storage<T>>(before: S, ss: Option<StopSign>, after: S)
    requires
        before.faithful(),
        exists|d: &mut S|
            *d == before && *final(d) == after && #[trigger] call_ensures(
                S::set_stopsign,
                (d, ss),
                Ok(()),
            ),
    ensures
        after.faithful(),
        after.model() == (StorageModel {
            stopsign: util::view_option(ss),
            ..before.model()
        }),
{
}

/// A storage that keeps snapshots has the one that was set, and one that keeps none stays
/// as it was.
pub proof fn snapshot_is_kept<T: Entry, S: Storage<T>>(
    before: S,
    snapshot: Option<T::Snapshot>,
    after: S,
)
    requires
        before.faithful(),
        exists|d: &mut S|
            *d == before && *final(d) == after && #[trigger] call_ensures(
                S::set_snapshot,
                (d, snapshot),
                Ok(()),
            ),
    ensures
        S::keeps_snapshots() ==> after.model() == (StorageModel {
            snapshot: util::view_option(snapshot),
            ..before.model()
        }),
        !S::keeps_snapshots() ==> after.model() == before.model(),
{
}

/// Entries that are written on a prefix replace all that followed it: the log is the
/// prefix and then the entries.
pub proof fn prefix_write_replaces_the_rest<T: Entry, S: Storage<T>>(
    before: S,
    from_idx: usize,
    entries: Vec<T>,
    after: S,
)
    requires
        before.faithful(),
        before.model().compacted_idx <= from_idx <= before.model().end(),
        exists|d: &mut S|
            *d == before && *final(d) == after && #[trigger] call_ensures(
                S::append_on_prefix,
                (d, from_idx, entries),
                Ok(()),
            ),
    ensures
        ({
            let kept = from_idx - before.model().compacted_idx;
            &&& after.model().log.len() == kept + entries@.len()
            &&& forall|i: int|
                0 <= i < kept ==> (#[trigger] after.model().log[i]) == before.model().log[i]
            &&& forall|i: int|
                0 <= i < entries@.len() ==> after.model().log[kept + i] == (
                #[trigger] entries@[i])@
            &&& after.model() == (StorageModel { log: after.model().log, ..before.model() })
        }),
{
}

/// Trimming takes the entries below the index away and no others.
pub proof fn trimming_takes_the_front<T: Entry, S: Storage<T>>(before: S, idx: usize, after: S)
    requires
        before.faithful(),
        before.model().compacted_idx <= idx,
        exists|d: &mut S|
            *d == before && *final(d) == after && #[trigger] call_ensures(
                S::trim,
                (d, idx),
                Ok(()),
            ),
    ensures
        ({
            let gone = idx - before.model().compacted_idx;
            &&& after.model().compacted_idx == idx
            &&& after.model().log.len() == if gone <= before.model().log.len() {
                before.model().log.len() - gone
            } else {
                0
            }
            &&& forall|i: int|
                0 <= i < after.model().log.len() ==> (#[trigger] after.model().log[i])
                    == before.model().log[gone + i]
            &&& after.model() == (StorageModel {
                log: after.model().log,
                compacted_idx: idx as nat,
                ..before.model()
            })
        }),
{
}

/// What is read between two indices are the entries of the log there, each one and in
/// order; nothing where the log does not have them all.
pub proof fn reading_gives_the_entries<T: Entry, S: Storage<T>>(
    storage: S,
    from: usize,
    to: usize,
    entries: Vec<T>,
)
    requires
        storage.faithful(),
        storage.model().compacted_idx <= from,
        storage.model().compacted_idx <= to,
        call_ensures(S::get_entries, (&storage, from, to), Ok(entries)),
    ensures
        from <= to <= storage.model().end() ==> entries@.len() == to - from,
        !(from <= to <= storage.model().end()) ==> entries@.len() == 0,
        forall|i: int|
            0 <= i < entries@.len() ==> (#[trigger] entries@[i])@ == storage.model().log[from
                - storage.model().compacted_idx + i],
{
    let views = util::views(entries@);
    assert(views.len() == entries@.len());
    assert forall|i: int| 0 <= i < entries@.len() implies (#[trigger] entries@[i])@
        == storage.model().log[from - storage.model().compacted_idx + i] by {
        assert(views[i] == entries@[i]@);
    }
}

/// What is read from an index on are all entries of the log there, in order.
pub proof fn reading_gives_the_suffix<T: Entry, S: Storage<T>>(
    storage: S,
    from: usize,
    entries: Vec<T>,
)
    requires
        storage.faithful(),
        storage.model().compacted_idx <= from,
        call_ensures(S::get_suffix, (&storage, from), Ok(entries)),
    ensures
        entries@.len() == if from <= storage.model().end() {
            storage.model().end() - from
        } else {
            0
        },
        forall|i: int|
            0 <= i < entries@.len() ==> (#[trigger] entries@[i])@ == storage.model().log[from
                - storage.model().compacted_idx + i],
{
    let views = util::views(entries@);
    assert(views.len() == entries@.len());
    assert forall|i: int| 0 <= i < entries@.len() implies (#[trigger] entries@[i])@
        == storage.model().log[from - storage.model().compacted_idx + i] by {
        assert(views[i] == entries@[i]@);
    }
}

/// What an operation leaves of what was held.
pub open spec fn is_done<T: Entry>(
    before: StorageModel<T>,
    op: OpView<T>,
    after: StorageModel<T>,
    keeps: bool,
) -> bool {
    match op {
        OpView::AppendEntry(entry) => after == (StorageModel {
            log: before.log.push(entry),
            ..before
        }),
        OpView::AppendEntries(entries) => after == (StorageModel {
            log: before.log + entries,
            ..before
        }),
        OpView::AppendOnPrefix(idx, entries) => before.compacted_idx <= idx <= before.end()
            ==> after == (StorageModel {
            log: before.log.take(idx - before.compacted_idx) + entries,
            ..before
        }),
        OpView::SetPromise(n) => after == (StorageModel { promise: Some(n), ..before }),
        OpView::SetDecidedIndex(idx) => after == (StorageModel { decided_idx: idx, ..before }),
        OpView::SetAcceptedRound(n) => after == (StorageModel {
            accepted_round: Some(n),
            ..before
        }),
        OpView::SetCompactedIdx(idx) => after == (StorageModel { compacted_idx: idx, ..before }),
        OpView::Trim(idx) => before.compacted_idx <= idx <= before.end() ==> after == (
        StorageModel {
            log: before.log.skip(idx - before.compacted_idx),
            compacted_idx: idx,
            ..before
        }),
        OpView::SetStopsign(ss) => after == (StorageModel { stopsign: ss, ..before }),
        OpView::SetSnapshot(snapshot) => after == if keeps {
            StorageModel { snapshot, ..before }
        } else {
            before
        },
    }
}

/// An atomic write of one operation does what the operation says.
pub proof fn atomic_write_of_one<T: Entry, S: Storage<T>>(
    before: S,
    op: StorageOp<T>,
    ops: Vec<StorageOp<T>>,
    after: S,
)
    requires
        before.faithful(),
        ops@ == seq![op],
        exists|d: &mut S|
            *d == before && *final(d) == after && #[trigger] call_ensures(
                S::write_atomically,
                (d, ops),
                Ok(()),
            ),
    ensures
        is_done(before.model(), op@, after.model(), S::keeps_snapshots()),
{
    let views = util::views(ops@);
    assert(views =~= seq![op@]);
    assert(views.drop_last() =~= Seq::empty());
    assert(before.model().apply_all(S::keeps_snapshots(), Seq::empty()) == before.model());
}

/// An atomic write does what its operations do in two atomic writes, the first of them in
/// the first.
pub proof fn atomic_write_in_two<T: Entry, S: Storage<T>>(
    before: S,
    first: Vec<StorageOp<T>>,
    middle: S,
    second: Vec<StorageOp<T>>,
    last: S,
    all: Vec<StorageOp<T>>,
    after: S,
)
    requires
        before.faithful(),
        all@ == first@ + second@,
        exists|d: &mut S|
            *d == before && *final(d) == middle && #[trigger] call_ensures(
                S::write_atomically,
                (d, first),
                Ok(()),
            ),
        exists|d: &mut S|
            *d == middle && *final(d) == last && #[trigger] call_ensures(
                S::write_atomically,
                (d, second),
                Ok(()),
            ),
        exists|d: &mut S|
            *d == before && *final(d) == after && #[trigger] call_ensures(
                S::write_atomically,
                (d, all),
                Ok(()),
            ),
    ensures
        after.model() == last.model(),
{
    assert(util::views(all@) =~= util::views(first@) + util::views(second@));
    before.model().atomic_writes_compose(
        S::keeps_snapshots(),
        util::views(first@),
        util::views(second@),
    );
}

/// An atomic write that fails leaves what was held.
pub proof fn failed_atomic_write_leaves_all<T: Entry, S: Storage<T>>(
    before: S,
    ops: Vec<StorageOp<T>>,
    e: crate::storage::StorageError,
    after: S,
)
    requires
        before.faithful(),
        exists|d: &mut S|
            *d == before && *final(d) == after && #[trigger] call_ensures(
                S::write_atomically,
                (d, ops),
                Err(e),
            ),
    ensures
        after.faithful(),
        after.model() == before.model(),
{
}

/// What was set is read back.
pub proof fn settings_are_read_back<T: Entry, S: Storage<T>>(
    storage: S,
    promise: Option<Ballot>,
    accepted_round: Option<Ballot>,
    decided_idx: usize,
    compacted_idx: usize,
    log_len: usize,
    stopsign: Option<StopSign>,
    snapshot: Option<T::Snapshot>,
)
    requires
        storage.faithful(),
        call_ensures(S::get_promise, (&storage,), Ok(promise)),
        call_ensures(S::get_accepted_round, (&storage,), Ok(accepted_round)),
        call_ensures(S::get_decided_idx, (&storage,), Ok(decided_idx)),
        call_ensures(S::get_compacted_idx, (&storage,), Ok(compacted_idx)),
        call_ensures(S::get_log_len, (&storage,), Ok(log_len)),
        call_ensures(S::get_stopsign, (&storage,), Ok(stopsign)),
        call_ensures(S::get_snapshot, (&storage,), Ok(snapshot)),
    ensures
        storage.model() == (StorageModel::<T> {
            promise,
            accepted_round,
            decided_idx: decided_idx as nat,
            compacted_idx: compacted_idx as nat,
            stopsign: util::view_option(stopsign),
            snapshot: util::view_option(snapshot),
            log: storage.model().log,
        }),
        log_len == storage.model().log.len(),
{
}

} // verus!
