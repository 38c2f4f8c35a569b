//! The storage of erasure coded log entries in memory.
use crate::erasure::log_entry::{DefaultLogEntry, DefaultLogEntrySnapshot};
use crate::memory_storage::MemoryStorage;
use crate::storage::{OpView, StopSign, Storage, StorageModel, StorageOp, StorageResult};
use crate::storage;
use crate::util::Ballot;
use crate::util;
use vstd::prelude::*;

verus! {

/// Adapter for erasure coded log entries. It hands every operation on to the
/// memory storage, but for snapshots: it keeps none.
pub struct ErasureMemoryStorage {
    /// The inner memory storage that holds the log entries.
    pub inner: MemoryStorage<DefaultLogEntry>,
}

impl ErasureMemoryStorage {
    /// Creates a new instance of `ErasureMemoryStorage`.
    pub fn new() -> (storage: Self)
        ensures
            storage.inner@ == StorageModel::<DefaultLogEntry>::initial(),
            storage.model() == StorageModel::<DefaultLogEntry>::initial(),
    {
        let storage: ErasureMemoryStorage = ErasureMemoryStorage {
            inner: MemoryStorage::default(),
        };
        assert(storage.model() =~= StorageModel::<DefaultLogEntry>::initial());
        storage
    }

    /// A write to the inner storage, seen without the snapshot.
    proof fn lemma_apply_all(
        inner: StorageModel<DefaultLogEntry>,
        ops: Seq<OpView<DefaultLogEntry>>,
    )
        ensures
            (StorageModel { snapshot: None, ..inner }).apply_all(false, ops) == (StorageModel {
                snapshot: None,
                ..inner.apply_all(true, ops)
            }),
        decreases ops.len(),
    {
        if ops.len() > 0 {
            Self::lemma_apply_all(inner, ops.drop_last());
        }
    }
}

impl Clone for ErasureMemoryStorage {
    fn clone(&self) -> (copy: Self)
        ensures
            copy.inner@ == self.inner@,
    {
        ErasureMemoryStorage { inner: self.inner.duplicate() }
    }
}

impl Storage<DefaultLogEntry> for ErasureMemoryStorage {
    open spec fn model(&self) -> StorageModel<DefaultLogEntry> {
        StorageModel { snapshot: None, ..self.inner@ }
    }

    open spec fn faithful(&self) -> bool {
        true
    }

    open spec fn reliable(&self) -> bool {
        true
    }

    open spec fn keeps_snapshots() -> bool {
        false
    }

    open spec fn reads(&self, from: nat, to: nat) -> bool {
        from >= self.model().compacted_idx && to >= self.model().compacted_idx
    }

    open spec fn reads_from(&self, from: nat) -> bool {
        from >= self.model().compacted_idx
    }

    open spec fn cuts_at(&self, idx: nat) -> bool {
        idx >= self.model().compacted_idx
    }

    open spec fn performs(&self, ops: Seq<OpView<DefaultLogEntry>>) -> bool {
        storage::ops_ok(self.model().compacted_idx, ops)
    }

    fn write_atomically(&mut self, ops: Vec<StorageOp<DefaultLogEntry>>) -> (result: StorageResult<
        (),
    >)
        ensures
            final(self).inner@ == old(self).inner@.apply_all(true, util::views(ops@)),
    {
        proof {
            Self::lemma_apply_all(self.inner@, util::views(ops@));
        }
        self.inner.write_atomically(ops)
    }

    fn append_entry(&mut self, entry: DefaultLogEntry) -> (result: StorageResult<()>)
        ensures
            final(self).inner@ == old(self).inner@.append_entry(entry@),
    {
        self.inner.append_entry(entry)
    }

    fn append_entries(&mut self, entries: Vec<DefaultLogEntry>) -> (result: StorageResult<()>)
        ensures
            final(self).inner@ == old(self).inner@.append_entries(util::views(entries@)),
    {
        self.inner.append_entries(entries)
    }

    fn append_on_prefix(
        &mut self,
        from_idx: usize,
        entries: Vec<DefaultLogEntry>,
    ) -> (result: StorageResult<()>)
        ensures
            final(self).inner@ == old(self).inner@.append_on_prefix(
                from_idx as nat,
                util::views(entries@),
            ),
    {
        self.inner.append_on_prefix(from_idx, entries)
    }

    fn set_promise(&mut self, n_prom: Ballot) -> (result: StorageResult<()>)
        ensures
            final(self).inner@ == old(self).inner@.set_promise(n_prom),
    {
        self.inner.set_promise(n_prom)
    }

    fn set_decided_idx(&mut self, ld: usize) -> (result: StorageResult<()>)
        ensures
            final(self).inner@ == old(self).inner@.set_decided_idx(ld as nat),
    {
        self.inner.set_decided_idx(ld)
    }

    fn get_decided_idx(&self) -> (result: StorageResult<usize>) {
        self.inner.get_decided_idx()
    }

    fn set_accepted_round(&mut self, na: Ballot) -> (result: StorageResult<()>)
        ensures
            final(self).inner@ == old(self).inner@.set_accepted_round(na),
    {
        self.inner.set_accepted_round(na)
    }

    fn get_accepted_round(&self) -> (result: StorageResult<Option<Ballot>>) {
        self.inner.get_accepted_round()
    }

    fn get_entries(&self, from: usize, to: usize) -> (result: StorageResult<
        Vec<DefaultLogEntry>,
    >) {
        self.inner.get_entries(from, to)
    }

    fn get_log_len(&self) -> (result: StorageResult<usize>) {
        self.inner.get_log_len()
    }

    fn get_suffix(&self, from: usize) -> (result: StorageResult<Vec<DefaultLogEntry>>) {
        self.inner.get_suffix(from)
    }

    fn get_promise(&self) -> (result: StorageResult<Option<Ballot>>) {
        self.inner.get_promise()
    }

    fn set_stopsign(&mut self, s: Option<StopSign>) -> (result: StorageResult<()>)
        ensures
            final(self).inner@ == old(self).inner@.set_stopsign(util::view_option(s)),
    {
        self.inner.set_stopsign(s)
    }

    fn get_stopsign(&self) -> (result: StorageResult<Option<StopSign>>) {
        self.inner.get_stopsign()
    }

    fn trim(&mut self, idx: usize) -> (result: StorageResult<()>)
        ensures
            final(self).inner@ == old(self).inner@.trim(idx as nat),
    {
        self.inner.trim(idx)
    }

    fn set_compacted_idx(&mut self, idx: usize) -> (result: StorageResult<()>)
        ensures
            final(self).inner@ == old(self).inner@.set_compacted_idx(idx as nat),
    {
        self.inner.set_compacted_idx(idx)
    }

    fn get_compacted_idx(&self) -> (result: StorageResult<usize>) {
        self.inner.get_compacted_idx()
    }

    fn set_snapshot(&mut self, _snapshot: Option<DefaultLogEntrySnapshot>) -> (result: StorageResult<
        (),
    >)
        ensures
            *final(self) == *old(self),
    {
        Ok(())
    }

    fn get_snapshot(&self) -> (result: StorageResult<Option<DefaultLogEntrySnapshot>>)
        ensures
            result is Ok,
            result->Ok_0 is None,
    {
        Ok(None)
    }
}

/// The storage takes a snapshot without a change, and never has one.
pub proof fn no_snapshot_is_kept(
    before: ErasureMemoryStorage,
    snapshot: Option<DefaultLogEntrySnapshot>,
    set: StorageResult<()>,
    after: ErasureMemoryStorage,
    held: StorageResult<Option<DefaultLogEntrySnapshot>>,
)
    requires
        exists|d: &mut ErasureMemoryStorage|
            *d == before && *final(d) == after && #[trigger] call_ensures(
                <ErasureMemoryStorage as Storage<DefaultLogEntry>>::set_snapshot,
                (d, snapshot),
                set,
            ),
        call_ensures(
            <ErasureMemoryStorage as Storage<DefaultLogEntry>>::get_snapshot,
            (&after,),
            held,
        ),
    ensures
        set is Ok,
        after == before,
        held matches Ok(none) && none is None,
{
}

} // verus!
