//! The storage of a server with the cache and the batch in front of it.
use crate::messages::{LogSync, LogSyncView, SnapshotType, SnapshotTypeView};
use crate::storage::{
    Entry, OpView, Snapshot, StopSign, StopSignView, Storage, StorageModel, StorageOp,
    StorageResult,
};
use crate::storage;
use crate::util::Ballot;
use crate::util;
use vstd::prelude::*;

verus! {

/// The entries that were flushed to the log, and the accepted index after that.
pub struct AcceptedMetaData<T: Entry> {
    pub accepted_idx: usize,
    pub entries: Vec<T>,
}

/// A cache of what the storage holds, and the entries of the current batch.
pub struct StateCache<T: Entry> {
    /// The number of entries at which a batch is flushed.
    pub batch_size: usize,
    /// The entries that wait to be flushed.
    pub batched_entries: Vec<T>,
    /// The promised round.
    pub promise: Ballot,
    /// The accepted round.
    pub accepted_round: Ballot,
    /// The decided index.
    pub decided_idx: usize,
    /// The length of the accepted log, the stopsign counted.
    pub accepted_idx: usize,
    /// The index below which the log is compacted.
    pub compacted_idx: usize,
    /// The stopsign.
    pub stopsign: Option<StopSign>,
}

/// The storage of a server with the cache and the batch in front of it.
pub struct InternalStorage<B, T> where B: Storage<T>, T: Entry {
    pub storage: B,
    pub state_cache: StateCache<T>,
}

/// What the storage and the batch hold.
#[verifier::ext_equal]
pub struct InternalView<T: Entry> {
    pub model: StorageModel<T>,
    pub batched: Seq<T::V>,
    pub batch_size: usize,
}

/// The ballot, or the lowest one.
pub open spec fn ballot_or_bottom(n: Option<Ballot>) -> Ballot {
    match n {
        Some(ballot) => ballot,
        None => Ballot::bottom(),
    }
}

impl<T: Entry> InternalView<T> {
    /// The promised round.
    pub open spec fn promise(self) -> Ballot {
        ballot_or_bottom(self.model.promise)
    }

    /// The accepted round.
    pub open spec fn accepted_round(self) -> Ballot {
        ballot_or_bottom(self.model.accepted_round)
    }

    /// The decided index.
    pub open spec fn decided_idx(self) -> usize {
        self.model.decided_idx as usize
    }

    /// The length of the log, the compacted entries and the stopsign counted.
    pub open spec fn accepted_len(self) -> nat {
        self.model.compacted_idx + self.model.log.len() + if self.model.stopsign is Some {
            1nat
        } else {
            0nat
        }
    }

    /// The length of the log, as an index.
    pub open spec fn accepted_idx(self) -> usize {
        self.accepted_len() as usize
    }

    /// The stopsign is there and decided: it is the last entry.
    pub open spec fn stopsign_is_decided(self) -> bool {
        self.model.stopsign is Some && self.model.decided_idx == self.accepted_len()
    }

    /// The decided index, the stopsign not counted.
    pub open spec fn decided_log_idx(self) -> int {
        if self.stopsign_is_decided() {
            self.model.decided_idx - 1
        } else {
            self.model.decided_idx as int
        }
    }

    /// The log can grow by `n` entries and a stopsign.
    pub open spec fn room(self, n: nat) -> bool {
        self.accepted_len() + self.batched.len() + n < usize::MAX
    }

    /// The batch is written to the log.
    pub open spec fn flush(self) -> Self {
        InternalView {
            model: self.model.append_entries(self.batched),
            batched: Seq::empty(),
            ..self
        }
    }

    /// The batch is full.
    pub open spec fn full(self) -> bool {
        self.batched.len() >= self.batch_size
    }

    /// The entries join the batch.
    pub open spec fn batch(self, entries: Seq<T::V>) -> Self {
        InternalView { batched: self.batched + entries, ..self }
    }

    /// The entries join the batch, which is flushed if it is full.
    pub open spec fn append_with_batching(self, entries: Seq<T::V>) -> Self {
        if self.batch(entries).full() {
            self.batch(entries).flush()
        } else {
            self.batch(entries)
        }
    }

    /// The entries are written to the log.
    pub open spec fn append(self, entries: Seq<T::V>) -> Self {
        InternalView { model: self.model.append_entries(entries), ..self }
    }

    /// The batch is flushed and the stopsign set.
    pub open spec fn append_stopsign(self, ss: StopSignView) -> Self {
        let flushed = self.flush();
        InternalView { model: flushed.model.set_stopsign(Some(ss)), ..flushed }
    }

    pub open spec fn set_promise(self, n: Ballot) -> Self {
        InternalView { model: self.model.set_promise(n), ..self }
    }

    pub open spec fn set_decided_idx(self, idx: usize) -> Self {
        InternalView { model: self.model.set_decided_idx(idx as nat), ..self }
    }

    /// The snapshot of the log up to index `idx`: what is compacted and what is
    /// still in the log.
    pub open spec fn snapshot_up_to(self, idx: nat) -> <T::Snapshot as View>::V {
        let delta = T::Snapshot::created(self.model.entries(self.model.compacted_idx, idx));
        match self.model.snapshot {
            Some(base) => T::Snapshot::merged(base, delta),
            None => delta,
        }
    }

    /// The snapshot that brings a log with the decided entries up to `from_idx` to
    /// our decided index: the new entries alone, or all where some of them are
    /// compacted.
    pub open spec fn diff_snapshot(self, from_idx: nat) -> Option<SnapshotTypeView<T>> {
        let decided = self.decided_log_idx() as nat;
        if from_idx > self.model.compacted_idx {
            Some(
                SnapshotTypeView::Delta(
                    T::Snapshot::created(self.model.entries(from_idx, decided)),
                ),
            )
        } else if self.model.compacted_idx < decided {
            Some(SnapshotTypeView::Complete(self.snapshot_up_to(decided)))
        } else {
            match self.model.snapshot {
                Some(snapshot) => Some(SnapshotTypeView::Complete(snapshot)),
                None => None,
            }
        }
    }

    /// The log can be brought to the state that `sync` tells: it addresses nothing
    /// that is compacted, and leaves no gap.
    pub open spec fn can_sync(self, sync: LogSyncView<T>) -> bool {
        &&& sync.sync_idx >= self.model.compacted_idx
        &&& sync.decided_snapshot is None ==> sync.sync_idx <= self.model.compacted_idx
            + self.model.log.len()
        &&& sync.decided_snapshot matches Some(SnapshotTypeView::Delta(_))
            ==> self.decided_log_idx() >= self.model.compacted_idx
        &&& sync.sync_idx + sync.suffix.len() + self.batched.len() < usize::MAX
    }

    /// The log is brought to the state that `log_sync` tells, in round
    /// `accepted_round` and with the decided index `decided_idx`.
    pub open spec fn sync_log(
        self,
        keeps: bool,
        accepted_round: Ballot,
        decided_idx: usize,
        log_sync: Option<LogSyncView<T>>,
    ) -> Self {
        let marked = self.model.set_accepted_round(accepted_round).set_decided_idx(
            decided_idx as nat,
        );
        let model = match log_sync {
            None => marked,
            Some(sync) => {
                let idx = sync.sync_idx as nat;
                let compacted = match sync.decided_snapshot {
                    None => marked,
                    Some(SnapshotTypeView::Complete(snapshot)) => marked.trim(idx).set_snapshot(
                        keeps,
                        Some(snapshot),
                    ),
                    Some(SnapshotTypeView::Delta(delta)) => marked.trim(idx).set_snapshot(
                        keeps,
                        Some(
                            T::Snapshot::merged(
                                self.snapshot_up_to(self.decided_log_idx() as nat),
                                delta,
                            ),
                        ),
                    ),
                };
                compacted.append_on_prefix(idx, sync.suffix).set_stopsign(sync.stopsign)
            },
        };
        InternalView { model, ..self }
    }
}

impl<T: Entry> InternalView<T> {
    /// The log with the entries that wait to join it.
    pub open spec fn all_entries(self) -> Seq<T::V> {
        self.model.log + self.batched
    }

    /// Batching loses no entry and keeps their order: the log and the batch together
    /// hold what they held, and the new entries behind it.
    pub proof fn batching_keeps_order(self, entries: Seq<T::V>)
        ensures
            self.append_with_batching(entries).all_entries() == self.all_entries() + entries,
            self.flush().all_entries() == self.all_entries(),
            self.flush().batched.len() == 0,
    {
        assert(self.append_with_batching(entries).all_entries() =~= self.all_entries() + entries);
        assert(self.flush().all_entries() =~= self.all_entries());
    }
}

impl<B, T> View for InternalStorage<B, T> where B: Storage<T>, T: Entry {
    type V = InternalView<T>;

    open spec fn view(&self) -> InternalView<T> {
        InternalView {
            model: self.storage.model(),
            batched: util::views(self.state_cache.batched_entries@),
            batch_size: self.state_cache.batch_size,
        }
    }
}

impl<B, T> InternalStorage<B, T> where B: Storage<T>, T: Entry {
    /// The storage reads back what was written, and the cache holds what it holds.
    pub open spec fn wf(&self) -> bool {
        &&& self.storage.faithful()
        &&& self.state_cache.promise == self@.promise()
        &&& self.state_cache.accepted_round == self@.accepted_round()
        &&& self.state_cache.decided_idx == self@.model.decided_idx
        &&& self.state_cache.accepted_idx == self@.accepted_len()
        &&& self.state_cache.compacted_idx == self@.model.compacted_idx
        &&& util::view_option(self.state_cache.stopsign) == self@.model.stopsign
    }

    /// No operation on the storage fails.
    pub open spec fn reliable(&self) -> bool {
        self.storage.reliable()
    }

    /// Puts a cache and an empty batch in front of a storage.
    pub fn with(storage: B, batch_size: usize) -> (result: StorageResult<Self>)
        requires
            storage.faithful(),
            storage.model().compacted_idx + storage.model().log.len() < usize::MAX,
        ensures
            match result {
                Ok(internal) => internal.wf() && internal.storage == storage && internal@ == (
                InternalView { model: storage.model(), batched: Seq::empty(), batch_size }),
                Err(_) => !storage.reliable(),
            },
    {
        let promise: Ballot = match storage.get_promise()? {
            Some(n) => n,
            None => Ballot::default(),
        };
        let accepted_round: Ballot = match storage.get_accepted_round()? {
            Some(n) => n,
            None => Ballot::default(),
        };
        let decided_idx: usize = storage.get_decided_idx()?;
        let compacted_idx: usize = storage.get_compacted_idx()?;
        let log_len: usize = storage.get_log_len()?;
        let stopsign: Option<StopSign> = storage.get_stopsign()?;
        let accepted_idx: usize = compacted_idx + log_len + if stopsign.is_some() {
            1
        } else {
            0
        };
        let internal: InternalStorage<B, T> = InternalStorage {
            storage,
            state_cache: StateCache {
                batch_size,
                batched_entries: Vec::new(),
                promise,
                accepted_round,
                decided_idx,
                accepted_idx,
                compacted_idx,
                stopsign,
            },
        };
        assert(internal@.batched =~= Seq::empty());
        Ok(internal)
    }

    /// The promised round.
    pub fn get_promise(&self) -> (n: Ballot)
        requires
            self.wf(),
        ensures
            n == self@.promise(),
    {
        self.state_cache.promise
    }

    /// The accepted round.
    pub fn get_accepted_round(&self) -> (n: Ballot)
        requires
            self.wf(),
        ensures
            n == self@.accepted_round(),
    {
        self.state_cache.accepted_round
    }

    /// The decided index.
    pub fn get_decided_idx(&self) -> (idx: usize)
        requires
            self.wf(),
        ensures
            idx == self@.model.decided_idx,
            idx == self@.decided_idx(),
    {
        self.state_cache.decided_idx
    }

    /// The length of the log, the stopsign counted.
    pub fn get_accepted_idx(&self) -> (idx: usize)
        requires
            self.wf(),
        ensures
            idx == self@.accepted_len(),
            idx == self@.accepted_idx(),
    {
        self.state_cache.accepted_idx
    }

    /// The stopsign, if there is one.
    pub fn get_stopsign(&self) -> (ss: Option<StopSign>)
        requires
            self.wf(),
        ensures
            util::view_option(ss) == self@.model.stopsign,
    {
        storage::duplicate_stopsign(&self.state_cache.stopsign)
    }

    /// Whether the stopsign is there and decided.
    pub fn stopsign_is_decided(&self) -> (decided: bool)
        requires
            self.wf(),
        ensures
            decided == self@.stopsign_is_decided(),
    {
        self.state_cache.stopsign.is_some() && self.state_cache.decided_idx
            == self.state_cache.accepted_idx
    }

    /// Sets the promised round.
    pub fn set_promise(&mut self, n: Ballot) -> (result: StorageResult<()>)
        requires
            old(self).wf(),
        ensures
            match result {
                Ok(_) => final(self).wf() && final(self).reliable() == old(self).reliable()
                    && final(self)@ == old(self)@.set_promise(n),
                Err(_) => !old(self).reliable(),
            },
    {
        let result = self.storage.set_promise(n);
        self.state_cache.promise = n;
        result
    }

    /// Sets the decided index.
    pub fn set_decided_idx(&mut self, idx: usize) -> (result: StorageResult<()>)
        requires
            old(self).wf(),
        ensures
            match result {
                Ok(_) => final(self).wf() && final(self).reliable() == old(self).reliable()
                    && final(self)@ == old(self)@.set_decided_idx(idx),
                Err(_) => !old(self).reliable(),
            },
    {
        let result = self.storage.set_decided_idx(idx);
        self.state_cache.decided_idx = idx;
        result
    }

    /// Writes entries to the log and tells its length.
    pub fn append_entries_without_batching(&mut self, entries: Vec<T>) -> (result: StorageResult<
        usize,
    >)
        requires
            old(self).wf(),
            old(self)@.accepted_len() + entries@.len() <= usize::MAX,
        ensures
            match result {
                Ok(idx) => final(self).wf() && final(self).reliable() == old(self).reliable()
                    && final(self)@ == old(self)@.append(util::views(entries@)) && idx
                    == final(self)@.accepted_idx(),
                Err(_) => !old(self).reliable(),
            },
    {
        let num_new_entries: usize = entries.len();
        match self.storage.append_entries(entries) {
            Ok(_) => {
                self.state_cache.accepted_idx = self.state_cache.accepted_idx + num_new_entries;
                Ok(self.state_cache.accepted_idx)
            },
            Err(e) => Err(e),
        }
    }

    /// Takes the entries out of the batch.
    fn take_batched_entries(&mut self) -> (entries: Vec<T>)
        requires
            old(self).wf(),
        ensures
            final(self).wf(),
            final(self).storage == old(self).storage,
            util::views(entries@) == old(self)@.batched,
            final(self)@ == (InternalView { batched: Seq::empty(), ..old(self)@ }),
    {
        let ghost before = self@;
        let mut entries: Vec<T> = Vec::new();
        entries.append(&mut self.state_cache.batched_entries);
        assert(util::views(entries@) =~= before.batched);
        assert(self@.batched =~= Seq::empty());
        entries
    }

    /// Writes the batch to the log and tells its length.
    pub fn flush_batch(&mut self) -> (result: StorageResult<usize>)
        requires
            old(self).wf(),
            old(self)@.room(0),
        ensures
            match result {
                Ok(idx) => final(self).wf() && final(self).reliable() == old(self).reliable()
                    && final(self)@ == old(self)@.flush() && idx == final(self)@.accepted_idx(),
                Err(_) => !old(self).reliable(),
            },
    {
        let entries: Vec<T> = self.take_batched_entries();
        self.append_entries_without_batching(entries)
    }

    /// Writes the batch to the log, if there is any.
    pub fn flush_batch_and_get_entries(&mut self) -> (result: StorageResult<
        Option<AcceptedMetaData<T>>,
    >)
        requires
            old(self).wf(),
            old(self)@.room(0),
        ensures
            match result {
                Ok(accepted) => final(self).wf() && final(self).reliable() == old(self).reliable()
                    && final(self)@ == old(self)@.flush() && match accepted {
                    Some(metadata) => old(self)@.batched.len() > 0 && metadata.accepted_idx
                        == final(self)@.accepted_idx() && util::views(metadata.entries@)
                        == old(self)@.batched,
                    None => old(self)@.batched.len() == 0,
                },
                Err(_) => !old(self).reliable() && old(self)@.batched.len() > 0,
            },
    {
        let ghost before = self@;
        let entries: Vec<T> = self.take_batched_entries();
        if entries.len() == 0 {
            assert(before.batched.len() == 0);
            assert(self@ =~= before.flush());
            return Ok(None);
        }
        let copies: Vec<T> = storage::duplicate_all(&entries);
        match self.append_entries_without_batching(entries) {
            Ok(accepted_idx) => {
                assert(util::views(copies@).len() == copies@.len());
                Ok(Some(AcceptedMetaData { accepted_idx, entries: copies }))
            },
            Err(e) => Err(e),
        }
    }

    /// Puts an entry into the batch, which is flushed if it is full.
    pub fn append_entry_with_batching(&mut self, entry: T) -> (result: StorageResult<
        Option<AcceptedMetaData<T>>,
    >)
        requires
            old(self).wf(),
            old(self)@.room(1),
        ensures
            match result {
                Ok(accepted) => final(self).wf() && final(self).reliable() == old(self).reliable()
                    && final(self)@ == old(self)@.append_with_batching(seq![entry@])
                    && match accepted {
                    Some(metadata) => old(self)@.batch(seq![entry@]).full()
                        && metadata.accepted_idx == final(self)@.accepted_idx() && util::views(
                        metadata.entries@,
                    ) == old(self)@.batched + seq![entry@],
                    None => !old(self)@.batch(seq![entry@]).full(),
                },
                Err(_) => !old(self).reliable() && old(self)@.batch(seq![entry@]).full(),
            },
    {
        let mut entries: Vec<T> = Vec::new();
        entries.push(entry);
        assert(util::views(entries@) =~= seq![entry@]);
        self.append_entries_with_batching(entries)
    }

    /// Puts entries into the batch, which is flushed if it is full.
    pub fn append_entries_with_batching(&mut self, entries: Vec<T>) -> (result: StorageResult<
        Option<AcceptedMetaData<T>>,
    >)
        requires
            old(self).wf(),
            old(self)@.room(entries@.len()),
        ensures
            match result {
                Ok(accepted) => final(self).wf() && final(self).reliable() == old(self).reliable()
                    && final(self)@ == old(self)@.append_with_batching(
                    util::views(entries@),
                ) && match accepted {
                    Some(metadata) => old(self)@.batch(util::views(entries@)).full()
                        && metadata.accepted_idx == final(self)@.accepted_idx() && util::views(
                        metadata.entries@,
                    ) == old(self)@.batched + util::views(entries@),
                    None => !old(self)@.batch(util::views(entries@)).full(),
                },
                Err(_) => !old(self).reliable() && old(self)@.batch(util::views(entries@)).full(),
            },
    {
        let ghost before = self@;
        let ghost added = util::views(entries@);
        let mut more: Vec<T> = entries;
        self.state_cache.batched_entries.append(&mut more);
        assert(self@ =~= before.batch(added));
        if self.state_cache.batched_entries.len() < self.state_cache.batch_size {
            return Ok(None);
        }
        let flushed: Vec<T> = self.take_batched_entries();
        let copies: Vec<T> = storage::duplicate_all(&flushed);
        match self.append_entries_without_batching(flushed) {
            Ok(accepted_idx) => Ok(Some(AcceptedMetaData { accepted_idx, entries: copies })),
            Err(e) => Err(e),
        }
    }

    /// Flushes the batch and sets the stopsign.
    pub fn append_stopsign(&mut self, ss: StopSign) -> (result: StorageResult<
        Option<AcceptedMetaData<T>>,
    >)
        requires
            old(self).wf(),
            old(self)@.room(0),
        ensures
            match result {
                Ok(accepted) => final(self).wf() && final(self).reliable() == old(self).reliable()
                    && final(self)@ == old(self)@.append_stopsign(ss@) && (
                accepted is Some <==> old(self)@.batched.len() > 0),
                Err(_) => !old(self).reliable(),
            },
    {
        let accepted: Option<AcceptedMetaData<T>> = match self.flush_batch_and_get_entries() {
            Ok(accepted) => accepted,
            Err(e) => return Err(e),
        };
        let copy: StopSign = ss.clone();
        match self.storage.set_stopsign(Some(ss)) {
            Ok(_) => {
                if self.state_cache.stopsign.is_none() {
                    self.state_cache.accepted_idx = self.state_cache.accepted_idx + 1;
                }
                self.state_cache.stopsign = Some(copy);
                Ok(accepted)
            },
            Err(e) => Err(e),
        }
    }

    /// The entries from index `from` on.
    pub fn get_suffix(&self, from: usize) -> (result: StorageResult<Vec<T>>)
        requires
            self.wf(),
            from >= self@.model.compacted_idx,
        ensures
            match result {
                Ok(entries) => util::views(entries@) == self@.model.suffix(from as nat),
                Err(_) => !self.reliable(),
            },
    {
        self.storage.get_suffix(from)
    }

    /// The decided index, the stopsign not counted.
    fn get_decided_idx_without_stopsign(&self) -> (idx: usize)
        requires
            self.wf(),
        ensures
            idx == self@.decided_log_idx(),
    {
        if self.stopsign_is_decided() {
            self.state_cache.decided_idx - 1
        } else {
            self.state_cache.decided_idx
        }
    }

    /// The snapshot of the log up to index `idx`.
    fn create_snapshot(&self, idx: usize) -> (result: StorageResult<T::Snapshot>)
        requires
            self.wf(),
            idx >= self@.model.compacted_idx,
        ensures
            match result {
                Ok(snapshot) => snapshot@ == self@.snapshot_up_to(idx as nat),
                Err(_) => !self.reliable(),
            },
    {
        let entries: Vec<T> = match self.storage.get_entries(self.state_cache.compacted_idx, idx) {
            Ok(entries) => entries,
            Err(e) => return Err(e),
        };
        let delta: T::Snapshot = T::Snapshot::create(&entries);
        match self.storage.get_snapshot() {
            Ok(Some(base)) => {
                let mut merged: T::Snapshot = base;
                merged.merge(delta);
                Ok(merged)
            },
            Ok(None) => Ok(delta),
            Err(e) => Err(e),
        }
    }

    /// The snapshot that brings a log with the decided entries up to `from_idx` to
    /// our decided index, and that index.
    pub fn create_diff_snapshot(&self, from_idx: usize) -> (result: StorageResult<
        (Option<SnapshotType<T>>, usize),
    >)
        requires
            self.wf(),
            self@.decided_log_idx() >= self@.model.compacted_idx,
        ensures
            match result {
                Ok((snapshot, idx)) => util::view_option(snapshot) == self@.diff_snapshot(
                    from_idx as nat,
                ) && idx == self@.decided_log_idx(),
                Err(_) => !self.reliable(),
            },
    {
        let decided: usize = self.get_decided_idx_without_stopsign();
        let compacted: usize = self.state_cache.compacted_idx;
        if from_idx > compacted {
            match self.storage.get_entries(from_idx, decided) {
                Ok(entries) => Ok(
                    (Some(SnapshotType::Delta(T::Snapshot::create(&entries))), decided),
                ),
                Err(e) => Err(e),
            }
        } else if compacted < decided {
            match self.create_snapshot(decided) {
                Ok(snapshot) => Ok((Some(SnapshotType::Complete(snapshot)), decided)),
                Err(e) => Err(e),
            }
        } else {
            match self.storage.get_snapshot() {
                Ok(Some(snapshot)) => Ok((Some(SnapshotType::Complete(snapshot)), decided)),
                Ok(None) => Ok((None, decided)),
                Err(e) => Err(e),
            }
        }
    }

    /// Brings the log to the state that `log_sync` tells, in one atomic write, and
    /// tells its length.
    pub fn sync_log(
        &mut self,
        accepted_round: Ballot,
        decided_idx: usize,
        log_sync: Option<LogSync<T>>,
    ) -> (result: StorageResult<usize>)
        requires
            old(self).wf(),
            log_sync matches Some(sync) ==> old(self)@.can_sync(sync@),
        ensures
            match result {
                Ok(idx) => final(self).wf() && final(self).reliable() == old(self).reliable()
                    && final(self)@ == old(self)@.sync_log(
                    B::keeps_snapshots(),
                    accepted_round,
                    decided_idx,
                    util::view_option(log_sync),
                ) && idx == final(self)@.accepted_idx(),
                Err(_) => !old(self).reliable() && final(self).wf() && final(self)@ == old(self)@,
            },
    {
        let ghost before = self@;
        let ghost sync_view = util::view_option(log_sync);
        let ghost floor = before.model.compacted_idx;
        let ghost keeps = B::keeps_snapshots();
        let mut ops: Vec<StorageOp<T>> = Vec::new();
        proof {
            assert(util::views(ops@) =~= Seq::empty());
        }
        Self::push_op(
            &mut ops,
            StorageOp::SetAcceptedRound(accepted_round),
            Ghost(before.model),
            Ghost(keeps),
        );
        Self::push_op(
            &mut ops,
            StorageOp::SetDecidedIndex(decided_idx),
            Ghost(before.model),
            Ghost(keeps),
        );
        let mut accepted_idx: usize = self.state_cache.accepted_idx;
        let mut compacted_idx: usize = self.state_cache.compacted_idx;
        let mut stopsign: Option<StopSign> = storage::duplicate_stopsign(
            &self.state_cache.stopsign,
        );
        if let Some(sync) = log_sync {
            let merged: Option<T::Snapshot> = match sync.decided_snapshot {
                None => None,
                Some(SnapshotType::Complete(snapshot)) => Some(snapshot),
                Some(SnapshotType::Delta(delta)) => {
                    let decided: usize = self.get_decided_idx_without_stopsign();
                    let mut base: T::Snapshot = match self.create_snapshot(decided) {
                        Ok(snapshot) => snapshot,
                        Err(e) => return Err(e),
                    };
                    base.merge(delta);
                    Some(base)
                },
            };
            if let Some(snapshot) = merged {
                Self::push_op(
                    &mut ops,
                    StorageOp::Trim(sync.sync_idx),
                    Ghost(before.model),
                    Ghost(keeps),
                );
                Self::push_op(
                    &mut ops,
                    StorageOp::SetCompactedIdx(sync.sync_idx),
                    Ghost(before.model),
                    Ghost(keeps),
                );
                Self::push_op(
                    &mut ops,
                    StorageOp::SetSnapshot(Some(snapshot)),
                    Ghost(before.model),
                    Ghost(keeps),
                );
                compacted_idx = sync.sync_idx;
            }
            accepted_idx = sync.sync_idx + sync.suffix.len() + if sync.stopsign.is_some() {
                1
            } else {
                0
            };
            Self::push_op(
                &mut ops,
                StorageOp::AppendOnPrefix(sync.sync_idx, sync.suffix),
                Ghost(before.model),
                Ghost(keeps),
            );
            stopsign = storage::duplicate_stopsign(&sync.stopsign);
            Self::push_op(
                &mut ops,
                StorageOp::SetStopsign(sync.stopsign),
                Ghost(before.model),
                Ghost(keeps),
            );
        }
        match self.storage.write_atomically(ops) {
            Ok(_) => {
                self.state_cache.accepted_round = accepted_round;
                self.state_cache.decided_idx = decided_idx;
                self.state_cache.accepted_idx = accepted_idx;
                self.state_cache.compacted_idx = compacted_idx;
                self.state_cache.stopsign = stopsign;
                proof {
                    assert(self@ =~= before.sync_log(
                        keeps,
                        accepted_round,
                        decided_idx,
                        sync_view,
                    ));
                }
                Ok(accepted_idx)
            },
            Err(e) => Err(e),
        }
    }

    /// Adds an operation to an atomic write.
    fn push_op(
        ops: &mut Vec<StorageOp<T>>,
        op: StorageOp<T>,
        Ghost(model): Ghost<StorageModel<T>>,
        Ghost(keeps): Ghost<bool>,
    )
        requires
            storage::ops_ok(model.compacted_idx, util::views(old(ops)@)),
            storage::op_ok(
                model.apply_all(keeps, util::views(old(ops)@)).compacted_idx,
                op@,
            ),
        ensures
            storage::ops_ok(model.compacted_idx, util::views(final(ops)@)),
            model.apply_all(keeps, util::views(final(ops)@)) == model.apply_all(
                keeps,
                util::views(old(ops)@),
            ).apply(keeps, op@),
    {
        let ghost before = util::views(ops@);
        ops.push(op);
        proof {
            assert(util::views(ops@) =~= before.push(op@));
            assert(util::views(ops@).drop_last() =~= before);
            lemma_ops_ok_push(model, keeps, before, op@);
        }
    }
}

proof fn lemma_apply_first<T: Entry>(model: StorageModel<T>, keeps: bool, ops: Seq<OpView<T>>)
    requires
        ops.len() > 0,
    ensures
        model.apply_all(keeps, ops) == model.apply(keeps, ops.first()).apply_all(
            keeps,
            ops.drop_first(),
        ),
    decreases ops.len(),
{
    if ops.len() == 1 {
        assert(ops.drop_last() =~= Seq::empty());
        assert(ops.drop_first() =~= Seq::empty());
        assert(model.apply_all(keeps, ops.drop_last()) == model);
    } else {
        lemma_apply_first(model, keeps, ops.drop_last());
        assert(ops.drop_last().drop_first() =~= ops.drop_first().drop_last());
    }
}

proof fn lemma_ops_ok_push<T: Entry>(
    model: StorageModel<T>,
    keeps: bool,
    ops: Seq<OpView<T>>,
    op: OpView<T>,
)
    requires
        storage::ops_ok(model.compacted_idx, ops),
        storage::op_ok(model.apply_all(keeps, ops).compacted_idx, op),
    ensures
        storage::ops_ok(model.compacted_idx, ops.push(op)),
    decreases ops.len(),
{
    if ops.len() == 0 {
        assert(ops.push(op).drop_first() =~= Seq::empty());
        assert(ops.push(op).first() == op);
        assert(storage::ops_ok(
            storage::floor_after(model.compacted_idx, op),
            ops.push(op).drop_first(),
        ));
    } else {
        let next = model.apply(keeps, ops.first());
        lemma_apply_first(model, keeps, ops);
        lemma_ops_ok_push(next, keeps, ops.drop_first(), op);
        assert(ops.push(op).drop_first() =~= ops.drop_first().push(op));
    }
}

} // verus!
