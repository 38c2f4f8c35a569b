//! A storage backend in memory.
use crate::storage::{
    Entry, OpView, Snapshot, StopSign, Storage, StorageModel, StorageOp, StorageResult,
};
use crate::storage;
use crate::util::Ballot;
use crate::util;
use vstd::prelude::*;

verus! {

/// A storage backend that holds the log in memory. Its operations do not fail.
pub struct MemoryStorage<T: Entry> {
    /// Vector which contains all the logged entries in-memory.
    pub log: Vec<T>,
    /// Last promised round.
    pub n_prom: Option<Ballot>,
    /// Last accepted round.
    pub acc_round: Option<Ballot>,
    /// Length of the decided log.
    pub ld: usize,
    /// Garbage collected index.
    pub trimmed_idx: usize,
    /// Stored snapshot.
    pub snapshot: Option<T::Snapshot>,
    /// Stored stopsign.
    pub stopsign: Option<StopSign>,
}

impl<T: Entry> Default for MemoryStorage<T> {
    fn default() -> (storage: Self)
        ensures
            storage@ == StorageModel::<T>::initial(),
    {
        let storage: MemoryStorage<T> = MemoryStorage {
            log: Vec::new(),
            n_prom: None,
            acc_round: None,
            ld: 0,
            trimmed_idx: 0,
            snapshot: None,
            stopsign: None,
        };
        assert(storage@ =~= StorageModel::<T>::initial());
        storage
    }
}

impl<T: Entry> View for MemoryStorage<T> {
    type V = StorageModel<T>;

    open spec fn view(&self) -> StorageModel<T> {
        StorageModel {
            log: util::views(self.log@),
            promise: self.n_prom,
            accepted_round: self.acc_round,
            decided_idx: self.ld as nat,
            compacted_idx: self.trimmed_idx as nat,
            snapshot: util::view_option(self.snapshot),
            stopsign: util::view_option(self.stopsign),
        }
    }
}

impl<T: Entry> MemoryStorage<T> {
    /// A storage that holds the same.
    pub fn duplicate(&self) -> (copy: Self)
        ensures
            copy@ == self@,
    {
        let snapshot: Option<T::Snapshot> = match &self.snapshot {
            Some(snapshot) => Some(snapshot.duplicate()),
            None => None,
        };
        MemoryStorage {
            log: storage::duplicate_all(&self.log),
            n_prom: self.n_prom,
            acc_round: self.acc_round,
            ld: self.ld,
            trimmed_idx: self.trimmed_idx,
            snapshot,
            stopsign: storage::duplicate_stopsign(&self.stopsign),
        }
    }

    /// Performs one operation of an atomic write.
    fn apply(&mut self, op: StorageOp<T>) -> (result: StorageResult<()>)
        requires
            storage::op_ok(old(self)@.compacted_idx, op@),
        ensures
            result is Ok,
            final(self)@ == old(self)@.apply(true, op@),
            final(self)@.compacted_idx == storage::floor_after(old(self)@.compacted_idx, op@),
    {
        match op {
            StorageOp::AppendEntry(entry) => self.append_entry(entry),
            StorageOp::AppendEntries(entries) => self.append_entries(entries),
            StorageOp::AppendOnPrefix(idx, entries) => self.append_on_prefix(idx, entries),
            StorageOp::SetPromise(n) => self.set_promise(n),
            StorageOp::SetDecidedIndex(idx) => self.set_decided_idx(idx),
            StorageOp::SetAcceptedRound(n) => self.set_accepted_round(n),
            StorageOp::SetCompactedIdx(idx) => self.set_compacted_idx(idx),
            StorageOp::Trim(idx) => self.trim(idx),
            StorageOp::SetStopsign(ss) => self.set_stopsign(ss),
            StorageOp::SetSnapshot(snapshot) => self.set_snapshot(snapshot),
        }
    }
}

impl<T: Entry> Storage<T> for MemoryStorage<T> {
    open spec fn model(&self) -> StorageModel<T> {
        self@
    }

    open spec fn faithful(&self) -> bool {
        true
    }

    open spec fn reliable(&self) -> bool {
        true
    }

    open spec fn keeps_snapshots() -> bool {
        true
    }

    open spec fn reads(&self, from: nat, to: nat) -> bool {
        from >= self.model().compacted_idx && to >= self.model().compacted_idx
    }

    open spec fn reads_from(&self, from: nat) -> bool {
        from >= self.model().compacted_idx
    }

    open spec fn cuts_at(&self, idx: nat) -> bool {
        idx >= self.model().compacted_idx
    }

    open spec fn performs(&self, ops: Seq<OpView<T>>) -> bool {
        storage::ops_ok(self.model().compacted_idx, ops)
    }

    fn write_atomically(&mut self, ops: Vec<StorageOp<T>>) -> (result: StorageResult<()>) {
        let ghost before = self@;
        let ghost all = util::views(ops@);
        let mut rest: Vec<StorageOp<T>> = ops;
        let ghost mut done: int = 0;
        proof {
            assert(all.take(0) =~= Seq::empty());
            assert(all.skip(0) =~= all);
        }
        while rest.len() > 0
            invariant
                0 <= done <= all.len(),
                util::views(rest@) == all.skip(done),
                self@ == before.apply_all(true, all.take(done)),
                storage::ops_ok(self@.compacted_idx, util::views(rest@)),
            decreases rest.len(),
        {
            let ghost views = util::views(rest@);
            let ghost taken = all.take(done);
            let op: StorageOp<T> = rest.remove(0);
            proof {
                assert(views.first() == op@);
                assert(util::views(rest@) =~= views.drop_first());
                assert(all.take(done + 1).drop_last() =~= taken);
                assert(all.take(done + 1).last() == op@);
                assert(views.drop_first() =~= all.skip(done + 1));
                done = done + 1;
            }
            let applied = self.apply(op);
        }
        assert(all.take(done) =~= all);
        Ok(())
    }

    fn append_entry(&mut self, entry: T) -> (result: StorageResult<()>) {
        let ghost before = self@;
        self.log.push(entry);
        assert(self@ =~= before.append_entry(entry@));
        Ok(())
    }

    fn append_entries(&mut self, entries: Vec<T>) -> (result: StorageResult<()>) {
        let ghost before = self@;
        let ghost added = util::views(entries@);
        let mut es: Vec<T> = entries;
        self.log.append(&mut es);
        assert(self@ =~= before.append_entries(added));
        Ok(())
    }

    fn append_on_prefix(&mut self, from_idx: usize, entries: Vec<T>) -> (result: StorageResult<
        (),
    >) {
        let ghost before = self@;
        let ghost added = util::views(entries@);
        self.log.truncate(from_idx - self.trimmed_idx);
        let result = self.append_entries(entries);
        assert(self@ =~= before.append_on_prefix(from_idx as nat, added));
        result
    }

    fn set_promise(&mut self, n_prom: Ballot) -> (result: StorageResult<()>) {
        self.n_prom = Some(n_prom);
        Ok(())
    }

    fn set_decided_idx(&mut self, ld: usize) -> (result: StorageResult<()>) {
        self.ld = ld;
        Ok(())
    }

    fn get_decided_idx(&self) -> (result: StorageResult<usize>) {
        Ok(self.ld)
    }

    fn set_accepted_round(&mut self, na: Ballot) -> (result: StorageResult<()>) {
        self.acc_round = Some(na);
        Ok(())
    }

    fn get_accepted_round(&self) -> (result: StorageResult<Option<Ballot>>) {
        Ok(self.acc_round)
    }

    fn get_entries(&self, from: usize, to: usize) -> (result: StorageResult<Vec<T>>) {
        let start: usize = from - self.trimmed_idx;
        let end: usize = to - self.trimmed_idx;
        if start <= end && end <= self.log.len() {
            Ok(storage::duplicate_range(&self.log, start, end))
        } else {
            let none: Vec<T> = Vec::new();
            assert(util::views(none@) =~= Seq::empty());
            Ok(none)
        }
    }

    fn get_log_len(&self) -> (result: StorageResult<usize>) {
        Ok(self.log.len())
    }

    fn get_suffix(&self, from: usize) -> (result: StorageResult<Vec<T>>) {
        let start: usize = from - self.trimmed_idx;
        if start <= self.log.len() {
            Ok(storage::duplicate_range(&self.log, start, self.log.len()))
        } else {
            let none: Vec<T> = Vec::new();
            assert(util::views(none@) =~= Seq::empty());
            Ok(none)
        }
    }

    fn get_promise(&self) -> (result: StorageResult<Option<Ballot>>) {
        Ok(self.n_prom)
    }

    fn set_stopsign(&mut self, s: Option<StopSign>) -> (result: StorageResult<()>) {
        self.stopsign = s;
        Ok(())
    }

    fn get_stopsign(&self) -> (result: StorageResult<Option<StopSign>>) {
        Ok(storage::duplicate_stopsign(&self.stopsign))
    }

    fn trim(&mut self, idx: usize) -> (result: StorageResult<()>) {
        let ghost before = self@;
        let ghost log = self.log@;
        let gone: usize = idx - self.trimmed_idx;
        if gone <= self.log.len() {
            let kept: Vec<T> = self.log.split_off(gone);
            self.log = kept;
        } else {
            self.log.clear();
        }
        self.trimmed_idx = idx;
        assert(self@ =~= before.trim(idx as nat));
        Ok(())
    }

    fn set_compacted_idx(&mut self, idx: usize) -> (result: StorageResult<()>) {
        self.trimmed_idx = idx;
        Ok(())
    }

    fn get_compacted_idx(&self) -> (result: StorageResult<usize>) {
        Ok(self.trimmed_idx)
    }

    fn set_snapshot(&mut self, snapshot: Option<T::Snapshot>) -> (result: StorageResult<()>) {
        self.snapshot = snapshot;
        Ok(())
    }

    fn get_snapshot(&self) -> (result: StorageResult<Option<T::Snapshot>>) {
        match &self.snapshot {
            Some(snapshot) => Ok(Some(snapshot.duplicate())),
            None => Ok(None),
        }
    }
}

} // verus!
