//! A storage backend that writes to memory and to disk.
use crate::memory_storage::MemoryStorage;
use crate::storage::{
    Entry, OpView, Snapshot, StopSign, Storage, StorageModel, StorageOp, StorageResult,
};
use crate::storage;
use crate::util::Ballot;
use crate::util;
use vstd::prelude::*;

verus! {

/// A write to the disk half, if that is faithful: one that succeeds leaves `model`
/// there, and none fails if the disk half is reliable.
pub open spec fn disk_wrote<T: Entry, D: Storage<T>>(
    before: D,
    after: D,
    result: StorageResult<()>,
    model: StorageModel<T>,
) -> bool {
    before.faithful() ==> match result {
        Ok(_) => after.faithful() && after.reliable() == before.reliable() && after.model()
            == model,
        Err(_) => !before.reliable(),
    }
}

/// A hybrid storage implementation for SequencePaxos that combines in-memory and persistent storage.
///
/// Every single write goes to both halves, to memory first. Entries are read
/// from memory where it has any in the range, all else from disk. An atomic write
/// reaches the disk only, so after it the memory half may be behind and reads of
/// entries may be stale: the hybrid storage as a whole is not `faithful`. What it
/// does is stated over its halves: what is written is handed to the disk in one call,
/// as it came, and what the disk answers is handed back, its errors included.
pub struct HybridStorage<T, D> where T: Entry, D: Storage<T> {
    /// In-memory storage for fast access and writes.
    mem: MemoryStorage<T>,
    /// Persistent storage for durability and long-term storage.
    disk: D,
}

impl<T, D> HybridStorage<T, D> where T: Entry, D: Storage<T> {
    /// What the memory half holds.
    pub closed spec fn mem(&self) -> StorageModel<T> {
        self.mem@
    }

    /// The disk half.
    pub closed spec fn disk(&self) -> D {
        self.disk
    }

    /// Both halves hold the same.
    pub open spec fn mirrored(&self) -> bool {
        self.disk().faithful() && self.mem() == self.disk().model()
    }

    /// Opens a hybrid storage backend on the given persistent storage. The memory
    /// half starts empty.
    pub fn open(disk: D) -> (storage: Self)
        ensures
            storage.mem() == StorageModel::<T>::initial(),
            storage.disk() == disk,
    {
        HybridStorage { mem: MemoryStorage::default(), disk }
    }
}

impl<T, D> Storage<T> for HybridStorage<T, D> where T: Entry, D: Storage<T> {
    /// What the disk half holds.
    open spec fn model(&self) -> StorageModel<T> {
        self.disk().model()
    }

    open spec fn faithful(&self) -> bool {
        false
    }

    open spec fn reliable(&self) -> bool {
        false
    }

    open spec fn keeps_snapshots() -> bool {
        D::keeps_snapshots()
    }

    /// The memory half is asked, and the disk half where that has nothing.
    open spec fn reads(&self, from: nat, to: nat) -> bool {
        &&& from >= self.mem().compacted_idx && to >= self.mem().compacted_idx
        &&& self.mem().entries(from, to).len() == 0 ==> storage::can_read(self.disk(), from, to)
    }

    /// The memory half is asked, and the disk half where that has nothing.
    open spec fn reads_from(&self, from: nat) -> bool {
        &&& from >= self.mem().compacted_idx
        &&& self.mem().suffix(from).len() == 0 ==> storage::can_read_from(self.disk(), from)
    }

    /// Both halves are cut.
    open spec fn cuts_at(&self, idx: nat) -> bool {
        idx >= self.mem().compacted_idx && storage::can_cut(self.disk(), idx)
    }

    /// The disk half performs them.
    open spec fn performs(&self, ops: Seq<OpView<T>>) -> bool {
        storage::can_perform(self.disk(), ops)
    }

    fn append_entry(&mut self, entry: T) -> (result: StorageResult<()>)
        ensures
            exists|d: &mut D|
                *d == old(self).disk() && *final(d) == final(self).disk()
                    && #[trigger] call_ensures(D::append_entry, (d, entry), result),
            final(self).mem() == old(self).mem().append_entry(entry@),
            disk_wrote(
                old(self).disk(),
                final(self).disk(),
                result,
                old(self).disk().model().append_entry(entry@),
            ),
            old(self).mirrored() && result is Ok ==> final(self).mirrored(),
    {
        let copy: T = entry.duplicate();
        let written = self.mem.append_entry(copy);
        self.disk.append_entry(entry)
    }

    fn append_entries(&mut self, entries: Vec<T>) -> (result: StorageResult<()>)
        ensures
            exists|d: &mut D|
                *d == old(self).disk() && *final(d) == final(self).disk()
                    && #[trigger] call_ensures(D::append_entries, (d, entries), result),
            final(self).mem() == old(self).mem().append_entries(util::views(entries@)),
            disk_wrote(
                old(self).disk(),
                final(self).disk(),
                result,
                old(self).disk().model().append_entries(util::views(entries@)),
            ),
            old(self).mirrored() && result is Ok ==> final(self).mirrored(),
    {
        let copies: Vec<T> = storage::duplicate_all(&entries);
        let written = self.mem.append_entries(copies);
        self.disk.append_entries(entries)
    }

    fn append_on_prefix(&mut self, from_idx: usize, entries: Vec<T>) -> (result: StorageResult<()>)
        ensures
            exists|d: &mut D|
                *d == old(self).disk() && *final(d) == final(self).disk()
                    && #[trigger] call_ensures(D::append_on_prefix, (d, from_idx, entries), result),
            final(self).mem() == old(self).mem().append_on_prefix(
                from_idx as nat,
                util::views(entries@),
            ),
            disk_wrote(
                old(self).disk(),
                final(self).disk(),
                result,
                old(self).disk().model().append_on_prefix(from_idx as nat, util::views(entries@)),
            ),
            old(self).mirrored() && result is Ok ==> final(self).mirrored(),
    {
        let copies: Vec<T> = storage::duplicate_all(&entries);
        let written = self.mem.append_on_prefix(from_idx, copies);
        self.disk.append_on_prefix(from_idx, entries)
    }

    fn trim(&mut self, idx: usize) -> (result: StorageResult<()>)
        ensures
            exists|d: &mut D|
                *d == old(self).disk() && *final(d) == final(self).disk()
                    && #[trigger] call_ensures(D::trim, (d, idx), result),
            final(self).mem() == old(self).mem().trim(idx as nat),
            disk_wrote(
                old(self).disk(),
                final(self).disk(),
                result,
                old(self).disk().model().trim(idx as nat),
            ),
            old(self).mirrored() && result is Ok ==> final(self).mirrored(),
    {
        let written = self.mem.trim(idx);
        self.disk.trim(idx)
    }

    fn get_log_len(&self) -> (result: StorageResult<usize>)
        ensures
            exists|on_disk: StorageResult<usize>| #[trigger]
                call_ensures(D::get_log_len, (&self.disk(),), on_disk) && result == match on_disk {
                    Ok(len) => Ok(
                        if self.mem().log.len() >= len {
                            self.mem().log.len() as usize
                        } else {
                            len
                        },
                    ),
                    Err(e) => Err(e),
                },
            self.disk().faithful() ==> match result {
                Ok(len) => len == if self.mem().log.len() >= self.disk().model().log.len() {
                    self.mem().log.len()
                } else {
                    self.disk().model().log.len()
                },
                Err(_) => !self.disk().reliable(),
            },
    {
        let mem_len: usize = self.mem.log.len();
        match self.disk.get_log_len() {
            Ok(disk_len) => if mem_len >= disk_len {
                Ok(mem_len)
            } else {
                Ok(disk_len)
            },
            Err(e) => Err(e),
        }
    }

    fn get_entries(&self, from: usize, to: usize) -> (result: StorageResult<Vec<T>>)
        ensures
            self.mem().entries(from as nat, to as nat).len() == 0 ==> call_ensures(
                D::get_entries,
                (&self.disk(), from, to),
                result,
            ),
            self.mem().entries(from as nat, to as nat).len() > 0 ==> (result matches Ok(entries)
                && util::views(entries@) == self.mem().entries(from as nat, to as nat)),
            self.mem().entries(from as nat, to as nat).len() == 0 && self.disk().faithful()
                ==> match result {
                Ok(entries) => util::views(entries@) == self.disk().model().entries(
                    from as nat,
                    to as nat,
                ),
                Err(_) => !self.disk().reliable(),
            },
            self.mirrored() && result is Ok ==> util::views(result->Ok_0@)
                == self.disk().model().entries(from as nat, to as nat),
    {
        let in_memory = self.mem.get_entries(from, to);
        match in_memory {
            Ok(entries) => {
                assert(util::views(entries@).len() == entries@.len());
                if entries.len() != 0 {
                    Ok(entries)
                } else {
                    self.disk.get_entries(from, to)
                }
            },
            Err(e) => Err(e),
        }
    }

    fn get_suffix(&self, from: usize) -> (result: StorageResult<Vec<T>>)
        ensures
            self.mem().suffix(from as nat).len() == 0 ==> call_ensures(
                D::get_suffix,
                (&self.disk(), from),
                result,
            ),
            self.mem().suffix(from as nat).len() > 0 ==> (result matches Ok(entries)
                && util::views(entries@) == self.mem().suffix(from as nat)),
            self.mem().suffix(from as nat).len() == 0 && self.disk().faithful() ==> match result {
                Ok(entries) => util::views(entries@) == self.disk().model().suffix(from as nat),
                Err(_) => !self.disk().reliable(),
            },
            self.mirrored() && result is Ok ==> util::views(result->Ok_0@)
                == self.disk().model().suffix(from as nat),
    {
        let in_memory = self.mem.get_suffix(from);
        match in_memory {
            Ok(entries) => {
                assert(util::views(entries@).len() == entries@.len());
                if entries.len() != 0 {
                    Ok(entries)
                } else {
                    self.disk.get_suffix(from)
                }
            },
            Err(e) => Err(e),
        }
    }

    fn set_promise(&mut self, n_prom: Ballot) -> (result: StorageResult<()>)
        ensures
            exists|d: &mut D|
                *d == old(self).disk() && *final(d) == final(self).disk()
                    && #[trigger] call_ensures(D::set_promise, (d, n_prom), result),
            final(self).mem() == old(self).mem().set_promise(n_prom),
            disk_wrote(
                old(self).disk(),
                final(self).disk(),
                result,
                old(self).disk().model().set_promise(n_prom),
            ),
            old(self).mirrored() && result is Ok ==> final(self).mirrored(),
    {
        let written = self.mem.set_promise(n_prom);
        self.disk.set_promise(n_prom)
    }

    fn get_promise(&self) -> (result: StorageResult<Option<Ballot>>)
        ensures
            call_ensures(D::get_promise, (&self.disk(),), result),
            self.disk().faithful() ==> match result {
                Ok(n) => n == self.disk().model().promise,
                Err(_) => !self.disk().reliable(),
            },
    {
        self.disk.get_promise()
    }

    fn set_decided_idx(&mut self, ld: usize) -> (result: StorageResult<()>)
        ensures
            exists|d: &mut D|
                *d == old(self).disk() && *final(d) == final(self).disk()
                    && #[trigger] call_ensures(D::set_decided_idx, (d, ld), result),
            final(self).mem() == old(self).mem().set_decided_idx(ld as nat),
            disk_wrote(
                old(self).disk(),
                final(self).disk(),
                result,
                old(self).disk().model().set_decided_idx(ld as nat),
            ),
            old(self).mirrored() && result is Ok ==> final(self).mirrored(),
    {
        let written = self.mem.set_decided_idx(ld);
        self.disk.set_decided_idx(ld)
    }

    fn get_decided_idx(&self) -> (result: StorageResult<usize>)
        ensures
            call_ensures(D::get_decided_idx, (&self.disk(),), result),
            self.disk().faithful() ==> match result {
                Ok(idx) => idx == self.disk().model().decided_idx,
                Err(_) => !self.disk().reliable(),
            },
    {
        self.disk.get_decided_idx()
    }

    fn set_accepted_round(&mut self, na: Ballot) -> (result: StorageResult<()>)
        ensures
            exists|d: &mut D|
                *d == old(self).disk() && *final(d) == final(self).disk()
                    && #[trigger] call_ensures(D::set_accepted_round, (d, na), result),
            final(self).mem() == old(self).mem().set_accepted_round(na),
            disk_wrote(
                old(self).disk(),
                final(self).disk(),
                result,
                old(self).disk().model().set_accepted_round(na),
            ),
            old(self).mirrored() && result is Ok ==> final(self).mirrored(),
    {
        let written = self.mem.set_accepted_round(na);
        self.disk.set_accepted_round(na)
    }

    fn get_accepted_round(&self) -> (result: StorageResult<Option<Ballot>>)
        ensures
            call_ensures(D::get_accepted_round, (&self.disk(),), result),
            self.disk().faithful() ==> match result {
                Ok(n) => n == self.disk().model().accepted_round,
                Err(_) => !self.disk().reliable(),
            },
    {
        self.disk.get_accepted_round()
    }

    fn set_stopsign(&mut self, s: Option<StopSign>) -> (result: StorageResult<()>)
        ensures
            exists|d: &mut D|
                *d == old(self).disk() && *final(d) == final(self).disk()
                    && #[trigger] call_ensures(D::set_stopsign, (d, s), result),
            final(self).mem() == old(self).mem().set_stopsign(util::view_option(s)),
            disk_wrote(
                old(self).disk(),
                final(self).disk(),
                result,
                old(self).disk().model().set_stopsign(util::view_option(s)),
            ),
            old(self).mirrored() && result is Ok ==> final(self).mirrored(),
    {
        let copy: Option<StopSign> = storage::duplicate_stopsign(&s);
        let written = self.mem.set_stopsign(copy);
        self.disk.set_stopsign(s)
    }

    fn get_stopsign(&self) -> (result: StorageResult<Option<StopSign>>)
        ensures
            call_ensures(D::get_stopsign, (&self.disk(),), result),
            self.disk().faithful() ==> match result {
                Ok(ss) => util::view_option(ss) == self.disk().model().stopsign,
                Err(_) => !self.disk().reliable(),
            },
    {
        self.disk.get_stopsign()
    }

    fn set_compacted_idx(&mut self, idx: usize) -> (result: StorageResult<()>)
        ensures
            exists|d: &mut D|
                *d == old(self).disk() && *final(d) == final(self).disk()
                    && #[trigger] call_ensures(D::set_compacted_idx, (d, idx), result),
            final(self).mem() == old(self).mem().set_compacted_idx(idx as nat),
            disk_wrote(
                old(self).disk(),
                final(self).disk(),
                result,
                old(self).disk().model().set_compacted_idx(idx as nat),
            ),
            old(self).mirrored() && result is Ok ==> final(self).mirrored(),
    {
        let written = self.mem.set_compacted_idx(idx);
        self.disk.set_compacted_idx(idx)
    }

    fn get_compacted_idx(&self) -> (result: StorageResult<usize>)
        ensures
            call_ensures(D::get_compacted_idx, (&self.disk(),), result),
            self.disk().faithful() ==> match result {
                Ok(idx) => idx == self.disk().model().compacted_idx,
                Err(_) => !self.disk().reliable(),
            },
    {
        self.disk.get_compacted_idx()
    }

    fn set_snapshot(&mut self, snapshot: Option<T::Snapshot>) -> (result: StorageResult<()>)
        ensures
            exists|d: &mut D|
                *d == old(self).disk() && *final(d) == final(self).disk()
                    && #[trigger] call_ensures(D::set_snapshot, (d, snapshot), result),
            final(self).mem() == old(self).mem().set_snapshot(true, util::view_option(snapshot)),
            disk_wrote(
                old(self).disk(),
                final(self).disk(),
                result,
                old(self).disk().model().set_snapshot(
                    D::keeps_snapshots(),
                    util::view_option(snapshot),
                ),
            ),
            old(self).mirrored() && result is Ok && D::keeps_snapshots() ==> final(self).mirrored(),
    {
        let copy: Option<T::Snapshot> = match &snapshot {
            Some(held) => Some(held.duplicate()),
            None => None,
        };
        let written = self.mem.set_snapshot(copy);
        self.disk.set_snapshot(snapshot)
    }

    fn get_snapshot(&self) -> (result: StorageResult<Option<T::Snapshot>>)
        ensures
            call_ensures(D::get_snapshot, (&self.disk(),), result),
            self.disk().faithful() ==> match result {
                Ok(snapshot) => util::view_option(snapshot) == self.disk().model().snapshot,
                Err(_) => !self.disk().reliable(),
            },
    {
        self.disk.get_snapshot()
    }

    /// Performs the operations on the disk half only.
    fn write_atomically(&mut self, ops: Vec<StorageOp<T>>) -> (result: StorageResult<()>)
        ensures
            exists|d: &mut D|
                *d == old(self).disk() && *final(d) == final(self).disk()
                    && #[trigger] call_ensures(D::write_atomically, (d, ops), result),
            final(self).mem() == old(self).mem(),
            disk_wrote(
                old(self).disk(),
                final(self).disk(),
                result,
                old(self).disk().model().apply_all(D::keeps_snapshots(), util::views(ops@)),
            ),
            old(self).disk().faithful() && result is Err ==> final(self).disk().faithful()
                && final(self).disk().model() == old(self).disk().model(),
    {
        self.disk.write_atomically(ops)
    }
}

} // verus!
