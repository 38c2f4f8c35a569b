//! What a storage backend of the log has to offer.
use crate::util::{Ballot, ClusterConfigEC, ClusterConfigView};
use crate::util;
use vstd::prelude::*;

verus! {

/// A storage operation that failed.
#[derive(Debug)]
pub struct StorageError {
    /// What went wrong.
    pub message: String,
}

/// The result of a storage operation.
pub type StorageResult<R> = Result<R, StorageError>;

/// A snapshot of entries of type `T`.
pub trait Snapshot<T: View>: View + Sized {
    /// The snapshot of a log with these entries.
    spec fn created(entries: Seq<T::V>) -> Self::V;

    /// The snapshot of a log of which `base` is a snapshot, extended by the
    /// entries of which `delta` is one.
    spec fn merged(base: Self::V, delta: Self::V) -> Self::V;

    /// Logs are synchronised with snapshots.
    spec fn enabled() -> bool;

    /// Creates a snapshot from `entries`.
    fn create(entries: &Vec<T>) -> (snapshot: Self)
        ensures
            snapshot@ == Self::created(util::views(entries@)),
    ;

    /// Merges another snapshot into this one.
    fn merge(&mut self, delta: Self)
        ensures
            final(self)@ == Self::merged(old(self)@, delta@),
    ;

    /// Whether logs are synchronised with snapshots.
    fn use_snapshots() -> (used: bool)
        ensures
            used == Self::enabled(),
    ;

    /// A snapshot that holds the same.
    fn duplicate(&self) -> (copy: Self)
        ensures
            copy@ == self@,
    ;
}

/// An entry of the log.
pub trait Entry: View + Sized {
    /// The snapshots of entries of this type.
    type Snapshot: Snapshot<Self>;

    /// An entry that holds the same.
    fn duplicate(&self) -> (copy: Self)
        ensures
            copy@ == self@,
    ;
}

/// An entry that stops the log: the cluster goes on in another configuration.
#[derive(Debug, PartialEq, Eq)]
pub struct StopSign {
    /// The configuration in which the cluster goes on.
    pub next_config: ClusterConfigEC,
    /// Metadata for the reconfiguration.
    pub metadata: Option<Vec<u8>>,
}

/// What a stopsign holds.
pub struct StopSignView {
    pub next_config: ClusterConfigView,
    pub metadata: Option<Seq<u8>>,
}

impl View for StopSign {
    type V = StopSignView;

    open spec fn view(&self) -> StopSignView {
        StopSignView { next_config: self.next_config@, metadata: util::view_option(self.metadata) }
    }
}

impl Clone for StopSign {
    fn clone(&self) -> (copy: Self)
        ensures
            copy@ == self@,
    {
        let metadata: Option<Vec<u8>> = match &self.metadata {
            Some(bytes) => {
                let mut copied: Vec<u8> = Vec::with_capacity(bytes.len());
                copied.extend_from_slice(bytes.as_slice());
                assert(copied@ =~= bytes@);
                Some(copied)
            },
            None => None,
        };
        StopSign { next_config: self.next_config.clone(), metadata }
    }
}

/// Copies an optional stopsign.
pub fn duplicate_stopsign(ss: &Option<StopSign>) -> (copy: Option<StopSign>)
    ensures
        util::view_option(copy) == util::view_option(*ss),
{
    match ss {
        Some(stopsign) => Some(stopsign.clone()),
        None => None,
    }
}

/// Copies the entries from `start` up to `end`.
pub fn duplicate_range<T: Entry>(entries: &Vec<T>, start: usize, end: usize) -> (copies: Vec<T>)
    requires
        start <= end <= entries@.len(),
    ensures
        util::views(copies@) == util::views(entries@).subrange(start as int, end as int),
{
    let mut copies: Vec<T> = Vec::with_capacity(end - start);
    let mut i: usize = start;
    while i < end
        invariant
            start <= i <= end <= entries@.len(),
            util::views(copies@) =~= util::views(entries@).subrange(start as int, i as int),
        decreases end - i,
    {
        let ghost before = copies@;
        let copy: T = entries[i].duplicate();
        copies.push(copy);
        assert(util::views(copies@) =~= util::views(before).push(entries@[i as int]@));
        i = i + 1;
    }
    copies
}

/// Copies the entries.
pub fn duplicate_all<T: Entry>(entries: &Vec<T>) -> (copies: Vec<T>)
    ensures
        util::views(copies@) == util::views(entries@),
{
    let copies: Vec<T> = duplicate_range(entries, 0, entries.len());
    assert(util::views(copies@) =~= util::views(entries@));
    copies
}

/// An operation of an atomic write.
pub enum StorageOp<T: Entry> {
    AppendEntry(T),
    AppendEntries(Vec<T>),
    AppendOnPrefix(usize, Vec<T>),
    SetPromise(Ballot),
    SetDecidedIndex(usize),
    SetAcceptedRound(Ballot),
    SetCompactedIdx(usize),
    Trim(usize),
    SetStopsign(Option<StopSign>),
    SetSnapshot(Option<T::Snapshot>),
}

/// What an operation of an atomic write holds.
pub enum OpView<T: Entry> {
    AppendEntry(T::V),
    AppendEntries(Seq<T::V>),
    AppendOnPrefix(nat, Seq<T::V>),
    SetPromise(Ballot),
    SetDecidedIndex(nat),
    SetAcceptedRound(Ballot),
    SetCompactedIdx(nat),
    Trim(nat),
    SetStopsign(Option<StopSignView>),
    SetSnapshot(Option<<T::Snapshot as View>::V>),
}

impl<T: Entry> View for StorageOp<T> {
    type V = OpView<T>;

    open spec fn view(&self) -> OpView<T> {
        match *self {
            StorageOp::AppendEntry(entry) => OpView::AppendEntry(entry@),
            StorageOp::AppendEntries(entries) => OpView::AppendEntries(util::views(entries@)),
            StorageOp::AppendOnPrefix(idx, entries) => OpView::AppendOnPrefix(
                idx as nat,
                util::views(entries@),
            ),
            StorageOp::SetPromise(n) => OpView::SetPromise(n),
            StorageOp::SetDecidedIndex(idx) => OpView::SetDecidedIndex(idx as nat),
            StorageOp::SetAcceptedRound(n) => OpView::SetAcceptedRound(n),
            StorageOp::SetCompactedIdx(idx) => OpView::SetCompactedIdx(idx as nat),
            StorageOp::Trim(idx) => OpView::Trim(idx as nat),
            StorageOp::SetStopsign(ss) => OpView::SetStopsign(util::view_option(ss)),
            StorageOp::SetSnapshot(snapshot) => OpView::SetSnapshot(util::view_option(snapshot)),
        }
    }
}

/// What a storage backend holds.
///
/// Indices count the entries of the whole log. Those below `compacted_idx` are
/// gone; `log` holds the others.
#[verifier::ext_equal]
pub struct StorageModel<T: Entry> {
    pub log: Seq<T::V>,
    pub promise: Option<Ballot>,
    pub accepted_round: Option<Ballot>,
    pub decided_idx: nat,
    pub compacted_idx: nat,
    pub snapshot: Option<<T::Snapshot as View>::V>,
    pub stopsign: Option<StopSignView>,
}

/// The part of `log` from place `from` up to place `to`; nothing where there is
/// no such part.
pub open spec fn part<A>(log: Seq<A>, from: int, to: int) -> Seq<A> {
    if 0 <= from <= to <= log.len() {
        log.subrange(from, to)
    } else {
        Seq::empty()
    }
}

impl<T: Entry> StorageModel<T> {
    /// A storage to which nothing was written.
    pub open spec fn initial() -> Self {
        StorageModel {
            log: Seq::empty(),
            promise: None,
            accepted_round: None,
            decided_idx: 0,
            compacted_idx: 0,
            snapshot: None,
            stopsign: None,
        }
    }

    pub open spec fn append_entry(self, entry: T::V) -> Self {
        StorageModel { log: self.log.push(entry), ..self }
    }

    pub open spec fn append_entries(self, entries: Seq<T::V>) -> Self {
        StorageModel { log: self.log + entries, ..self }
    }

    /// Entry `from_idx` and those after it give way to `entries`.
    pub open spec fn append_on_prefix(self, from_idx: nat, entries: Seq<T::V>) -> Self {
        let kept = from_idx - self.compacted_idx;
        StorageModel {
            log: if kept <= self.log.len() {
                self.log.take(kept) + entries
            } else {
                self.log + entries
            },
            ..self
        }
    }

    pub open spec fn set_promise(self, n: Ballot) -> Self {
        StorageModel { promise: Some(n), ..self }
    }

    pub open spec fn set_decided_idx(self, idx: nat) -> Self {
        StorageModel { decided_idx: idx, ..self }
    }

    pub open spec fn set_accepted_round(self, n: Ballot) -> Self {
        StorageModel { accepted_round: Some(n), ..self }
    }

    pub open spec fn set_compacted_idx(self, idx: nat) -> Self {
        StorageModel { compacted_idx: idx, ..self }
    }

    /// The entries below `idx` go.
    pub open spec fn trim(self, idx: nat) -> Self {
        let gone = idx - self.compacted_idx;
        StorageModel {
            log: if gone <= self.log.len() {
                self.log.skip(gone)
            } else {
                Seq::empty()
            },
            compacted_idx: idx,
            ..self
        }
    }

    pub open spec fn set_stopsign(self, ss: Option<StopSignView>) -> Self {
        StorageModel { stopsign: ss, ..self }
    }

    /// A storage that keeps no snapshots goes on without.
    pub open spec fn set_snapshot(
        self,
        keeps: bool,
        snapshot: Option<<T::Snapshot as View>::V>,
    ) -> Self {
        if keeps {
            StorageModel { snapshot, ..self }
        } else {
            self
        }
    }

    /// The entries from index `from` up to index `to`.
    pub open spec fn entries(self, from: nat, to: nat) -> Seq<T::V> {
        part(self.log, from - self.compacted_idx, to - self.compacted_idx)
    }

    /// The entries from index `from` on.
    pub open spec fn suffix(self, from: nat) -> Seq<T::V> {
        part(self.log, from - self.compacted_idx, self.log.len() as int)
    }

    /// One operation of an atomic write.
    pub open spec fn apply(self, keeps: bool, op: OpView<T>) -> Self {
        match op {
            OpView::AppendEntry(entry) => self.append_entry(entry),
            OpView::AppendEntries(entries) => self.append_entries(entries),
            OpView::AppendOnPrefix(idx, entries) => self.append_on_prefix(idx, entries),
            OpView::SetPromise(n) => self.set_promise(n),
            OpView::SetDecidedIndex(idx) => self.set_decided_idx(idx),
            OpView::SetAcceptedRound(n) => self.set_accepted_round(n),
            OpView::SetCompactedIdx(idx) => self.set_compacted_idx(idx),
            OpView::Trim(idx) => self.trim(idx),
            OpView::SetStopsign(ss) => self.set_stopsign(ss),
            OpView::SetSnapshot(snapshot) => self.set_snapshot(keeps, snapshot),
        }
    }

    /// The operations of an atomic write, one after the other.
    pub open spec fn apply_all(self, keeps: bool, ops: Seq<OpView<T>>) -> Self
        decreases ops.len(),
    {
        if ops.len() == 0 {
            self
        } else {
            self.apply_all(keeps, ops.drop_last()).apply(keeps, ops.last())
        }
    }
}

impl<T: Entry> StorageModel<T> {
    /// The index after the last entry of the log.
    pub open spec fn end(self) -> nat {
        self.compacted_idx + self.log.len()
    }

    /// Entries that were appended are read back, and those before them are as they
    /// were.
    pub proof fn appended_entries_are_read_back(self, entries: Seq<T::V>, from: nat, to: nat)
        requires
            self.compacted_idx <= from <= to <= self.end(),
        ensures
            self.append_entries(entries).suffix(self.end()) == entries,
            self.append_entries(entries).entries(from, to) == self.entries(from, to),
    {
        assert(self.append_entries(entries).suffix(self.end()) =~= entries);
        assert(self.append_entries(entries).entries(from, to) =~= self.entries(from, to));
    }

    /// Entries that were written on a prefix are all that follows it, and those of
    /// the prefix are as they were.
    pub proof fn prefix_writes_are_read_back(
        self,
        from_idx: nat,
        entries: Seq<T::V>,
        from: nat,
        to: nat,
    )
        requires
            self.compacted_idx <= from <= to <= from_idx <= self.end(),
        ensures
            self.append_on_prefix(from_idx, entries).suffix(from_idx) == entries,
            self.append_on_prefix(from_idx, entries).entries(from, to) == self.entries(from, to),
    {
        assert(self.append_on_prefix(from_idx, entries).suffix(from_idx) =~= entries);
        assert(self.append_on_prefix(from_idx, entries).entries(from, to) =~= self.entries(
            from,
            to,
        ));
    }

    /// Trimming keeps the entries from the index on, under the same indices.
    pub proof fn trimming_keeps_the_rest(self, idx: nat, from: nat, to: nat)
        requires
            self.compacted_idx <= idx <= from <= to <= self.end(),
        ensures
            self.trim(idx).end() == self.end(),
            self.trim(idx).entries(from, to) == self.entries(from, to),
            self.trim(idx).suffix(from) == self.suffix(from),
    {
        assert(self.trim(idx).entries(from, to) =~= self.entries(from, to));
        assert(self.trim(idx).suffix(from) =~= self.suffix(from));
    }

    /// An atomic write does what its operations do in two atomic writes, the first
    /// of them in the first.
    pub proof fn atomic_writes_compose(
        self,
        keeps: bool,
        first: Seq<OpView<T>>,
        second: Seq<OpView<T>>,
    )
        ensures
            self.apply_all(keeps, first + second) == self.apply_all(keeps, first).apply_all(
                keeps,
                second,
            ),
        decreases second.len(),
    {
        if second.len() == 0 {
            assert(first + second =~= first);
        } else {
            self.atomic_writes_compose(keeps, first, second.drop_last());
            assert((first + second).drop_last() =~= first + second.drop_last());
        }
    }
}

/// The compacted index after an operation.
pub open spec fn floor_after<T: Entry>(floor: nat, op: OpView<T>) -> nat {
    match op {
        OpView::SetCompactedIdx(idx) => idx,
        OpView::Trim(idx) => idx,
        _ => floor,
    }
}

/// The operation addresses no entry below the compacted index.
pub open spec fn op_ok<T: Entry>(floor: nat, op: OpView<T>) -> bool {
    match op {
        OpView::AppendOnPrefix(idx, _) => idx >= floor,
        OpView::Trim(idx) => idx >= floor,
        _ => true,
    }
}

/// None of the operations, one after the other, addresses an entry below the
/// compacted index.
pub open spec fn ops_ok<T: Entry>(floor: nat, ops: Seq<OpView<T>>) -> bool
    decreases ops.len(),
{
    if ops.len() == 0 {
        true
    } else {
        op_ok(floor, ops.first()) && ops_ok(floor_after(floor, ops.first()), ops.drop_first())
    }
}

/// What `Storage::get_entries` requires: of a faithful storage, that the indices are
/// not compacted.
pub open spec fn can_read<T: Entry, S: Storage<T>>(storage: S, from: nat, to: nat) -> bool {
    if storage.faithful() {
        from >= storage.model().compacted_idx && to >= storage.model().compacted_idx
    } else {
        storage.reads(from, to)
    }
}

/// What `Storage::get_suffix` requires.
pub open spec fn can_read_from<T: Entry, S: Storage<T>>(storage: S, from: nat) -> bool {
    if storage.faithful() {
        from >= storage.model().compacted_idx
    } else {
        storage.reads_from(from)
    }
}

/// What `Storage::append_on_prefix` and `Storage::trim` require.
pub open spec fn can_cut<T: Entry, S: Storage<T>>(storage: S, idx: nat) -> bool {
    if storage.faithful() {
        idx >= storage.model().compacted_idx
    } else {
        storage.cuts_at(idx)
    }
}

/// What `Storage::write_atomically` requires.
pub open spec fn can_perform<T: Entry, S: Storage<T>>(storage: S, ops: Seq<OpView<T>>) -> bool {
    if storage.faithful() {
        ops_ok(storage.model().compacted_idx, ops)
    } else {
        storage.performs(ops)
    }
}

/// The storage backend of the log.
///
/// A backend that is `faithful` reads back what was written to it: each
/// operation that succeeds does to what it holds what the operation's name says.
/// One that is also `reliable` lets no operation fail. A backend that is not
/// faithful promises nothing here, and says itself what may be asked of it.
pub trait Storage<T: Entry>: Sized {
    /// What the storage holds.
    spec fn model(&self) -> StorageModel<T>;

    /// The storage reads back what was written.
    spec fn faithful(&self) -> bool;

    /// No operation on the storage fails.
    spec fn reliable(&self) -> bool;

    /// The storage keeps the snapshots that it is given.
    spec fn keeps_snapshots() -> bool;

    /// The entries between these indices may be asked for, where the storage is not
    /// faithful.
    spec fn reads(&self, from: nat, to: nat) -> bool;

    /// The entries from this index on may be asked for, where the storage is not
    /// faithful.
    spec fn reads_from(&self, from: nat) -> bool;

    /// The log may be cut at this index, where the storage is not faithful.
    spec fn cuts_at(&self, idx: nat) -> bool;

    /// The operations may be performed atomically, where the storage is not faithful.
    spec fn performs(&self, ops: Seq<OpView<T>>) -> bool;

    /// Atomically performs all operations, in order: one that fails leaves the storage
    /// as it was.
    fn write_atomically(&mut self, ops: Vec<StorageOp<T>>) -> (result: StorageResult<()>)
        requires
            if old(self).faithful() {
                ops_ok(old(self).model().compacted_idx, util::views(ops@))
            } else {
                old(self).performs(util::views(ops@))
            },
        ensures
            old(self).faithful() ==> match result {
                Ok(_) => final(self).faithful() && final(self).reliable() == old(self).reliable()
                    && final(self).model() == old(self).model().apply_all(
                    Self::keeps_snapshots(),
                    util::views(ops@),
                ),
                Err(_) => !old(self).reliable() && final(self).faithful()
                    && final(self).reliable() == old(self).reliable() && final(self).model()
                    == old(self).model(),
            },
    ;

    /// Appends an entry to the end of the log.
    fn append_entry(&mut self, entry: T) -> (result: StorageResult<()>)
        ensures
            old(self).faithful() ==> match result {
                Ok(_) => final(self).faithful() && final(self).reliable() == old(self).reliable()
                    && final(self).model() == old(self).model().append_entry(entry@),
                Err(_) => !old(self).reliable(),
            },
    ;

    /// Appends entries to the end of the log.
    fn append_entries(&mut self, entries: Vec<T>) -> (result: StorageResult<()>)
        ensures
            old(self).faithful() ==> match result {
                Ok(_) => final(self).faithful() && final(self).reliable() == old(self).reliable()
                    && final(self).model() == old(self).model().append_entries(
                    util::views(entries@),
                ),
                Err(_) => !old(self).reliable(),
            },
    ;

    /// Appends entries to the prefix of the log that ends before index `from_idx`.
    fn append_on_prefix(&mut self, from_idx: usize, entries: Vec<T>) -> (result: StorageResult<()>)
        requires
            if old(self).faithful() {
                from_idx >= old(self).model().compacted_idx
            } else {
                old(self).cuts_at(from_idx as nat)
            },
        ensures
            old(self).faithful() ==> match result {
                Ok(_) => final(self).faithful() && final(self).reliable() == old(self).reliable()
                    && final(self).model() == old(self).model().append_on_prefix(
                    from_idx as nat,
                    util::views(entries@),
                ),
                Err(_) => !old(self).reliable(),
            },
    ;

    /// Sets the round that has been promised.
    fn set_promise(&mut self, n_prom: Ballot) -> (result: StorageResult<()>)
        ensures
            old(self).faithful() ==> match result {
                Ok(_) => final(self).faithful() && final(self).reliable() == old(self).reliable()
                    && final(self).model() == old(self).model().set_promise(n_prom),
                Err(_) => !old(self).reliable(),
            },
    ;

    /// Sets the decided index.
    fn set_decided_idx(&mut self, ld: usize) -> (result: StorageResult<()>)
        ensures
            old(self).faithful() ==> match result {
                Ok(_) => final(self).faithful() && final(self).reliable() == old(self).reliable()
                    && final(self).model() == old(self).model().set_decided_idx(ld as nat),
                Err(_) => !old(self).reliable(),
            },
    ;

    /// The decided index.
    fn get_decided_idx(&self) -> (result: StorageResult<usize>)
        ensures
            self.faithful() ==> match result {
                Ok(idx) => idx == self.model().decided_idx,
                Err(_) => !self.reliable(),
            },
    ;

    /// Sets the latest accepted round.
    fn set_accepted_round(&mut self, na: Ballot) -> (result: StorageResult<()>)
        ensures
            old(self).faithful() ==> match result {
                Ok(_) => final(self).faithful() && final(self).reliable() == old(self).reliable()
                    && final(self).model() == old(self).model().set_accepted_round(na),
                Err(_) => !old(self).reliable(),
            },
    ;

    /// The latest round in which entries have been accepted.
    fn get_accepted_round(&self) -> (result: StorageResult<Option<Ballot>>)
        ensures
            self.faithful() ==> match result {
                Ok(n) => n == self.model().accepted_round,
                Err(_) => !self.reliable(),
            },
    ;

    /// The entries from index `from` up to index `to`.
    fn get_entries(&self, from: usize, to: usize) -> (result: StorageResult<Vec<T>>)
        requires
            if self.faithful() {
                from >= self.model().compacted_idx && to >= self.model().compacted_idx
            } else {
                self.reads(from as nat, to as nat)
            },
        ensures
            self.faithful() ==> match result {
                Ok(entries) => util::views(entries@) == self.model().entries(
                    from as nat,
                    to as nat,
                ),
                Err(_) => !self.reliable(),
            },
    ;

    /// The number of entries in the log, without those that were compacted.
    fn get_log_len(&self) -> (result: StorageResult<usize>)
        ensures
            self.faithful() ==> match result {
                Ok(len) => len == self.model().log.len(),
                Err(_) => !self.reliable(),
            },
    ;

    /// The entries from index `from` on.
    fn get_suffix(&self, from: usize) -> (result: StorageResult<Vec<T>>)
        requires
            if self.faithful() {
                from >= self.model().compacted_idx
            } else {
                self.reads_from(from as nat)
            },
        ensures
            self.faithful() ==> match result {
                Ok(entries) => util::views(entries@) == self.model().suffix(from as nat),
                Err(_) => !self.reliable(),
            },
    ;

    /// The round that has been promised.
    fn get_promise(&self) -> (result: StorageResult<Option<Ballot>>)
        ensures
            self.faithful() ==> match result {
                Ok(n) => n == self.model().promise,
                Err(_) => !self.reliable(),
            },
    ;

    /// Sets the stopsign, or removes it.
    fn set_stopsign(&mut self, s: Option<StopSign>) -> (result: StorageResult<()>)
        ensures
            old(self).faithful() ==> match result {
                Ok(_) => final(self).faithful() && final(self).reliable() == old(self).reliable()
                    && final(self).model() == old(self).model().set_stopsign(util::view_option(s)),
                Err(_) => !old(self).reliable(),
            },
    ;

    /// The stopsign, if there is one.
    fn get_stopsign(&self) -> (result: StorageResult<Option<StopSign>>)
        ensures
            self.faithful() ==> match result {
                Ok(ss) => util::view_option(ss) == self.model().stopsign,
                Err(_) => !self.reliable(),
            },
    ;

    /// Removes the entries below index `idx`.
    fn trim(&mut self, idx: usize) -> (result: StorageResult<()>)
        requires
            if old(self).faithful() {
                idx >= old(self).model().compacted_idx
            } else {
                old(self).cuts_at(idx as nat)
            },
        ensures
            old(self).faithful() ==> match result {
                Ok(_) => final(self).faithful() && final(self).reliable() == old(self).reliable()
                    && final(self).model() == old(self).model().trim(idx as nat),
                Err(_) => !old(self).reliable(),
            },
    ;

    /// Sets the index below which the log is compacted.
    fn set_compacted_idx(&mut self, idx: usize) -> (result: StorageResult<()>)
        ensures
            old(self).faithful() ==> match result {
                Ok(_) => final(self).faithful() && final(self).reliable() == old(self).reliable()
                    && final(self).model() == old(self).model().set_compacted_idx(idx as nat),
                Err(_) => !old(self).reliable(),
            },
    ;

    /// The index below which the log is compacted.
    fn get_compacted_idx(&self) -> (result: StorageResult<usize>)
        ensures
            self.faithful() ==> match result {
                Ok(idx) => idx == self.model().compacted_idx,
                Err(_) => !self.reliable(),
            },
    ;

    /// Sets the snapshot, or removes it.
    fn set_snapshot(&mut self, snapshot: Option<T::Snapshot>) -> (result: StorageResult<()>)
        ensures
            old(self).faithful() ==> match result {
                Ok(_) => final(self).faithful() && final(self).reliable() == old(self).reliable()
                    && final(self).model() == old(self).model().set_snapshot(
                    Self::keeps_snapshots(),
                    util::view_option(snapshot),
                ),
                Err(_) => !old(self).reliable(),
            },
    ;

    /// The snapshot, if there is one.
    fn get_snapshot(&self) -> (result: StorageResult<Option<T::Snapshot>>)
        ensures
            self.faithful() ==> match result {
                Ok(snapshot) => util::view_option(snapshot) == self.model().snapshot,
                Err(_) => !self.reliable(),
            },
    ;
}

} // verus!
