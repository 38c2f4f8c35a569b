//! The entries of an erasure-coded log.
use crate::erasure::ec_service::{EntryFragment, FragmentView};
use crate::storage::{Entry, Snapshot};
use crate::util;
use vstd::prelude::*;

verus! {

/// The type of the operation performed on the log entry.
#[derive(Debug, Clone, Copy, PartialEq, Eq, Structural)]
pub enum OperationType {
    /// A NULL operation, e.g., a placeholder or a non operation in the log. Used for control messages.
    NULL,
    /// A SET operation, e.g., writing a value to the log.
    SET,
    /// A DELETE operation, e.g., removing a value from the log.
    DELETE,
}

impl OperationType {
    /// The short name of the operation.
    pub open spec fn name(self) -> Seq<char> {
        match self {
            OperationType::NULL => "NULL"@,
            OperationType::SET => "SET"@,
            OperationType::DELETE => "DEL"@,
        }
    }

    /// The short name of the operation.
    pub fn to_string(&self) -> (name: String)
        ensures
            name@ == self.name(),
    {
        match self {
            OperationType::NULL => "NULL".to_owned(),
            OperationType::SET => "SET".to_owned(),
            OperationType::DELETE => "DEL".to_owned(),
        }
    }
}

/// What a log entry holds.
pub struct EntryView {
    pub operation: OperationType,
    pub key: Seq<char>,
    pub value: FragmentView,
}

/// Trait for a log entry for erasure coded consensus.
pub trait ECEntry: Entry + View<V = EntryView> {
    /// The operation type, e.g., SET or DELETE.
    fn operation(&self) -> (op: &OperationType)
        ensures
            *op == self@.operation,
    ;

    /// The key of the log entry, which is a unique identifier for the value.
    fn key(&self) -> (key: &str)
        ensures
            key@ == self@.key,
    ;

    /// The value of the log entry, which is a fragment of the original log entry.
    fn value(&self) -> (fragment: &EntryFragment)
        ensures
            fragment@ == self@.value,
    ;

    /// Creates a new log entry from the given key, fragment, and operation type.
    fn from_parts(key: String, fragment: EntryFragment, op: OperationType) -> (entry: Self)
        ensures
            entry@ == (EntryView { operation: op, key: key@, value: fragment@ }),
    ;
}

/// A log entry with an operation, a key and a fragment.
#[derive(Debug, PartialEq, Eq)]
pub struct DefaultLogEntry {
    /// The type of operation performed on the log entry.
    pub operation: OperationType,
    /// The key of the log entry.
    pub key: String,
    /// The value of the log entry.
    pub value: EntryFragment,
}

impl View for DefaultLogEntry {
    type V = EntryView;

    open spec fn view(&self) -> EntryView {
        EntryView { operation: self.operation, key: self.key@, value: self.value@ }
    }
}

impl DefaultLogEntry {
    /// Creates a new log entry with the given operation, key, and value.
    pub fn new(operation: OperationType, key: String, value: EntryFragment) -> (entry: Self)
        ensures
            entry == (DefaultLogEntry { operation, key, value }),
    {
        DefaultLogEntry { operation, key, value }
    }
}

impl Clone for DefaultLogEntry {
    fn clone(&self) -> (copy: Self)
        ensures
            copy@ == self@,
    {
        DefaultLogEntry {
            operation: self.operation,
            key: self.key.clone(),
            value: self.value.clone(),
        }
    }
}

impl Entry for DefaultLogEntry {
    type Snapshot = DefaultLogEntrySnapshot;

    fn duplicate(&self) -> (copy: Self) {
        self.clone()
    }
}

impl ECEntry for DefaultLogEntry {
    fn operation(&self) -> (op: &OperationType) {
        &self.operation
    }

    fn key(&self) -> (key: &str) {
        self.key.as_str()
    }

    fn value(&self) -> (fragment: &EntryFragment) {
        &self.value
    }

    fn from_parts(key: String, fragment: EntryFragment, op: OperationType) -> (entry: Self) {
        DefaultLogEntry { operation: op, key, value: fragment }
    }
}

/// A snapshot that keeps the entries, and the latest of them by itself.
#[derive(Debug)]
pub struct DefaultLogEntrySnapshot {
    /// The latest entry in the snapshot, if available.
    pub latest_entry: Option<DefaultLogEntry>,
    /// All snapshotted entries, the latest among them.
    pub snapshotted: Vec<DefaultLogEntry>,
}

/// What a snapshot holds.
pub struct SnapshotView {
    pub latest_entry: Option<EntryView>,
    pub snapshotted: Seq<EntryView>,
}

impl View for DefaultLogEntrySnapshot {
    type V = SnapshotView;

    open spec fn view(&self) -> SnapshotView {
        SnapshotView {
            latest_entry: util::view_option(self.latest_entry),
            snapshotted: util::views(self.snapshotted@),
        }
    }
}

/// The last of the entries, if there are any.
pub open spec fn latest(entries: Seq<EntryView>) -> Option<EntryView> {
    if entries.len() == 0 {
        None
    } else {
        Some(entries.last())
    }
}

impl DefaultLogEntrySnapshot {
    /// A copy of the last of the entries, if there are any.
    fn last_of(entries: &Vec<DefaultLogEntry>) -> (entry: Option<DefaultLogEntry>)
        ensures
            util::view_option(entry) == latest(util::views(entries@)),
    {
        if entries.len() == 0 {
            None
        } else {
            Some(entries[entries.len() - 1].clone())
        }
    }
}

impl Snapshot<DefaultLogEntry> for DefaultLogEntrySnapshot {
    open spec fn created(entries: Seq<EntryView>) -> SnapshotView {
        SnapshotView { latest_entry: latest(entries), snapshotted: entries }
    }

    open spec fn merged(base: SnapshotView, delta: SnapshotView) -> SnapshotView {
        if delta.snapshotted.len() == 0 {
            base
        } else {
            SnapshotView {
                latest_entry: latest(delta.snapshotted),
                snapshotted: base.snapshotted + delta.snapshotted,
            }
        }
    }

    open spec fn enabled() -> bool {
        true
    }

    fn create(entries: &Vec<DefaultLogEntry>) -> (snapshot: Self) {
        DefaultLogEntrySnapshot {
            latest_entry: Self::last_of(entries),
            snapshotted: crate::storage::duplicate_all(entries),
        }
    }

    fn merge(&mut self, delta: Self) {
        if delta.snapshotted.len() != 0 {
            let mut added: Vec<DefaultLogEntry> = delta.snapshotted;
            let ghost before = self.snapshotted@;
            let ghost more = added@;
            self.latest_entry = Self::last_of(&added);
            self.snapshotted.append(&mut added);
            assert(util::views(self.snapshotted@) =~= util::views(before) + util::views(more));
        }
    }

    fn use_snapshots() -> (used: bool) {
        true
    }

    fn duplicate(&self) -> (copy: Self) {
        let latest_entry: Option<DefaultLogEntry> = match &self.latest_entry {
            Some(entry) => Some(entry.clone()),
            None => None,
        };
        DefaultLogEntrySnapshot {
            latest_entry,
            snapshotted: crate::storage::duplicate_all(&self.snapshotted),
        }
    }
}

/// A snapshot of entries, with the snapshot of the entries behind them merged into it, is
/// the snapshot of all of them: it holds them in order, and the last of them by itself.
pub proof fn merged_snapshots_hold_all(
    before: Vec<DefaultLogEntry>,
    behind: Vec<DefaultLogEntry>,
    base: DefaultLogEntrySnapshot,
    delta: DefaultLogEntrySnapshot,
    merged: DefaultLogEntrySnapshot,
)
    requires
        call_ensures(
            <DefaultLogEntrySnapshot as Snapshot<DefaultLogEntry>>::create,
            (&before,),
            base,
        ),
        call_ensures(
            <DefaultLogEntrySnapshot as Snapshot<DefaultLogEntry>>::create,
            (&behind,),
            delta,
        ),
        exists|d: &mut DefaultLogEntrySnapshot|
            *d == base && *final(d) == merged && #[trigger] call_ensures(
                <DefaultLogEntrySnapshot as Snapshot<DefaultLogEntry>>::merge,
                (d, delta),
                (),
            ),
    ensures
        base@.snapshotted == util::views(before@),
        base@.latest_entry == if before@.len() == 0 {
            None
        } else {
            Some(before@.last()@)
        },
        merged@.snapshotted == util::views(before@) + util::views(behind@),
        merged@ == <DefaultLogEntrySnapshot as Snapshot<DefaultLogEntry>>::created(
            util::views(before@) + util::views(behind@),
        ),
{
    let all = util::views(before@) + util::views(behind@);
    if behind@.len() == 0 {
        assert(all =~= util::views(before@));
    } else {
        assert(all.last() == util::views(behind@).last());
    }
}

} // verus!
