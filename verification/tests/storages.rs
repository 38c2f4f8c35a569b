use omnipaxos_ec::ec_memory_storage::ErasureMemoryStorage;
use omnipaxos_ec::erasure::log_entry::{DefaultLogEntry, DefaultLogEntrySnapshot, OperationType};
use omnipaxos_ec::erasure::EntryFragment;
use omnipaxos_ec::hybrid_storage::HybridStorage;
use omnipaxos_ec::internal_storage::InternalStorage;
use omnipaxos_ec::memory_storage::MemoryStorage;
use omnipaxos_ec::messages::{LogSync, SnapshotType};
use omnipaxos_ec::storage::{Snapshot, StopSign, Storage, StorageOp};
use omnipaxos_ec::util::{Ballot, ClusterConfigEC, FlexibleQuorum, Quorum};

fn entry(key: &str) -> DefaultLogEntry {
    DefaultLogEntry::new(
        OperationType::SET,
        key.to_string(),
        EntryFragment::new(0, key.as_bytes().to_vec()),
    )
}

fn entries(keys: &[&str]) -> Vec<DefaultLogEntry> {
    keys.iter().map(|key| entry(key)).collect()
}

fn ballot(n: u32) -> Ballot {
    Ballot {
        config_id: 1,
        n,
        priority: 0,
        pid: 1,
    }
}

fn stopsign() -> StopSign {
    StopSign {
        next_config: ClusterConfigEC {
            configuration_id: 2,
            nodes: vec![1, 2, 3],
            flexible_quorum: None,
        },
        metadata: None,
    }
}

fn snapshot(keys: &[&str]) -> DefaultLogEntrySnapshot {
    DefaultLogEntrySnapshot::create(&entries(keys))
}

fn check_storage<S: Storage<DefaultLogEntry>>(storage: &mut S) {
    storage.append_entry(entry("a")).unwrap();
    storage.append_entries(entries(&["b", "c"])).unwrap();
    assert_eq!(storage.get_log_len().unwrap(), 3);
    assert_eq!(storage.get_entries(0, 2).unwrap(), entries(&["a", "b"]));
    assert_eq!(storage.get_suffix(1).unwrap(), entries(&["b", "c"]));
    assert_eq!(storage.get_suffix(3).unwrap(), vec![]);
    assert_eq!(storage.get_entries(2, 9).unwrap(), vec![]);
    storage.append_on_prefix(2, entries(&["d", "e"])).unwrap();
    assert_eq!(storage.get_suffix(0).unwrap(), entries(&["a", "b", "d", "e"]));

    assert_eq!(storage.get_promise().unwrap(), None);
    storage.set_promise(ballot(4)).unwrap();
    assert_eq!(storage.get_promise().unwrap(), Some(ballot(4)));
    assert_eq!(storage.get_accepted_round().unwrap(), None);
    storage.set_accepted_round(ballot(3)).unwrap();
    assert_eq!(storage.get_accepted_round().unwrap(), Some(ballot(3)));
    assert_eq!(storage.get_decided_idx().unwrap(), 0);
    storage.set_decided_idx(2).unwrap();
    assert_eq!(storage.get_decided_idx().unwrap(), 2);
    assert_eq!(storage.get_stopsign().unwrap(), None);
    storage.set_stopsign(Some(stopsign())).unwrap();
    assert_eq!(storage.get_stopsign().unwrap(), Some(stopsign()));
    storage.set_stopsign(None).unwrap();
    assert_eq!(storage.get_stopsign().unwrap(), None);

    storage.trim(1).unwrap();
    storage.set_compacted_idx(1).unwrap();
    assert_eq!(storage.get_compacted_idx().unwrap(), 1);
    assert_eq!(storage.get_log_len().unwrap(), 3);
    assert_eq!(storage.get_suffix(2).unwrap(), entries(&["d", "e"]));
    assert_eq!(storage.get_entries(1, 3).unwrap(), entries(&["b", "d"]));
}

#[test]
fn memory_storage_reads_back_what_was_written() {
    check_storage(&mut MemoryStorage::default());
}

#[test]
fn erasure_memory_storage_reads_back_what_was_written() {
    check_storage(&mut ErasureMemoryStorage::new());
}

#[test]
fn hybrid_storage_reads_back_what_was_written() {
    check_storage(&mut HybridStorage::open(MemoryStorage::default()));
}

#[test]
fn memory_storage_keeps_snapshots() {
    let mut storage: MemoryStorage<DefaultLogEntry> = MemoryStorage::default();
    storage.set_snapshot(Some(snapshot(&["a", "b"]))).unwrap();
    let held = storage.get_snapshot().unwrap().unwrap();
    assert_eq!(held.snapshotted, entries(&["a", "b"]));
    assert_eq!(held.latest_entry, Some(entry("b")));
}

#[test]
fn erasure_memory_storage_keeps_no_snapshots() {
    let mut storage = ErasureMemoryStorage::new();
    storage.set_snapshot(Some(snapshot(&["a"]))).unwrap();
    assert!(storage.get_snapshot().unwrap().is_none());
}

#[test]
fn erasure_memory_storage_is_copied() {
    let mut storage = ErasureMemoryStorage::new();
    storage.append_entries(entries(&["a", "b"])).unwrap();
    let copy = storage.clone();
    storage.append_entry(entry("c")).unwrap();
    assert_eq!(copy.get_suffix(0).unwrap(), entries(&["a", "b"]));
    assert_eq!(storage.get_log_len().unwrap(), 3);
}

#[test]
fn hybrid_storage_keeps_snapshots() {
    let mut storage: HybridStorage<DefaultLogEntry, MemoryStorage<DefaultLogEntry>> =
        HybridStorage::open(MemoryStorage::default());
    storage.set_snapshot(Some(snapshot(&["a"]))).unwrap();
    let held = storage.get_snapshot().unwrap().unwrap();
    assert_eq!(held.snapshotted, entries(&["a"]));
}

#[test]
fn atomic_writes_of_hybrid_storage_go_to_disk() {
    let mut storage = HybridStorage::open(MemoryStorage::default());
    storage.append_entry(entry("a")).unwrap();
    storage
        .write_atomically(vec![
            StorageOp::SetDecidedIndex(1),
            StorageOp::AppendEntries(entries(&["b", "c"])),
        ])
        .unwrap();
    assert_eq!(storage.get_decided_idx().unwrap(), 1);
    assert_eq!(storage.get_log_len().unwrap(), 3);
    assert_eq!(storage.get_entries(0, 3).unwrap(), entries(&["a", "b", "c"]));
    assert_eq!(storage.get_suffix(0).unwrap(), entries(&["a"]));
    assert_eq!(storage.get_suffix(1).unwrap(), entries(&["b", "c"]));
}

#[test]
fn hybrid_storage_reads_what_is_on_disk() {
    let mut disk = MemoryStorage::default();
    disk.append_entries(entries(&["x", "y"])).unwrap();
    disk.set_promise(ballot(7)).unwrap();
    let storage = HybridStorage::open(disk);
    assert_eq!(storage.get_promise().unwrap(), Some(ballot(7)));
    assert_eq!(storage.get_log_len().unwrap(), 2);
    assert_eq!(storage.get_suffix(0).unwrap(), entries(&["x", "y"]));
    assert_eq!(storage.get_entries(1, 2).unwrap(), entries(&["y"]));
}

#[test]
fn atomic_writes_are_done_in_order() {
    let mut storage: MemoryStorage<DefaultLogEntry> = MemoryStorage::default();
    storage
        .write_atomically(vec![
            StorageOp::AppendEntry(entry("a")),
            StorageOp::AppendEntries(entries(&["b", "c", "d"])),
            StorageOp::Trim(1),
            StorageOp::SetCompactedIdx(1),
            StorageOp::AppendOnPrefix(2, entries(&["e"])),
            StorageOp::SetPromise(ballot(1)),
            StorageOp::SetAcceptedRound(ballot(2)),
            StorageOp::SetDecidedIndex(3),
            StorageOp::SetStopsign(Some(stopsign())),
            StorageOp::SetSnapshot(Some(snapshot(&["a"]))),
        ])
        .unwrap();
    assert_eq!(storage.get_suffix(1).unwrap(), entries(&["b", "e"]));
    assert_eq!(storage.get_compacted_idx().unwrap(), 1);
    assert_eq!(storage.get_promise().unwrap(), Some(ballot(1)));
    assert_eq!(storage.get_accepted_round().unwrap(), Some(ballot(2)));
    assert_eq!(storage.get_decided_idx().unwrap(), 3);
    assert_eq!(storage.get_stopsign().unwrap(), Some(stopsign()));
    assert!(storage.get_snapshot().unwrap().is_some());
}

#[test]
fn snapshots_merge() {
    let mut base = snapshot(&["a", "b"]);
    base.merge(snapshot(&["c"]));
    assert_eq!(base.snapshotted, entries(&["a", "b", "c"]));
    assert_eq!(base.latest_entry, Some(entry("c")));
    base.merge(snapshot(&[]));
    assert_eq!(base.latest_entry, Some(entry("c")));
    assert_eq!(base.duplicate().snapshotted, base.snapshotted);
    assert!(snapshot(&[]).latest_entry.is_none());
}

fn internal(
    batch_size: usize,
) -> InternalStorage<MemoryStorage<DefaultLogEntry>, DefaultLogEntry> {
    InternalStorage::with(MemoryStorage::default(), batch_size).unwrap()
}

#[test]
fn batches_are_flushed_when_full() {
    let mut storage = internal(3);
    assert!(storage.append_entry_with_batching(entry("a")).unwrap().is_none());
    assert!(storage.append_entry_with_batching(entry("b")).unwrap().is_none());
    assert_eq!(storage.get_accepted_idx(), 0);
    let flushed = storage.append_entry_with_batching(entry("c")).unwrap().unwrap();
    assert_eq!(flushed.accepted_idx, 3);
    assert_eq!(flushed.entries, entries(&["a", "b", "c"]));
    assert_eq!(storage.get_suffix(0).unwrap(), entries(&["a", "b", "c"]));
    assert!(storage.flush_batch_and_get_entries().unwrap().is_none());
}

#[test]
fn stopsign_flushes_the_batch() {
    let mut storage = internal(10);
    storage.append_entries_with_batching(entries(&["a", "b"])).unwrap();
    assert!(storage.append_stopsign(stopsign()).unwrap().is_some());
    assert_eq!(storage.get_accepted_idx(), 3);
    assert_eq!(storage.get_stopsign(), Some(stopsign()));
    assert!(!storage.stopsign_is_decided());
    storage.set_decided_idx(3).unwrap();
    assert!(storage.stopsign_is_decided());
}

#[test]
fn log_is_synced_with_a_suffix() {
    let mut storage = internal(1);
    storage.append_entries_without_batching(entries(&["a", "b", "c"])).unwrap();
    let sync = LogSync {
        decided_snapshot: None,
        suffix: entries(&["x"]),
        sync_idx: 1,
        stopsign: Some(stopsign()),
    };
    assert_eq!(storage.sync_log(ballot(5), 1, Some(sync)).unwrap(), 3);
    assert_eq!(storage.get_suffix(0).unwrap(), entries(&["a", "x"]));
    assert_eq!(storage.get_accepted_round(), ballot(5));
    assert_eq!(storage.get_decided_idx(), 1);
    assert_eq!(storage.get_stopsign(), Some(stopsign()));
}

#[test]
fn log_is_synced_with_a_snapshot() {
    let mut storage = internal(1);
    storage.append_entries_without_batching(entries(&["a", "b"])).unwrap();
    storage.set_decided_idx(1).unwrap();
    let sync = LogSync {
        decided_snapshot: Some(SnapshotType::Delta(snapshot(&["p", "q"]))),
        suffix: entries(&["r"]),
        sync_idx: 3,
        stopsign: None,
    };
    assert_eq!(storage.sync_log(ballot(5), 3, Some(sync)).unwrap(), 4);
    assert_eq!(storage.get_suffix(3).unwrap(), entries(&["r"]));
    let held = storage.storage.get_snapshot().unwrap().unwrap();
    assert_eq!(held.snapshotted, entries(&["a", "p", "q"]));
}

#[test]
fn diff_snapshot_starts_at_the_other_decided_index() {
    let mut storage = internal(1);
    storage.append_entries_without_batching(entries(&["a", "b", "c"])).unwrap();
    storage.set_decided_idx(2).unwrap();
    match storage.create_diff_snapshot(1).unwrap() {
        (Some(SnapshotType::Delta(delta)), idx) => {
            assert_eq!(delta.snapshotted, entries(&["b"]));
            assert_eq!(idx, 2);
        }
        _ => panic!("expected a delta"),
    }
    match storage.create_diff_snapshot(0).unwrap() {
        (Some(SnapshotType::Complete(complete)), idx) => {
            assert_eq!(complete.snapshotted, entries(&["a", "b"]));
            assert_eq!(idx, 2);
        }
        _ => panic!("expected a complete snapshot"),
    }
}

#[test]
fn ballots_are_ordered() {
    let low = ballot(1);
    let high = ballot(2);
    assert!(low.is_below(&high));
    assert!(!high.is_below(&low));
    assert!(!low.is_below(&low));
    assert!(Ballot::default().is_below(&low));
    let next_config = Ballot { config_id: 2, ..low };
    assert!(high.is_below(&next_config));
    let preferred = Ballot { priority: 1, ..low };
    assert!(low.is_below(&preferred) && preferred.is_below(&high));
    let other = Ballot { pid: 2, ..low };
    assert!(low.is_below(&other) && other.is_below(&preferred));
}

#[test]
fn quorums_have_sizes() {
    let majority = Quorum::with(None, 5);
    assert_eq!(majority, Quorum::Majority(3));
    assert!(majority.is_prepare_quorum(3) && !majority.is_prepare_quorum(2));
    assert!(majority.is_accept_quorum(3) && !majority.is_accept_quorum(2));
    let flexible = Quorum::with(
        Some(FlexibleQuorum {
            read_quorum_size: 4,
            write_quorum_size: 2,
        }),
        5,
    );
    assert!(flexible.is_prepare_quorum(4) && !flexible.is_prepare_quorum(3));
    assert!(flexible.is_accept_quorum(2) && !flexible.is_accept_quorum(1));
}

#[test]
fn memory_answers_what_is_compacted_on_disk() {
    let mut storage = HybridStorage::open(MemoryStorage::default());
    storage.append_entries(entries(&["a", "b", "c"])).unwrap();
    storage.write_atomically(vec![StorageOp::Trim(2)]).unwrap();
    assert_eq!(storage.get_compacted_idx().unwrap(), 2);
    assert_eq!(storage.get_entries(0, 2).unwrap(), entries(&["a", "b"]));
    assert_eq!(storage.get_suffix(1).unwrap(), entries(&["b", "c"]));
}
