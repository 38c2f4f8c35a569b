use omnipaxos_ec::erasure::log_entry::{DefaultLogEntry, DefaultLogEntrySnapshot, OperationType};
use omnipaxos_ec::erasure::{ECService, EntryFragment};
use omnipaxos_ec::hybrid_storage::HybridStorage;
use omnipaxos_ec::internal_storage::InternalStorage;
use omnipaxos_ec::memory_storage::MemoryStorage;
use omnipaxos_ec::messages::{
    AcceptDecide, Accepted, LogSync, Message, NotAccepted, PaxosMsg, PrepareReq, Promise,
    SequenceNumber, SnapshotType,
};
use omnipaxos_ec::sequence_paxos_ec::{PhaseEC, RoleEC, SequencePaxosEC};
use omnipaxos_ec::storage::{
    OpView, StopSign, Storage, StorageError, StorageModel, StorageOp, StorageResult,
};
use omnipaxos_ec::util::{Ballot, ClusterConfigEC, NodeId, Quorum};
use vstd::prelude::{nat, Seq};

type Server = SequencePaxosEC<DefaultLogEntry, MemoryStorage<DefaultLogEntry>>;

fn code() -> ECService {
    ECService::new(2, 1).unwrap()
}

fn server(batch_size: usize) -> Server {
    SequencePaxosEC::with(
        1,
        vec![2, 3],
        3,
        Quorum::with(None, 3),
        code(),
        InternalStorage::with(MemoryStorage::default(), batch_size).unwrap(),
    )
}

fn ballot(n: u32, pid: NodeId) -> Ballot {
    Ballot {
        config_id: 1,
        n,
        priority: 0,
        pid,
    }
}

fn round() -> Ballot {
    ballot(1, 1)
}

fn entry(key: &str, value: &[u8]) -> DefaultLogEntry {
    DefaultLogEntry::new(
        OperationType::SET,
        key.to_string(),
        EntryFragment::new(0, value.to_vec()),
    )
}

/// The entry with its fragment for a server.
fn share(key: &str, op: OperationType, value: &[u8], pid: usize) -> DefaultLogEntry {
    let fragment = code().encode(&value.to_vec()).unwrap()[pid % 3].clone();
    DefaultLogEntry::new(op, key.to_string(), fragment)
}

fn stopsign() -> StopSign {
    StopSign {
        next_config: ClusterConfigEC {
            configuration_id: 2,
            nodes: vec![1, 2],
            flexible_quorum: None,
        },
        metadata: None,
    }
}

fn promise(n: Ballot, n_accepted: Ballot, decided_idx: usize, accepted_idx: usize) -> Promise<DefaultLogEntry> {
    Promise {
        n,
        n_accepted,
        decided_idx,
        accepted_idx,
        log_sync: None,
    }
}

fn num(session: u64, counter: u64) -> SequenceNumber {
    SequenceNumber { session, counter }
}

/// The messages that wait to be sent, with their receivers. All come from server 1.
fn sent<B: Storage<DefaultLogEntry>>(
    server: &mut SequencePaxosEC<DefaultLogEntry, B>,
) -> Vec<(NodeId, PaxosMsg<DefaultLogEntry>)> {
    server
        .outgoing
        .drain(..)
        .map(|message| {
            let Message::SequencePaxos(m) = message;
            assert_eq!(m.from, 1);
            (m.to, m.msg)
        })
        .collect()
}

/// A server that leads in the accept phase, with one follower that has promised.
fn leading(batch_size: usize) -> Server {
    let mut server = server(batch_size);
    server.handle_leader(round()).unwrap();
    server
        .handle_promise_prepare(promise(round(), Ballot::default(), 0, 0), 2)
        .unwrap();
    server.outgoing.clear();
    server
}

#[test]
fn new_server_follows() {
    let server = server(1);
    assert_eq!(server.state, (RoleEC::Follower, PhaseEC::Idle));
    assert!(server.outgoing.is_empty());
}

#[test]
fn elected_leader_asks_for_promises() {
    let mut server = server(5);
    server.internal_storage.append_entry_with_batching(entry("a", &[1])).unwrap();
    server.handle_leader(round()).unwrap();
    assert_eq!(server.state, (RoleEC::Leader, PhaseEC::Prepare));
    assert_eq!(server.internal_storage.get_promise(), round());
    assert_eq!(server.internal_storage.get_accepted_idx(), 1);
    let messages = sent(&mut server);
    let receivers: Vec<NodeId> = messages.iter().map(|(to, _)| *to).collect();
    assert_eq!(receivers, vec![2, 3]);
    for (_, msg) in messages {
        match msg {
            PaxosMsg::Prepare(prep) => {
                assert_eq!(prep.n, round());
                assert_eq!(prep.n_accepted, Ballot::default());
                assert_eq!((prep.decided_idx, prep.accepted_idx), (0, 1));
            }
            _ => panic!("expected a prepare"),
        }
    }
}

#[test]
fn stale_leader_is_ignored() {
    let mut server = leading(1);
    server.handle_leader(round()).unwrap();
    server.handle_leader(ballot(0, 2)).unwrap();
    assert_eq!(server.state, (RoleEC::Leader, PhaseEC::Accept));
    assert!(server.outgoing.is_empty());
}

#[test]
fn other_leader_is_followed() {
    let mut server = leading(1);
    server.handle_leader(ballot(2, 3)).unwrap();
    assert_eq!(server.state, (RoleEC::Follower, PhaseEC::Accept));
    assert_eq!(server.internal_storage.get_promise(), round());
    assert!(server.outgoing.is_empty());
}

#[test]
fn promise_of_another_round_is_ignored() {
    let mut server = server(1);
    server.handle_leader(round()).unwrap();
    server.outgoing.clear();
    server
        .handle_promise_prepare(promise(ballot(9, 1), Ballot::default(), 0, 0), 2)
        .unwrap();
    server
        .handle_promise_accept(promise(ballot(9, 1), Ballot::default(), 0, 0), 2)
        .unwrap();
    assert_eq!(server.state.1, PhaseEC::Prepare);
    assert!(server.outgoing.is_empty());
}

#[test]
fn majority_of_promises_starts_the_accept_phase() {
    let mut server = server(1);
    server.handle_leader(round()).unwrap();
    server.outgoing.clear();
    server.handle_forwarded_proposal(vec![entry("a", &[1, 2])]).unwrap();
    assert_eq!(server.buffered_proposals.len(), 1);
    assert!(server.outgoing.is_empty());
    server
        .handle_promise_prepare(promise(round(), Ballot::default(), 0, 0), 2)
        .unwrap();
    assert_eq!(server.state, (RoleEC::Leader, PhaseEC::Accept));
    assert!(server.buffered_proposals.is_empty());
    assert_eq!(
        server.internal_storage.get_suffix(0).unwrap(),
        vec![entry("a", &[1, 2])]
    );
    assert_eq!(server.leader_state.get_accepted_idx(1), 1);
    let mut messages = sent(&mut server);
    assert_eq!(messages.len(), 1);
    match messages.pop() {
        Some((2, PaxosMsg::AcceptSync(sync))) => {
            assert_eq!(sync.n, round());
            assert_eq!(sync.seq_num, num(1, 1));
            assert_eq!(sync.decided_idx, 0);
            assert_eq!(sync.log_sync.sync_idx, 0);
            assert!(sync.log_sync.decided_snapshot.is_none());
            assert_eq!(
                sync.log_sync.suffix,
                vec![share("a", OperationType::SET, &[1, 2], 2)]
            );
        }
        _ => panic!("expected a log sync to server 2"),
    }
}

#[test]
fn buffered_stopsign_is_accepted_last() {
    let mut server = server(1);
    server.handle_leader(round()).unwrap();
    server.handle_forwarded_stopsign(stopsign()).unwrap();
    server.handle_forwarded_proposal(vec![entry("a", &[1])]).unwrap();
    assert!(server.internal_storage.get_stopsign().is_none());
    server
        .handle_promise_prepare(promise(round(), Ballot::default(), 0, 0), 3)
        .unwrap();
    assert_eq!(server.internal_storage.get_stopsign(), Some(stopsign()));
    assert_eq!(server.internal_storage.get_accepted_idx(), 2);
    assert!(server.buffered_stopsign.is_none());
}

#[test]
fn most_recent_log_is_adopted() {
    let mut server = server(1);
    server
        .internal_storage
        .append_entries_without_batching(vec![entry("mine", &[1]), entry("lost", &[2])])
        .unwrap();
    server.handle_leader(ballot(4, 1)).unwrap();
    server.outgoing.clear();
    let recent = Promise {
        n: ballot(4, 1),
        n_accepted: ballot(3, 2),
        decided_idx: 1,
        accepted_idx: 2,
        log_sync: Some(LogSync {
            decided_snapshot: None,
            suffix: vec![entry("theirs", &[3])],
            sync_idx: 1,
            stopsign: None,
        }),
    };
    server.handle_promise_prepare(recent, 2).unwrap();
    assert_eq!(
        server.internal_storage.get_suffix(0).unwrap(),
        vec![entry("mine", &[1]), entry("theirs", &[3])]
    );
    assert_eq!(server.internal_storage.get_accepted_round(), ballot(4, 1));
    assert_eq!(server.internal_storage.get_decided_idx(), 1);
    match sent(&mut server).pop() {
        Some((2, PaxosMsg::AcceptSync(sync))) => {
            assert_eq!(sync.decided_idx, 1);
            assert_eq!(sync.log_sync.sync_idx, 2);
            assert!(sync.log_sync.suffix.is_empty());
        }
        _ => panic!("expected a log sync to server 2"),
    }
}

#[test]
fn late_follower_is_synced_with_a_snapshot() {
    let mut server = leading(1);
    server.accept_entries_leader(vec![entry("a", &[1]), entry("b", &[2])]).unwrap();
    server
        .handle_accepted(Accepted { n: round(), accepted_idx: 1 }, 2)
        .unwrap();
    server.outgoing.clear();
    server
        .handle_promise_accept(promise(round(), Ballot::default(), 0, 0), 3)
        .unwrap();
    let own = server.internal_storage.get_suffix(0).unwrap();
    match sent(&mut server).pop() {
        Some((3, PaxosMsg::AcceptSync(sync))) => {
            assert_eq!(sync.seq_num, num(1, 1));
            assert_eq!(sync.log_sync.sync_idx, 1);
            match sync.log_sync.decided_snapshot {
                Some(SnapshotType::Complete(DefaultLogEntrySnapshot { snapshotted, .. })) => {
                    assert_eq!(snapshotted, vec![own[0].clone()]);
                }
                _ => panic!("expected a complete snapshot"),
            }
            assert_eq!(
                sync.log_sync.suffix,
                vec![share("b", OperationType::SET, &own[1].value.data, 3)]
            );
        }
        _ => panic!("expected a log sync to server 3"),
    }
}

fn accept_of(message: Option<(NodeId, PaxosMsg<DefaultLogEntry>)>) -> (NodeId, AcceptDecide<DefaultLogEntry>) {
    match message {
        Some((to, PaxosMsg::AcceptDecide(accept))) => (to, accept),
        _ => panic!("expected an accept"),
    }
}

#[test]
fn accepted_entries_are_distributed() {
    let mut server = leading(1);
    server
        .accept_entries_leader(vec![entry("a", &[1, 2, 3]), entry("b", &[])])
        .unwrap();
    let kept = vec![
        share("a", OperationType::SET, &[1, 2, 3], 1),
        share("b", OperationType::SET, &[], 1),
    ];
    assert_eq!(server.internal_storage.get_suffix(0).unwrap(), kept);
    assert_eq!(server.leader_state.get_accepted_idx(1), 2);
    let mut messages = sent(&mut server);
    assert_eq!(messages.len(), 2);
    let (to, accept) = accept_of(messages.pop());
    assert_eq!((to, accept.n, accept.seq_num), (3, round(), num(0, 1)));
    assert_eq!(accept.entries[0], share("a", OperationType::SET, &[1, 2, 3], 3));
    assert_eq!(accept.entries[1], share("b", OperationType::SET, &[], 3));
    let (to, accept) = accept_of(messages.pop());
    assert_eq!((to, accept.n, accept.seq_num), (2, round(), num(1, 2)));
    assert_eq!(accept.decided_idx, 0);
    let held = vec![kept[0].value.clone(), accept.entries[0].value.clone()];
    assert_eq!(code().decode(&held), Ok(vec![1, 2, 3]));
}

#[test]
fn no_entries_are_not_distributed() {
    let mut server = leading(0);
    server.accept_entries_leader(vec![]).unwrap();
    assert!(server.outgoing.is_empty());
    assert_eq!(server.leader_state.get_seq_num(2), num(1, 1));
}

#[test]
fn one_entry_is_encoded_with_its_index() {
    let mut server = leading(1);
    let mut one = entry("k", &[5, 6]);
    one.value.idx = 7;
    one.operation = OperationType::DELETE;
    server.accept_entry_leader(one).unwrap();
    let whole = vec![7, 0, 0, 0, 0, 0, 0, 0, 2, 0, 0, 0, 0, 0, 0, 0, 5, 6];
    assert_eq!(
        server.internal_storage.get_suffix(0).unwrap(),
        vec![share("k", OperationType::DELETE, &whole, 1)]
    );
    let mut messages = sent(&mut server);
    assert_eq!(messages.len(), 2);
    let (to, accept) = accept_of(messages.pop());
    assert_eq!(to, 3);
    assert_eq!(accept.entries, vec![share("k", OperationType::DELETE, &whole, 3)]);
}

#[test]
fn batch_waits_until_it_is_full() {
    let mut server = leading(2);
    server.accept_entries_leader(vec![entry("a", &[1])]).unwrap();
    assert!(server.outgoing.is_empty());
    assert_eq!(server.leader_state.get_accepted_idx(1), 0);
    server.accept_entries_leader(vec![entry("b", &[2])]).unwrap();
    assert_eq!(server.leader_state.get_accepted_idx(1), 2);
    let mut messages = sent(&mut server);
    let (_, accept) = accept_of(messages.pop());
    assert_eq!(accept.entries, vec![share("b", OperationType::SET, &[2], 3)]);
}

#[test]
fn flushed_batch_is_distributed() {
    let mut server = leading(9);
    server.flush_batch_leader().unwrap();
    assert!(server.outgoing.is_empty());
    server
        .accept_entries_leader(vec![entry("a", &[1]), entry("b", &[2])])
        .unwrap();
    assert!(server.outgoing.is_empty());
    server.flush_batch_leader().unwrap();
    assert_eq!(server.leader_state.get_accepted_idx(1), 2);
    let kept = server.internal_storage.get_suffix(0).unwrap();
    let mut messages = sent(&mut server);
    assert_eq!(messages.len(), 2);
    let (to, accept) = accept_of(messages.pop());
    assert_eq!(to, 3);
    assert_eq!(
        accept.entries,
        vec![
            share("a", OperationType::SET, &kept[0].value.data, 3),
            share("b", OperationType::SET, &kept[1].value.data, 3),
        ]
    );
}

#[test]
fn accepted_index_is_decided_by_a_quorum() {
    let mut server = leading(1);
    server.accept_entries_leader(vec![entry("a", &[1])]).unwrap();
    server.outgoing.clear();
    server
        .handle_accepted(Accepted { n: ballot(0, 1), accepted_idx: 1 }, 2)
        .unwrap();
    assert_eq!(server.get_decided_idx(), 0);
    server
        .handle_accepted(Accepted { n: round(), accepted_idx: 1 }, 2)
        .unwrap();
    assert_eq!(server.get_decided_idx(), 1);
    let mut messages = sent(&mut server);
    assert_eq!(messages.len(), 1);
    match messages.pop() {
        Some((2, PaxosMsg::Decide(decide))) => {
            assert_eq!(decide.n, round());
            assert_eq!(decide.decided_idx, 1);
            assert_eq!(decide.seq_num, num(1, 3));
        }
        _ => panic!("expected a decide to server 2"),
    }
    server
        .handle_accepted(Accepted { n: round(), accepted_idx: 1 }, 3)
        .unwrap();
    assert!(server.outgoing.is_empty());
}

#[test]
fn index_beyond_the_own_log_is_not_decided() {
    let mut server = leading(1);
    server
        .handle_accepted(Accepted { n: round(), accepted_idx: 5 }, 2)
        .unwrap();
    assert_eq!(server.get_decided_idx(), 0);
    assert!(server.outgoing.is_empty());
}

#[test]
fn latest_accept_is_amended() {
    let mut server = leading(1);
    server.accept_entries_leader(vec![entry("a", &[1])]).unwrap();
    server.leader_state.set_latest_accept_meta(2, Some(0));
    assert!(server.get_latest_accdec_message(3).is_none());
    assert_eq!(server.get_latest_accdec_message(2).unwrap().decided_idx, 0);
    server
        .handle_accepted(Accepted { n: round(), accepted_idx: 1 }, 2)
        .unwrap();
    let mut messages = sent(&mut server);
    assert_eq!(messages.len(), 2);
    let (_, accept) = accept_of(messages.pop());
    assert_eq!(accept.decided_idx, 0);
    let (to, accept) = accept_of(messages.pop());
    assert_eq!((to, accept.decided_idx), (2, 1));
}

#[test]
fn stopsign_is_sent_to_promised_followers() {
    let mut server = leading(5);
    server.accept_stopsign_leader(stopsign()).unwrap();
    assert_eq!(server.internal_storage.get_stopsign(), Some(stopsign()));
    assert_eq!(server.leader_state.get_accepted_idx(1), 1);
    let mut messages = sent(&mut server);
    assert_eq!(messages.len(), 1);
    match messages.pop() {
        Some((2, PaxosMsg::AcceptStopSign(accept))) => {
            assert_eq!(accept.ss, stopsign());
            assert_eq!((accept.n, accept.seq_num), (round(), num(1, 2)));
        }
        _ => panic!("expected a stopsign to server 2"),
    }
}

#[test]
fn stopsign_behind_a_batch_is_announced_as_an_entry() {
    let mut server = leading(5);
    server.accept_entries_leader(vec![entry("a", &[1])]).unwrap();
    server.handle_forwarded_stopsign(stopsign()).unwrap();
    assert_eq!(server.leader_state.get_accepted_idx(1), 2);
    let mut messages = sent(&mut server);
    assert_eq!(messages.len(), 3);
    match messages.pop() {
        Some((2, PaxosMsg::AcceptStopSign(accept))) => {
            assert_eq!(accept.seq_num, num(1, 3));
        }
        _ => panic!("expected a stopsign to server 2"),
    }
    let bytes = omnipaxos_ec::wire::serialize_stopsign(&stopsign());
    let (to, accept) = accept_of(messages.pop());
    assert_eq!(to, 3);
    assert_eq!(
        accept.entries,
        vec![share("stopsign", OperationType::NULL, &bytes, 3)]
    );
}

#[test]
fn nothing_is_accepted_behind_a_stopsign() {
    let mut server = leading(1);
    server.accept_stopsign_leader(stopsign()).unwrap();
    server.outgoing.clear();
    server.handle_forwarded_proposal(vec![entry("a", &[1])]).unwrap();
    server.handle_forwarded_stopsign(stopsign()).unwrap();
    assert!(server.outgoing.is_empty());
    assert_eq!(server.internal_storage.get_accepted_idx(), 1);
}

#[test]
fn follower_forwards_to_its_leader() {
    let mut server = server(1);
    server.handle_forwarded_proposal(vec![entry("a", &[1])]).unwrap();
    server.handle_forwarded_stopsign(stopsign()).unwrap();
    assert_eq!(server.buffered_proposals, vec![entry("a", &[1])]);
    assert_eq!(server.buffered_stopsign, Some(stopsign()));
    assert!(server.outgoing.is_empty());
    server.internal_storage.set_promise(ballot(1, 3)).unwrap();
    server.handle_forwarded_stopsign(stopsign()).unwrap();
    server.handle_forwarded_proposal(vec![entry("b", &[2])]).unwrap();
    let mut messages = sent(&mut server);
    match messages.pop() {
        Some((3, PaxosMsg::ProposalForward(entries))) => {
            assert_eq!(entries, vec![entry("b", &[2])]);
        }
        _ => panic!("expected proposals to server 3"),
    }
    match messages.pop() {
        Some((3, PaxosMsg::ForwardStopSign(ss))) => assert_eq!(ss, stopsign()),
        _ => panic!("expected a stopsign to server 3"),
    }
}

#[test]
fn prepare_is_sent_on_request() {
    let mut server = leading(1);
    server.handle_preparereq(PrepareReq { n: ballot(2, 2) }, 2);
    assert!(server.outgoing.is_empty());
    server.handle_preparereq(PrepareReq { n: round() }, 2);
    let messages = sent(&mut server);
    assert_eq!(messages.len(), 1);
    assert!(matches!(&messages[0], (2, PaxosMsg::Prepare(prep)) if prep.n == round()));
    assert!(server.leader_state.get_promised_followers().is_empty());
}

#[test]
fn refusing_follower_is_forgotten() {
    let mut server = leading(1);
    server.handle_notaccepted(NotAccepted { n: round() }, 2);
    assert_eq!(server.leader_state.get_promised_followers(), vec![2]);
    server.handle_notaccepted(NotAccepted { n: ballot(2, 3) }, 2);
    assert!(server.leader_state.get_promised_followers().is_empty());
    server.resend_messages_leader();
    let receivers: Vec<NodeId> = sent(&mut server).iter().map(|(to, _)| *to).collect();
    assert_eq!(receivers, vec![3]);
}

#[test]
fn prepares_are_sent_again() {
    let mut server = server(1);
    server.resend_messages_leader();
    assert!(server.outgoing.is_empty());
    server.handle_leader(round()).unwrap();
    server.outgoing.clear();
    server.resend_messages_leader();
    let messages = sent(&mut server);
    assert_eq!(messages.len(), 2);
    assert!(matches!(&messages[1], (3, PaxosMsg::Prepare(prep)) if prep.n == round()));
}

#[test]
fn stopsign_is_sent_again_until_decided() {
    let mut server = leading(1);
    server.accept_stopsign_leader(stopsign()).unwrap();
    server.outgoing.clear();
    server.resend_messages_leader();
    let messages = sent(&mut server);
    assert_eq!(messages.len(), 2);
    assert!(
        matches!(&messages[0], (2, PaxosMsg::AcceptStopSign(a)) if a.seq_num == num(1, 2))
    );
    assert!(matches!(&messages[1], (3, PaxosMsg::Prepare(_))));
    server
        .handle_accepted(Accepted { n: round(), accepted_idx: 1 }, 2)
        .unwrap();
    server.outgoing.clear();
    server.resend_messages_leader();
    let messages = sent(&mut server);
    assert!(
        matches!(&messages[0], (2, PaxosMsg::Decide(d)) if d.decided_idx == 1 && d.seq_num == num(1, 3))
    );
}

#[test]
fn follower_that_is_up_to_date_gets_no_stopsign_again() {
    let mut server = leading(1);
    server.accept_stopsign_leader(stopsign()).unwrap();
    server.leader_state.set_accepted_idx(2, 1);
    server.outgoing.clear();
    server.resend_messages_leader();
    let receivers: Vec<NodeId> = sent(&mut server).iter().map(|(to, _)| *to).collect();
    assert_eq!(receivers, vec![3]);
}

/// A storage that works until it is told to fail.
struct Failing {
    inner: MemoryStorage<DefaultLogEntry>,
    fails: bool,
}

impl Failing {
    fn check(&self) -> StorageResult<()> {
        if self.fails {
            Err(StorageError {
                message: "no disk".to_string(),
            })
        } else {
            Ok(())
        }
    }
}

impl Storage<DefaultLogEntry> for Failing {
    fn model(&self) -> StorageModel<DefaultLogEntry> {
        unreachable!()
    }
    fn faithful(&self) -> bool {
        unreachable!()
    }
    fn reliable(&self) -> bool {
        unreachable!()
    }
    fn keeps_snapshots() -> bool {
        unreachable!()
    }
    fn reads(&self, _from: nat, _to: nat) -> bool {
        unreachable!()
    }
    fn reads_from(&self, _from: nat) -> bool {
        unreachable!()
    }
    fn cuts_at(&self, _idx: nat) -> bool {
        unreachable!()
    }
    fn performs(&self, _ops: Seq<OpView<DefaultLogEntry>>) -> bool {
        unreachable!()
    }
    fn write_atomically(&mut self, ops: Vec<StorageOp<DefaultLogEntry>>) -> StorageResult<()> {
        self.check()?;
        self.inner.write_atomically(ops)
    }
    fn append_entry(&mut self, entry: DefaultLogEntry) -> StorageResult<()> {
        self.check()?;
        self.inner.append_entry(entry)
    }
    fn append_entries(&mut self, entries: Vec<DefaultLogEntry>) -> StorageResult<()> {
        self.check()?;
        self.inner.append_entries(entries)
    }
    fn append_on_prefix(&mut self, from_idx: usize, entries: Vec<DefaultLogEntry>) -> StorageResult<()> {
        self.check()?;
        self.inner.append_on_prefix(from_idx, entries)
    }
    fn set_promise(&mut self, n_prom: Ballot) -> StorageResult<()> {
        self.check()?;
        self.inner.set_promise(n_prom)
    }
    fn set_decided_idx(&mut self, ld: usize) -> StorageResult<()> {
        self.check()?;
        self.inner.set_decided_idx(ld)
    }
    fn get_decided_idx(&self) -> StorageResult<usize> {
        self.inner.get_decided_idx()
    }
    fn set_accepted_round(&mut self, na: Ballot) -> StorageResult<()> {
        self.check()?;
        self.inner.set_accepted_round(na)
    }
    fn get_accepted_round(&self) -> StorageResult<Option<Ballot>> {
        self.inner.get_accepted_round()
    }
    fn get_entries(&self, from: usize, to: usize) -> StorageResult<Vec<DefaultLogEntry>> {
        self.check()?;
        self.inner.get_entries(from, to)
    }
    fn get_log_len(&self) -> StorageResult<usize> {
        self.inner.get_log_len()
    }
    fn get_suffix(&self, from: usize) -> StorageResult<Vec<DefaultLogEntry>> {
        self.check()?;
        self.inner.get_suffix(from)
    }
    fn get_promise(&self) -> StorageResult<Option<Ballot>> {
        self.inner.get_promise()
    }
    fn set_stopsign(&mut self, s: Option<StopSign>) -> StorageResult<()> {
        self.check()?;
        self.inner.set_stopsign(s)
    }
    fn get_stopsign(&self) -> StorageResult<Option<StopSign>> {
        self.inner.get_stopsign()
    }
    fn trim(&mut self, idx: usize) -> StorageResult<()> {
        self.check()?;
        self.inner.trim(idx)
    }
    fn set_compacted_idx(&mut self, idx: usize) -> StorageResult<()> {
        self.check()?;
        self.inner.set_compacted_idx(idx)
    }
    fn get_compacted_idx(&self) -> StorageResult<usize> {
        self.inner.get_compacted_idx()
    }
    fn set_snapshot(&mut self, snapshot: Option<DefaultLogEntrySnapshot>) -> StorageResult<()> {
        self.check()?;
        self.inner.set_snapshot(snapshot)
    }
    fn get_snapshot(&self) -> StorageResult<Option<DefaultLogEntrySnapshot>> {
        self.inner.get_snapshot()
    }
}

#[test]
fn nothing_is_sent_that_was_not_written() {
    let disk = Failing {
        inner: MemoryStorage::default(),
        fails: false,
    };
    let mut server = SequencePaxosEC::with(
        1,
        vec![2, 3],
        3,
        Quorum::with(None, 3),
        code(),
        InternalStorage::with(disk, 1).unwrap(),
    );
    server.internal_storage.storage.fails = true;
    assert!(server.handle_leader(round()).is_err());
    assert!(server.outgoing.is_empty());

    server.internal_storage.storage.fails = false;
    server.handle_leader(ballot(2, 1)).unwrap();
    server.outgoing.clear();
    server
        .handle_promise_prepare(promise(ballot(2, 1), Ballot::default(), 0, 0), 2)
        .unwrap();
    server.accept_entries_leader(vec![entry("a", &[1])]).unwrap();
    server.outgoing.clear();

    server.internal_storage.storage.fails = true;
    let accepted = Accepted {
        n: ballot(2, 1),
        accepted_idx: 1,
    };
    assert!(server.handle_accepted(accepted, 2).is_err());
    assert!(server.accept_entry_leader(entry("b", &[2])).is_err());
    assert!(server.accept_entries_leader(vec![entry("b", &[2])]).is_err());
    assert!(server.accept_stopsign_leader(stopsign()).is_err());
    let late = promise(ballot(2, 1), Ballot::default(), 0, 0);
    let result = server.handle_promise_accept(late, 3);
    assert_eq!(result.unwrap_err().message, "no disk");
    assert!(server.outgoing.is_empty());
}

fn on_failing_disk() -> SequencePaxosEC<DefaultLogEntry, Failing> {
    let disk = Failing {
        inner: MemoryStorage::default(),
        fails: false,
    };
    let mut server = SequencePaxosEC::with(
        1,
        vec![2, 3],
        3,
        Quorum::with(None, 3),
        code(),
        InternalStorage::with(disk, 2).unwrap(),
    );
    server.handle_leader(round()).unwrap();
    server.outgoing.clear();
    server.internal_storage.storage.fails = true;
    server
}

#[test]
fn no_failure_where_nothing_is_written() {
    let mut server = on_failing_disk();
    server.handle_leader(round()).unwrap();
    server.handle_leader(ballot(0, 3)).unwrap();
    server.handle_leader(Ballot { config_id: 0, ..ballot(9, 2) }).unwrap();
    assert_eq!(server.state, (RoleEC::Leader, PhaseEC::Prepare));
    assert_eq!(server.leader_state.n_leader, round());
    assert_eq!(server.internal_storage.get_promise(), round());

    server.handle_forwarded_proposal(vec![entry("a", &[1])]).unwrap();
    server.handle_forwarded_stopsign(stopsign()).unwrap();
    assert_eq!(server.buffered_proposals, vec![entry("a", &[1])]);
    let other = promise(ballot(7, 1), Ballot::default(), 0, 0);
    server.handle_promise_prepare(other, 2).unwrap();
    let accepted = Accepted {
        n: round(),
        accepted_idx: 1,
    };
    server.handle_accepted(accepted, 2).unwrap();
    assert_eq!(server.leader_state.get_accepted_idx(2), 0);
    server.flush_batch_leader().unwrap();
    server.handle_leader(ballot(2, 2)).unwrap();
    assert_eq!(server.state, (RoleEC::Follower, PhaseEC::Prepare));
    assert_eq!(server.internal_storage.get_promise(), round());
    assert!(server.outgoing.is_empty());
}

#[test]
fn batch_that_is_not_full_cannot_fail() {
    let mut server = on_failing_disk();
    server.internal_storage.storage.fails = false;
    server
        .handle_promise_prepare(promise(round(), Ballot::default(), 0, 0), 2)
        .unwrap();
    server.outgoing.clear();
    server.internal_storage.storage.fails = true;
    server.accept_entries_leader(vec![entry("a", &[1])]).unwrap();
    assert!(server.accept_entries_leader(vec![entry("b", &[2])]).is_err());
    assert!(server.outgoing.is_empty());
}

#[test]
fn failed_log_sync_leaves_the_log() {
    let mut server = on_failing_disk();
    server.internal_storage.storage.fails = false;
    server
        .internal_storage
        .append_entries_without_batching(vec![entry("a", &[1])])
        .unwrap();
    server.internal_storage.storage.fails = true;
    let sync = LogSync {
        decided_snapshot: None,
        suffix: vec![entry("b", &[2]), entry("c", &[3])],
        sync_idx: 0,
        stopsign: Some(stopsign()),
    };
    assert!(server.internal_storage.sync_log(ballot(3, 1), 2, Some(sync)).is_err());
    server.internal_storage.storage.fails = false;
    assert_eq!(server.internal_storage.get_suffix(0).unwrap(), vec![entry("a", &[1])]);
    assert_eq!(server.internal_storage.get_decided_idx(), 0);
    assert_eq!(server.internal_storage.get_accepted_idx(), 1);
    assert!(server.internal_storage.get_stopsign().is_none());
}

#[test]
fn hybrid_storage_hands_on_the_error_of_the_disk() {
    let mut inner = MemoryStorage::default();
    inner.append_entry(entry("d", &[4])).unwrap();
    let mut storage = HybridStorage::open(Failing { inner, fails: true });
    let failed = storage.append_entry(entry("a", &[1]));
    assert_eq!(failed.unwrap_err().message, "no disk");
    assert_eq!(storage.get_suffix(0).unwrap(), vec![entry("a", &[1])]);
    assert_eq!(storage.get_entries(0, 1).unwrap(), vec![entry("a", &[1])]);
    assert_eq!(storage.get_entries(1, 1).unwrap_err().message, "no disk");
    assert_eq!(storage.get_suffix(1).unwrap_err().message, "no disk");
    let failed = storage.write_atomically(vec![
        StorageOp::AppendEntry(entry("b", &[2])),
        StorageOp::SetDecidedIndex(1),
    ]);
    assert_eq!(failed.unwrap_err().message, "no disk");
    assert_eq!(storage.get_decided_idx().unwrap(), 0);
    assert_eq!(storage.get_log_len().unwrap(), 1);
}

#[test]
fn one_entry_is_sent_like_a_batch_of_one() {
    let fragments = code().encode(&vec![1, 2, 3]).unwrap();
    let mut one = leading(1);
    one.send_acceptdecide("k".to_string(), OperationType::SET, fragments.clone());
    let mut batch = leading(1);
    batch.send_acceptdecide_batch(&vec![("k".to_string(), OperationType::SET, fragments)]);
    for pid in 2..=3 {
        assert_eq!(one.leader_state.get_seq_num(pid), batch.leader_state.get_seq_num(pid));
    }
    let mut alone = sent(&mut one);
    let mut batched = sent(&mut batch);
    assert_eq!((alone.len(), batched.len()), (2, 2));
    for pid in [3, 2] {
        let (to, a) = accept_of(alone.pop());
        let (also_to, b) = accept_of(batched.pop());
        assert_eq!((to, also_to), (pid, pid));
        assert_eq!((a.n, a.seq_num, a.decided_idx), (b.n, b.seq_num, b.decided_idx));
        assert_eq!(a.entries, b.entries);
        assert_eq!(a.entries, vec![share("k", OperationType::SET, &[1, 2, 3], pid as usize)]);
    }
}

#[test]
fn entries_survive_with_scattered_ids() {
    let mut server = SequencePaxosEC::with(
        4,
        vec![8, 9],
        9,
        Quorum::with(None, 3),
        code(),
        InternalStorage::with(MemoryStorage::default(), 1).unwrap(),
    );
    let value = vec![9, 8, 7, 6, 5];
    server.accept_entries_leader(vec![entry("k", &value)]).unwrap();
    let mut fragments: Vec<EntryFragment> = server
        .internal_storage
        .get_suffix(0)
        .unwrap()
        .into_iter()
        .map(|e| e.value)
        .collect();
    for message in server.outgoing.drain(..) {
        let Message::SequencePaxos(m) = message;
        let (_, accept) = accept_of(Some((m.to, m.msg)));
        fragments.push(accept.entries[0].value.clone());
    }
    assert_eq!(fragments.len(), 3);
    for lost in 0..3 {
        let mut left = fragments.clone();
        left.remove(lost);
        assert_eq!(code().decode(&left), Ok(value.clone()));
    }
}
