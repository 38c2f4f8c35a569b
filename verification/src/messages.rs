//! The messages between the servers.
use crate::storage::{Entry, StopSign, StopSignView};
use crate::util::{Ballot, NodeId};
use crate::util;
use vstd::prelude::*;

verus! {

/// The place of a message in the accepts of a leader to one follower.
#[derive(Clone, Copy, Debug, PartialEq, Eq, Structural)]
pub struct SequenceNumber {
    /// Meant to refer to a TCP session.
    pub session: u64,
    /// The sequence number with respect to a session.
    pub counter: u64,
}

/// A snapshot of the decided log, or of its part after an index.
pub enum SnapshotType<T: Entry> {
    Complete(T::Snapshot),
    Delta(T::Snapshot),
}

/// What a snapshot of the decided log holds.
pub enum SnapshotTypeView<T: Entry> {
    Complete(<T::Snapshot as View>::V),
    Delta(<T::Snapshot as View>::V),
}

impl<T: Entry> View for SnapshotType<T> {
    type V = SnapshotTypeView<T>;

    open spec fn view(&self) -> SnapshotTypeView<T> {
        match *self {
            SnapshotType::Complete(snapshot) => SnapshotTypeView::Complete(snapshot@),
            SnapshotType::Delta(snapshot) => SnapshotTypeView::Delta(snapshot@),
        }
    }
}

/// What another server needs to bring its log to the state of ours.
pub struct LogSync<T: Entry> {
    /// The decided snapshot.
    pub decided_snapshot: Option<SnapshotType<T>>,
    /// The log suffix.
    pub suffix: Vec<T>,
    /// The index of the log where the entries of `suffix` go.
    pub sync_idx: usize,
    /// The accepted stopsign.
    pub stopsign: Option<StopSign>,
}

/// What a log sync holds.
#[verifier::ext_equal]
pub struct LogSyncView<T: Entry> {
    pub decided_snapshot: Option<SnapshotTypeView<T>>,
    pub suffix: Seq<T::V>,
    pub sync_idx: usize,
    pub stopsign: Option<StopSignView>,
}

impl<T: Entry> View for LogSync<T> {
    type V = LogSyncView<T>;

    open spec fn view(&self) -> LogSyncView<T> {
        LogSyncView {
            decided_snapshot: util::view_option(self.decided_snapshot),
            suffix: util::views(self.suffix@),
            sync_idx: self.sync_idx,
            stopsign: util::view_option(self.stopsign),
        }
    }
}

/// A follower asks the leader to prepare it.
#[derive(Clone, Copy, Debug, PartialEq, Eq, Structural)]
pub struct PrepareReq {
    pub n: Ballot,
}

/// The leader asks for a promise.
#[derive(Clone, Copy, Debug, PartialEq, Eq, Structural)]
pub struct Prepare {
    /// The current round.
    pub n: Ballot,
    /// The decided index of the leader.
    pub decided_idx: usize,
    /// The latest round in which the leader accepted an entry.
    pub n_accepted: Ballot,
    /// The log length of the leader.
    pub accepted_idx: usize,
}

/// A follower promises to take part in a round.
pub struct Promise<T: Entry> {
    /// The current round.
    pub n: Ballot,
    /// The latest round in which the follower accepted an entry.
    pub n_accepted: Ballot,
    /// The decided index of the follower.
    pub decided_idx: usize,
    /// The log length of the follower.
    pub accepted_idx: usize,
    /// What the leader needs of the follower's log.
    pub log_sync: Option<LogSync<T>>,
}

/// The leader brings a follower's log to the state of its own.
pub struct AcceptSync<T: Entry> {
    pub n: Ballot,
    pub seq_num: SequenceNumber,
    pub decided_idx: usize,
    pub log_sync: LogSync<T>,
}

/// The leader asks to accept entries, and tells the decided index.
pub struct AcceptDecide<T: Entry> {
    pub n: Ballot,
    pub seq_num: SequenceNumber,
    pub decided_idx: usize,
    pub entries: Vec<T>,
}

/// What a request to accept entries holds.
#[verifier::ext_equal]
pub struct AcceptDecideView<T: Entry> {
    pub n: Ballot,
    pub seq_num: SequenceNumber,
    pub decided_idx: usize,
    pub entries: Seq<T::V>,
}

impl<T: Entry> View for AcceptDecide<T> {
    type V = AcceptDecideView<T>;

    open spec fn view(&self) -> AcceptDecideView<T> {
        AcceptDecideView {
            n: self.n,
            seq_num: self.seq_num,
            decided_idx: self.decided_idx,
            entries: util::views(self.entries@),
        }
    }
}

/// A follower has accepted the log up to an index.
#[derive(Clone, Copy, Debug, PartialEq, Eq, Structural)]
pub struct Accepted {
    pub n: Ballot,
    pub accepted_idx: usize,
}

/// A follower refuses: it has promised a higher round.
#[derive(Clone, Copy, Debug, PartialEq, Eq, Structural)]
pub struct NotAccepted {
    pub n: Ballot,
}

/// The leader tells the decided index.
#[derive(Clone, Copy, Debug, PartialEq, Eq, Structural)]
pub struct Decide {
    pub n: Ballot,
    pub seq_num: SequenceNumber,
    pub decided_idx: usize,
}

/// The leader asks to accept a stopsign.
pub struct AcceptStopSign {
    pub seq_num: SequenceNumber,
    pub n: Ballot,
    pub ss: StopSign,
}

/// The messages of the protocol.
pub enum PaxosMsg<T: Entry> {
    PrepareReq(PrepareReq),
    Prepare(Prepare),
    Promise(Promise<T>),
    AcceptSync(AcceptSync<T>),
    AcceptDecide(AcceptDecide<T>),
    Accepted(Accepted),
    NotAccepted(NotAccepted),
    Decide(Decide),
    ProposalForward(Vec<T>),
    AcceptStopSign(AcceptStopSign),
    ForwardStopSign(StopSign),
}

/// What a promise holds.
#[verifier::ext_equal]
pub struct PromiseView<T: Entry> {
    pub n: Ballot,
    pub n_accepted: Ballot,
    pub decided_idx: usize,
    pub accepted_idx: usize,
    pub log_sync: Option<LogSyncView<T>>,
}

impl<T: Entry> View for Promise<T> {
    type V = PromiseView<T>;

    open spec fn view(&self) -> PromiseView<T> {
        PromiseView {
            n: self.n,
            n_accepted: self.n_accepted,
            decided_idx: self.decided_idx,
            accepted_idx: self.accepted_idx,
            log_sync: util::view_option(self.log_sync),
        }
    }
}

/// What a message of the protocol holds.
pub enum MsgView<T: Entry> {
    PrepareReq(PrepareReq),
    Prepare(Prepare),
    Promise(PromiseView<T>),
    AcceptSync {
        n: Ballot,
        seq_num: SequenceNumber,
        decided_idx: usize,
        log_sync: LogSyncView<T>,
    },
    AcceptDecide(AcceptDecideView<T>),
    Accepted(Accepted),
    NotAccepted(NotAccepted),
    Decide(Decide),
    ProposalForward(Seq<T::V>),
    AcceptStopSign { seq_num: SequenceNumber, n: Ballot, ss: StopSignView },
    ForwardStopSign(StopSignView),
}

impl<T: Entry> View for PaxosMsg<T> {
    type V = MsgView<T>;

    open spec fn view(&self) -> MsgView<T> {
        match *self {
            PaxosMsg::PrepareReq(m) => MsgView::PrepareReq(m),
            PaxosMsg::Prepare(m) => MsgView::Prepare(m),
            PaxosMsg::Promise(m) => MsgView::Promise(m@),
            PaxosMsg::AcceptSync(m) => MsgView::AcceptSync {
                n: m.n,
                seq_num: m.seq_num,
                decided_idx: m.decided_idx,
                log_sync: m.log_sync@,
            },
            PaxosMsg::AcceptDecide(m) => MsgView::AcceptDecide(m@),
            PaxosMsg::Accepted(m) => MsgView::Accepted(m),
            PaxosMsg::NotAccepted(m) => MsgView::NotAccepted(m),
            PaxosMsg::Decide(m) => MsgView::Decide(m),
            PaxosMsg::ProposalForward(entries) => MsgView::ProposalForward(util::views(entries@)),
            PaxosMsg::AcceptStopSign(m) => MsgView::AcceptStopSign {
                seq_num: m.seq_num,
                n: m.n,
                ss: m.ss@,
            },
            PaxosMsg::ForwardStopSign(ss) => MsgView::ForwardStopSign(ss@),
        }
    }
}

/// A message of the protocol with its sender and its receiver.
pub struct PaxosMessage<T: Entry> {
    /// Sender of `msg`.
    pub from: NodeId,
    /// Receiver of `msg`.
    pub to: NodeId,
    /// The message content.
    pub msg: PaxosMsg<T>,
}

/// A message between servers.
pub enum Message<T: Entry> {
    SequencePaxos(PaxosMessage<T>),
}

/// What a message between servers holds.
pub struct MessageView<T: Entry> {
    pub from: NodeId,
    pub to: NodeId,
    pub msg: MsgView<T>,
}

impl<T: Entry> View for Message<T> {
    type V = MessageView<T>;

    open spec fn view(&self) -> MessageView<T> {
        match *self {
            Message::SequencePaxos(m) => MessageView { from: m.from, to: m.to, msg: m.msg@ },
        }
    }
}

} // verus!
