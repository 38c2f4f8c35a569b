//! What the servers of the erasure-coded protocol hold, and how it changes.
use crate::erasure::codec;
use crate::erasure::ec_service;
use crate::erasure::ec_service::{EntryFragment, FragmentView};
use crate::erasure::framing;
use crate::erasure::log_entry::{ECEntry, EntryView, OperationType};
use crate::internal_storage::InternalView;
use crate::leader_state;
use crate::leader_state::{LeaderView, PromiseMetaData, PromiseState};
use crate::messages::{
    Accepted, AcceptDecideView, Decide, LogSyncView, MessageView, MsgView, Prepare, PromiseView,
};
use crate::storage::{Snapshot, StopSignView};
use crate::util::{Ballot, NodeId};
use crate::wire;
use vstd::prelude::*;

verus! {

/// The role of a server.
#[derive(Clone, Copy, Debug, PartialEq, Eq, Structural)]
pub enum RoleEC {
    Follower,
    Leader,
}

/// The phase of a server.
#[derive(Clone, Copy, Debug, PartialEq, Eq, Structural)]
pub enum PhaseEC {
    Prepare,
    Accept,
    Recover,
    Idle,
}

/// An entry with all its fragments.
pub type Coded = (String, OperationType, Vec<EntryFragment>);

/// What an entry with all its fragments holds.
pub struct CodedView {
    pub key: Seq<char>,
    pub op: OperationType,
    pub fragments: Seq<FragmentView>,
}

/// What an entry with all its fragments holds.
pub open spec fn coded_view(coded: Coded) -> CodedView {
    CodedView {
        key: coded.0@,
        op: coded.1,
        fragments: ec_service::fragment_views(coded.2@),
    }
}

/// What each entry with all its fragments holds.
pub open spec fn coded_views(coded: Seq<Coded>) -> Seq<CodedView> {
    coded.map_values(|one: Coded| coded_view(one))
}

/// An entry with all its fragments. The data of its own fragment is what is encoded.
pub open spec fn coded_entry(k: nat, m: nat, entry: EntryView) -> CodedView {
    CodedView {
        key: entry.key,
        op: entry.operation,
        fragments: ec_service::fragments_of(k, m, entry.value.data),
    }
}

/// Each entry with all its fragments.
pub open spec fn coded_entries(k: nat, m: nat, entries: Seq<EntryView>) -> Seq<CodedView> {
    entries.map_values(|entry: EntryView| coded_entry(k, m, entry))
}

/// An entry with one of its fragments.
pub open spec fn share_of(coded: CodedView, idx: int) -> EntryView {
    EntryView { operation: coded.op, key: coded.key, value: coded.fragments[idx] }
}

/// Entries with one fragment each.
pub open spec fn shares_of(coded: Seq<CodedView>, idx: int) -> Seq<EntryView> {
    coded.map_values(|one: CodedView| share_of(one, idx))
}

/// What a server holds.
#[verifier::ext_equal]
pub struct PaxosView<T: ECEntry> {
    pub pid: NodeId,
    pub peers: Seq<NodeId>,
    pub role: RoleEC,
    pub phase: PhaseEC,
    pub leader: LeaderView<T>,
    pub storage: InternalView<T>,
    pub outgoing: Seq<MessageView<T>>,
    pub buffered_proposals: Seq<EntryView>,
    pub buffered_stopsign: Option<StopSignView>,
    pub k: nat,
    pub m: nat,
}

/// The smaller of two indices.
pub open spec fn min_idx(a: usize, b: usize) -> usize {
    if a <= b {
        a
    } else {
        b
    }
}

impl<T: ECEntry> PaxosView<T> {
    /// The servers have an id and a fragment each, the peers are different, the
    /// promises are noted at the place of who gave them, and an accept that may
    /// still be amended is among the outgoing messages.
    pub open spec fn wf(self) -> bool {
        &&& self.leader.wf()
        &&& self.leader.has(self.pid)
        &&& self.has_fragment(self.pid)
        &&& self.peers.no_duplicates()
        &&& forall|i: int|
            0 <= i < self.peers.len() ==> self.leader.has(#[trigger] self.peers[i])
                && self.has_fragment(self.peers[i])
        &&& self.peers.len() < usize::MAX
        &&& codec::is_code(self.k, self.m)
        &&& self.promises_placed()
        &&& self.accepts_placed()
    }

    /// Each promise is noted at the place of the server that gave it.
    pub open spec fn promises_placed(self) -> bool {
        forall|i: int|
            0 <= i < self.leader.promises.len() ==> ((#[trigger] self.leader.promises[i]) matches
                PromiseState::Promised(meta) ==> meta.pid == i + 1)
    }

    /// The accepts of this round that may be amended are among the outgoing
    /// messages.
    pub open spec fn accepts_placed(self) -> bool {
        forall|i: int|
            0 <= i < self.leader.latest_accept.len() ==> ((
            #[trigger] self.leader.latest_accept[i]) matches Some((n, place)) ==> n
                == self.leader.n_leader ==> place < self.outgoing.len())
    }

    /// The index of the fragment that a server holds of every entry.
    pub open spec fn fragment_idx(self, pid: NodeId) -> nat {
        ec_service::fragment_index(pid as nat, 0, self.peers.len() + 1)
    }

    /// The code has the fragment of a server.
    pub open spec fn has_fragment(self, pid: NodeId) -> bool {
        self.fragment_idx(pid) < self.k + self.m
    }

    /// The entry with all its fragments. The data of its own fragment is what is
    /// encoded.
    pub open spec fn coded(self, entry: EntryView) -> CodedView {
        coded_entry(self.k, self.m, entry)
    }

    /// The entry with all its fragments. Its own fragment as a whole is what is
    /// encoded.
    pub open spec fn coded_whole(self, entry: EntryView) -> CodedView {
        CodedView {
            key: entry.key,
            op: entry.operation,
            fragments: ec_service::fragments_of(self.k, self.m, wire::fragment_bytes(entry.value)),
        }
    }

    /// The stopsign as an entry with all its fragments.
    pub open spec fn coded_stopsign(self, ss: StopSignView) -> CodedView {
        CodedView {
            key: "stopsign"@,
            op: OperationType::NULL,
            fragments: ec_service::fragments_of(self.k, self.m, wire::stopsign_bytes(ss)),
        }
    }

    /// Each entry with all its fragments.
    pub open spec fn coded_all(self, entries: Seq<EntryView>) -> Seq<CodedView> {
        coded_entries(self.k, self.m, entries)
    }

    /// The entry as a server holds it: with the fragment of that server.
    pub open spec fn share(self, coded: CodedView, pid: NodeId) -> EntryView {
        share_of(coded, self.fragment_idx(pid) as int)
    }

    /// The entries as a server holds them.
    pub open spec fn shares(self, coded: Seq<CodedView>, pid: NodeId) -> Seq<EntryView> {
        shares_of(coded, self.fragment_idx(pid) as int)
    }

    /// Each entry has all fragments of the code.
    pub open spec fn all_whole(self, coded: Seq<CodedView>) -> bool {
        forall|i: int|
            0 <= i < coded.len() ==> (#[trigger] coded[i]).fragments.len() == self.k + self.m
    }

    /// Each entry has the fragment of a server.
    pub open spec fn has_shares(self, coded: Seq<CodedView>, pid: NodeId) -> bool {
        forall|i: int|
            0 <= i < coded.len() ==> self.fragment_idx(pid) < (
            #[trigger] coded[i]).fragments.len()
    }

    /// The fragments of the data of each entry all have the size of a shard.
    pub open spec fn all_sized(self, entries: Seq<EntryView>) -> bool {
        forall|i: int|
            0 <= i < entries.len() ==> ec_service::sized(
                self.k,
                self.m,
                (#[trigger] entries[i]).value.data,
            )
    }

    /// The data of each entry can be encoded.
    pub open spec fn encodable(self, entries: Seq<EntryView>) -> bool {
        forall|i: int|
            0 <= i < entries.len() ==> framing::fits(
                self.k,
                (#[trigger] entries[i]).value.data.len(),
            )
    }

    /// A message from this server.
    pub open spec fn message(self, to: NodeId, msg: MsgView<T>) -> MessageView<T> {
        MessageView { from: self.pid, to, msg }
    }

    /// A message goes out.
    pub open spec fn send(self, to: NodeId, msg: MsgView<T>) -> Self {
        PaxosView { outgoing: self.outgoing.push(self.message(to, msg)), ..self }
    }

    /// The prepare of this server's round.
    pub open spec fn prepare(self) -> MsgView<T> {
        MsgView::Prepare(
            Prepare {
                n: self.leader.n_leader,
                decided_idx: self.storage.decided_idx(),
                n_accepted: self.storage.accepted_round(),
                accepted_idx: self.storage.accepted_idx(),
            },
        )
    }

    /// A prepare goes to each of these servers.
    pub open spec fn send_prepares(self, pids: Seq<NodeId>) -> Self {
        PaxosView {
            outgoing: self.outgoing + pids.map_values(
                |pid: NodeId| self.message(pid, self.prepare()),
            ),
            ..self
        }
    }

    /// The next accepts to these servers have a number.
    pub open spec fn numbers_left(self, pids: Seq<NodeId>, count: nat) -> bool {
        forall|i: int|
            0 <= i < pids.len() ==> self.leader.seq_num_of(#[trigger] pids[i]).counter + count
                <= u64::MAX
    }

    /// The accept of entries to one server: its own fragments, the next number and
    /// the decided index.
    pub open spec fn accept(self, to: NodeId, coded: Seq<CodedView>) -> MsgView<T> {
        MsgView::AcceptDecide(
            AcceptDecideView {
                n: self.leader.n_leader,
                seq_num: leader_state::next_number(self.leader.seq_num_of(to)),
                decided_idx: self.storage.decided_idx(),
                entries: self.shares(coded, to),
            },
        )
    }

    /// The accepts of entries go to these servers.
    pub open spec fn send_accepts(self, pids: Seq<NodeId>, coded: Seq<CodedView>) -> Self {
        PaxosView {
            leader: self.leader.bump_each(pids),
            outgoing: self.outgoing + pids.map_values(
                |pid: NodeId| self.message(pid, self.accept(pid, coded)),
            ),
            ..self
        }
    }

    /// The accepts of entries go to the peers, if there are entries.
    pub open spec fn send_batch(self, coded: Seq<CodedView>) -> Self {
        if coded.len() == 0 {
            self
        } else {
            self.send_accepts(self.peers, coded)
        }
    }

    /// The storage is now this one.
    pub open spec fn with_storage(self, storage: InternalView<T>) -> Self {
        PaxosView { storage, ..self }
    }

    /// The leader's state is now this one.
    pub open spec fn with_leader(self, leader: LeaderView<T>) -> Self {
        PaxosView { leader, ..self }
    }

    /// The log up to its end is accepted by this server.
    pub open spec fn own_log_accepted(self) -> Self {
        self.with_leader(self.leader.set_accepted_idx(self.pid, self.storage.accepted_idx()))
    }

    /// With this server's fragments of these entries the batch is full.
    pub open spec fn fills_batch(self, coded: Seq<CodedView>) -> bool {
        self.storage.batch(self.shares(coded, self.pid)).full()
    }

    /// Entries go into the batch. If it is full it is written to the log, and
    /// these entries go out to the peers.
    pub open spec fn accept_coded(self, coded: Seq<CodedView>) -> Self {
        let stored = self.with_storage(
            self.storage.append_with_batching(self.shares(coded, self.pid)),
        );
        if self.fills_batch(coded) {
            stored.own_log_accepted().send_batch(coded)
        } else {
            stored
        }
    }

    /// This many entries have room in the log, and their accepts have a number.
    pub open spec fn can_accept(self, count: nat) -> bool {
        self.storage.room(count) && self.numbers_left(self.peers, 1)
    }

    /// The batch is written to the log and goes out to the peers.
    pub open spec fn flush_batch(self) -> Self {
        let flushed = self.with_storage(self.storage.flush());
        if self.storage.batched.len() == 0 {
            flushed
        } else {
            flushed.own_log_accepted().send_batch(self.coded_all(self.storage.batched))
        }
    }

    /// The accept of a stopsign.
    pub open spec fn accept_stopsign(self, to: NodeId, ss: StopSignView, resend: bool) -> MsgView<
        T,
    > {
        MsgView::AcceptStopSign {
            seq_num: self.number(to, resend),
            n: self.leader.n_leader,
            ss,
        }
    }

    /// The number of an accept: the last one again, or the next.
    pub open spec fn number(self, to: NodeId, resend: bool) -> crate::messages::SequenceNumber {
        if resend {
            self.leader.seq_num_of(to)
        } else {
            leader_state::next_number(self.leader.seq_num_of(to))
        }
    }

    /// The accepts of a stopsign go to these servers.
    pub open spec fn send_stopsigns(
        self,
        pids: Seq<NodeId>,
        ss: StopSignView,
        resend: bool,
    ) -> Self {
        PaxosView {
            leader: if resend {
                self.leader
            } else {
                self.leader.bump_each(pids)
            },
            outgoing: self.outgoing + pids.map_values(
                |pid: NodeId| self.message(pid, self.accept_stopsign(pid, ss, resend)),
            ),
            ..self
        }
    }

    /// The batch and the stopsign are written to the log. If there was a batch, the
    /// stopsign goes out to the peers as an entry; then the stopsign itself goes
    /// out to the followers that have promised.
    pub open spec fn lead_stopsign(self, ss: StopSignView) -> Self {
        let stored = self.with_storage(self.storage.append_stopsign(ss));
        let announced = if self.storage.batched.len() == 0 {
            stored
        } else {
            stored.send_accepts(self.peers, seq![self.coded_stopsign(ss)])
        };
        announced.own_log_accepted().send_stopsigns(
            self.leader.promised_followers(),
            ss,
            false,
        )
    }

    /// The stopsign has room in the log and, where there is a batch, can be
    /// encoded, and its accepts have a number.
    pub open spec fn can_lead_stopsign(self, ss: StopSignView) -> bool {
        &&& self.storage.room(0)
        &&& self.storage.batched.len() > 0 ==> wire::stopsign_fits(ss) && framing::fits(
            self.k,
            wire::stopsign_bytes(ss).len(),
        ) && self.numbers_left(self.peers, 1)
        &&& self.numbers_left(
            self.leader.promised_followers(),
            if self.storage.batched.len() > 0 {
                2
            } else {
                1
            },
        )
    }

    /// The decide of an index.
    pub open spec fn decide(self, to: NodeId, decided_idx: usize, resend: bool) -> MsgView<T> {
        MsgView::Decide(
            Decide { n: self.leader.n_leader, seq_num: self.number(to, resend), decided_idx },
        )
    }

    /// The decide of an index goes to a server.
    pub open spec fn send_decide(self, to: NodeId, decided_idx: usize, resend: bool) -> Self {
        let sent = self.send(to, self.decide(to, decided_idx, resend));
        if resend {
            sent
        } else {
            sent.with_leader(self.leader.bump_seq_num(to))
        }
    }

    /// The decides of an index go to these servers again.
    pub open spec fn resend_decides(self, pids: Seq<NodeId>, decided_idx: usize) -> Self {
        PaxosView {
            outgoing: self.outgoing + pids.map_values(
                |pid: NodeId| self.message(pid, self.decide(pid, decided_idx, true)),
            ),
            ..self
        }
    }

    /// The place among the outgoing messages of the latest accept of this round to
    /// a server, if it may be amended.
    pub open spec fn latest_accept_place(self, to: NodeId) -> Option<int> {
        match self.leader.latest_accept[to - 1] {
            Some((n, place)) => if n == self.leader.n_leader
                && self.outgoing[place as int].msg is AcceptDecide {
                Some(place as int)
            } else {
                None
            },
            None => None,
        }
    }

    /// The accept at a place among the outgoing messages is now this one.
    pub open spec fn amend(self, place: int, accept: AcceptDecideView<T>) -> Self {
        PaxosView {
            outgoing: self.outgoing.update(
                place,
                MessageView { msg: MsgView::AcceptDecide(accept), ..self.outgoing[place] },
            ),
            ..self
        }
    }

    /// A server is told the decided index: in the latest accept to it if that may
    /// be amended, in a decide otherwise.
    pub open spec fn notify(self, to: NodeId, decided_idx: usize) -> Self {
        match self.latest_accept_place(to) {
            Some(place) => self.amend(
                place,
                AcceptDecideView { decided_idx, ..self.outgoing[place].msg->AcceptDecide_0 },
            ),
            None => self.send_decide(to, decided_idx, false),
        }
    }

    /// The servers are told the decided index, one after the other.
    pub open spec fn notify_all(self, pids: Seq<NodeId>, decided_idx: usize) -> Self
        decreases pids.len(),
    {
        if pids.len() == 0 {
            self
        } else {
            self.notify_all(pids.drop_last(), decided_idx).notify(pids.last(), decided_idx)
        }
    }

    /// An accepted of a follower moves the decided index.
    pub open spec fn decides(self, accepted: Accepted, from: NodeId) -> bool {
        &&& accepted.n == self.leader.n_leader
        &&& self.role == RoleEC::Leader && self.phase == PhaseEC::Accept
        &&& accepted.accepted_idx > self.storage.decided_idx()
        &&& self.leader.set_accepted_idx(from, accepted.accepted_idx).chosen(accepted.accepted_idx)
    }

    /// A follower has accepted the log up to an index. If that decides the index,
    /// it is written to the storage and the followers are told.
    pub open spec fn handle_accepted(self, accepted: Accepted, from: NodeId) -> Self {
        let idx = accepted.accepted_idx;
        if accepted.n == self.leader.n_leader && self.role == RoleEC::Leader && self.phase
            == PhaseEC::Accept {
            let noted = self.with_leader(self.leader.set_accepted_idx(from, idx));
            if self.decides(accepted, from) {
                noted.with_storage(self.storage.set_decided_idx(idx)).notify_all(
                    self.leader.promised_followers(),
                    idx,
                )
            } else {
                noted
            }
        } else {
            self
        }
    }

    /// The promise of a server.
    pub open spec fn promise_meta(self, pid: NodeId) -> PromiseMetaData {
        self.leader.promise_of(pid)->Promised_0
    }

    /// How far the log of a server that has promised is known to be the log of
    /// this round: as far as it was accepted if that was in this round, as far as
    /// the most recent promise goes too if it was in the round of that promise,
    /// and as far as it is decided otherwise.
    pub open spec fn valid_idx(self, to: NodeId) -> usize {
        let meta = self.promise_meta(to);
        if meta.n_accepted == self.leader.n_leader {
            meta.accepted_idx
        } else if meta.n_accepted == self.leader.max_promise_meta.n_accepted {
            min_idx(self.leader.max_promise_meta.accepted_idx, meta.accepted_idx)
        } else {
            meta.decided_idx
        }
    }

    /// A log that ends at `common_prefix_idx` is brought forward with a snapshot.
    pub open spec fn syncs_by_snapshot(self, common_prefix_idx: usize) -> bool {
        T::Snapshot::enabled() && self.storage.decided_idx() > common_prefix_idx
    }

    /// What another server needs to bring its log to the state of ours: the log
    /// from `common_prefix_idx` on, the decided part of it as a snapshot where
    /// snapshots are used.
    pub open spec fn create_log_sync(
        self,
        common_prefix_idx: usize,
        other_decided_idx: usize,
    ) -> LogSyncView<T> {
        let model = self.storage.model;
        if self.syncs_by_snapshot(common_prefix_idx) {
            LogSyncView {
                decided_snapshot: self.storage.diff_snapshot(other_decided_idx as nat),
                suffix: model.suffix(model.decided_idx),
                sync_idx: self.storage.decided_log_idx() as usize,
                stopsign: model.stopsign,
            }
        } else {
            LogSyncView {
                decided_snapshot: None,
                suffix: model.suffix(common_prefix_idx as nat),
                sync_idx: common_prefix_idx,
                stopsign: model.stopsign,
            }
        }
    }

    /// What is needed of our log is not compacted.
    pub open spec fn can_create_log_sync(self, common_prefix_idx: usize) -> bool {
        if self.syncs_by_snapshot(common_prefix_idx) {
            self.storage.decided_log_idx() >= self.storage.model.compacted_idx
        } else {
            common_prefix_idx >= self.storage.model.compacted_idx
        }
    }

    /// The log sync with the fragments of a server in its suffix.
    pub open spec fn log_sync_for(self, to: NodeId) -> LogSyncView<T> {
        let sync = self.create_log_sync(self.valid_idx(to), self.promise_meta(to).decided_idx);
        LogSyncView { suffix: self.shares(self.coded_all(sync.suffix), to), ..sync }
    }

    /// The log sync of a server that has promised, with the first number of the
    /// next session.
    pub open spec fn accsync(self, to: NodeId) -> MsgView<T> {
        MsgView::AcceptSync {
            n: self.leader.n_leader,
            seq_num: leader_state::first_number(self.leader.seq_num_of(to)),
            decided_idx: self.storage.decided_idx(),
            log_sync: self.log_sync_for(to),
        }
    }

    /// The log syncs of these servers go out.
    pub open spec fn send_accsyncs(self, pids: Seq<NodeId>) -> Self {
        PaxosView {
            leader: self.leader.renew_each(pids),
            outgoing: self.outgoing + pids.map_values(
                |pid: NodeId| self.message(pid, self.accsync(pid)),
            ),
            ..self
        }
    }

    /// A server has promised, a log sync for it can be made of what is not
    /// compacted, and there is another session.
    pub open spec fn can_accsync(self, to: NodeId) -> bool {
        let sync = self.create_log_sync(self.valid_idx(to), self.promise_meta(to).decided_idx);
        &&& self.leader.has(to)
        &&& self.leader.promise_of(to) is Promised
        &&& self.leader.seq_num_of(to).session < u64::MAX
        &&& self.can_create_log_sync(self.valid_idx(to))
        &&& self.encodable(sync.suffix)
        &&& sync.suffix.len() > 0 ==> self.has_fragment(to)
    }

    /// The storage after the log of the most recent promise is adopted.
    pub open spec fn adopted(self, keeps: bool) -> InternalView<T> {
        self.storage.sync_log(
            keeps,
            self.leader.n_leader,
            leader_state::max_decided(self.leader.promises),
            self.leader.max_promise_sync,
        )
    }

    /// The log of the most recent promise is adopted, and what was buffered is
    /// written to it, unless it ends with a stopsign. The server is in its accept
    /// phase.
    pub open spec fn start_accepting(self, keeps: bool) -> Self {
        let adopted = self.adopted(keeps);
        let stopped = adopted.model.stopsign is Some;
        let storage = if stopped {
            adopted
        } else {
            let extended = adopted.append(self.buffered_proposals);
            match self.buffered_stopsign {
                Some(ss) => extended.append_stopsign(ss),
                None => extended,
            }
        };
        PaxosView {
            role: RoleEC::Leader,
            phase: PhaseEC::Accept,
            leader: LeaderView { max_promise_sync: None, ..self.leader },
            storage,
            buffered_proposals: if stopped {
                self.buffered_proposals
            } else {
                Seq::empty()
            },
            buffered_stopsign: if stopped {
                self.buffered_stopsign
            } else {
                None
            },
            ..self
        }.own_log_accepted()
    }

    /// Enough servers have promised: the log of the most recent promise is
    /// adopted, and the followers that have promised are synchronised with it.
    pub open spec fn handle_majority(self, keeps: bool) -> Self {
        self.start_accepting(keeps).send_accsyncs(self.leader.promised_followers())
    }

    /// The log of the most recent promise can be adopted, what is buffered has
    /// room, and the followers can be synchronised.
    pub open spec fn can_start_accepting(self, keeps: bool) -> bool {
        &&& self.leader.max_promise_sync matches Some(sync) ==> self.storage.can_sync(sync)
        &&& self.adopted(keeps).room(self.buffered_proposals.len())
        &&& forall|i: int|
            0 <= i < self.leader.promised_followers().len() ==> self.start_accepting(
                keeps,
            ).can_accsync(#[trigger] self.leader.promised_followers()[i])
    }

    /// A promise came in the prepare phase.
    pub open spec fn handle_promise_prepare(
        self,
        keeps: bool,
        prom: PromiseView<T>,
        from: NodeId,
    ) -> Self {
        let noted = self.with_leader(self.leader.set_promise(prom, from, true));
        if prom.n != self.leader.n_leader {
            self
        } else if noted.leader.prepared() {
            noted.handle_majority(keeps)
        } else {
            noted
        }
    }

    /// A promise came in the accept phase.
    pub open spec fn handle_promise_accept(self, prom: PromiseView<T>, from: NodeId) -> Self {
        if prom.n == self.leader.n_leader {
            self.with_leader(self.leader.set_promise(prom, from, false)).send_accsyncs(seq![from])
        } else {
            self
        }
    }

    /// The ballot is higher than all that this server has led or promised.
    pub open spec fn is_new(self, n: Ballot) -> bool {
        self.leader.n_leader.below(n) && self.storage.promise().below(n)
    }

    /// A leader was elected. If it is this server, it promises the round to
    /// itself, forgets what it knew of its followers and asks them for their
    /// promises.
    pub open spec fn handle_leader(self, n: Ballot) -> Self {
        if !self.is_new(n) {
            self
        } else if self.pid == n.pid {
            let storage = self.storage.flush().set_promise(n);
            let own = PromiseView {
                n,
                n_accepted: storage.accepted_round(),
                decided_idx: storage.decided_idx(),
                accepted_idx: storage.accepted_idx(),
                log_sync: None,
            };
            PaxosView {
                role: RoleEC::Leader,
                phase: PhaseEC::Prepare,
                leader: LeaderView::fresh(
                    n,
                    self.leader.max_pid,
                    self.leader.quorum,
                ).set_promise(own, self.pid, true),
                storage,
                ..self
            }.send_prepares(self.peers)
        } else {
            self.become_follower()
        }
    }

    /// The server follows.
    pub open spec fn become_follower(self) -> Self {
        PaxosView { role: RoleEC::Follower, ..self }
    }

    /// A follower asks to be prepared.
    pub open spec fn handle_preparereq(self, n: Ballot, from: NodeId) -> Self {
        if self.role == RoleEC::Leader && !self.leader.n_leader.below(n) {
            self.with_leader(
                self.leader.set_promise_state(from, PromiseState::NotPromised).set_latest_accept(
                    from,
                    None,
                ),
            ).send_prepares(seq![from])
        } else {
            self
        }
    }

    /// A follower refuses.
    pub open spec fn handle_notaccepted(self, n: Ballot, from: NodeId) -> Self {
        if self.role == RoleEC::Leader && self.leader.n_leader.below(n) {
            self.with_leader(self.leader.set_promise_state(from, PromiseState::PromisedHigher))
        } else {
            self
        }
    }

    /// The log ends with a stopsign.
    pub open spec fn stopped(self) -> bool {
        self.storage.model.stopsign is Some
    }

    /// Proposals go to the leader that this server has promised, or wait.
    pub open spec fn forward_proposals(self, entries: Seq<EntryView>) -> Self {
        let leader = self.storage.promise().pid;
        if leader > 0 && leader != self.pid {
            self.send(leader, MsgView::ProposalForward(entries))
        } else {
            PaxosView { buffered_proposals: self.buffered_proposals + entries, ..self }
        }
    }

    /// A stopsign goes to the leader that this server has promised, or waits if
    /// none is waiting.
    pub open spec fn forward_stopsign(self, ss: StopSignView) -> Self {
        let leader = self.storage.promise().pid;
        if leader > 0 && leader != self.pid {
            self.send(leader, MsgView::ForwardStopSign(ss))
        } else if self.buffered_stopsign is None {
            PaxosView { buffered_stopsign: Some(ss), ..self }
        } else {
            self
        }
    }

    /// Proposals of another server came in.
    pub open spec fn handle_forwarded_proposal(self, entries: Seq<EntryView>) -> Self {
        if self.stopped() {
            self
        } else if self.role == RoleEC::Leader && self.phase == PhaseEC::Prepare {
            PaxosView { buffered_proposals: self.buffered_proposals + entries, ..self }
        } else if self.role == RoleEC::Leader && self.phase == PhaseEC::Accept {
            self.accept_coded(self.coded_all(entries))
        } else {
            self.forward_proposals(entries)
        }
    }

    /// A stopsign of another server came in.
    pub open spec fn handle_forwarded_stopsign(self, ss: StopSignView) -> Self {
        if self.stopped() {
            self
        } else if self.role == RoleEC::Leader && self.phase == PhaseEC::Prepare {
            PaxosView { buffered_stopsign: Some(ss), ..self }
        } else if self.role == RoleEC::Leader && self.phase == PhaseEC::Accept {
            self.lead_stopsign(ss)
        } else {
            self.forward_stopsign(ss)
        }
    }

    /// The followers that have promised and have not accepted the whole log.
    pub open spec fn behind(self) -> Seq<NodeId> {
        self.leader.promised_followers().filter(
            |pid: NodeId| self.leader.accepted_of(pid) != self.storage.accepted_idx(),
        )
    }

    /// The stopsign goes out again: its decide to the followers that have
    /// promised once it is decided, before that the stopsign itself to those that
    /// are behind.
    pub open spec fn resend_stopsign(self) -> Self {
        match self.storage.model.stopsign {
            None => self,
            Some(ss) => if self.storage.stopsign_is_decided() {
                self.resend_decides(
                    self.leader.promised_followers(),
                    self.storage.decided_idx(),
                )
            } else {
                self.send_stopsigns(self.behind(), ss, true)
            },
        }
    }

    /// What may be lost goes out again: the prepares to the peers that have
    /// promised to nobody and, in the accept phase, the stopsign before that.
    pub open spec fn resend_messages(self) -> Self {
        match self.phase {
            PhaseEC::Prepare => self.send_prepares(self.leader.preparable(self.peers)),
            PhaseEC::Accept => self.resend_stopsign().send_prepares(
                self.leader.preparable(self.peers),
            ),
            PhaseEC::Recover => self,
            PhaseEC::Idle => self,
        }
    }
}

} // verus!
