//! The erasure-coded variant of Sequence Paxos, as the leader runs it.
use crate::erasure::ec_service::ECService;
use crate::erasure::log_entry::ECEntry;
use crate::internal_storage::InternalStorage;
use crate::leader_state::LeaderState;
use crate::messages::{LogSync, Message, PaxosMessage, PaxosMsg, SnapshotType};
use crate::storage::{Snapshot, StopSign, Storage, StorageResult};
use crate::util::{Ballot, NodeId, Quorum};
use crate::util;
use model::PaxosView;
use vstd::prelude::*;

pub mod accept_laws;
pub mod decide_laws;
pub mod election_laws;
pub mod failure_laws;
pub mod forward_laws;
pub mod laws;
pub mod leader;
pub mod model;
pub mod sync_laws;

pub use model::{PhaseEC, RoleEC};

verus! {

/// A server of the erasure-coded variant of Sequence Paxos.
pub struct SequencePaxosEC<T, B> where T: ECEntry, B: Storage<T> {
    /// The storage, with its cache and its batch.
    pub internal_storage: InternalStorage<B, T>,
    /// The id of this server.
    pub pid: NodeId,
    /// The ids of the other servers.
    pub peers: Vec<NodeId>,
    /// The role and the phase.
    pub state: (RoleEC, PhaseEC),
    /// The proposals that wait for a leader.
    pub buffered_proposals: Vec<T>,
    /// The stopsign that waits for a leader.
    pub buffered_stopsign: Option<StopSign>,
    /// The messages that wait to be sent.
    pub outgoing: Vec<Message<T>>,
    /// What this server knows of its followers.
    pub leader_state: LeaderState<T>,
    /// The code of the entries.
    pub ec_service: ECService,
}

impl<T, B> View for SequencePaxosEC<T, B> where T: ECEntry, B: Storage<T> {
    type V = PaxosView<T>;

    open spec fn view(&self) -> PaxosView<T> {
        PaxosView {
            pid: self.pid,
            peers: self.peers@,
            role: self.state.0,
            phase: self.state.1,
            leader: self.leader_state@,
            storage: self.internal_storage@,
            outgoing: util::views(self.outgoing@),
            buffered_proposals: util::views(self.buffered_proposals@),
            buffered_stopsign: util::view_option(self.buffered_stopsign),
            k: self.ec_service.k(),
            m: self.ec_service.m(),
        }
    }
}

impl<T, B> SequencePaxosEC<T, B> where T: ECEntry, B: Storage<T> {
    /// The storage reads back what was written, and what the server holds is in
    /// order.
    pub open spec fn wf(&self) -> bool {
        self@.wf() && self.internal_storage.wf()
    }

    /// No operation on the storage fails.
    pub open spec fn reliable(&self) -> bool {
        self.internal_storage.reliable()
    }

    /// A server that follows nobody yet and knows nothing of its peers.
    pub fn with(
        pid: NodeId,
        peers: Vec<NodeId>,
        max_pid: usize,
        quorum: Quorum,
        ec_service: ECService,
        internal_storage: InternalStorage<B, T>,
    ) -> (server: Self)
        requires
            internal_storage.wf(),
            ec_service.wf(),
            1 <= pid <= max_pid,
            peers@.len() < ec_service.k() + ec_service.m(),
            peers@.no_duplicates(),
            forall|i: int| 0 <= i < peers@.len() ==> 1 <= #[trigger] peers@[i] <= max_pid,
        ensures
            server.wf(),
            server.internal_storage == internal_storage,
            server@ == (PaxosView::<T> {
                pid,
                peers: peers@,
                role: RoleEC::Follower,
                phase: PhaseEC::Idle,
                leader: crate::leader_state::LeaderView::fresh(Ballot::bottom(), max_pid, quorum),
                storage: internal_storage@,
                outgoing: Seq::empty(),
                buffered_proposals: Seq::empty(),
                buffered_stopsign: None,
                k: ec_service.k(),
                m: ec_service.m(),
            }),
    {
        let server: SequencePaxosEC<T, B> = SequencePaxosEC {
            internal_storage,
            pid,
            peers,
            state: (RoleEC::Follower, PhaseEC::Idle),
            buffered_proposals: Vec::new(),
            buffered_stopsign: None,
            outgoing: Vec::new(),
            leader_state: LeaderState::with(Ballot::default(), max_pid, quorum),
            ec_service,
        };
        proof {
            assert(server@.outgoing =~= Seq::empty());
            assert(server@.buffered_proposals =~= Seq::empty());
            assert forall|id: NodeId| #[trigger] server@.has_fragment(id) by {
                vstd::arithmetic::div_mod::lemma_mod_bound(id as int, (peers@.len() + 1) as int);
            }
            assert(server@.has_fragment(pid));
        }
        server
    }

    /// Puts a message among the outgoing ones.
    fn push_message(&mut self, to: NodeId, msg: PaxosMsg<T>)
        ensures
            final(self)@ == old(self)@.send(to, msg@),
            final(self).internal_storage == old(self).internal_storage,
    {
        let ghost before = self.outgoing@;
        let message: Message<T> = Message::SequencePaxos(
            PaxosMessage { from: self.pid, to, msg },
        );
        self.outgoing.push(message);
        assert(util::views(self.outgoing@) =~= util::views(before).push(message@));
    }

    /// Whether the log ends with a stopsign.
    pub fn accepted_reconfiguration(&self) -> (stopped: bool)
        requires
            self.internal_storage.wf(),
        ensures
            stopped == self@.stopped(),
    {
        self.internal_storage.get_stopsign().is_some()
    }

    /// The leader that this server has promised.
    pub fn get_current_leader(&self) -> (pid: NodeId)
        requires
            self.internal_storage.wf(),
        ensures
            pid == self@.storage.promise().pid,
    {
        self.internal_storage.get_promise().pid
    }

    /// The decided index.
    pub fn get_decided_idx(&self) -> (idx: usize)
        requires
            self.internal_storage.wf(),
        ensures
            idx == self@.storage.decided_idx(),
    {
        self.internal_storage.get_decided_idx()
    }

    /// Sends proposals to the leader, or keeps them until there is one.
    pub fn forward_proposals(&mut self, entries: Vec<T>)
        requires
            old(self).wf(),
        ensures
            final(self).wf(),
            final(self).internal_storage == old(self).internal_storage,
            final(self)@ == old(self)@.forward_proposals(util::views(entries@)),
    {
        let ghost before = self@;
        let current_leader: NodeId = self.get_current_leader();
        if current_leader > 0 && current_leader != self.pid {
            self.push_message(current_leader, PaxosMsg::ProposalForward(entries));
        } else {
            self.buffer_proposals(entries);
        }
        assert(self@ =~= before.forward_proposals(util::views(entries@)));
    }

    /// Keeps proposals until there is a leader.
    fn buffer_proposals(&mut self, entries: Vec<T>)
        ensures
            final(self).internal_storage == old(self).internal_storage,
            final(self)@ == (PaxosView {
                buffered_proposals: old(self)@.buffered_proposals + util::views(entries@),
                ..old(self)@
            }),
    {
        let ghost before = self.buffered_proposals@;
        let mut more: Vec<T> = entries;
        self.buffered_proposals.append(&mut more);
        assert(util::views(self.buffered_proposals@) =~= util::views(before) + util::views(
            entries@,
        ));
    }

    /// Sends a stopsign to the leader, or keeps it until there is one.
    pub fn forward_stopsign(&mut self, ss: StopSign)
        requires
            old(self).wf(),
        ensures
            final(self).wf(),
            final(self).internal_storage == old(self).internal_storage,
            final(self)@ == old(self)@.forward_stopsign(ss@),
    {
        let current_leader: NodeId = self.get_current_leader();
        if current_leader > 0 && current_leader != self.pid {
            self.push_message(current_leader, PaxosMsg::ForwardStopSign(ss));
        } else if self.buffered_stopsign.is_none() {
            self.buffered_stopsign = Some(ss);
        }
    }

    /// Makes what another server needs to bring its log to the state of ours.
    pub fn create_log_sync(&self, common_prefix_idx: usize, other_decided_idx: usize) -> (result:
        StorageResult<LogSync<T>>)
        requires
            self.internal_storage.wf(),
            self@.can_create_log_sync(common_prefix_idx),
        ensures
            match result {
                Ok(sync) => sync@ == self@.create_log_sync(common_prefix_idx, other_decided_idx),
                Err(_) => !self.reliable(),
            },
    {
        let decided_idx: usize = self.get_decided_idx();
        let (decided_snapshot, suffix_idx, sync_idx): (Option<SnapshotType<T>>, usize, usize) =
            if T::Snapshot::use_snapshots() && decided_idx > common_prefix_idx {
            match self.internal_storage.create_diff_snapshot(other_decided_idx) {
                Ok((snapshot, idx)) => (snapshot, decided_idx, idx),
                Err(e) => return Err(e),
            }
        } else {
            (None, common_prefix_idx, common_prefix_idx)
        };
        match self.internal_storage.get_suffix(suffix_idx) {
            Ok(suffix) => Ok(
                LogSync {
                    decided_snapshot,
                    suffix,
                    sync_idx,
                    stopsign: self.internal_storage.get_stopsign(),
                },
            ),
            Err(e) => Err(e),
        }
    }
}

} // verus!
