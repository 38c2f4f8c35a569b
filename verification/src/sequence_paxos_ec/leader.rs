//! What a server does as the leader.
use crate::erasure::ec_service;
use crate::erasure::ec_service::{ECService, EntryFragment};
use crate::erasure::framing;
use crate::erasure::log_entry::{ECEntry, OperationType};
use crate::internal_storage::AcceptedMetaData;
use crate::leader_state;
use crate::leader_state::{LeaderState, PromiseMetaData};
use crate::messages::{
    AcceptDecide, AcceptStopSign, AcceptSync, Accepted, Decide, LogSync, Message, NotAccepted,
    PaxosMessage, PaxosMsg, Prepare, PrepareReq, Promise, SequenceNumber,
};
use crate::sequence_paxos_ec::model::Coded;
use crate::sequence_paxos_ec::model;
use crate::sequence_paxos_ec::{PhaseEC, RoleEC, SequencePaxosEC};
use crate::storage::{StopSign, Storage, StorageResult};
use crate::util::{Ballot, NodeId};
use crate::util;
use crate::wire;
use vstd::prelude::*;

verus! {

impl<T, B> SequencePaxosEC<T, B> where T: ECEntry, B: Storage<T> {
    /// Follows from now on.
    pub fn become_follower(&mut self)
        requires
            old(self).wf(),
        ensures
            final(self).wf(),
            final(self).internal_storage == old(self).internal_storage,
            final(self)@ == old(self)@.become_follower(),
    {
        self.state.0 = RoleEC::Follower;
    }

    /// Asks a server for its promise.
    pub fn send_prepare(&mut self, to: NodeId)
        requires
            old(self).wf(),
        ensures
            final(self).wf(),
            final(self).internal_storage == old(self).internal_storage,
            final(self)@ == old(self)@.send(to, old(self)@.prepare()),
            final(self)@ == old(self)@.send_prepares(seq![to]),
    {
        let ghost before = self@;
        let prep: Prepare = Prepare {
            n: self.leader_state.n_leader,
            decided_idx: self.internal_storage.get_decided_idx(),
            n_accepted: self.internal_storage.get_accepted_round(),
            accepted_idx: self.internal_storage.get_accepted_idx(),
        };
        self.push_message(to, PaxosMsg::Prepare(prep));
        assert(self@ =~= before.send_prepares(seq![to]));
    }

    /// Asks servers for their promises.
    fn send_prepares(&mut self, pids: &Vec<NodeId>)
        requires
            old(self).wf(),
        ensures
            final(self).wf(),
            final(self).internal_storage == old(self).internal_storage,
            final(self)@ == old(self)@.send_prepares(pids@),
    {
        let ghost before = self@;
        let mut i: usize = 0;
        assert(self@ =~= before.send_prepares(pids@.take(0)));
        while i < pids.len()
            invariant
                i <= pids@.len(),
                self.wf(),
                self.internal_storage == old(self).internal_storage,
                self@ == before.send_prepares(pids@.take(i as int)),
            decreases pids.len() - i,
        {
            self.send_prepare(pids[i]);
            assert(self@ =~= before.send_prepares(pids@.take(i + 1)));
            i = i + 1;
        }
        assert(pids@.take(i as int) =~= pids@);
    }

    /// Asks a server to accept the stopsign.
    pub fn send_accept_stopsign(&mut self, to: NodeId, ss: StopSign, resend: bool)
        requires
            old(self).wf(),
            old(self)@.leader.has(to),
            !resend ==> old(self)@.numbers_left(seq![to], 1),
        ensures
            final(self).wf(),
            final(self).internal_storage == old(self).internal_storage,
            final(self)@ == old(self)@.send_stopsigns(seq![to], ss@, resend),
    {
        let ghost before = self@;
        assert(seq![to][0] == to);
        let seq_num: SequenceNumber = if resend {
            self.leader_state.get_seq_num(to)
        } else {
            self.leader_state.next_seq_num(to)
        };
        let acc_ss: PaxosMsg<T> = PaxosMsg::AcceptStopSign(
            AcceptStopSign { seq_num, n: self.leader_state.n_leader, ss },
        );
        self.push_message(to, acc_ss);
        proof {
            lemma_bump_one(before.leader, to);
            assert(self@ =~= before.send_stopsigns(seq![to], ss@, resend));
        }
    }

    /// Tells a server the decided index.
    pub fn send_decide(&mut self, to: NodeId, decided_idx: usize, resend: bool)
        requires
            old(self).wf(),
            old(self)@.leader.has(to),
            !resend ==> old(self)@.leader.seq_num_of(to).counter < u64::MAX,
        ensures
            final(self).wf(),
            final(self).internal_storage == old(self).internal_storage,
            final(self)@ == old(self)@.send_decide(to, decided_idx, resend),
    {
        let seq_num: SequenceNumber = if resend {
            self.leader_state.get_seq_num(to)
        } else {
            self.leader_state.next_seq_num(to)
        };
        let d: Decide = Decide { n: self.leader_state.n_leader, seq_num, decided_idx };
        self.push_message(to, PaxosMsg::Decide(d));
    }

    /// The entries with the fragments of a server.
    fn shares_for(&self, all_entries: &Vec<Coded>, pid: NodeId) -> (entries: Vec<T>)
        requires
            self.wf(),
            self@.leader.has(pid),
            self@.has_shares(model::coded_views(all_entries@), pid),
        ensures
            util::views(entries@) == self@.shares(model::coded_views(all_entries@), pid),
    {
        let ghost coded = model::coded_views(all_entries@);
        let total_shards: usize = self.peers.len() + 1;
        let frag_idx: usize = ECService::fragment_index_for_node(pid as usize, 0, total_shards);
        let mut entries: Vec<T> = Vec::with_capacity(all_entries.len());
        let mut i: usize = 0;
        assert(util::views(entries@) =~= self@.shares(coded.take(0), pid));
        while i < all_entries.len()
            invariant
                i <= all_entries@.len(),
                coded == model::coded_views(all_entries@),
                self@.has_shares(coded, pid),
                frag_idx == self@.fragment_idx(pid),
                util::views(entries@) == self@.shares(coded.take(i as int), pid),
            decreases all_entries.len() - i,
        {
            let ghost before = entries@;
            let (key, op, fragments) = &all_entries[i];
            assert(self@.fragment_idx(pid) < coded[i as int].fragments.len());
            assert(coded[i as int].fragments[frag_idx as int] == fragments@[frag_idx as int]@);
            let entry: T = T::from_parts(key.clone(), fragments[frag_idx].clone(), *op);
            entries.push(entry);
            proof {
                assert(entry@ == self@.share(coded[i as int], pid));
                assert(util::views(entries@) =~= util::views(before).push(entry@));
                assert(self@.shares(coded.take(i + 1), pid) =~= self@.shares(
                    coded.take(i as int),
                    pid,
                ).push(entry@));
            }
            i = i + 1;
        }
        assert(coded.take(i as int) =~= coded);
        entries
    }

    /// Sends to each peer its fragments of the entries.
    pub fn send_acceptdecide_batch(&mut self, all_entries: &Vec<Coded>)
        requires
            old(self).wf(),
            forall|i: int|
                0 <= i < old(self)@.peers.len() ==> old(self)@.has_shares(
                    model::coded_views(all_entries@),
                    #[trigger] old(self)@.peers[i],
                ),
            all_entries@.len() > 0 ==> old(self)@.numbers_left(old(self)@.peers, 1),
        ensures
            final(self).wf(),
            final(self).internal_storage == old(self).internal_storage,
            final(self)@ == old(self)@.send_batch(model::coded_views(all_entries@)),
    {
        let ghost before = self@;
        let ghost coded = model::coded_views(all_entries@);
        let ghost peers = self.peers@;
        let decided_idx: usize = self.internal_storage.get_decided_idx();
        let mut i: usize = 0;
        proof {
            assert(before.leader =~= before.leader.bump_each(peers.take(0)));
            assert(self@ =~= before.send_accepts(peers.take(0), coded));
        }
        while i < self.peers.len()
            invariant
                i <= peers.len(),
                before == old(self)@,
                before.wf(),
                peers == before.peers,
                self.wf(),
                self.internal_storage == old(self).internal_storage,
                decided_idx == before.storage.decided_idx(),
                coded == model::coded_views(all_entries@),
                forall|j: int|
                    0 <= j < peers.len() ==> before.has_shares(coded, #[trigger] peers[j]),
                coded.len() > 0 ==> before.numbers_left(peers, 1),
                self@ == if coded.len() == 0 {
                    before
                } else {
                    before.send_accepts(peers.take(i as int), coded)
                },
            decreases peers.len() - i,
        {
            let pid: NodeId = self.peers[i];
            assert(before.leader.has(peers[i as int]));
            assert(before.has_shares(coded, peers[i as int]));
            let entries: Vec<T> = self.shares_for(all_entries, pid);
            assert(util::views(entries@) =~= before.shares(coded, pid));
            if entries.len() != 0 {
                proof {
                    lemma_bump_next(before.leader, peers, i as int);
                    assert(before.leader.seq_num_of(peers[i as int]).counter + 1 <= u64::MAX);
                }
                let acc_dec: AcceptDecide<T> = AcceptDecide {
                    n: self.leader_state.n_leader,
                    seq_num: self.leader_state.next_seq_num(pid),
                    entries,
                    decided_idx,
                };
                self.push_message(pid, PaxosMsg::AcceptDecide(acc_dec));
                assert(self@ =~= before.send_accepts(peers.take(i + 1), coded));
            }
            i = i + 1;
        }
        assert(peers.take(i as int) =~= peers);
    }

    /// Sends to each peer its fragment of an entry.
    pub fn send_acceptdecide(
        &mut self,
        key: String,
        op: OperationType,
        fragments: Vec<EntryFragment>,
    )
        requires
            old(self).wf(),
            forall|i: int|
                0 <= i < old(self)@.peers.len() ==> old(self)@.fragment_idx(
                    #[trigger] old(self)@.peers[i],
                ) < fragments@.len(),
            old(self)@.numbers_left(old(self)@.peers, 1),
        ensures
            final(self).wf(),
            final(self).internal_storage == old(self).internal_storage,
            final(self)@ == old(self)@.send_accepts(
                old(self)@.peers,
                seq![model::coded_view((key, op, fragments))],
            ),
    {
        let ghost coded = seq![model::coded_view((key, op, fragments))];
        let mut all_entries: Vec<Coded> = Vec::with_capacity(1);
        all_entries.push((key, op, fragments));
        assert(model::coded_views(all_entries@) =~= coded);
        self.send_acceptdecide_batch(&all_entries);
    }

    /// The entries with all their fragments.
    fn encode_all(&self, entries: &Vec<T>) -> (all_entries: Vec<Coded>)
        requires
            self.wf(),
            self@.encodable(util::views(entries@)),
        ensures
            model::coded_views(all_entries@) == self@.coded_all(util::views(entries@)),
            self@.all_whole(model::coded_views(all_entries@)),
            self@.all_sized(util::views(entries@)),
    {
        let ghost views = util::views(entries@);
        let mut all_entries: Vec<Coded> = Vec::with_capacity(entries.len());
        let mut i: usize = 0;
        assert(model::coded_views(all_entries@) =~= self@.coded_all(views.take(0)));
        while i < entries.len()
            invariant
                i <= entries@.len(),
                views == util::views(entries@),
                self.wf(),
                self@.encodable(views),
                model::coded_views(all_entries@) == self@.coded_all(views.take(i as int)),
                self@.all_sized(views.take(i as int)),
            decreases entries.len() - i,
        {
            let ghost before = all_entries@;
            let entry: &T = &entries[i];
            assert(views[i as int] == entry@);
            let coded: Coded = self.encode_entry(entry);
            all_entries.push(coded);
            proof {
                assert(model::coded_views(all_entries@) =~= model::coded_views(before).push(
                    model::coded_view(coded),
                ));
                assert(self@.coded_all(views.take(i + 1)) =~= self@.coded_all(
                    views.take(i as int),
                ).push(self@.coded(entry@)));
            }
            i = i + 1;
        }
        assert(views.take(i as int) =~= views);
        all_entries
    }

    /// The entry with all its fragments.
    fn encode_entry(&self, entry: &T) -> (coded: Coded)
        requires
            self.wf(),
            framing::fits(self@.k, entry@.value.data.len()),
        ensures
            model::coded_view(coded) == self@.coded(entry@),
            model::coded_view(coded).fragments.len() == self@.k + self@.m,
            ec_service::sized(self@.k, self@.m, entry@.value.data),
    {
        let fragments: Vec<EntryFragment> = self.encode_value(&entry.value().data);
        (entry.key().to_owned(), *entry.operation(), fragments)
    }

    /// The fragments of a value.
    fn encode_value(&self, value: &Vec<u8>) -> (fragments: Vec<EntryFragment>)
        requires
            self.wf(),
            framing::fits(self@.k, value@.len()),
        ensures
            ec_service::fragment_views(fragments@) == ec_service::fragments_of(
                self@.k,
                self@.m,
                value@,
            ),
            fragments@.len() == self@.k + self@.m,
            ec_service::sized(self@.k, self@.m, value@),
    {
        match self.ec_service.encode(value) {
            Ok(fragments) => {
                assert(ec_service::fragment_views(fragments@).len() == fragments@.len());
                fragments
            },
            Err(_) => vstd::pervasive::unreached(),
        }
    }

    /// Accepts a new entry: keeps the fragment of this server and, once the batch is
    /// full and written, sends to each peer its fragment of this entry.
    pub fn accept_entry_leader(&mut self, entry: T) -> (result: StorageResult<()>)
        requires
            old(self).wf(),
            old(self)@.can_accept(1),
            wire::fragment_fits(entry@.value),
            framing::fits(old(self)@.k, wire::fragment_bytes(entry@.value).len()),
        ensures
            match result {
                Ok(_) => final(self).wf() && final(self).reliable() == old(self).reliable()
                    && final(self)@ == old(self)@.accept_coded(
                    seq![old(self)@.coded_whole(entry@)],
                ),
                Err(_) => !old(self).reliable()
                    && old(self)@.fills_batch(
                    seq![old(self)@.coded_whole(entry@)],
                ) && final(self)@.outgoing == old(self)@.outgoing,
            },
            ec_service::sized(
                old(self)@.k,
                old(self)@.m,
                wire::fragment_bytes(entry@.value),
            ),
    {
        let ghost before = self@;
        let key: String = entry.key().to_owned();
        let op: OperationType = *entry.operation();
        let value_bytes: Vec<u8> = wire::serialize_fragment(entry.value());
        let total_shards: usize = self.peers.len() + 1;
        let fragments: Vec<EntryFragment> = self.encode_value(&value_bytes);
        let ghost coded = before.coded_whole(entry@);
        assert(model::coded_view((key, op, fragments)) == coded);
        let my_idx: usize = ECService::fragment_index_for_node(self.pid as usize, 0, total_shards);
        assert(coded.fragments[my_idx as int] == fragments@[my_idx as int]@);
        let my_entry: T = T::from_parts(key.clone(), fragments[my_idx].clone(), op);
        assert(before.shares(seq![coded], before.pid) =~= seq![my_entry@]);
        let accepted_metadata: Option<AcceptedMetaData<T>> =
            match self.internal_storage.append_entry_with_batching(my_entry) {
            Ok(accepted) => accepted,
            Err(e) => return Err(e),
        };
        if let Some(metadata) = accepted_metadata {
            self.leader_state.set_accepted_idx(self.pid, metadata.accepted_idx);
            self.send_acceptdecide(key, op, fragments);
        }
        Ok(())
    }

    /// Accepts new entries: keeps the fragments of this server and, once the batch
    /// is full and written, sends to each peer its fragments of these entries.
    pub fn accept_entries_leader(&mut self, entries: Vec<T>) -> (result: StorageResult<()>)
        requires
            old(self).wf(),
            old(self)@.can_accept(entries@.len()),
            old(self)@.encodable(util::views(entries@)),
        ensures
            match result {
                Ok(_) => final(self).wf() && final(self).reliable() == old(self).reliable()
                    && final(self)@ == old(self)@.accept_coded(
                    old(self)@.coded_all(util::views(entries@)),
                ),
                Err(_) => !old(self).reliable()
                    && old(self)@.fills_batch(
                    old(self)@.coded_all(util::views(entries@)),
                ) && final(self)@.outgoing == old(self)@.outgoing,
            },
            old(self)@.all_sized(util::views(entries@)),
    {
        let all_entries: Vec<Coded> = self.encode_all(&entries);
        let my_entries: Vec<T> = self.shares_for(&all_entries, self.pid);
        assert(util::views(my_entries@).len() == my_entries@.len());
        let accepted_metadata: Option<AcceptedMetaData<T>> =
            match self.internal_storage.append_entries_with_batching(my_entries) {
            Ok(accepted) => accepted,
            Err(e) => return Err(e),
        };
        if let Some(metadata) = accepted_metadata {
            self.leader_state.set_accepted_idx(self.pid, metadata.accepted_idx);
            self.send_acceptdecide_batch(&all_entries);
        }
        Ok(())
    }

    /// Writes the batch to the log and sends to each peer its fragments of the
    /// entries in it.
    pub fn flush_batch_leader(&mut self) -> (result: StorageResult<()>)
        requires
            old(self).wf(),
            old(self)@.can_accept(0),
            old(self)@.encodable(old(self)@.storage.batched),
        ensures
            match result {
                Ok(_) => final(self).wf() && final(self).reliable() == old(self).reliable()
                    && final(self)@ == old(self)@.flush_batch(),
                Err(_) => !old(self).reliable()
                    && old(self)@.storage.batched.len() > 0
                    && final(self)@.outgoing == old(self)@.outgoing,
            },
    {
        let accepted_metadata: Option<AcceptedMetaData<T>> =
            match self.internal_storage.flush_batch_and_get_entries() {
            Ok(accepted) => accepted,
            Err(e) => return Err(e),
        };
        if let Some(metadata) = accepted_metadata {
            self.leader_state.set_accepted_idx(self.pid, metadata.accepted_idx);
            let all_fragments: Vec<Coded> = self.encode_all(&metadata.entries);
            self.send_acceptdecide_batch(&all_fragments);
        }
        Ok(())
    }

    /// Asks servers to accept the stopsign.
    fn send_accept_stopsigns(&mut self, pids: &Vec<NodeId>, ss: &StopSign, resend: bool)
        requires
            old(self).wf(),
            pids@.no_duplicates(),
            forall|i: int| 0 <= i < pids@.len() ==> old(self)@.leader.has(#[trigger] pids@[i]),
            !resend ==> old(self)@.numbers_left(pids@, 1),
        ensures
            final(self).wf(),
            final(self).internal_storage == old(self).internal_storage,
            final(self)@ == old(self)@.send_stopsigns(pids@, ss@, resend),
    {
        let ghost before = self@;
        let mut i: usize = 0;
        proof {
            assert(before.leader =~= before.leader.bump_each(pids@.take(0)));
            assert(self@ =~= before.send_stopsigns(pids@.take(0), ss@, resend));
        }
        while i < pids.len()
            invariant
                i <= pids@.len(),
                before == old(self)@,
                before.wf(),
                self.wf(),
                self.internal_storage == old(self).internal_storage,
                pids@.no_duplicates(),
                forall|i: int| 0 <= i < pids@.len() ==> before.leader.has(#[trigger] pids@[i]),
                !resend ==> before.numbers_left(pids@, 1),
                self@ == before.send_stopsigns(pids@.take(i as int), ss@, resend),
            decreases pids.len() - i,
        {
            let pid: NodeId = pids[i];
            proof {
                assert(before.leader.has(pids@[i as int]));
                lemma_bump_next(before.leader, pids@, i as int);
                lemma_bump_one(self@.leader, pid);
            }
            self.send_accept_stopsign(pid, ss.clone(), resend);
            assert(self@ =~= before.send_stopsigns(pids@.take(i + 1), ss@, resend));
            i = i + 1;
        }
        assert(pids@.take(i as int) =~= pids@);
    }

    /// Accepts a stopsign and asks the followers to accept it.
    pub fn accept_stopsign_leader(&mut self, ss: StopSign) -> (result: StorageResult<()>)
        requires
            old(self).wf(),
            old(self)@.can_lead_stopsign(ss@),
        ensures
            match result {
                Ok(_) => final(self).wf() && final(self).reliable() == old(self).reliable()
                    && final(self)@ == old(self)@.lead_stopsign(ss@),
                Err(_) => !old(self).reliable() && final(self)@.outgoing == old(self)@.outgoing,
            },
    {
        let ghost before = self@;
        let accepted_metadata: Option<AcceptedMetaData<T>> =
            match self.internal_storage.append_stopsign(ss.clone()) {
            Ok(accepted) => accepted,
            Err(e) => return Err(e),
        };
        if let Some(_metadata) = accepted_metadata {
            let value_bytes: Vec<u8> = wire::serialize_stopsign(&ss);
            let fragments: Vec<EntryFragment> = self.encode_value(&value_bytes);
            let key: String = "stopsign".to_owned();
            assert(model::coded_view((key, OperationType::NULL, fragments))
                == before.coded_stopsign(ss@));
            self.send_acceptdecide(key, OperationType::NULL, fragments);
        }
        let accepted_idx: usize = self.internal_storage.get_accepted_idx();
        self.leader_state.set_accepted_idx(self.pid, accepted_idx);
        let followers: Vec<NodeId> = self.leader_state.get_promised_followers();
        proof {
            leader_state::lemma_promised_followers(self.leader_state@);
            assert(followers@ == before.leader.promised_followers());
        }
        self.send_accept_stopsigns(&followers, &ss, false);
        Ok(())
    }

    /// Brings the log of a server that has promised to the state of ours: sends it
    /// its own fragments of what it lacks.
    pub fn send_accsync(&mut self, to: NodeId) -> (result: StorageResult<()>)
        requires
            old(self).wf(),
            old(self)@.can_accsync(to),
        ensures
            final(self).wf(),
            final(self).internal_storage == old(self).internal_storage,
            match result {
                Ok(_) => final(self)@ == old(self)@.send_accsyncs(seq![to]),
                Err(_) => !old(self).reliable() && final(self)@ == old(self)@,
            },
    {
        let ghost before = self@;
        let current_n: Ballot = self.leader_state.n_leader;
        let max_promise: PromiseMetaData = *self.leader_state.get_max_promise_meta();
        let promise: PromiseMetaData = self.leader_state.get_promise_meta(to);
        proof {
            assert(before.leader.promises[to - 1] == before.leader.promise_of(to));
        }
        let followers_decided_idx: usize = match self.leader_state.get_decided_idx(promise.pid) {
            Some(idx) => idx,
            None => vstd::pervasive::unreached(),
        };
        let followers_valid_entries_idx: usize = if promise.n_accepted == current_n {
            promise.accepted_idx
        } else if promise.n_accepted == max_promise.n_accepted {
            if max_promise.accepted_idx <= promise.accepted_idx {
                max_promise.accepted_idx
            } else {
                promise.accepted_idx
            }
        } else {
            followers_decided_idx
        };
        let log_sync: LogSync<T> = match self.create_log_sync(
            followers_valid_entries_idx,
            followers_decided_idx,
        ) {
            Ok(sync) => sync,
            Err(e) => return Err(e),
        };
        let ghost sync = before.create_log_sync(
            before.valid_idx(to),
            before.promise_meta(to).decided_idx,
        );
        assert(log_sync@ == sync);
        let all_entries: Vec<Coded> = self.encode_all(&log_sync.suffix);
        assert(model::coded_views(all_entries@).len() == sync.suffix.len());
        let suffix: Vec<T> = self.shares_for(&all_entries, to);
        self.leader_state.increment_seq_num_session(to);
        let acc_sync: AcceptSync<T> = AcceptSync {
            n: current_n,
            seq_num: self.leader_state.next_seq_num(to),
            decided_idx: self.get_decided_idx(),
            log_sync: LogSync {
                decided_snapshot: log_sync.decided_snapshot,
                suffix,
                sync_idx: log_sync.sync_idx,
                stopsign: log_sync.stopsign,
            },
        };
        self.push_message(to, PaxosMsg::AcceptSync(acc_sync));
        proof {
            lemma_renew_one(before.leader, to);
            assert(self@ =~= before.send_accsyncs(seq![to]));
        }
        Ok(())
    }

    /// Brings the logs of servers that have promised to the state of ours.
    fn send_accsyncs(&mut self, pids: &Vec<NodeId>) -> (result: StorageResult<()>)
        requires
            old(self).wf(),
            pids@.no_duplicates(),
            forall|i: int| 0 <= i < pids@.len() ==> old(self)@.can_accsync(#[trigger] pids@[i]),
        ensures
            final(self).wf(),
            final(self).internal_storage == old(self).internal_storage,
            match result {
                Ok(_) => final(self)@ == old(self)@.send_accsyncs(pids@),
                Err(_) => !old(self).reliable() && old(self)@.outgoing.is_prefix_of(
                    final(self)@.outgoing,
                ),
            },
    {
        let ghost before = self@;
        let mut i: usize = 0;
        proof {
            assert(before.leader =~= before.leader.renew_each(pids@.take(0)));
            assert(self@ =~= before.send_accsyncs(pids@.take(0)));
        }
        while i < pids.len()
            invariant
                i <= pids@.len(),
                before == old(self)@,
                before.wf(),
                self.wf(),
                self.internal_storage == old(self).internal_storage,
                pids@.no_duplicates(),
                forall|i: int| 0 <= i < pids@.len() ==> before.can_accsync(#[trigger] pids@[i]),
                self@ == before.send_accsyncs(pids@.take(i as int)),
            decreases pids.len() - i,
        {
            let pid: NodeId = pids[i];
            let ghost now = self@;
            proof {
                assert(before.can_accsync(pids@[i as int]));
                lemma_renew_next(before.leader, pids@, i as int);
                assert(now.valid_idx(pid) == before.valid_idx(pid));
                assert(now.can_accsync(pid));
                assert(now.accsync(pid) == before.accsync(pid));
                lemma_renew_one(now.leader, pid);
            }
            match self.send_accsync(pid) {
                Ok(_) => {},
                Err(e) => return Err(e),
            }
            assert(self@ =~= before.send_accsyncs(pids@.take(i + 1)));
            i = i + 1;
        }
        assert(pids@.take(i as int) =~= pids@);
        Ok(())
    }

    /// Starts the accept phase: adopts the log of the most recent promise, adds what
    /// was buffered, and brings the logs of the followers to that state.
    pub fn handle_majority_promises(&mut self) -> (result: StorageResult<()>)
        requires
            old(self).wf(),
            old(self)@.can_start_accepting(B::keeps_snapshots()),
        ensures
            match result {
                Ok(_) => final(self).wf() && final(self).reliable() == old(self).reliable()
                    && final(self)@ == old(self)@.handle_majority(B::keeps_snapshots()),
                Err(_) => !old(self).reliable() && old(self)@.outgoing.is_prefix_of(
                    final(self)@.outgoing,
                ),
            },
    {
        let ghost before = self@;
        let ghost keeps = B::keeps_snapshots();
        let max_promise_sync: Option<LogSync<T>> = self.leader_state.take_max_promise_sync();
        let decided_idx: usize = self.leader_state.get_max_decided_idx();
        let mut new_accepted_idx: usize = match self.internal_storage.sync_log(
            self.leader_state.n_leader,
            decided_idx,
            max_promise_sync,
        ) {
            Ok(idx) => idx,
            Err(e) => return Err(e),
        };
        assert(self@.storage == before.adopted(keeps));
        if !self.accepted_reconfiguration() {
            if self.buffered_proposals.len() != 0 {
                let mut entries: Vec<T> = Vec::new();
                entries.append(&mut self.buffered_proposals);
                assert(util::views(entries@) =~= before.buffered_proposals);
                new_accepted_idx =
                match self.internal_storage.append_entries_without_batching(entries) {
                    Ok(idx) => idx,
                    Err(e) => return Err(e),
                };
            } else {
                assert(before.buffered_proposals =~= Seq::empty());
                assert(self@.storage =~= self@.storage.append(before.buffered_proposals));
            }
            assert(self@.buffered_proposals =~= Seq::empty());
            assert(self@.storage == before.adopted(keeps).append(before.buffered_proposals));
            if let Some(ss) = self.buffered_stopsign.take() {
                match self.internal_storage.append_stopsign(ss) {
                    Ok(_) => {},
                    Err(e) => return Err(e),
                }
                new_accepted_idx = self.internal_storage.get_accepted_idx();
            }
        }
        self.state = (RoleEC::Leader, PhaseEC::Accept);
        self.leader_state.set_accepted_idx(self.pid, new_accepted_idx);
        assert(self@ =~= before.start_accepting(keeps));
        let followers: Vec<NodeId> = self.leader_state.get_promised_followers();
        proof {
            leader_state::lemma_promised_followers(self.leader_state@);
            assert(followers@ == before.leader.promised_followers());
        }
        self.send_accsyncs(&followers)
    }

    /// Takes a promise in the prepare phase.
    pub fn handle_promise_prepare(&mut self, prom: Promise<T>, from: NodeId) -> (result:
        StorageResult<()>)
        requires
            old(self).wf(),
            old(self)@.leader.has(from),
            ({
                let noted = old(self)@.with_leader(
                    old(self)@.leader.set_promise(prom@, from, true),
                );
                prom@.n == old(self)@.leader.n_leader && noted.leader.prepared()
                    ==> noted.can_start_accepting(B::keeps_snapshots())
            }),
        ensures
            match result {
                Ok(_) => final(self).wf() && final(self).reliable() == old(self).reliable()
                    && final(self)@ == old(self)@.handle_promise_prepare(
                    B::keeps_snapshots(),
                    prom@,
                    from,
                ),
                Err(_) => !old(self).reliable()
                    && prom@.n == old(self)@.leader.n_leader && old(self)@.leader.set_promise(
                    prom@,
                    from,
                    true,
                ).prepared() && old(self)@.outgoing.is_prefix_of(
                    final(self)@.outgoing,
                ),
            },
            prom@.n != old(self)@.leader.n_leader ==> *final(self) == *old(self),
    {
        if prom.n == self.leader_state.n_leader {
            let received_majority: bool = self.leader_state.set_promise(prom, from, true);
            if received_majority {
                return self.handle_majority_promises();
            }
        }
        Ok(())
    }

    /// Takes a promise in the accept phase.
    pub fn handle_promise_accept(&mut self, prom: Promise<T>, from: NodeId) -> (result:
        StorageResult<()>)
        requires
            old(self).wf(),
            old(self)@.leader.has(from),
            prom@.n == old(self)@.leader.n_leader ==> old(self)@.with_leader(
                old(self)@.leader.set_promise(prom@, from, false),
            ).can_accsync(from),
        ensures
            final(self).wf(),
            final(self).internal_storage == old(self).internal_storage,
            match result {
                Ok(_) => final(self)@ == old(self)@.handle_promise_accept(prom@, from),
                Err(_) => !old(self).reliable()
                    && prom@.n == old(self)@.leader.n_leader
                    && final(self)@ == old(self)@.with_leader(
                    old(self)@.leader.set_promise(prom@, from, false),
                ),
            },
            prom@.n != old(self)@.leader.n_leader ==> *final(self) == *old(self),
    {
        if prom.n == self.leader_state.n_leader {
            self.leader_state.set_promise(prom, from, false);
            return self.send_accsync(from);
        }
        Ok(())
    }

    /// The latest accept of this round to a server, if it is still among the
    /// outgoing messages and may be amended.
    pub fn get_latest_accdec_message(&mut self, to: NodeId) -> (accept: Option<
        &mut AcceptDecide<T>,
    >)
        requires
            old(self).wf(),
            old(self)@.leader.has(to),
        ensures
            final(self).internal_storage == old(self).internal_storage,
            match accept {
                Some(accdec) => old(self)@.latest_accept_place(to) matches Some(place)
                    && old(self)@.outgoing[place].msg == crate::messages::MsgView::AcceptDecide(
                    accdec@,
                ) && final(self)@ == old(self)@.amend(place, final(accdec)@),
                None => old(self)@.latest_accept_place(to) is None && final(self)@ == old(self)@,
            },
    {
        let ghost before = self@;
        if let Some((bal, outgoing_idx)) = self.leader_state.get_latest_accept_meta(to) {
            assert(before.leader.latest_accept[to - 1] == Some((bal, outgoing_idx)));
            if bal == self.leader_state.n_leader {
                assert(before.outgoing[outgoing_idx as int]
                    == self.outgoing@[outgoing_idx as int]@);
                if let Message::SequencePaxos(
                    PaxosMessage { msg: PaxosMsg::AcceptDecide(accdec), .. },
                ) = &mut self.outgoing[outgoing_idx] {
                    return Some(accdec);
                }
            }
        }
        None
    }

    /// Takes the word of a server that it has accepted the log up to an index. If
    /// that decides the index, writes it to the storage and tells the followers.
    pub fn handle_accepted(&mut self, accepted: Accepted, from: NodeId) -> (result:
        StorageResult<()>)
        requires
            old(self).wf(),
            old(self)@.leader.has(from),
            old(self)@.decides(accepted, from) ==> old(self)@.numbers_left(
                old(self)@.leader.promised_followers(),
                1,
            ),
        ensures
            match result {
                Ok(_) => final(self).wf() && final(self).reliable() == old(self).reliable()
                    && final(self)@ == old(self)@.handle_accepted(accepted, from),
                Err(_) => !old(self).reliable()
                    && old(self)@.decides(accepted, from)
                    && final(self)@.outgoing == old(self)@.outgoing,
            },
            accepted.n != old(self)@.leader.n_leader || old(self)@.role != RoleEC::Leader
                || old(self)@.phase != PhaseEC::Accept ==> *final(self) == *old(self),
    {
        let ghost before = self@;
        if accepted.n == self.leader_state.n_leader && self.state.0 == RoleEC::Leader
            && self.state.1 == PhaseEC::Accept {
            self.leader_state.set_accepted_idx(from, accepted.accepted_idx);
            if accepted.accepted_idx > self.internal_storage.get_decided_idx()
                && self.leader_state.is_chosen(accepted.accepted_idx) {
                let decided_idx: usize = accepted.accepted_idx;
                match self.internal_storage.set_decided_idx(decided_idx) {
                    Ok(_) => {},
                    Err(e) => return Err(e),
                }
                let followers: Vec<NodeId> = self.leader_state.get_promised_followers();
                proof {
                    leader_state::lemma_promised_followers(self.leader_state@);
                    assert(followers@ == before.leader.promised_followers());
                }
                self.notify_all(&followers, decided_idx);
            }
        }
        Ok(())
    }

    /// Tells servers the decided index, in the latest accepts to them where those
    /// may still be amended.
    fn notify_all(&mut self, pids: &Vec<NodeId>, decided_idx: usize)
        requires
            old(self).wf(),
            pids@.no_duplicates(),
            forall|i: int| 0 <= i < pids@.len() ==> old(self)@.leader.has(#[trigger] pids@[i]),
            old(self)@.numbers_left(pids@, 1),
        ensures
            final(self).wf(),
            final(self).internal_storage == old(self).internal_storage,
            final(self)@ == old(self)@.notify_all(pids@, decided_idx),
    {
        let ghost before = self@;
        let mut i: usize = 0;
        assert(pids@.take(0) =~= Seq::empty());
        while i < pids.len()
            invariant
                i <= pids@.len(),
                self.wf(),
                self.internal_storage == old(self).internal_storage,
                pids@.no_duplicates(),
                forall|j: int| 0 <= j < pids@.len() ==> self@.leader.has(#[trigger] pids@[j]),
                forall|j: int|
                    i <= j < pids@.len() ==> self@.leader.seq_num_of(#[trigger] pids@[j]).counter
                        < u64::MAX,
                self@ == before.notify_all(pids@.take(i as int), decided_idx),
            decreases pids.len() - i,
        {
            let pid: NodeId = pids[i];
            let ghost now = self@;
            assert(now.leader.has(pids@[i as int]));
            assert(pids@.take(i + 1).drop_last() =~= pids@.take(i as int));
            match self.get_latest_accdec_message(pid) {
                Some(accdec) => {
                    accdec.decided_idx = decided_idx;
                },
                None => {
                    self.send_decide(pid, decided_idx, false);
                },
            }
            assert(self@ == now.notify(pid, decided_idx));
            i = i + 1;
        }
        assert(pids@.take(i as int) =~= pids@);
    }

    /// Takes the refusal of a server that has promised a higher round.
    pub fn handle_notaccepted(&mut self, not_acc: NotAccepted, from: NodeId)
        requires
            old(self).wf(),
            old(self)@.leader.has(from),
        ensures
            final(self).wf(),
            final(self).internal_storage == old(self).internal_storage,
            final(self)@ == old(self)@.handle_notaccepted(not_acc.n, from),
    {
        if self.state.0 == RoleEC::Leader && self.leader_state.n_leader.is_below(&not_acc.n) {
            self.leader_state.lost_promise(from);
        }
    }

    /// Handle a new leader. Should be called when the leader election has elected a
    /// new leader with the ballot `n`.
    pub fn handle_leader(&mut self, n: Ballot) -> (result: StorageResult<()>)
        requires
            old(self).wf(),
            old(self)@.is_new(n) && old(self)@.pid == n.pid ==> old(self)@.storage.room(0),
        ensures
            match result {
                Ok(_) => final(self).wf() && final(self).reliable() == old(self).reliable()
                    && final(self)@ == old(self)@.handle_leader(n),
                Err(_) => !old(self).reliable()
                    && old(self)@.is_new(n) && old(self)@.pid == n.pid
                    && final(self)@.outgoing == old(self)@.outgoing,
            },
            !old(self)@.is_new(n) ==> *final(self) == *old(self),
            old(self)@.pid != n.pid ==> final(self).internal_storage
                == old(self).internal_storage,
    {
        let ghost before = self@;
        let promised: Ballot = self.internal_storage.get_promise();
        if !self.leader_state.n_leader.is_below(&n) || !promised.is_below(&n) {
            return Ok(());
        }
        if self.pid == n.pid {
            self.leader_state = LeaderState::with(
                n,
                self.leader_state.max_pid,
                self.leader_state.quorum,
            );
            match self.internal_storage.flush_batch() {
                Ok(_) => {},
                Err(e) => return Err(e),
            }
            match self.internal_storage.set_promise(n) {
                Ok(_) => {},
                Err(e) => return Err(e),
            }
            let na: Ballot = self.internal_storage.get_accepted_round();
            let decided_idx: usize = self.get_decided_idx();
            let accepted_idx: usize = self.internal_storage.get_accepted_idx();
            let my_promise: Promise<T> = Promise {
                n,
                n_accepted: na,
                decided_idx,
                accepted_idx,
                log_sync: None,
            };
            self.leader_state.set_promise(my_promise, self.pid, true);
            self.state = (RoleEC::Leader, PhaseEC::Prepare);
            let mut peers: Vec<NodeId> = Vec::with_capacity(self.peers.len());
            peers.extend_from_slice(self.peers.as_slice());
            assert(peers@ =~= before.peers);
            self.send_prepares(&peers);
            assert(self@ =~= before.handle_leader(n));
        } else {
            self.become_follower();
        }
        Ok(())
    }

    /// Takes the wish of a follower to be prepared.
    pub fn handle_preparereq(&mut self, prepreq: PrepareReq, from: NodeId)
        requires
            old(self).wf(),
            old(self)@.leader.has(from),
        ensures
            final(self).wf(),
            final(self).internal_storage == old(self).internal_storage,
            final(self)@ == old(self)@.handle_preparereq(prepreq.n, from),
    {
        if self.state.0 == RoleEC::Leader && !self.leader_state.n_leader.is_below(&prepreq.n) {
            self.leader_state.reset_promise(from);
            self.leader_state.set_latest_accept_meta(from, None);
            self.send_prepare(from);
        }
    }

    /// Takes proposals of another server.
    pub fn handle_forwarded_proposal(&mut self, entries: Vec<T>) -> (result: StorageResult<()>)
        requires
            old(self).wf(),
            !old(self)@.stopped() && old(self)@.role == RoleEC::Leader && old(self)@.phase
                == PhaseEC::Accept ==> old(self)@.can_accept(entries@.len())
                && old(self)@.encodable(util::views(entries@)),
        ensures
            match result {
                Ok(_) => final(self).wf() && final(self).reliable() == old(self).reliable()
                    && final(self)@ == old(self)@.handle_forwarded_proposal(util::views(entries@)),
                Err(_) => !old(self).reliable()
                    && !old(self)@.stopped() && old(self)@.role == RoleEC::Leader
                    && old(self)@.phase == PhaseEC::Accept && old(self)@.fills_batch(
                    old(self)@.coded_all(util::views(entries@)),
                ) && final(self)@.outgoing == old(self)@.outgoing,
            },
            old(self)@.stopped() ==> *final(self) == *old(self),
    {
        if !self.accepted_reconfiguration() {
            match self.state {
                (RoleEC::Leader, PhaseEC::Prepare) => self.buffer_proposals(entries),
                (RoleEC::Leader, PhaseEC::Accept) => return self.accept_entries_leader(entries),
                _ => self.forward_proposals(entries),
            }
        }
        Ok(())
    }

    /// Takes a stopsign of another server.
    pub fn handle_forwarded_stopsign(&mut self, ss: StopSign) -> (result: StorageResult<()>)
        requires
            old(self).wf(),
            !old(self)@.stopped() && old(self)@.role == RoleEC::Leader && old(self)@.phase
                == PhaseEC::Accept ==> old(self)@.can_lead_stopsign(ss@),
        ensures
            match result {
                Ok(_) => final(self).wf() && final(self).reliable() == old(self).reliable()
                    && final(self)@ == old(self)@.handle_forwarded_stopsign(ss@),
                Err(_) => !old(self).reliable()
                    && !old(self)@.stopped() && old(self)@.role == RoleEC::Leader
                    && old(self)@.phase == PhaseEC::Accept
                    && final(self)@.outgoing == old(self)@.outgoing,
            },
            old(self)@.stopped() ==> *final(self) == *old(self),
    {
        if self.accepted_reconfiguration() {
            return Ok(());
        }
        match self.state {
            (RoleEC::Leader, PhaseEC::Prepare) => self.buffered_stopsign = Some(ss),
            (RoleEC::Leader, PhaseEC::Accept) => return self.accept_stopsign_leader(ss),
            _ => self.forward_stopsign(ss),
        }
        Ok(())
    }

    /// Sends again what may be lost.
    pub fn resend_messages_leader(&mut self)
        requires
            old(self).wf(),
        ensures
            final(self).wf(),
            final(self).internal_storage == old(self).internal_storage,
            final(self)@ == old(self)@.resend_messages(),
    {
        match self.state.1 {
            PhaseEC::Prepare => {
                let preparable_peers: Vec<NodeId> = self.leader_state.get_preparable_peers(
                    &self.peers,
                );
                self.send_prepares(&preparable_peers);
            },
            PhaseEC::Accept => {
                self.resend_stopsign_leader();
                let preparable_peers: Vec<NodeId> = self.leader_state.get_preparable_peers(
                    &self.peers,
                );
                self.send_prepares(&preparable_peers);
            },
            PhaseEC::Recover => {},
            PhaseEC::Idle => {},
        }
    }

    /// Sends the stopsign or its decide again, if the log ends with one.
    fn resend_stopsign_leader(&mut self)
        requires
            old(self).wf(),
        ensures
            final(self).wf(),
            final(self).internal_storage == old(self).internal_storage,
            final(self)@ == old(self)@.resend_stopsign(),
    {
        let ghost before = self@;
        if let Some(ss) = self.internal_storage.get_stopsign() {
            let decided_idx: usize = self.internal_storage.get_decided_idx();
            let followers: Vec<NodeId> = self.leader_state.get_promised_followers();
            let ghost behind = |pid: NodeId|
                before.leader.accepted_of(pid) != before.storage.accepted_idx();
            let ghost decided = before.storage.stopsign_is_decided();
            let mut i: usize = 0;
            proof {
                reveal(Seq::filter);
                leader_state::lemma_promised_followers(before.leader);
                assert(followers@.take(0) =~= Seq::empty());
                assert(before =~= before.resend_decides(followers@.take(0), decided_idx));
                assert(before =~= before.send_stopsigns(
                    followers@.take(0).filter(behind),
                    ss@,
                    true,
                ));
            }
            while i < followers.len()
                invariant
                    i <= followers@.len(),
                    before == old(self)@,
                    self.wf(),
                    self.internal_storage == old(self).internal_storage,
                    followers@ == before.leader.promised_followers(),
                    forall|j: int|
                        0 <= j < followers@.len() ==> before.leader.has(#[trigger] followers@[j]),
                    decided_idx == before.storage.decided_idx(),
                    decided == before.storage.stopsign_is_decided(),
                    behind == (|pid: NodeId|
                        before.leader.accepted_of(pid) != before.storage.accepted_idx()),
                    self@ == if decided {
                        before.resend_decides(followers@.take(i as int), decided_idx)
                    } else {
                        before.send_stopsigns(followers@.take(i as int).filter(behind), ss@, true)
                    },
                decreases followers.len() - i,
            {
                let follower: NodeId = followers[i];
                let ghost now = self@;
                proof {
                    reveal(Seq::filter);
                    assert(before.leader.has(followers@[i as int]));
                    assert(followers@.take(i + 1).drop_last() =~= followers@.take(i as int));
                    assert(followers@.take(i + 1).last() == follower);
                }
                if self.internal_storage.stopsign_is_decided() {
                    self.send_decide(follower, decided_idx, true);
                    assert(self@ =~= before.resend_decides(followers@.take(i + 1), decided_idx));
                } else if self.leader_state.get_accepted_idx(follower)
                    != self.internal_storage.get_accepted_idx() {
                    self.send_accept_stopsign(follower, ss.clone(), true);
                    assert(self@ =~= before.send_stopsigns(
                        followers@.take(i + 1).filter(behind),
                        ss@,
                        true,
                    ));
                }
                i = i + 1;
            }
            assert(followers@.take(i as int) =~= followers@);
        }
    }
}

/// One server's next number is the next number of each of that one.
proof fn lemma_bump_one<T: ECEntry>(leader: leader_state::LeaderView<T>, pid: NodeId)
    requires
        leader.wf(),
        leader.has(pid),
    ensures
        leader.bump_seq_num(pid) == leader.bump_each(seq![pid]),
{
    assert(seq![pid][0] == pid);
    assert(leader.bump_seq_num(pid) =~= leader.bump_each(seq![pid]));
}

/// The new session of one server is the new session of each of that one.
proof fn lemma_renew_one<T: ECEntry>(leader: leader_state::LeaderView<T>, pid: NodeId)
    requires
        leader.wf(),
        leader.has(pid),
    ensures
        leader.next_session(pid).bump_seq_num(pid) == leader.renew_each(seq![pid]),
{
    assert(seq![pid][0] == pid);
    assert(leader.next_session(pid).bump_seq_num(pid) =~= leader.renew_each(seq![pid]));
}

/// After the servers before it, a server's number is still its own, and taking the
/// next makes one more server whose next number was taken.
proof fn lemma_bump_next<T: ECEntry>(
    leader: leader_state::LeaderView<T>,
    pids: Seq<NodeId>,
    i: int,
)
    requires
        leader.wf(),
        pids.no_duplicates(),
        0 <= i < pids.len(),
        leader.has(pids[i]),
    ensures
        leader.bump_each(pids.take(i)).seq_num_of(pids[i]) == leader.seq_num_of(pids[i]),
        leader.bump_each(pids.take(i)).bump_seq_num(pids[i]) == leader.bump_each(pids.take(i + 1)),
{
    lemma_take_next(pids, i);
    assert(leader.bump_each(pids.take(i)).bump_seq_num(pids[i]) =~= leader.bump_each(
        pids.take(i + 1),
    ));
}

/// After the servers before it, a server's number is still its own, and its new
/// session makes one more server with a new session.
proof fn lemma_renew_next<T: ECEntry>(
    leader: leader_state::LeaderView<T>,
    pids: Seq<NodeId>,
    i: int,
)
    requires
        leader.wf(),
        pids.no_duplicates(),
        0 <= i < pids.len(),
        leader.has(pids[i]),
    ensures
        leader.renew_each(pids.take(i)).seq_num_of(pids[i]) == leader.seq_num_of(pids[i]),
        leader.renew_each(pids.take(i)).next_session(pids[i]).bump_seq_num(pids[i])
            == leader.renew_each(pids.take(i + 1)),
{
    lemma_take_next(pids, i);
    assert(leader.renew_each(pids.take(i)).next_session(pids[i]).bump_seq_num(pids[i])
        =~= leader.renew_each(pids.take(i + 1)));
}

/// The first `i + 1` ids are the first `i` and one more.
proof fn lemma_take_next(pids: Seq<NodeId>, i: int)
    requires
        pids.no_duplicates(),
        0 <= i < pids.len(),
    ensures
        !pids.take(i).contains(pids[i]),
        forall|pid: NodeId| #[trigger]
            pids.take(i + 1).contains(pid) <==> pids.take(i).contains(pid) || pid == pids[i],
{
    assert(pids.take(i + 1) =~= pids.take(i).push(pids[i]));
    assert forall|pid: NodeId| #[trigger]
        pids.take(i + 1).contains(pid) <==> pids.take(i).contains(pid) || pid == pids[i] by {
        if pids.take(i).contains(pid) {
            let j = choose|j: int| 0 <= j < i && pids.take(i)[j] == pid;
            assert(pids.take(i + 1)[j] == pid);
        }
        assert(pids.take(i + 1)[i] == pids[i]);
    }
}

} // verus!
