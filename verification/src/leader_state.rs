//! What a leader knows of its followers.
use crate::messages::{LogSync, LogSyncView, Promise, PromiseView, SequenceNumber};
use crate::storage::Entry;
use crate::util::{Ballot, NodeId, Quorum};
use crate::util;
use vstd::prelude::*;

verus! {

/// A promise without the log.
#[derive(Clone, Copy, Debug, PartialEq, Eq, Structural)]
pub struct PromiseMetaData {
    pub n_accepted: Ballot,
    pub accepted_idx: usize,
    pub decided_idx: usize,
    pub pid: NodeId,
}

impl PromiseMetaData {
    /// The metadata of no promise.
    pub open spec fn bottom() -> Self {
        PromiseMetaData { n_accepted: Ballot::bottom(), accepted_idx: 0, decided_idx: 0, pid: 0 }
    }

    /// The log of this promise is more recent: it was accepted in a higher round,
    /// or in the same round and is longer.
    pub open spec fn above(self, other: PromiseMetaData) -> bool {
        other.n_accepted.below(self.n_accepted) || (self.n_accepted == other.n_accepted
            && self.accepted_idx > other.accepted_idx)
    }

    fn is_above(&self, other: &PromiseMetaData) -> (more_recent: bool)
        ensures
            more_recent == self.above(*other),
    {
        other.n_accepted.is_below(&self.n_accepted) || (self.n_accepted == other.n_accepted
            && self.accepted_idx > other.accepted_idx)
    }
}

/// The promise state of a server.
#[derive(Clone, Copy, Debug, PartialEq, Eq, Structural)]
pub enum PromiseState {
    /// Not promised to any leader.
    NotPromised,
    /// Promised to my ballot.
    Promised(PromiseMetaData),
    /// Promised to a leader whose ballot is greater than mine.
    PromisedHigher,
}

/// What a leader knows of its followers. Server `pid` stands at place `pid - 1`.
pub struct LeaderState<T: Entry> {
    /// The ballot of the leader.
    pub n_leader: Ballot,
    /// The promise of each server.
    pub promises_meta: Vec<PromiseState>,
    /// The number of the last accept to each server.
    pub follower_seq_nums: Vec<SequenceNumber>,
    /// How far each server has accepted the log.
    pub accepted_indexes: Vec<usize>,
    /// The most recent promise.
    pub max_promise_meta: PromiseMetaData,
    /// The log of the most recent promise.
    pub max_promise_sync: Option<LogSync<T>>,
    /// The ballot and the place among the outgoing messages of the latest accept
    /// to each server that may still be amended.
    pub latest_accept_meta: Vec<Option<(Ballot, usize)>>,
    /// The highest id of a server.
    pub max_pid: usize,
    /// The number of promises needed to become synced, and the number of accepteds
    /// needed to decide an entry.
    pub quorum: Quorum,
}

/// What the leader state holds.
#[verifier::ext_equal]
pub struct LeaderView<T: Entry> {
    pub n_leader: Ballot,
    pub promises: Seq<PromiseState>,
    pub seq_nums: Seq<SequenceNumber>,
    pub accepted: Seq<usize>,
    pub max_promise_meta: PromiseMetaData,
    pub max_promise_sync: Option<LogSyncView<T>>,
    pub latest_accept: Seq<Option<(Ballot, usize)>>,
    pub max_pid: usize,
    pub quorum: Quorum,
}

/// The ids of servers 1 to `max_pid`.
pub open spec fn node_ids(max_pid: nat) -> Seq<NodeId> {
    Seq::new(max_pid, |i: int| (i + 1) as NodeId)
}

/// The state has been promised to this leader.
pub open spec fn has_promised(state: PromiseState) -> bool {
    state is Promised
}

/// The highest decided index among the promises.
pub open spec fn max_decided(promises: Seq<PromiseState>) -> usize
    decreases promises.len(),
{
    if promises.len() == 0 {
        0
    } else {
        let others = max_decided(promises.drop_last());
        match promises.last() {
            PromiseState::Promised(meta) => if meta.decided_idx > others {
                meta.decided_idx
            } else {
                others
            },
            _ => others,
        }
    }
}

/// The servers of 1 to `max_pid` other than `leader` that have promised.
pub open spec fn promised_among(
    promises: Seq<PromiseState>,
    max_pid: nat,
    leader: NodeId,
) -> Seq<NodeId> {
    node_ids(max_pid).filter(promised_follower(promises, leader))
}

/// A server other than `leader` that has promised.
pub open spec fn promised_follower(
    promises: Seq<PromiseState>,
    leader: NodeId,
) -> spec_fn(NodeId) -> bool {
    |pid: NodeId| has_promised(promises[pid - 1]) && pid != leader
}

/// The peers that have promised to nobody.
pub open spec fn preparable_among(promises: Seq<PromiseState>, peers: Seq<NodeId>) -> Seq<NodeId> {
    peers.filter(|pid: NodeId| promises[pid - 1] is NotPromised)
}

/// The number after `last` in the same session.
pub open spec fn next_number(last: SequenceNumber) -> SequenceNumber {
    SequenceNumber { session: last.session, counter: (last.counter + 1) as u64 }
}

/// The first number of the session after that of `last`.
pub open spec fn first_number(last: SequenceNumber) -> SequenceNumber {
    SequenceNumber { session: (last.session + 1) as u64, counter: 1 }
}

impl<T: Entry> LeaderView<T> {
    /// There is a place for each server.
    pub open spec fn wf(self) -> bool {
        &&& self.promises.len() == self.max_pid
        &&& self.seq_nums.len() == self.max_pid
        &&& self.accepted.len() == self.max_pid
        &&& self.latest_accept.len() == self.max_pid
    }

    /// There is a server of this id.
    pub open spec fn has(self, pid: NodeId) -> bool {
        1 <= pid <= self.max_pid
    }

    /// A leader that has heard from nobody.
    pub open spec fn fresh(n_leader: Ballot, max_pid: usize, quorum: Quorum) -> Self {
        LeaderView {
            n_leader,
            promises: Seq::new(max_pid as nat, |i: int| PromiseState::NotPromised),
            seq_nums: Seq::new(max_pid as nat, |i: int| SequenceNumber { session: 0, counter: 0 }),
            accepted: Seq::new(max_pid as nat, |i: int| 0usize),
            max_promise_meta: PromiseMetaData::bottom(),
            max_promise_sync: None,
            latest_accept: Seq::new(max_pid as nat, |i: int| None),
            max_pid,
            quorum,
        }
    }

    /// The promise state of a server.
    pub open spec fn promise_of(self, pid: NodeId) -> PromiseState {
        self.promises[pid - 1]
    }

    /// The number of the last accept to a server.
    pub open spec fn seq_num_of(self, pid: NodeId) -> SequenceNumber {
        self.seq_nums[pid - 1]
    }

    /// The next accept to a server takes the next number.
    pub open spec fn bump_seq_num(self, pid: NodeId) -> Self {
        LeaderView {
            seq_nums: self.seq_nums.update(pid - 1, next_number(self.seq_num_of(pid))),
            ..self
        }
    }

    /// The accepts to a server start again in the next session.
    pub open spec fn next_session(self, pid: NodeId) -> Self {
        LeaderView {
            seq_nums: self.seq_nums.update(
                pid - 1,
                SequenceNumber {
                    session: (self.seq_num_of(pid).session + 1) as u64,
                    counter: 0,
                },
            ),
            ..self
        }
    }

    /// The next accept to each of these servers takes the next number.
    pub open spec fn bump_each(self, pids: Seq<NodeId>) -> Self {
        LeaderView {
            seq_nums: Seq::new(
                self.seq_nums.len(),
                |i: int|
                    if pids.contains((i + 1) as NodeId) {
                        next_number(self.seq_nums[i])
                    } else {
                        self.seq_nums[i]
                    },
            ),
            ..self
        }
    }

    /// The accepts to each of these servers start again, with the first of the
    /// next session.
    pub open spec fn renew_each(self, pids: Seq<NodeId>) -> Self {
        LeaderView {
            seq_nums: Seq::new(
                self.seq_nums.len(),
                |i: int|
                    if pids.contains((i + 1) as NodeId) {
                        first_number(self.seq_nums[i])
                    } else {
                        self.seq_nums[i]
                    },
            ),
            ..self
        }
    }

    /// A promise is noted. Where it is to be compared, it becomes the most recent
    /// one if its log is more recent than that of all before.
    pub open spec fn set_promise(
        self,
        prom: PromiseView<T>,
        from: NodeId,
        check_max_prom: bool,
    ) -> Self {
        let meta = PromiseMetaData {
            n_accepted: prom.n_accepted,
            accepted_idx: prom.accepted_idx,
            decided_idx: prom.decided_idx,
            pid: from,
        };
        let noted = LeaderView {
            promises: self.promises.update(from - 1, PromiseState::Promised(meta)),
            ..self
        };
        if check_max_prom && meta.above(self.max_promise_meta) {
            LeaderView { max_promise_meta: meta, max_promise_sync: prom.log_sync, ..noted }
        } else {
            noted
        }
    }

    /// The promise state of a server becomes `state`.
    pub open spec fn set_promise_state(self, pid: NodeId, state: PromiseState) -> Self {
        LeaderView { promises: self.promises.update(pid - 1, state), ..self }
    }

    /// Enough servers have promised.
    pub open spec fn prepared(self) -> bool {
        self.promises.filter(|state: PromiseState| has_promised(state)).len()
            >= self.quorum.prepare_size()
    }

    /// Enough servers have accepted the log up to `idx`.
    pub open spec fn chosen(self, idx: usize) -> bool {
        self.accepted.filter(|accepted: usize| accepted >= idx).len() >= self.quorum.accept_size()
    }

    /// The servers other than the leader that have promised, in the order of
    /// their ids.
    pub open spec fn promised_followers(self) -> Seq<NodeId> {
        promised_among(self.promises, self.max_pid as nat, self.n_leader.pid)
    }

    /// The peers that have promised to nobody.
    pub open spec fn preparable(self, peers: Seq<NodeId>) -> Seq<NodeId> {
        preparable_among(self.promises, peers)
    }

    /// How far a server has accepted the log.
    pub open spec fn accepted_of(self, pid: NodeId) -> usize {
        self.accepted[pid - 1]
    }

    /// A server has accepted the log up to `idx`.
    pub open spec fn set_accepted_idx(self, pid: NodeId, idx: usize) -> Self {
        LeaderView { accepted: self.accepted.update(pid - 1, idx), ..self }
    }

    /// The place of the latest accept to a server is set or forgotten.
    pub open spec fn set_latest_accept(self, pid: NodeId, outgoing_idx: Option<usize>) -> Self {
        LeaderView {
            latest_accept: self.latest_accept.update(
                pid - 1,
                match outgoing_idx {
                    Some(idx) => Some((self.n_leader, idx)),
                    None => None,
                },
            ),
            ..self
        }
    }
}

/// The servers that have promised are different, have an id, and are not the
/// leader.
pub proof fn lemma_promised_followers<T: Entry>(leader: LeaderView<T>)
    ensures
        leader.promised_followers().no_duplicates(),
        forall|i: int|
            0 <= i < leader.promised_followers().len() ==> {
                let pid = #[trigger] leader.promised_followers()[i];
                leader.has(pid) && has_promised(leader.promise_of(pid)) && pid
                    != leader.n_leader.pid
            },
{
    lemma_filtered_ids(
        leader.max_pid as nat,
        promised_follower(leader.promises, leader.n_leader.pid),
    );
}

proof fn lemma_filtered_ids(n: nat, pred: spec_fn(NodeId) -> bool)
    requires
        n <= usize::MAX,
    ensures
        node_ids(n).filter(pred).no_duplicates(),
        forall|i: int|
            0 <= i < node_ids(n).filter(pred).len() ==> {
                let pid = #[trigger] node_ids(n).filter(pred)[i];
                1 <= pid <= n && pred(pid)
            },
    decreases n,
{
    reveal(Seq::filter);
    if n > 0 {
        let m = (n - 1) as nat;
        lemma_filtered_ids(m, pred);
        assert(node_ids(n).drop_last() =~= node_ids(m));
        assert(node_ids(n).last() == n);
    }
}

/// Every follower that has promised is among the promised followers, and they stand in
/// the order of their ids.
pub proof fn lemma_promised_followers_all<T: Entry>(leader: LeaderView<T>)
    ensures
        forall|pid: NodeId|
            leader.has(pid) && leader.promises[pid - 1] is Promised && pid != leader.n_leader.pid
                <==> #[trigger] leader.promised_followers().contains(pid),
        forall|i: int, j: int|
            0 <= i < j < leader.promised_followers().len()
                ==> #[trigger] leader.promised_followers()[i]
                < #[trigger] leader.promised_followers()[j],
{
    lemma_promised_followers(leader);
    lemma_filtered_ids_all(
        leader.max_pid as nat,
        promised_follower(leader.promises, leader.n_leader.pid),
    );
    let followers = leader.promised_followers();
    assert forall|pid: NodeId|
        leader.has(pid) && leader.promises[pid - 1] is Promised && pid != leader.n_leader.pid
            <==> #[trigger] followers.contains(pid) by {
        if followers.contains(pid) {
            let i = choose|i: int| 0 <= i < followers.len() && followers[i] == pid;
            assert(has_promised(leader.promise_of(followers[i])));
        }
    }
}

proof fn lemma_filtered_ids_all(n: nat, pred: spec_fn(NodeId) -> bool)
    requires
        n <= usize::MAX,
    ensures
        forall|pid: NodeId|
            1 <= pid <= n && pred(pid) ==> #[trigger] node_ids(n).filter(pred).contains(pid),
        forall|i: int, j: int|
            0 <= i < j < node_ids(n).filter(pred).len() ==> #[trigger] node_ids(n).filter(pred)[i]
                < #[trigger] node_ids(n).filter(pred)[j],
    decreases n,
{
    reveal(Seq::filter);
    let all = node_ids(n).filter(pred);
    if n > 0 {
        let m = (n - 1) as nat;
        let first = node_ids(m).filter(pred);
        lemma_filtered_ids_all(m, pred);
        lemma_filtered_ids(m, pred);
        assert(node_ids(n).drop_last() =~= node_ids(m));
        assert(node_ids(n).last() == n);
        assert forall|pid: NodeId| 1 <= pid <= n && pred(pid) implies #[trigger] all.contains(
            pid,
        ) by {
            if pid == n {
                assert(all.last() == pid);
            } else {
                assert(first.contains(pid));
                let i = choose|i: int| 0 <= i < first.len() && first[i] == pid;
                assert(all[i] == pid);
            }
        }
        assert forall|i: int, j: int| 0 <= i < j < all.len() implies #[trigger] all[i]
            < #[trigger] all[j] by {
            assert(first[i] == all[i]);
            if j < first.len() {
                assert(first[j] == all[j]);
            }
        }
    }
}

/// As many items meet a condition as there are ids of such items.
pub proof fn lemma_filter_counts_ids<A>(
    items: Seq<A>,
    pred: spec_fn(A) -> bool,
    ids: Set<NodeId>,
)
    requires
        items.len() <= usize::MAX,
        forall|pid: NodeId|
            #[trigger] ids.contains(pid) <==> 1 <= pid <= items.len() && pred(items[pid - 1]),
    ensures
        ids.finite(),
        ids.len() == items.filter(pred).len(),
    decreases items.len(),
{
    reveal(Seq::filter);
    if items.len() == 0 {
        assert(ids =~= Set::empty());
    } else {
        let last = items.len() as NodeId;
        let fewer = ids.remove(last);
        assert forall|pid: NodeId| #[trigger]
            fewer.contains(pid) <==> 1 <= pid <= items.drop_last().len() && pred(
                items.drop_last()[pid - 1],
            ) by {
            assert(ids.contains(pid) <==> 1 <= pid <= items.len() && pred(items[pid - 1]));
        }
        lemma_filter_counts_ids(items.drop_last(), pred, fewer);
        assert(ids.contains(last) <==> pred(items.last()));
        if ids.contains(last) {
            assert(ids =~= fewer.insert(last));
        } else {
            assert(ids =~= fewer);
        }
    }
}

/// An index is chosen where at least as many servers as a quorum asks for have accepted
/// the log that far.
pub proof fn lemma_chosen<T: Entry>(leader: LeaderView<T>, idx: usize, ids: Set<NodeId>)
    requires
        leader.wf(),
        forall|pid: NodeId|
            #[trigger] ids.contains(pid) <==> 1 <= pid <= leader.max_pid && leader.accepted[pid
                - 1] >= idx,
    ensures
        ids.finite(),
        leader.chosen(idx) <==> ids.len() >= leader.quorum.accept_size(),
{
    lemma_filter_counts_ids(leader.accepted, |accepted: usize| accepted >= idx, ids);
}

/// The leader is prepared where at least as many servers as a quorum asks for have
/// promised.
pub proof fn lemma_prepared<T: Entry>(leader: LeaderView<T>, ids: Set<NodeId>)
    requires
        leader.wf(),
        forall|pid: NodeId|
            #[trigger] ids.contains(pid) <==> 1 <= pid <= leader.max_pid && leader.promises[pid
                - 1] is Promised,
    ensures
        ids.finite(),
        leader.prepared() <==> ids.len() >= leader.quorum.prepare_size(),
{
    lemma_filter_counts_ids(leader.promises, |state: PromiseState| has_promised(state), ids);
}

impl<T: Entry> View for LeaderState<T> {
    type V = LeaderView<T>;

    open spec fn view(&self) -> LeaderView<T> {
        LeaderView {
            n_leader: self.n_leader,
            promises: self.promises_meta@,
            seq_nums: self.follower_seq_nums@,
            accepted: self.accepted_indexes@,
            max_promise_meta: self.max_promise_meta,
            max_promise_sync: util::view_option(self.max_promise_sync),
            latest_accept: self.latest_accept_meta@,
            max_pid: self.max_pid,
            quorum: self.quorum,
        }
    }
}

impl<T: Entry> LeaderState<T> {
    /// The state of a leader that has heard from nobody.
    pub fn with(n_leader: Ballot, max_pid: usize, quorum: Quorum) -> (state: Self)
        ensures
            state@ == LeaderView::<T>::fresh(n_leader, max_pid, quorum),
            state@.wf(),
    {
        let state: LeaderState<T> = LeaderState {
            n_leader,
            promises_meta: vec![PromiseState::NotPromised; max_pid],
            follower_seq_nums: vec![SequenceNumber { session: 0, counter: 0 }; max_pid],
            accepted_indexes: vec![0; max_pid],
            max_promise_meta: PromiseMetaData {
                n_accepted: Ballot::default(),
                accepted_idx: 0,
                decided_idx: 0,
                pid: 0,
            },
            max_promise_sync: None,
            latest_accept_meta: vec![None; max_pid],
            max_pid,
            quorum,
        };
        assert(state@ =~= LeaderView::<T>::fresh(n_leader, max_pid, quorum));
        state
    }

    /// The place of a server.
    fn pid_to_idx(pid: NodeId) -> (idx: usize)
        requires
            1 <= pid <= usize::MAX,
        ensures
            idx == pid - 1,
    {
        (pid - 1) as usize
    }

    /// Starts the accepts to `pid` again in the next session.
    pub fn increment_seq_num_session(&mut self, pid: NodeId)
        requires
            old(self)@.wf(),
            old(self)@.has(pid),
            old(self)@.seq_num_of(pid).session < u64::MAX,
        ensures
            final(self)@ == old(self)@.next_session(pid),
    {
        let idx: usize = Self::pid_to_idx(pid);
        let last: SequenceNumber = self.follower_seq_nums[idx];
        self.follower_seq_nums[idx] = SequenceNumber { session: last.session + 1, counter: 0 };
    }

    /// Takes the number of the next accept to `pid`.
    pub fn next_seq_num(&mut self, pid: NodeId) -> (seq_num: SequenceNumber)
        requires
            old(self)@.wf(),
            old(self)@.has(pid),
            old(self)@.seq_num_of(pid).counter < u64::MAX,
        ensures
            final(self)@ == old(self)@.bump_seq_num(pid),
            seq_num == final(self)@.seq_num_of(pid),
    {
        let idx: usize = Self::pid_to_idx(pid);
        let last: SequenceNumber = self.follower_seq_nums[idx];
        let next: SequenceNumber = SequenceNumber {
            session: last.session,
            counter: last.counter + 1,
        };
        self.follower_seq_nums[idx] = next;
        next
    }

    /// The number of the last accept to `pid`.
    pub fn get_seq_num(&self, pid: NodeId) -> (seq_num: SequenceNumber)
        requires
            self@.wf(),
            self@.has(pid),
        ensures
            seq_num == self@.seq_num_of(pid),
    {
        self.follower_seq_nums[Self::pid_to_idx(pid)]
    }

    /// Notes a promise and tells whether enough servers have promised.
    pub fn set_promise(
        &mut self,
        prom: Promise<T>,
        from: NodeId,
        check_max_prom: bool,
    ) -> (prepared: bool)
        requires
            old(self)@.wf(),
            old(self)@.has(from),
        ensures
            final(self)@ == old(self)@.set_promise(prom@, from, check_max_prom),
            prepared == final(self)@.prepared(),
    {
        let ghost before = self@;
        let promise_meta: PromiseMetaData = PromiseMetaData {
            n_accepted: prom.n_accepted,
            accepted_idx: prom.accepted_idx,
            decided_idx: prom.decided_idx,
            pid: from,
        };
        if check_max_prom && promise_meta.is_above(&self.max_promise_meta) {
            self.max_promise_meta = promise_meta;
            self.max_promise_sync = prom.log_sync;
        }
        let idx: usize = Self::pid_to_idx(from);
        self.promises_meta[idx] = PromiseState::Promised(promise_meta);
        assert(self@ =~= before.set_promise(prom@, from, check_max_prom));
        let ghost pred = |state: PromiseState| has_promised(state);
        let ghost promises = self.promises_meta@;
        let mut num_promised: usize = 0;
        let mut i: usize = 0;
        reveal(Seq::filter);
        assert(promises.take(0) =~= Seq::empty());
        while i < self.promises_meta.len()
            invariant
                i <= promises.len(),
                promises == self.promises_meta@,
                pred == (|state: PromiseState| has_promised(state)),
                num_promised == promises.take(i as int).filter(pred).len(),
                num_promised <= i,
            decreases promises.len() - i,
        {
            reveal(Seq::filter);
            assert(promises.take(i + 1).drop_last() =~= promises.take(i as int));
            if let PromiseState::Promised(_) = self.promises_meta[i] {
                num_promised = num_promised + 1;
            }
            i = i + 1;
        }
        assert(promises.take(i as int) =~= promises);
        self.quorum.is_prepare_quorum(num_promised)
    }

    /// Forgets the promise of `pid`.
    pub fn reset_promise(&mut self, pid: NodeId)
        requires
            old(self)@.wf(),
            old(self)@.has(pid),
        ensures
            final(self)@ == old(self)@.set_promise_state(pid, PromiseState::NotPromised),
    {
        let idx: usize = Self::pid_to_idx(pid);
        self.promises_meta[idx] = PromiseState::NotPromised;
    }

    /// Node `pid` was seen with a ballot greater than mine.
    pub fn lost_promise(&mut self, pid: NodeId)
        requires
            old(self)@.wf(),
            old(self)@.has(pid),
        ensures
            final(self)@ == old(self)@.set_promise_state(pid, PromiseState::PromisedHigher),
    {
        let idx: usize = Self::pid_to_idx(pid);
        self.promises_meta[idx] = PromiseState::PromisedHigher;
    }

    /// Takes the log of the most recent promise.
    pub fn take_max_promise_sync(&mut self) -> (sync: Option<LogSync<T>>)
        ensures
            final(self)@ == (LeaderView { max_promise_sync: None, ..old(self)@ }),
            util::view_option(sync) == old(self)@.max_promise_sync,
    {
        self.max_promise_sync.take()
    }

    /// The most recent promise.
    pub fn get_max_promise_meta(&self) -> (meta: &PromiseMetaData)
        ensures
            *meta == self@.max_promise_meta,
    {
        &self.max_promise_meta
    }

    /// The highest decided index among the promises.
    pub fn get_max_decided_idx(&self) -> (idx: usize)
        ensures
            idx == max_decided(self@.promises),
    {
        let ghost promises = self.promises_meta@;
        let mut highest: usize = 0;
        let mut i: usize = 0;
        assert(promises.take(0) =~= Seq::empty());
        while i < self.promises_meta.len()
            invariant
                i <= promises.len(),
                promises == self.promises_meta@,
                highest == max_decided(promises.take(i as int)),
            decreases promises.len() - i,
        {
            assert(promises.take(i + 1).drop_last() =~= promises.take(i as int));
            if let PromiseState::Promised(meta) = self.promises_meta[i] {
                if meta.decided_idx > highest {
                    highest = meta.decided_idx;
                }
            }
            i = i + 1;
        }
        assert(promises.take(i as int) =~= promises);
        highest
    }

    /// The promise of `pid`.
    pub fn get_promise_meta(&self, pid: NodeId) -> (meta: PromiseMetaData)
        requires
            self@.wf(),
            self@.has(pid),
            has_promised(self@.promise_of(pid)),
        ensures
            self@.promise_of(pid) == PromiseState::Promised(meta),
    {
        match self.promises_meta[Self::pid_to_idx(pid)] {
            PromiseState::Promised(meta) => meta,
            _ => vstd::pervasive::unreached(),
        }
    }

    /// The servers that have promised, without the leader.
    pub fn get_promised_followers(&self) -> (followers: Vec<NodeId>)
        requires
            self@.wf(),
        ensures
            followers@ == self@.promised_followers(),
    {
        let ghost pred = promised_follower(self@.promises, self@.n_leader.pid);
        let ghost ids = node_ids(self.max_pid as nat);
        let mut followers: Vec<NodeId> = Vec::new();
        let mut i: usize = 0;
        reveal(Seq::filter);
        assert(ids.take(0) =~= Seq::empty());
        while i < self.promises_meta.len()
            invariant
                i <= self.max_pid,
                self@.wf(),
                ids == node_ids(self.max_pid as nat),
                pred == promised_follower(self@.promises, self@.n_leader.pid),
                followers@ == ids.take(i as int).filter(pred),
            decreases self.max_pid - i,
        {
            reveal(Seq::filter);
            assert(ids.take(i + 1).drop_last() =~= ids.take(i as int));
            let pid: NodeId = (i + 1) as NodeId;
            assert(ids.take(i + 1).last() == pid);
            if let PromiseState::Promised(_) = self.promises_meta[i] {
                if pid != self.n_leader.pid {
                    followers.push(pid);
                }
            }
            i = i + 1;
        }
        assert(ids.take(i as int) =~= ids);
        followers
    }

    /// The peers which have not promised to anyone.
    pub fn get_preparable_peers(&self, peers: &Vec<NodeId>) -> (preparable: Vec<NodeId>)
        requires
            self@.wf(),
            forall|i: int| 0 <= i < peers@.len() ==> self@.has(#[trigger] peers@[i]),
        ensures
            preparable@ == self@.preparable(peers@),
    {
        let ghost promises = self@.promises;
        let ghost pred = |pid: NodeId| promises[pid - 1] is NotPromised;
        let mut preparable: Vec<NodeId> = Vec::new();
        let mut i: usize = 0;
        reveal(Seq::filter);
        assert(peers@.take(0) =~= Seq::empty());
        while i < peers.len()
            invariant
                i <= peers@.len(),
                self@.wf(),
                forall|i: int| 0 <= i < peers@.len() ==> self@.has(#[trigger] peers@[i]),
                promises == self@.promises,
                pred == (|pid: NodeId| promises[pid - 1] is NotPromised),
                preparable@ == peers@.take(i as int).filter(pred),
            decreases peers.len() - i,
        {
            reveal(Seq::filter);
            assert(peers@.take(i + 1).drop_last() =~= peers@.take(i as int));
            let pid: NodeId = peers[i];
            assert(self@.has(peers@[i as int]));
            if let PromiseState::NotPromised = self.promises_meta[Self::pid_to_idx(pid)] {
                preparable.push(pid);
            }
            i = i + 1;
        }
        assert(peers@.take(i as int) =~= peers@);
        preparable
    }

    /// Sets or forgets the place of the latest accept to `pid`.
    pub fn set_latest_accept_meta(&mut self, pid: NodeId, outgoing_idx: Option<usize>)
        requires
            old(self)@.wf(),
            old(self)@.has(pid),
        ensures
            final(self)@ == old(self)@.set_latest_accept(pid, outgoing_idx),
    {
        let idx: usize = Self::pid_to_idx(pid);
        self.latest_accept_meta[idx] = match outgoing_idx {
            Some(place) => Some((self.n_leader, place)),
            None => None,
        };
    }

    /// The ballot and the place of the latest accept to `pid`.
    pub fn get_latest_accept_meta(&self, pid: NodeId) -> (meta: Option<(Ballot, usize)>)
        requires
            self@.wf(),
            self@.has(pid),
        ensures
            meta == self@.latest_accept[pid - 1],
    {
        self.latest_accept_meta[Self::pid_to_idx(pid)]
    }

    /// Notes how far `pid` has accepted the log.
    pub fn set_accepted_idx(&mut self, pid: NodeId, idx: usize)
        requires
            old(self)@.wf(),
            old(self)@.has(pid),
        ensures
            final(self)@ == old(self)@.set_accepted_idx(pid, idx),
    {
        let place: usize = Self::pid_to_idx(pid);
        self.accepted_indexes[place] = idx;
    }

    /// The decided index that `pid` told with its promise.
    pub fn get_decided_idx(&self, pid: NodeId) -> (idx: Option<usize>)
        requires
            self@.wf(),
            self@.has(pid),
        ensures
            idx == match self@.promise_of(pid) {
                PromiseState::Promised(meta) => Some(meta.decided_idx),
                _ => None,
            },
    {
        match self.promises_meta[Self::pid_to_idx(pid)] {
            PromiseState::Promised(meta) => Some(meta.decided_idx),
            _ => None,
        }
    }

    /// How far `pid` has accepted the log.
    pub fn get_accepted_idx(&self, pid: NodeId) -> (idx: usize)
        requires
            self@.wf(),
            self@.has(pid),
        ensures
            idx == self@.accepted_of(pid),
    {
        self.accepted_indexes[Self::pid_to_idx(pid)]
    }

    /// Whether enough servers have accepted the log up to `idx`.
    pub fn is_chosen(&self, idx: usize) -> (chosen: bool)
        ensures
            chosen == self@.chosen(idx),
    {
        let ghost pred = |accepted: usize| accepted >= idx;
        let ghost indexes = self.accepted_indexes@;
        let mut num_accepted: usize = 0;
        let mut i: usize = 0;
        reveal(Seq::filter);
        assert(indexes.take(0) =~= Seq::empty());
        while i < self.accepted_indexes.len()
            invariant
                i <= indexes.len(),
                indexes == self.accepted_indexes@,
                pred == (|accepted: usize| accepted >= idx),
                num_accepted == indexes.take(i as int).filter(pred).len(),
                num_accepted <= i,
            decreases indexes.len() - i,
        {
            reveal(Seq::filter);
            assert(indexes.take(i + 1).drop_last() =~= indexes.take(i as int));
            if self.accepted_indexes[i] >= idx {
                num_accepted = num_accepted + 1;
            }
            i = i + 1;
        }
        assert(indexes.take(i as int) =~= indexes);
        self.quorum.is_accept_quorum(num_accepted)
    }
}

} // verus!
