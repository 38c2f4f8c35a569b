//! What holds of elections: who leads, who is asked for a promise, whose promise counts.
use crate::erasure::ec_service::ECService;
use crate::erasure::log_entry::ECEntry;
use crate::internal_storage::InternalStorage;
use crate::leader_state::PromiseState;
use crate::messages::{MessageView, MsgView, NotAccepted, PrepareReq};
use crate::sequence_paxos_ec::accept_laws;
use crate::sequence_paxos_ec::model::PaxosView;
use crate::sequence_paxos_ec::{PhaseEC, RoleEC, SequencePaxosEC};
use crate::storage::Storage;
use crate::util::{Ballot, NodeId, Quorum};
use vstd::prelude::*;

verus! {

/// The round that a storage names, or the lowest one where it names none.
pub open spec fn or_lowest(n: Option<Ballot>) -> Ballot {
    match n {
        Some(ballot) => ballot,
        None => Ballot { config_id: 0, n: 0, priority: 0, pid: 0 },
    }
}

/// The message asks a server for its promise: in the name of the round, with the decided
/// index, the accepted round and the log length of the leader.
pub open spec fn is_prepare<T: ECEntry>(
    server: PaxosView<T>,
    message: MessageView<T>,
    to: NodeId,
) -> bool {
    &&& message.from == server.pid
    &&& message.to == to
    &&& message.msg matches MsgView::Prepare(prep)
    &&& prep.n == server.leader.n_leader
    &&& prep.decided_idx == server.storage.model.decided_idx
    &&& prep.n_accepted == or_lowest(server.storage.model.accepted_round)
    &&& prep.accepted_idx == accept_laws::log_end(server)
}

/// The same server, but for what it knows as a leader, what it is to send, and its role
/// and phase.
pub open spec fn same_storage_and_buffers<T: ECEntry>(
    before: PaxosView<T>,
    after: PaxosView<T>,
) -> bool {
    &&& after.pid == before.pid
    &&& after.peers == before.peers
    &&& after.buffered_proposals == before.buffered_proposals
    &&& after.buffered_stopsign == before.buffered_stopsign
    &&& after.k == before.k
    &&& after.m == before.m
    &&& after.storage == before.storage
}

/// A server that is elected with a ballot above all that it has led or promised promises
/// the round to itself, writes what waited in its batch, knows of no promise but its own,
/// and asks each peer for its promise, once.
pub proof fn elected_server_prepares<T: ECEntry, B: Storage<T>>(
    before: SequencePaxosEC<T, B>,
    n: Ballot,
    after: SequencePaxosEC<T, B>,
)
    requires
        before.wf(),
        before@.leader.n_leader.below(n),
        or_lowest(before@.storage.model.promise).below(n),
        before@.pid == n.pid,
        exists|d: &mut SequencePaxosEC<T, B>|
            *d == before && *final(d) == after && #[trigger] call_ensures(
                SequencePaxosEC::<T, B>::handle_leader,
                (d, n),
                Ok(()),
            ),
    ensures
        after@.role == RoleEC::Leader,
        after@.phase == PhaseEC::Prepare,
        after@.storage.model.promise == Some(n),
        after@.storage.model.log == before@.storage.model.log + before@.storage.batched,
        after@.storage.batched.len() == 0,
        after@.storage.batch_size == before@.storage.batch_size,
        after@.storage.model.accepted_round == before@.storage.model.accepted_round,
        after@.storage.model.decided_idx == before@.storage.model.decided_idx,
        after@.storage.model.compacted_idx == before@.storage.model.compacted_idx,
        after@.storage.model.snapshot == before@.storage.model.snapshot,
        after@.storage.model.stopsign == before@.storage.model.stopsign,
        after@.pid == before@.pid,
        after@.peers == before@.peers,
        after@.buffered_proposals == before@.buffered_proposals,
        after@.buffered_stopsign == before@.buffered_stopsign,
        after@.k == before@.k,
        after@.m == before@.m,
        after@.leader.n_leader == n,
        after@.leader.max_pid == before@.leader.max_pid,
        after@.leader.quorum == before@.leader.quorum,
        after@.leader.max_promise_sync is None,
        after@.leader.promises.len() == before@.leader.max_pid,
        forall|pid: NodeId|
            1 <= pid <= before@.leader.max_pid ==> {
                let state = #[trigger] after@.leader.promises[pid - 1];
                &&& pid != before@.pid ==> state == PromiseState::NotPromised
                &&& pid == before@.pid ==> (state matches PromiseState::Promised(own)
                    && own.pid == pid && own.n_accepted == or_lowest(
                    after@.storage.model.accepted_round,
                ) && own.decided_idx == after@.storage.model.decided_idx && own.accepted_idx
                    == accept_laws::log_end(after@) && after@.leader.max_promise_meta.n_accepted
                    == own.n_accepted && after@.leader.max_promise_meta.accepted_idx
                    == own.accepted_idx)
            },
        forall|i: int|
            0 <= i < before@.leader.max_pid ==> (#[trigger] after@.leader.accepted[i]) == 0,
        forall|i: int|
            0 <= i < before@.leader.max_pid ==> (#[trigger] after@.leader.seq_nums[i]).session == 0
                && after@.leader.seq_nums[i].counter == 0,
        forall|i: int|
            0 <= i < before@.leader.max_pid ==> (#[trigger] after@.leader.latest_accept[i]) is None,
        after@.outgoing.len() == before@.outgoing.len() + before@.peers.len(),
        forall|i: int|
            0 <= i < before@.outgoing.len() ==> (#[trigger] after@.outgoing[i])
                == before@.outgoing[i],
        forall|j: int|
            0 <= j < before@.peers.len() ==> is_prepare(
                after@,
                after@.outgoing[before@.outgoing.len() + j],
                #[trigger] before@.peers[j],
            ),
{
    let b = before@;
    let a = after@;
    assert(a == b.handle_leader(n));
    assert forall|j: int| 0 <= j < b.peers.len() implies is_prepare(
        a,
        a.outgoing[b.outgoing.len() + j],
        #[trigger] b.peers[j],
    ) by {}
    let own = a.leader.promises[b.pid - 1];
    Ballot::total_order(
        or_lowest(a.storage.model.accepted_round),
        Ballot::bottom(),
        Ballot::bottom(),
    );
}

/// A new leader that is another server only makes this one follow.
pub proof fn other_leader_is_followed<T: ECEntry, B: Storage<T>>(
    before: SequencePaxosEC<T, B>,
    n: Ballot,
    after: SequencePaxosEC<T, B>,
)
    requires
        before.wf(),
        before@.pid != n.pid,
        exists|d: &mut SequencePaxosEC<T, B>|
            *d == before && *final(d) == after && #[trigger] call_ensures(
                SequencePaxosEC::<T, B>::handle_leader,
                (d, n),
                Ok(()),
            ),
    ensures
        same_storage_and_buffers(before@, after@),
        after@.leader == before@.leader,
        after@.phase == before@.phase,
        after@.outgoing == before@.outgoing,
        after@.role == if before@.leader.n_leader.below(n) && or_lowest(
            before@.storage.model.promise,
        ).below(n) {
            RoleEC::Follower
        } else {
            before@.role
        },
{
}

/// A ballot that is not above both the round that the server leads and the one that it
/// has promised leaves the server as it is.
pub proof fn lower_ballot_changes_nothing<T: ECEntry, B: Storage<T>>(
    before: SequencePaxosEC<T, B>,
    n: Ballot,
    after: SequencePaxosEC<T, B>,
)
    requires
        before.wf(),
        !before@.leader.n_leader.below(n) || !or_lowest(before@.storage.model.promise).below(n),
        exists|d: &mut SequencePaxosEC<T, B>|
            *d == before && *final(d) == after && #[trigger] call_ensures(
                SequencePaxosEC::<T, B>::handle_leader,
                (d, n),
                Ok(()),
            ),
    ensures
        after == before,
{
}

/// To follow is to be a follower, and nothing more.
pub proof fn following_changes_the_role<T: ECEntry, B: Storage<T>>(
    before: SequencePaxosEC<T, B>,
    after: SequencePaxosEC<T, B>,
)
    requires
        before.wf(),
        exists|d: &mut SequencePaxosEC<T, B>|
            *d == before && *final(d) == after && #[trigger] call_ensures(
                SequencePaxosEC::<T, B>::become_follower,
                (d,),
                (),
            ),
    ensures
        same_storage_and_buffers(before@, after@),
        after@.leader == before@.leader,
        after@.phase == before@.phase,
        after@.outgoing == before@.outgoing,
        after@.role == RoleEC::Follower,
{
}

/// A server that is asked for its promise gets one prepare; nothing else changes.
pub proof fn prepare_is_addressed<T: ECEntry, B: Storage<T>>(
    before: SequencePaxosEC<T, B>,
    to: NodeId,
    after: SequencePaxosEC<T, B>,
)
    requires
        before.wf(),
        exists|d: &mut SequencePaxosEC<T, B>|
            *d == before && *final(d) == after && #[trigger] call_ensures(
                SequencePaxosEC::<T, B>::send_prepare,
                (d, to),
                (),
            ),
    ensures
        same_storage_and_buffers(before@, after@),
        after@.leader == before@.leader,
        after@.role == before@.role,
        after@.phase == before@.phase,
        after@.outgoing.len() == before@.outgoing.len() + 1,
        before@.outgoing.is_prefix_of(after@.outgoing),
        is_prepare(after@, after@.outgoing.last(), to),
{
}

/// A follower that asks to be prepared, and knows of no higher round, loses the promise
/// that was noted of it and is asked for a new one. Other servers' promises stay.
/// Anything else is ignored.
pub proof fn preparereq_is_answered<T: ECEntry, B: Storage<T>>(
    before: SequencePaxosEC<T, B>,
    prepreq: PrepareReq,
    from: NodeId,
    after: SequencePaxosEC<T, B>,
)
    requires
        before.wf(),
        before@.leader.has(from),
        exists|d: &mut SequencePaxosEC<T, B>|
            *d == before && *final(d) == after && #[trigger] call_ensures(
                SequencePaxosEC::<T, B>::handle_preparereq,
                (d, prepreq, from),
                (),
            ),
    ensures
        same_storage_and_buffers(before@, after@),
        after@.role == before@.role,
        after@.phase == before@.phase,
        after@.leader.n_leader == before@.leader.n_leader,
        after@.leader.seq_nums == before@.leader.seq_nums,
        after@.leader.accepted == before@.leader.accepted,
        after@.leader.max_promise_meta == before@.leader.max_promise_meta,
        after@.leader.max_promise_sync == before@.leader.max_promise_sync,
        after@.leader.quorum == before@.leader.quorum,
        if before@.role == RoleEC::Leader && !before@.leader.n_leader.below(prepreq.n) {
            &&& after@.leader.promises == before@.leader.promises.update(
                from - 1,
                PromiseState::NotPromised,
            )
            &&& after@.leader.latest_accept == before@.leader.latest_accept.update(from - 1, None)
            &&& after@.outgoing.len() == before@.outgoing.len() + 1
            &&& before@.outgoing.is_prefix_of(after@.outgoing)
            &&& is_prepare(after@, after@.outgoing.last(), from)
        } else {
            after@ == before@
        },
{
}

/// A server that refuses because it has promised a higher round no longer counts as
/// promised, nor is it asked again. Anything else is ignored.
pub proof fn refusal_loses_the_promise<T: ECEntry, B: Storage<T>>(
    before: SequencePaxosEC<T, B>,
    not_acc: NotAccepted,
    from: NodeId,
    after: SequencePaxosEC<T, B>,
)
    requires
        before.wf(),
        before@.leader.has(from),
        exists|d: &mut SequencePaxosEC<T, B>|
            *d == before && *final(d) == after && #[trigger] call_ensures(
                SequencePaxosEC::<T, B>::handle_notaccepted,
                (d, not_acc, from),
                (),
            ),
    ensures
        same_storage_and_buffers(before@, after@),
        after@.role == before@.role,
        after@.phase == before@.phase,
        after@.outgoing == before@.outgoing,
        after@.leader.n_leader == before@.leader.n_leader,
        after@.leader.seq_nums == before@.leader.seq_nums,
        after@.leader.accepted == before@.leader.accepted,
        after@.leader.latest_accept == before@.leader.latest_accept,
        after@.leader.max_promise_meta == before@.leader.max_promise_meta,
        after@.leader.max_promise_sync == before@.leader.max_promise_sync,
        after@.leader.promises == if before@.role == RoleEC::Leader
            && before@.leader.n_leader.below(not_acc.n) {
            before@.leader.promises.update(from - 1, PromiseState::PromisedHigher)
        } else {
            before@.leader.promises
        },
{
}

/// A server that starts follows, is in no phase, has nothing to send and nothing that
/// waits, and knows of no promise and of nothing accepted.
pub proof fn new_server_knows_nothing<T: ECEntry, B: Storage<T>>(
    pid: NodeId,
    peers: Vec<NodeId>,
    max_pid: usize,
    quorum: Quorum,
    ec_service: ECService,
    internal_storage: InternalStorage<B, T>,
    server: SequencePaxosEC<T, B>,
)
    requires
        call_ensures(
            SequencePaxosEC::<T, B>::with,
            (pid, peers, max_pid, quorum, ec_service, internal_storage),
            server,
        ),
    ensures
        server.wf(),
        server.internal_storage == internal_storage,
        server@.pid == pid,
        server@.peers == peers@,
        server@.role == RoleEC::Follower,
        server@.phase == PhaseEC::Idle,
        server@.outgoing.len() == 0,
        server@.buffered_proposals.len() == 0,
        server@.buffered_stopsign is None,
        server@.k == ec_service.data_shards,
        server@.m == ec_service.parity_shards,
        server@.leader.n_leader == or_lowest(None),
        server@.leader.max_pid == max_pid,
        server@.leader.quorum == quorum,
        forall|i: int|
            0 <= i < max_pid ==> (#[trigger] server@.leader.promises[i])
                == PromiseState::NotPromised,
        forall|i: int| 0 <= i < max_pid ==> (#[trigger] server@.leader.accepted[i]) == 0,
{
}

} // verus!
