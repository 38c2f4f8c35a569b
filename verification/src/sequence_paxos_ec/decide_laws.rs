//! What holds of deciding: when an index is decided, and who is told.
use crate::erasure::log_entry::ECEntry;
use crate::leader_state;
use crate::messages::{Accepted, Decide, MessageView, MsgView, SequenceNumber};
use crate::sequence_paxos_ec::model::PaxosView;
use crate::sequence_paxos_ec::{PhaseEC, RoleEC, SequencePaxosEC};
use crate::storage::Storage;
use crate::util::{NodeId, Quorum};
use vstd::prelude::*;

verus! {

/// How many servers must have accepted an entry to choose it.
pub open spec fn write_quorum(quorum: Quorum) -> nat {
    match quorum {
        Quorum::Majority(size) => size as nat,
        Quorum::Flexible(sizes) => sizes.write_quorum_size as nat,
    }
}

/// The servers whose noted accepted index is at least `idx`.
pub open spec fn holders<T: ECEntry>(server: PaxosView<T>, idx: usize) -> Set<NodeId> {
    Set::new(
        |pid: NodeId| 1 <= pid <= server.leader.max_pid && server.leader.accepted[pid - 1] >= idx,
    )
}

/// The servers whose noted accepted index is at least `idx`, and `from`.
pub open spec fn holders_with<T: ECEntry>(
    server: PaxosView<T>,
    idx: usize,
    from: NodeId,
) -> Set<NodeId> {
    Set::new(
        |pid: NodeId|
            1 <= pid <= server.leader.max_pid && (pid == from || server.leader.accepted[pid - 1]
                >= idx),
    )
}

/// A server other than the leader of the round, which has promised it.
pub open spec fn is_follower<T: ECEntry>(server: PaxosView<T>, pid: NodeId) -> bool {
    &&& 1 <= pid <= server.leader.max_pid
    &&& server.leader.promises[pid - 1] is Promised
    &&& pid != server.leader.n_leader.pid
}

/// The server has an accept of this round to `pid` among its outgoing messages that it
/// may amend, at this place.
pub open spec fn amendable<T: ECEntry>(server: PaxosView<T>, pid: NodeId, place: int) -> bool {
    &&& server.leader.latest_accept[pid - 1] matches Some((n, at))
    &&& n == server.leader.n_leader
    &&& at == place
    &&& server.outgoing[place].msg is AcceptDecide
}

/// The index is decided by `accepted`: it comes from a follower of the round while the
/// server leads in its accept phase, is above the decided index, and with it a write
/// quorum of servers has accepted the log that far.
pub open spec fn is_quorum_met<T: ECEntry>(
    server: PaxosView<T>,
    accepted: Accepted,
    from: NodeId,
) -> bool {
    let idx = accepted.accepted_idx;
    &&& accepted.n == server.leader.n_leader
    &&& server.role == RoleEC::Leader
    &&& server.phase == PhaseEC::Accept
    &&& idx > server.storage.model.decided_idx
    &&& holders_with(server, idx, from).len() >= write_quorum(server.leader.quorum)
}

proof fn lemma_decides<T: ECEntry>(server: PaxosView<T>, accepted: Accepted, from: NodeId)
    requires
        server.wf(),
        server.leader.has(from),
        server.storage.model.decided_idx <= usize::MAX,
    ensures
        server.decides(accepted, from) <==> is_quorum_met(server, accepted, from),
{
    let idx = accepted.accepted_idx;
    leader_state::lemma_chosen(
        server.leader.set_accepted_idx(from, idx),
        idx,
        holders_with(server, idx, from),
    );
}

/// Where the decided index moves, it moves to the index that was accepted, and a write
/// quorum of different servers has a noted accepted index that is at least that.
pub proof fn decided_index_has_a_write_quorum<T: ECEntry, B: Storage<T>>(
    before: SequencePaxosEC<T, B>,
    accepted: Accepted,
    from: NodeId,
    after: SequencePaxosEC<T, B>,
)
    requires
        before.wf(),
        before@.leader.has(from),
        exists|d: &mut SequencePaxosEC<T, B>|
            *d == before && *final(d) == after && #[trigger] call_ensures(
                SequencePaxosEC::<T, B>::handle_accepted,
                (d, accepted, from),
                Ok(()),
            ),
        after@.storage.model.decided_idx != before@.storage.model.decided_idx,
    ensures
        after@.storage.model.decided_idx == accepted.accepted_idx,
        after@.storage.model.decided_idx > before@.storage.model.decided_idx,
        holders(after@, accepted.accepted_idx).finite(),
        holders(after@, accepted.accepted_idx).len() >= write_quorum(after@.leader.quorum),
{
    let idx = accepted.accepted_idx;
    accepted_is_noted(before, accepted, from, after);
    lemma_decides(before@, accepted, from);
    leader_state::lemma_chosen(
        before@.leader.set_accepted_idx(from, idx),
        idx,
        holders_with(before@, idx, from),
    );
    assert(holders(after@, idx) =~= holders_with(before@, idx, from));
}

/// An accepted of the round is noted for its sender, in the accept phase of the leader.
/// It decides its index where that makes a write quorum, and only there; nothing else of
/// the storage changes. Any other accepted changes nothing.
pub proof fn accepted_is_noted<T: ECEntry, B: Storage<T>>(
    before: SequencePaxosEC<T, B>,
    accepted: Accepted,
    from: NodeId,
    after: SequencePaxosEC<T, B>,
)
    requires
        before.wf(),
        before@.leader.has(from),
        exists|d: &mut SequencePaxosEC<T, B>|
            *d == before && *final(d) == after && #[trigger] call_ensures(
                SequencePaxosEC::<T, B>::handle_accepted,
                (d, accepted, from),
                Ok(()),
            ),
    ensures
        accepted.n == before@.leader.n_leader && before@.role == RoleEC::Leader && before@.phase
            == PhaseEC::Accept ==> after@.leader.accepted == before@.leader.accepted.update(
            from - 1,
            accepted.accepted_idx,
        ),
        accepted.n != before@.leader.n_leader || before@.role != RoleEC::Leader || before@.phase
            != PhaseEC::Accept ==> after@ == before@,
        after@.storage.model.decided_idx == if is_quorum_met(before@, accepted, from) {
            accepted.accepted_idx as nat
        } else {
            before@.storage.model.decided_idx
        },
        after@.storage.model.log == before@.storage.model.log,
        after@.storage.model.promise == before@.storage.model.promise,
        after@.storage.model.accepted_round == before@.storage.model.accepted_round,
        after@.storage.model.compacted_idx == before@.storage.model.compacted_idx,
        after@.storage.model.snapshot == before@.storage.model.snapshot,
        after@.storage.model.stopsign == before@.storage.model.stopsign,
        after@.storage.batched == before@.storage.batched,
        after@.storage.batch_size == before@.storage.batch_size,
        after@.leader.n_leader == before@.leader.n_leader,
        after@.leader.promises == before@.leader.promises,
        after@.leader.max_promise_meta == before@.leader.max_promise_meta,
        after@.leader.max_promise_sync == before@.leader.max_promise_sync,
        after@.leader.latest_accept == before@.leader.latest_accept,
        after@.leader.max_pid == before@.leader.max_pid,
        after@.leader.quorum == before@.leader.quorum,
        after@.pid == before@.pid,
        after@.peers == before@.peers,
        after@.role == before@.role,
        after@.phase == before@.phase,
        after@.buffered_proposals == before@.buffered_proposals,
        after@.buffered_stopsign == before@.buffered_stopsign,
        after@.k == before@.k,
        after@.m == before@.m,
        !is_quorum_met(before@, accepted, from) ==> after@.outgoing == before@.outgoing
            && after@.leader.seq_nums == before@.leader.seq_nums,
{
    let b = before@;
    let idx = accepted.accepted_idx;
    lemma_decides(b, accepted, from);
    let noted = b.with_leader(b.leader.set_accepted_idx(from, idx)).with_storage(
        b.storage.set_decided_idx(idx),
    );
    leader_state::lemma_promised_followers(b.leader);
    lemma_told(noted, b.leader.promised_followers(), idx);
}

/// What telling servers an index does: the accepts that may be amended tell it, the
/// other servers get a decide, each one, and nothing else changes.
proof fn lemma_told<T: ECEntry>(server: PaxosView<T>, pids: Seq<NodeId>, idx: usize)
    requires
        server.leader.wf(),
        server.accepts_placed(),
        pids.no_duplicates(),
        forall|i: int| 0 <= i < pids.len() ==> server.leader.has(#[trigger] pids[i]),
    ensures
        ({
            let a = server.notify_all(pids, idx);
            let len = server.outgoing.len();
            &&& a == (PaxosView {
                outgoing: a.outgoing,
                leader: leader_state::LeaderView { seq_nums: a.leader.seq_nums, ..server.leader },
                ..server
            })
            &&& a.outgoing.len() >= len
            &&& a.leader.seq_nums.len() == server.leader.seq_nums.len()
            &&& forall|i: int|
                0 <= i < len ==> (#[trigger] a.outgoing[i]) == server.outgoing[i] || (
                server.outgoing[i].msg is AcceptDecide && a.outgoing[i] == told(
                    server.outgoing[i],
                    idx,
                ) && exists|pid: NodeId|
                    #[trigger] pids.contains(pid) && amendable(server, pid, i))
            &&& forall|pid: NodeId, i: int|
                pids.contains(pid) && #[trigger] amendable(server, pid, i) ==> a.outgoing[i]
                    == told(server.outgoing[i], idx)
            &&& forall|i: int|
                len <= i < a.outgoing.len() ==> {
                    let m = #[trigger] a.outgoing[i];
                    &&& m.from == server.pid
                    &&& pids.contains(m.to)
                    &&& forall|at: int| !amendable(server, m.to, at)
                    &&& m.msg == MsgView::<T>::Decide(
                        Decide {
                            n: server.leader.n_leader,
                            seq_num: leader_state::next_number(server.leader.seq_nums[m.to - 1]),
                            decided_idx: idx,
                        },
                    )
                }
            &&& forall|i: int, j: int|
                len <= i < j < a.outgoing.len() ==> (#[trigger] a.outgoing[i]).to != (
                #[trigger] a.outgoing[j]).to
            &&& forall|pid: NodeId| #[trigger]
                pids.contains(pid) ==> (exists|at: int| amendable(server, pid, at)) || (exists|
                    i: int,
                |
                    len <= i < a.outgoing.len() && (#[trigger] a.outgoing[i]).to == pid)
            &&& forall|pid: NodeId|
                server.leader.has(pid) ==> (#[trigger] a.leader.seq_nums[pid - 1])
                    == if pids.contains(pid) && !(exists|at: int| amendable(server, pid, at)) {
                    leader_state::next_number(server.leader.seq_nums[pid - 1])
                } else {
                    server.leader.seq_nums[pid - 1]
                }
        }),
    decreases pids.len(),
{
    if pids.len() > 0 {
        let first = pids.drop_last();
        let last = pids.last();
        let mid = server.notify_all(first, idx);
        let a = server.notify_all(pids, idx);
        assert forall|i: int| 0 <= i < first.len() implies server.leader.has(
            #[trigger] first[i],
        ) by {
            assert(first[i] == pids[i]);
        }
        lemma_told(server, first, idx);
        assert(server.leader.has(pids[pids.len() - 1]));
        assert(!first.contains(last));
        assert forall|pid: NodeId| #[trigger] pids.contains(pid) <==> first.contains(pid) || pid
            == last by {
            if pids.contains(pid) && pid != last {
                let j = choose|j: int| 0 <= j < pids.len() && pids[j] == pid;
                assert(first[j] == pid);
            }
            if first.contains(pid) {
                let j = choose|j: int| 0 <= j < first.len() && first[j] == pid;
                assert(pids[j] == pid);
            }
            if pid == last {
                assert(pids[pids.len() - 1] == pid);
            }
        }
        let len = server.outgoing.len();
        assert(mid.latest_accept_place(last) is Some <==> exists|at: int|
            amendable(server, last, at)) by {
            match server.leader.latest_accept[last - 1] {
                Some((n, at)) => {
                    if n == server.leader.n_leader {
                        assert(at < len);
                        assert(mid.outgoing[at as int].msg is AcceptDecide
                            <==> server.outgoing[at as int].msg is AcceptDecide);
                        if server.outgoing[at as int].msg is AcceptDecide {
                            assert(amendable(server, last, at as int));
                        }
                    }
                },
                None => {},
            }
        }
        match mid.latest_accept_place(last) {
            Some(place) => {
                assert(amendable(server, last, place));
                assert(0 <= place < len);
                assert(a.outgoing[place] == told(server.outgoing[place], idx));
                assert forall|i: int| 0 <= i < len implies (#[trigger] a.outgoing[i])
                    == server.outgoing[i] || (server.outgoing[i].msg is AcceptDecide
                    && a.outgoing[i] == told(server.outgoing[i], idx) && exists|pid: NodeId|
                    #[trigger] pids.contains(pid) && amendable(server, pid, i)) by {
                    if i == place {
                        assert(pids.contains(last) && amendable(server, last, i));
                    } else {
                        assert(a.outgoing[i] == mid.outgoing[i]);
                        if mid.outgoing[i] != server.outgoing[i] {
                            let pid = choose|pid: NodeId| #[trigger]
                                first.contains(pid) && amendable(server, pid, i);
                            assert(pids.contains(pid) && amendable(server, pid, i));
                        }
                    }
                }
                assert forall|pid: NodeId| #[trigger] pids.contains(pid) implies (exists|at: int|
                    amendable(server, pid, at)) || (exists|i: int|
                    len <= i < a.outgoing.len() && (#[trigger] a.outgoing[i]).to == pid) by {
                    if first.contains(pid) && !(exists|at: int| amendable(server, pid, at)) {
                        let i = choose|i: int|
                            len <= i < mid.outgoing.len() && (#[trigger] mid.outgoing[i]).to
                                == pid;
                        assert(a.outgoing[i].to == pid);
                    }
                }
            },
            None => {
                let new = mid.outgoing.len() as int;
                assert(a.outgoing[new].to == last);
                assert forall|i: int| 0 <= i < new implies (#[trigger] a.outgoing[i])
                    == mid.outgoing[i] by {}
                assert forall|i: int| 0 <= i < len implies (#[trigger] a.outgoing[i])
                    == server.outgoing[i] || (server.outgoing[i].msg is AcceptDecide
                    && a.outgoing[i] == told(server.outgoing[i], idx) && exists|pid: NodeId|
                    #[trigger] pids.contains(pid) && amendable(server, pid, i)) by {
                    if mid.outgoing[i] != server.outgoing[i] {
                        let pid = choose|pid: NodeId| #[trigger]
                            first.contains(pid) && amendable(server, pid, i);
                        assert(pids.contains(pid) && amendable(server, pid, i));
                    }
                }
                assert forall|pid: NodeId| #[trigger] pids.contains(pid) implies (exists|at: int|
                    amendable(server, pid, at)) || (exists|i: int|
                    len <= i < a.outgoing.len() && (#[trigger] a.outgoing[i]).to == pid) by {
                    if first.contains(pid) && !(exists|at: int| amendable(server, pid, at)) {
                        let i = choose|i: int|
                            len <= i < mid.outgoing.len() && (#[trigger] mid.outgoing[i]).to
                                == pid;
                        assert(a.outgoing[i].to == pid);
                    }
                }
            },
        }
    } else {
        assert(server.leader == (leader_state::LeaderView {
            seq_nums: server.leader.seq_nums,
            ..server.leader
        }));
    }
}

/// An accept with another decided index.
pub open spec fn told<T: ECEntry>(message: MessageView<T>, idx: usize) -> MessageView<T> {
    MessageView {
        msg: MsgView::AcceptDecide(
            crate::messages::AcceptDecideView { decided_idx: idx, ..message.msg->AcceptDecide_0 },
        ),
        ..message
    }
}

/// Once an index is decided, every follower is told, in one way: the accept of this
/// round to it that may be amended tells the index, or, where there is none, one decide
/// goes to it with the next number. Nobody else is told, and no other message changes.
pub proof fn every_follower_is_told_once<T: ECEntry, B: Storage<T>>(
    before: SequencePaxosEC<T, B>,
    accepted: Accepted,
    from: NodeId,
    after: SequencePaxosEC<T, B>,
)
    requires
        before.wf(),
        before@.leader.has(from),
        exists|d: &mut SequencePaxosEC<T, B>|
            *d == before && *final(d) == after && #[trigger] call_ensures(
                SequencePaxosEC::<T, B>::handle_accepted,
                (d, accepted, from),
                Ok(()),
            ),
        is_quorum_met(before@, accepted, from),
    ensures
        ({
            let b = before@;
            let a = after@;
            let idx = accepted.accepted_idx;
            &&& a.outgoing.len() >= b.outgoing.len()
            &&& forall|pid: NodeId, i: int|
                is_follower(b, pid) && #[trigger] amendable(b, pid, i) ==> a.outgoing[i] == told(
                    b.outgoing[i],
                    idx,
                )
            &&& forall|i: int|
                0 <= i < b.outgoing.len() && (#[trigger] a.outgoing[i]) != b.outgoing[i]
                    ==> exists|pid: NodeId| is_follower(b, pid) && #[trigger] amendable(b, pid, i)
            &&& forall|pid: NodeId|
                #[trigger] is_follower(b, pid) && !(exists|i: int| amendable(b, pid, i))
                    ==> exists|i: int|
                    b.outgoing.len() <= i < a.outgoing.len() && (#[trigger] a.outgoing[i]).to
                        == pid
            &&& forall|i: int|
                b.outgoing.len() <= i < a.outgoing.len() ==> {
                    let m = #[trigger] a.outgoing[i];
                    &&& m.from == b.pid
                    &&& is_follower(b, m.to)
                    &&& forall|at: int| !amendable(b, m.to, at)
                    &&& m.msg matches MsgView::Decide(d)
                    &&& d.n == b.leader.n_leader
                    &&& d.decided_idx == idx
                    &&& d.seq_num.session == b.leader.seq_nums[m.to - 1].session
                    &&& b.leader.seq_nums[m.to - 1].counter < u64::MAX ==> d.seq_num.counter
                        == b.leader.seq_nums[m.to - 1].counter + 1
                    &&& a.leader.seq_nums[m.to - 1] == d.seq_num
                }
            &&& forall|i: int, j: int|
                b.outgoing.len() <= i < j < a.outgoing.len() ==> (#[trigger] a.outgoing[i]).to
                    != (#[trigger] a.outgoing[j]).to
            &&& forall|pid: NodeId|
                b.leader.has(pid) && (#[trigger] a.leader.seq_nums[pid - 1])
                    != b.leader.seq_nums[pid - 1] ==> is_follower(b, pid) && !(exists|i: int|
                    amendable(b, pid, i))
        }),
{
    let b = before@;
    let a = after@;
    let idx = accepted.accepted_idx;
    lemma_decides(b, accepted, from);
    let noted = b.with_leader(b.leader.set_accepted_idx(from, idx)).with_storage(
        b.storage.set_decided_idx(idx),
    );
    let followers = b.leader.promised_followers();
    leader_state::lemma_promised_followers(b.leader);
    leader_state::lemma_promised_followers_all(b.leader);
    lemma_told(noted, followers, idx);
    assert(a == noted.notify_all(followers, idx));
    assert forall|pid: NodeId, i: int| amendable(b, pid, i) <==> #[trigger] amendable(
        noted,
        pid,
        i,
    ) by {}
    assert forall|pid: NodeId| #[trigger] is_follower(b, pid) <==> followers.contains(pid) by {}
    assert forall|i: int|
        0 <= i < b.outgoing.len() && (#[trigger] a.outgoing[i]) != b.outgoing[i] implies exists|
        pid: NodeId,
    | is_follower(b, pid) && #[trigger] amendable(b, pid, i) by {
        let pid = choose|pid: NodeId| #[trigger]
            followers.contains(pid) && amendable(noted, pid, i);
        assert(is_follower(b, pid) && amendable(b, pid, i));
    }
    assert forall|pid: NodeId| #[trigger] is_follower(b, pid) && !(exists|i: int|
        amendable(b, pid, i)) implies exists|i: int|
        b.outgoing.len() <= i < a.outgoing.len() && (#[trigger] a.outgoing[i]).to == pid by {
        assert(followers.contains(pid));
        if exists|at: int| amendable(noted, pid, at) {
            let at = choose|at: int| amendable(noted, pid, at);
            assert(amendable(b, pid, at));
        }
    }
    assert forall|i: int| b.outgoing.len() <= i < a.outgoing.len() implies {
        let m = #[trigger] a.outgoing[i];
        &&& is_follower(b, m.to)
        &&& forall|at: int| !amendable(b, m.to, at)
        &&& a.leader.seq_nums[m.to - 1] == leader_state::next_number(b.leader.seq_nums[m.to - 1])
    } by {
        let m = a.outgoing[i];
        assert(followers.contains(m.to));
        assert(is_follower(b, m.to));
        assert forall|at: int| !amendable(b, m.to, at) by {
            assert(!amendable(noted, m.to, at));
        }
        assert(b.leader.has(m.to));
    }
}

/// To decide again what is decided does nothing: an accepted at or below the decided
/// index moves nothing and tells nobody.
pub proof fn decided_is_not_decided_again<T: ECEntry, B: Storage<T>>(
    before: SequencePaxosEC<T, B>,
    accepted: Accepted,
    from: NodeId,
    after: SequencePaxosEC<T, B>,
)
    requires
        before.wf(),
        before@.leader.has(from),
        exists|d: &mut SequencePaxosEC<T, B>|
            *d == before && *final(d) == after && #[trigger] call_ensures(
                SequencePaxosEC::<T, B>::handle_accepted,
                (d, accepted, from),
                Ok(()),
            ),
        accepted.accepted_idx <= before@.storage.model.decided_idx,
    ensures
        after@.storage == before@.storage,
        after@.outgoing == before@.outgoing,
{
    accepted_is_noted(before, accepted, from, after);
    assert(after@.storage =~= before@.storage);
}

/// A decide goes to one server, in the name of the round, with the next number or with
/// the last one again.
pub proof fn decide_is_addressed<T: ECEntry, B: Storage<T>>(
    before: SequencePaxosEC<T, B>,
    to: NodeId,
    decided_idx: usize,
    resend: bool,
    after: SequencePaxosEC<T, B>,
)
    requires
        before.wf(),
        before@.leader.has(to),
        before@.leader.seq_nums[to - 1].counter < u64::MAX,
        exists|d: &mut SequencePaxosEC<T, B>|
            *d == before && *final(d) == after && #[trigger] call_ensures(
                SequencePaxosEC::<T, B>::send_decide,
                (d, to, decided_idx, resend),
                (),
            ),
    ensures
        ({
            let last = before@.leader.seq_nums[to - 1];
            let number = if resend {
                last
            } else {
                SequenceNumber { session: last.session, counter: (last.counter + 1) as u64 }
            };
            &&& after@.outgoing == before@.outgoing.push(
                MessageView {
                    from: before@.pid,
                    to,
                    msg: MsgView::Decide(
                        Decide { n: before@.leader.n_leader, seq_num: number, decided_idx },
                    ),
                },
            )
            &&& after@.leader.seq_nums == before@.leader.seq_nums.update(to - 1, number)
            &&& after@.storage == before@.storage
            &&& after@.leader.accepted == before@.leader.accepted
            &&& after@.leader.promises == before@.leader.promises
        }),
{
    assert(after@.leader.seq_nums =~= before@.leader.seq_nums.update(
        to - 1,
        after@.leader.seq_nums[to - 1],
    ));
}

} // verus!
