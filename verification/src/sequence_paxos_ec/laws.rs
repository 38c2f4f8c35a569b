//! What holds of everything that a server does as the leader.
use crate::erasure::codec;
use crate::erasure::ec_service;
use crate::erasure::ec_service::FragmentView;
use crate::erasure::laws;
use crate::erasure::log_entry::{ECEntry, EntryView};
use crate::leader_state;
use crate::messages::{Accepted, MessageView, MsgView};
use crate::sequence_paxos_ec::model::{CodedView, PaxosView};
use crate::sequence_paxos_ec::{PhaseEC, RoleEC};
use crate::storage::StopSignView;
use crate::util::{Ballot, NodeId};
use vstd::prelude::*;

verus! {

/// The round that a message of the leader belongs to.
pub open spec fn round_of<T: ECEntry>(msg: MsgView<T>) -> Option<Ballot> {
    match msg {
        MsgView::Prepare(m) => Some(m.n),
        MsgView::AcceptSync { n, .. } => Some(n),
        MsgView::AcceptDecide(m) => Some(m.n),
        MsgView::Decide(m) => Some(m.n),
        MsgView::AcceptStopSign { n, .. } => Some(n),
        _ => None,
    }
}

/// What was to be sent before is still to be sent, and what has joined it comes from
/// this server and belongs to its round.
pub open spec fn speaks_for_round<T: ECEntry>(before: PaxosView<T>, after: PaxosView<T>) -> bool {
    &&& before.outgoing.is_prefix_of(after.outgoing)
    &&& forall|i: int|
        before.outgoing.len() <= i < after.outgoing.len() ==> (
        #[trigger] after.outgoing[i]).from == before.pid && round_of(after.outgoing[i].msg)
            == Some(after.leader.n_leader)
}

/// Whatever a leader sends comes from it and belongs to its round, and takes nothing
/// back of what was to be sent before.
pub proof fn leader_speaks_for_its_round<T: ECEntry>(
    server: PaxosView<T>,
    keeps: bool,
    n: Ballot,
    coded: Seq<CodedView>,
    ss: StopSignView,
)
    ensures
        speaks_for_round(server, server.handle_leader(n)),
        speaks_for_round(server, server.accept_coded(coded)),
        speaks_for_round(server, server.flush_batch()),
        speaks_for_round(server, server.lead_stopsign(ss)),
        speaks_for_round(server, server.handle_majority(keeps)),
        speaks_for_round(server, server.resend_messages()),
{
    assert(speaks_for_round(server, server.resend_stopsign()));
    assert(speaks_for_round(server, server.lead_stopsign(ss))) by {
        let stored = server.with_storage(server.storage.append_stopsign(ss));
        let announced = if server.storage.batched.len() == 0 {
            stored
        } else {
            stored.send_accepts(server.peers, seq![server.coded_stopsign(ss)])
        };
        assert(speaks_for_round(server, announced.own_log_accepted()));
    }
}

/// A ballot that is not higher than the round that the server leads and the round
/// that it has promised changes nothing.
pub proof fn stale_leader_is_ignored<T: ECEntry>(server: PaxosView<T>, n: Ballot)
    requires
        !server.leader.n_leader.below(n) || !server.storage.promise().below(n),
    ensures
        server.handle_leader(n) == server,
{
}

/// To be told of a leader twice is the same as once.
pub proof fn leader_is_taken_once<T: ECEntry>(server: PaxosView<T>, n: Ballot)
    ensures
        server.handle_leader(n).handle_leader(n) == server.handle_leader(n),
{
}

/// A server that has taken the lead with a ballot is not moved by any ballot that is not
/// higher, whoever has it: it goes on as it was, and asks for no promise again.
pub proof fn leader_outranks_other_ballots<T: ECEntry>(server: PaxosView<T>, n: Ballot, m: Ballot)
    requires
        server.is_new(n),
        server.pid == n.pid,
        !n.below(m),
    ensures
        ({
            let leading = server.handle_leader(n);
            &&& !leading.is_new(m)
            &&& leading.handle_leader(m) == leading
            &&& leading.leader.n_leader == n
            &&& leading.storage.promise() == n
            &&& leading.role == RoleEC::Leader && leading.phase == PhaseEC::Prepare
        }),
{
}

/// The promised round never falls.
pub proof fn promise_never_falls<T: ECEntry>(server: PaxosView<T>, n: Ballot)
    ensures
        !server.handle_leader(n).storage.promise().below(server.storage.promise()),
        server.handle_leader(n).storage.promise() == server.storage.promise()
            || server.handle_leader(n).storage.promise() == n,
{
}

proof fn lemma_notify_all<T: ECEntry>(server: PaxosView<T>, pids: Seq<NodeId>, idx: usize)
    ensures
        server.notify_all(pids, idx).storage == server.storage,
        server.notify_all(pids, idx).leader.accepted == server.leader.accepted,
        server.notify_all(pids, idx).leader.latest_accept == server.leader.latest_accept,
        server.notify_all(pids, idx).leader.n_leader == server.leader.n_leader,
        server.notify_all(pids, idx).leader.quorum == server.leader.quorum,
        server.notify_all(pids, idx).leader.max_pid == server.leader.max_pid,
    decreases pids.len(),
{
    if pids.len() > 0 {
        lemma_notify_all(server, pids.drop_last(), idx);
    }
}

/// The decided index never falls, and where it moves, it moves to an index that a
/// quorum has accepted.
pub proof fn decided_index_is_chosen<T: ECEntry>(
    server: PaxosView<T>,
    accepted: Accepted,
    from: NodeId,
)
    requires
        server.storage.model.decided_idx <= usize::MAX,
    ensures
        ({
            let after = server.handle_accepted(accepted, from);
            &&& after.storage.model.decided_idx >= server.storage.model.decided_idx
            &&& after.storage.model.decided_idx != server.storage.model.decided_idx
                ==> after.leader.chosen(after.storage.decided_idx())
            &&& after.storage.model.log == server.storage.model.log
        }),
{
    let idx = accepted.accepted_idx;
    let noted = server.with_leader(server.leader.set_accepted_idx(from, idx)).with_storage(
        server.storage.set_decided_idx(idx),
    );
    lemma_notify_all(noted, server.leader.promised_followers(), idx);
}

/// An accepted of another round changes nothing.
pub proof fn stale_accepted_is_ignored<T: ECEntry>(
    server: PaxosView<T>,
    accepted: Accepted,
    from: NodeId,
)
    requires
        accepted.n != server.leader.n_leader,
    ensures
        server.handle_accepted(accepted, from) == server,
{
}

/// A message tells a server the decided index.
pub open spec fn tells<T: ECEntry>(message: MessageView<T>, decided_idx: usize) -> bool {
    match message.msg {
        MsgView::AcceptDecide(accept) => accept.decided_idx == decided_idx,
        MsgView::Decide(decide) => decide.decided_idx == decided_idx,
        _ => false,
    }
}

/// To the server goes a decide of the index, or the accept that is noted as the
/// latest one to it tells the index.
pub open spec fn is_told<T: ECEntry>(
    server: PaxosView<T>,
    pid: NodeId,
    decided_idx: usize,
) -> bool {
    exists|i: int|
        0 <= i < server.outgoing.len() && tells(#[trigger] server.outgoing[i], decided_idx) && (
        server.outgoing[i].to == pid || server.latest_accept_place(pid) == Some(i))
}

proof fn lemma_notify_tells<T: ECEntry>(
    server: PaxosView<T>,
    pids: Seq<NodeId>,
    decided_idx: usize,
    told: NodeId,
)
    requires
        pids.contains(told),
        server.accepts_placed(),
        server.leader.wf(),
        forall|i: int| 0 <= i < pids.len() ==> server.leader.has(#[trigger] pids[i]),
    ensures
        is_told(server.notify_all(pids, decided_idx), told, decided_idx),
    decreases pids.len(),
{
    let before = server.notify_all(pids.drop_last(), decided_idx);
    let last = pids.last();
    let after = before.notify(last, decided_idx);
    assert forall|j: int| 0 <= j < pids.len() - 1 implies server.leader.has(
        #[trigger] pids.drop_last()[j],
    ) by {
        assert(server.leader.has(pids[j]));
    }
    lemma_notify_keeps(server, pids.drop_last(), decided_idx);
    assert(server.leader.has(pids[pids.len() - 1]));
    let place = before.latest_accept_place(last);
    if told == last {
        match place {
            Some(i) => {
                assert(before.leader.latest_accept[last - 1] is Some);
                assert(after.outgoing[i].msg is AcceptDecide);
                assert(tells(after.outgoing[i], decided_idx));
                assert(after.latest_accept_place(last) == Some(i));
            },
            None => {
                let i = before.outgoing.len() as int;
                assert(after.outgoing[i].to == last);
                assert(tells(after.outgoing[i], decided_idx));
            },
        }
    } else {
        assert(pids.drop_last().contains(told)) by {
            let j = choose|j: int| 0 <= j < pids.len() && pids[j] == told;
            assert(pids.drop_last()[j] == told);
        }
        lemma_notify_tells(server, pids.drop_last(), decided_idx, told);
        let i = choose|i: int|
            0 <= i < before.outgoing.len() && tells(#[trigger] before.outgoing[i], decided_idx)
                && (before.outgoing[i].to == told || before.latest_accept_place(told) == Some(i));
        assert(tells(after.outgoing[i], decided_idx));
        assert(after.outgoing[i].to == before.outgoing[i].to);
        if before.latest_accept_place(told) == Some(i) {
            assert(after.outgoing[i].msg is AcceptDecide);
            assert(after.latest_accept_place(told) == Some(i));
        }
    }
}

/// Telling the decided index keeps the places of the accepts.
proof fn lemma_notify_keeps<T: ECEntry>(
    server: PaxosView<T>,
    pids: Seq<NodeId>,
    decided_idx: usize,
)
    requires
        server.accepts_placed(),
        server.leader.wf(),
        forall|i: int| 0 <= i < pids.len() ==> server.leader.has(#[trigger] pids[i]),
    ensures
        server.notify_all(pids, decided_idx).accepts_placed(),
        server.notify_all(pids, decided_idx).leader.latest_accept == server.leader.latest_accept,
        server.notify_all(pids, decided_idx).outgoing.len() >= server.outgoing.len(),
    decreases pids.len(),
{
    lemma_notify_all(server, pids, decided_idx);
    if pids.len() > 0 {
        assert forall|j: int| 0 <= j < pids.len() - 1 implies server.leader.has(
            #[trigger] pids.drop_last()[j],
        ) by {
            assert(server.leader.has(pids[j]));
        }
        assert(server.leader.has(pids[pids.len() - 1]));
        lemma_notify_keeps(server, pids.drop_last(), decided_idx);
        lemma_notify_all(server, pids.drop_last(), decided_idx);
    }
}

/// Once an index is decided, every follower that has promised is told.
pub proof fn followers_are_told<T: ECEntry>(
    server: PaxosView<T>,
    accepted: Accepted,
    from: NodeId,
    follower: NodeId,
)
    requires
        server.wf(),
        server.leader.has(from),
        server.decides(accepted, from),
        server.leader.promised_followers().contains(follower),
    ensures
        is_told(server.handle_accepted(accepted, from), follower, accepted.accepted_idx),
{
    let idx = accepted.accepted_idx;
    let noted = server.with_leader(server.leader.set_accepted_idx(from, idx)).with_storage(
        server.storage.set_decided_idx(idx),
    );
    leader_state::lemma_promised_followers(server.leader);
    lemma_notify_tells(noted, server.leader.promised_followers(), idx, follower);
}

/// The accepts to a server are numbered without a gap: each takes the number after
/// the last one, and that is then the last one.
pub proof fn accepts_are_numbered_in_turn<T: ECEntry>(
    server: PaxosView<T>,
    coded: Seq<CodedView>,
    i: int,
)
    requires
        server.wf(),
        server.numbers_left(server.peers, 1),
        coded.len() > 0,
        0 <= i < server.peers.len(),
    ensures
        ({
            let after = server.send_batch(coded);
            let message = after.outgoing[server.outgoing.len() + i];
            let last = server.leader.seq_num_of(server.peers[i]);
            &&& message.to == server.peers[i]
            &&& message.msg matches MsgView::AcceptDecide(accept)
            &&& accept.seq_num == after.leader.seq_num_of(server.peers[i])
            &&& accept.seq_num.session == last.session
            &&& accept.seq_num.counter == last.counter + 1
        }),
{
    let pid = server.peers[i];
    assert(server.leader.has(pid));
    assert(server.peers.contains(pid));
    assert(server.leader.seq_num_of(server.peers[i]).counter + 1 <= u64::MAX);
}

/// A log sync starts a new session: it has the first number of the next one.
pub proof fn log_sync_starts_a_session<T: ECEntry>(server: PaxosView<T>, to: NodeId)
    requires
        server.wf(),
        server.can_accsync(to),
    ensures
        ({
            let after = server.send_accsyncs(seq![to]);
            let message = after.outgoing[server.outgoing.len() as int];
            &&& message.to == to
            &&& message.msg matches MsgView::AcceptSync { seq_num, .. }
            &&& seq_num == after.leader.seq_num_of(to)
            &&& seq_num.session == server.leader.seq_num_of(to).session + 1
            &&& seq_num.counter == 1
        }),
{
    assert(seq![to][0] == to);
}

/// To send again takes no new number and writes nothing.
pub proof fn resending_changes_only_messages<T: ECEntry>(server: PaxosView<T>)
    ensures
        server.resend_messages() == (PaxosView {
            outgoing: server.resend_messages().outgoing,
            ..server
        }),
{
}

/// Behind a stopsign nothing more is accepted.
pub proof fn stopsign_ends_the_log<T: ECEntry>(
    server: PaxosView<T>,
    entries: Seq<EntryView>,
    ss: StopSignView,
)
    requires
        server.stopped(),
    ensures
        server.handle_forwarded_proposal(entries) == server,
        server.handle_forwarded_stopsign(ss) == server,
{
}

/// What was buffered before the leader could accept is at the end of its log once
/// it can, in order, unless the log that it adopted ends with a stopsign.
pub proof fn buffered_proposals_are_accepted<T: ECEntry>(server: PaxosView<T>, keeps: bool)
    requires
        server.adopted(keeps).model.stopsign is None,
        server.storage.batched.len() == 0,
    ensures
        ({
            let after = server.handle_majority(keeps);
            &&& after.storage.model.log == server.adopted(keeps).model.log
                + server.buffered_proposals
            &&& after.storage.model.stopsign == server.buffered_stopsign
            &&& after.buffered_proposals.len() == 0
            &&& after.buffered_stopsign is None
            &&& after.role == RoleEC::Leader && after.phase == PhaseEC::Accept
        }),
{
    assert(server.handle_majority(keeps).storage.model.log =~= server.adopted(keeps).model.log
        + server.buffered_proposals);
}

/// Once its batch is written, the leader counts itself among those that have accepted
/// the whole log.
pub proof fn leader_accepts_its_log<T: ECEntry>(server: PaxosView<T>, coded: Seq<CodedView>)
    requires
        server.wf(),
        server.fills_batch(coded),
    ensures
        server.accept_coded(coded).leader.accepted_of(server.pid) == server.accept_coded(
            coded,
        ).storage.accepted_idx(),
{
}

/// The entries hold the fragment of a server, and only that.
pub open spec fn own_fragments<T: ECEntry>(
    server: PaxosView<T>,
    entries: Seq<EntryView>,
    pid: NodeId,
) -> bool {
    forall|i: int|
        0 <= i < entries.len() ==> (#[trigger] entries[i]).value.idx == server.fragment_idx(pid)
}

/// Each server gets its own fragments and no other: this server in its log, a peer
/// in the accepts to it, a follower in the log sync.
pub proof fn each_server_gets_its_own_fragments<T: ECEntry>(
    server: PaxosView<T>,
    entries: Seq<EntryView>,
    i: int,
    to: NodeId,
)
    requires
        server.wf(),
        entries.len() > 0,
        0 <= i < server.peers.len(),
        server.has_fragment(to),
    ensures
        own_fragments(server, server.shares(server.coded_all(entries), server.pid), server.pid),
        ({
            let message = server.send_batch(
                server.coded_all(entries),
            ).outgoing[server.outgoing.len() + i];
            &&& message.to == server.peers[i]
            &&& message.msg matches MsgView::AcceptDecide(accept)
            &&& own_fragments(server, accept.entries, server.peers[i])
        }),
        own_fragments(server, server.log_sync_for(to).suffix, to),
{
    assert(server.has_fragment(server.peers[i]));
}

/// The fragments of an entry that these servers hold.
pub open spec fn held<T: ECEntry>(
    server: PaxosView<T>,
    coded: CodedView,
    pids: Seq<NodeId>,
) -> Seq<FragmentView> {
    pids.map_values(|pid: NodeId| server.share(coded, pid).value)
}

/// The servers hold different fragments, and the code has them.
pub open spec fn hold_different<T: ECEntry>(server: PaxosView<T>, pids: Seq<NodeId>) -> bool {
    &&& forall|i: int| 0 <= i < pids.len() ==> server.has_fragment(#[trigger] pids[i])
    &&& forall|i: int, j: int|
        0 <= i < j < pids.len() ==> server.fragment_idx(#[trigger] pids[i])
            != server.fragment_idx(#[trigger] pids[j])
}

/// Any servers that hold different fragments, as many as there are data shards, hold
/// enough of an entry: of what they hold, decoding gives the value back. Encoding the
/// value promises that its fragments are sized.
pub proof fn entries_survive_failures<T: ECEntry>(
    server: PaxosView<T>,
    coded: CodedView,
    value: Seq<u8>,
    pids: Seq<NodeId>,
)
    requires
        coded.fragments == ec_service::fragments_of(server.k, server.m, value),
        ec_service::sized(server.k, server.m, value),
        hold_different(server, pids),
        pids.len() >= server.k,
    ensures
        ec_service::come_from(server.k, server.m, held(server, coded, pids), value),
        codec::present(
            ec_service::slots_of(server.k + server.m, held(server, coded, pids)),
        ) >= server.k,
{
    let fragments = held(server, coded, pids);
    assert forall|i: int| 0 <= i < pids.len() implies {
        let idx = server.fragment_idx(pids[i]);
        &&& idx < server.k + server.m
        &&& (#[trigger] fragments[i]) == coded.fragments[idx as int]
        &&& fragments[i].idx == idx
    } by {
        assert(server.has_fragment(pids[i]));
    }
    assert forall|i: int| 0 <= i < fragments.len() implies coded.fragments.contains(
        #[trigger] fragments[i],
    ) by {
        assert(coded.fragments[server.fragment_idx(pids[i]) as int] == fragments[i]);
    }
    assert forall|i: int, j: int| 0 <= i < j < fragments.len() implies (
    #[trigger] fragments[i]).idx != (#[trigger] fragments[j]).idx by {
        assert(server.fragment_idx(pids[i]) != server.fragment_idx(pids[j]));
    }
    laws::any_fragments_suffice(server.k, server.m, value, fragments);
}

/// The servers of a cluster with the ids 1 to its size hold different fragments.
pub proof fn consecutive_ids_hold_different_fragments<T: ECEntry>(
    server: PaxosView<T>,
    pids: Seq<NodeId>,
)
    requires
        server.peers.len() + 1 <= server.k + server.m,
        pids.no_duplicates(),
        forall|i: int|
            0 <= i < pids.len() ==> 1 <= #[trigger] pids[i] <= server.peers.len() + 1,
    ensures
        hold_different(server, pids),
{
    let total = (server.peers.len() + 1) as int;
    assert forall|i: int| 0 <= i < pids.len() implies server.has_fragment(#[trigger] pids[i]) by {
        vstd::arithmetic::div_mod::lemma_mod_bound(pids[i] as int, total);
    }
    assert forall|i: int, j: int| 0 <= i < j < pids.len() implies server.fragment_idx(
        #[trigger] pids[i],
    ) != server.fragment_idx(#[trigger] pids[j]) by {
        laws::nodes_hold_different_fragments(
            pids[i] as nat,
            pids[j] as nat,
            0,
            server.peers.len() + 1,
        );
    }
}

/// A server has got a fragment of the new entry `e`: this server in its log, a peer in
/// the accept that goes to it.
pub open spec fn has_got<T: ECEntry>(
    before: PaxosView<T>,
    after: PaxosView<T>,
    pid: NodeId,
    e: int,
    fragment: FragmentView,
) -> bool {
    ||| pid == before.pid && after.storage.model.log[before.storage.all_entries().len() + e].value
        == fragment
    ||| exists|j: int|
        0 <= j < before.peers.len() && #[trigger] before.peers[j] == pid && (
        after.outgoing[before.outgoing.len() + j].msg matches MsgView::AcceptDecide(accept)
            && accept.entries[e].value == fragment)
}

/// Once the leader has accepted entries and its batch is written, any of it and its
/// peers, as many as there are data shards and with different fragments, have got
/// enough of each entry: of what they have got, decoding gives its value back.
pub proof fn accepted_entries_survive_failures<T: ECEntry>(
    server: PaxosView<T>,
    coded: Seq<CodedView>,
    e: int,
    value: Seq<u8>,
    pids: Seq<NodeId>,
    fragments: Seq<FragmentView>,
)
    requires
        server.wf(),
        server.fills_batch(coded),
        0 <= e < coded.len(),
        coded[e].fragments == ec_service::fragments_of(server.k, server.m, value),
        ec_service::sized(server.k, server.m, value),
        hold_different(server, pids),
        pids.len() >= server.k,
        fragments.len() == pids.len(),
        forall|i: int|
            0 <= i < pids.len() ==> has_got(
                server,
                server.accept_coded(coded),
                #[trigger] pids[i],
                e,
                fragments[i],
            ),
    ensures
        ec_service::come_from(server.k, server.m, fragments, value),
        codec::present(ec_service::slots_of(server.k + server.m, fragments)) >= server.k,
{
    let after = server.accept_coded(coded);
    assert forall|i: int| 0 <= i < pids.len() implies fragments[i] == (#[trigger] held(
        server,
        coded[e],
        pids,
    )[i]) by {
        assert(has_got(server, after, pids[i], e, fragments[i]));
        if pids[i] == server.pid && after.storage.model.log[server.storage.all_entries().len()
            + e].value == fragments[i] {
            assert(after.storage.model.log =~= server.storage.all_entries() + server.shares(
                coded,
                server.pid,
            ));
        } else {
            let j = choose|j: int|
                0 <= j < server.peers.len() && #[trigger] server.peers[j] == pids[i] && (
                after.outgoing[server.outgoing.len() + j].msg matches MsgView::AcceptDecide(accept)
                    && accept.entries[e].value == fragments[i]);
            assert(server.peers[j] == pids[i]);
        }
    }
    assert(fragments =~= held(server, coded[e], pids));
    entries_survive_failures(server, coded[e], value, pids);
}

/// To send one entry is to send a batch of one.
pub proof fn one_entry_is_a_batch_of_one<T: ECEntry>(server: PaxosView<T>, coded: CodedView)
    ensures
        server.send_accepts(server.peers, seq![coded]) == server.send_batch(seq![coded]),
{
}

} // verus!
