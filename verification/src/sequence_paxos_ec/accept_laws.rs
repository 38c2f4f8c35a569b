//! What holds of accepting: what the leader logs, and what each peer is sent of it.
use crate::erasure::ec_service;
use crate::erasure::log_entry::{ECEntry, EntryView, OperationType};
use crate::leader_state;
use crate::messages::{MessageView, MsgView};
use crate::sequence_paxos_ec::decide_laws;
use crate::sequence_paxos_ec::model::PaxosView;
use crate::sequence_paxos_ec::SequencePaxosEC;
use crate::storage::{StopSign, Storage};
use crate::util;
use crate::util::NodeId;
use crate::wire;
use vstd::prelude::*;

verus! {

/// What is proposed: an operation on a key, and the value that is encoded.
pub struct Proposal {
    pub key: Seq<char>,
    pub op: OperationType,
    pub value: Seq<u8>,
}

/// What entries propose, where the data of their fragments is the value.
pub open spec fn proposals(entries: Seq<EntryView>) -> Seq<Proposal> {
    Seq::new(
        entries.len(),
        |i: int|
            Proposal {
                key: entries[i].key,
                op: entries[i].operation,
                value: entries[i].value.data,
            },
    )
}

/// The index of the fragments that a server holds: the remainder of its id by the number
/// of servers.
pub open spec fn place_of<T: ECEntry>(server: PaxosView<T>, pid: NodeId) -> int {
    pid as int % (server.peers.len() + 1) as int
}

/// The entry is the piece of a proposal that a server holds: its key, its operation, and
/// the server's fragment of its value.
pub open spec fn is_piece<T: ECEntry>(
    server: PaxosView<T>,
    entry: EntryView,
    proposal: Proposal,
    pid: NodeId,
) -> bool {
    &&& entry.key == proposal.key
    &&& entry.operation == proposal.op
    &&& entry.value == ec_service::fragments_of(server.k, server.m, proposal.value)[place_of(
        server,
        pid,
    )]
}

/// The log and the batch hold what they held, and behind it this server's pieces of the
/// proposals, in order.
pub open spec fn joined_log<T: ECEntry>(
    before: PaxosView<T>,
    after: PaxosView<T>,
    props: Seq<Proposal>,
) -> bool {
    let old = before.storage.model.log + before.storage.batched;
    let new = after.storage.model.log + after.storage.batched;
    &&& new.len() == old.len() + props.len()
    &&& forall|i: int| 0 <= i < old.len() ==> (#[trigger] new[i]) == old[i]
    &&& forall|e: int|
        0 <= e < props.len() ==> is_piece(
            before,
            new[old.len() + e],
            #[trigger] props[e],
            before.pid,
        )
}

/// The message at a place is the accept of the proposals to a server: its pieces of all
/// of them, in order, in the name of the round, with the decided index and the number
/// after the last one to it.
pub open spec fn is_accept<T: ECEntry>(
    before: PaxosView<T>,
    message: MessageView<T>,
    props: Seq<Proposal>,
    to: NodeId,
) -> bool {
    let last = before.leader.seq_nums[to - 1];
    &&& message.from == before.pid
    &&& message.to == to
    &&& message.msg matches MsgView::AcceptDecide(accept)
    &&& accept.n == before.leader.n_leader
    &&& accept.decided_idx == before.storage.model.decided_idx
    &&& accept.seq_num.session == last.session
    &&& last.counter < u64::MAX ==> accept.seq_num.counter == last.counter + 1
    &&& accept.entries.len() == props.len()
    &&& forall|e: int|
        0 <= e < props.len() ==> is_piece(before, accept.entries[e], #[trigger] props[e], to)
}

/// The messages that have joined the outgoing ones are one accept of the proposals to
/// each peer.
pub open spec fn went_to_peers<T: ECEntry>(
    before: PaxosView<T>,
    after: PaxosView<T>,
    props: Seq<Proposal>,
) -> bool {
    let len = before.outgoing.len();
    &&& after.outgoing.len() == len + before.peers.len()
    &&& forall|i: int| 0 <= i < len ==> (#[trigger] after.outgoing[i]) == before.outgoing[i]
    &&& forall|j: int|
        0 <= j < before.peers.len() ==> is_accept(
            before,
            after.outgoing[len + j],
            props,
            #[trigger] before.peers[j],
        )
}

/// The numbers of the accepts to these servers went up by one, and no others.
pub open spec fn counted<T: ECEntry>(
    before: PaxosView<T>,
    after: PaxosView<T>,
    pids: Seq<NodeId>,
) -> bool {
    &&& after.leader.seq_nums.len() == before.leader.seq_nums.len()
    &&& forall|pid: NodeId|
        1 <= pid <= before.leader.max_pid ==> {
            let last = before.leader.seq_nums[pid - 1];
            let next = #[trigger] after.leader.seq_nums[pid - 1];
            &&& !pids.contains(pid) ==> next == last
            &&& pids.contains(pid) ==> next.session == last.session
            &&& pids.contains(pid) && last.counter < u64::MAX ==> next.counter == last.counter + 1
        }
}

/// Nothing of the leader's state but the numbers and the accepted indexes, and nothing
/// of the storage but the log and the batch differs.
pub open spec fn only_accepted<T: ECEntry>(before: PaxosView<T>, after: PaxosView<T>) -> bool {
    &&& after.pid == before.pid
    &&& after.peers == before.peers
    &&& after.role == before.role
    &&& after.phase == before.phase
    &&& after.buffered_proposals == before.buffered_proposals
    &&& after.buffered_stopsign == before.buffered_stopsign
    &&& after.k == before.k
    &&& after.m == before.m
    &&& after.leader.n_leader == before.leader.n_leader
    &&& after.leader.promises == before.leader.promises
    &&& after.leader.max_promise_meta == before.leader.max_promise_meta
    &&& after.leader.max_promise_sync == before.leader.max_promise_sync
    &&& after.leader.latest_accept == before.leader.latest_accept
    &&& after.leader.max_pid == before.leader.max_pid
    &&& after.leader.quorum == before.leader.quorum
    &&& after.storage.batch_size == before.storage.batch_size
    &&& after.storage.model.promise == before.storage.model.promise
    &&& after.storage.model.accepted_round == before.storage.model.accepted_round
    &&& after.storage.model.decided_idx == before.storage.model.decided_idx
    &&& after.storage.model.compacted_idx == before.storage.model.compacted_idx
    &&& after.storage.model.snapshot == before.storage.model.snapshot
}

/// The length of the log, with what is compacted and the stopsign.
pub open spec fn log_end<T: ECEntry>(server: PaxosView<T>) -> nat {
    server.storage.model.compacted_idx + server.storage.model.log.len()
        + if server.storage.model.stopsign is Some {
        1nat
    } else {
        0nat
    }
}

/// Proposals were accepted: this server's pieces joined its log. If they filled the
/// batch it is written, the leader counts itself up to the end of its log, and each peer
/// is sent its pieces, if there are any; otherwise they wait and nothing is sent.
pub open spec fn took_proposals<T: ECEntry>(
    before: PaxosView<T>,
    after: PaxosView<T>,
    props: Seq<Proposal>,
) -> bool {
    &&& only_accepted(before, after)
    &&& after.storage.model.stopsign == before.storage.model.stopsign
    &&& joined_log(before, after, props)
    &&& if before.storage.batched.len() + props.len() >= before.storage.batch_size {
        &&& after.storage.batched.len() == 0
        &&& log_end(after) <= usize::MAX ==> after.leader.accepted
            == before.leader.accepted.update(before.pid - 1, log_end(after) as usize)
        &&& if props.len() == 0 {
            after.outgoing == before.outgoing && counted(before, after, Seq::empty())
        } else {
            went_to_peers(before, after, props) && counted(before, after, before.peers)
        }
    } else {
        &&& after.storage.model.log == before.storage.model.log
        &&& after.leader.accepted == before.leader.accepted
        &&& after.outgoing == before.outgoing
        &&& counted(before, after, Seq::empty())
    }
}

proof fn lemma_sent<T: ECEntry>(
    server: PaxosView<T>,
    stored: PaxosView<T>,
    props: Seq<Proposal>,
    coded: Seq<crate::sequence_paxos_ec::model::CodedView>,
)
    requires
        server.wf(),
        stored.wf(),
        server.storage.model.decided_idx <= usize::MAX,
        stored == (PaxosView {
            storage: stored.storage,
            leader: leader_state::LeaderView {
                accepted: stored.leader.accepted,
                ..server.leader
            },
            ..server
        }),
        stored.storage.model.decided_idx == server.storage.model.decided_idx,
        coded.len() == props.len(),
        forall|e: int|
            0 <= e < props.len() ==> {
                let c = #[trigger] coded[e];
                &&& c.key == props[e].key
                &&& c.op == props[e].op
                &&& c.fragments == ec_service::fragments_of(server.k, server.m, props[e].value)
            },
    ensures
        went_to_peers(server, stored.send_accepts(server.peers, coded), props),
        counted(server, stored.send_accepts(server.peers, coded), server.peers),
{
    let after = stored.send_accepts(server.peers, coded);
    let len = server.outgoing.len();
    assert forall|j: int| 0 <= j < server.peers.len() implies is_accept(
        server,
        after.outgoing[len + j],
        props,
        #[trigger] server.peers[j],
    ) by {
        let to = server.peers[j];
        assert(server.leader.has(to));
        let message = after.outgoing[len + j];
        assert(message == stored.message(to, stored.accept(to, coded)));
        let accept = message.msg->AcceptDecide_0;
        assert forall|e: int| 0 <= e < props.len() implies is_piece(
            server,
            accept.entries[e],
            #[trigger] props[e],
            to,
        ) by {
            assert(coded[e].key == props[e].key);
        }
    }
}

pub(crate) proof fn lemma_took<T: ECEntry>(
    server: PaxosView<T>,
    props: Seq<Proposal>,
    coded: Seq<crate::sequence_paxos_ec::model::CodedView>,
)
    requires
        server.wf(),
        server.storage.model.decided_idx <= usize::MAX,
        coded.len() == props.len(),
        forall|e: int|
            0 <= e < props.len() ==> {
                let c = #[trigger] coded[e];
                &&& c.key == props[e].key
                &&& c.op == props[e].op
                &&& c.fragments == ec_service::fragments_of(server.k, server.m, props[e].value)
            },
    ensures
        took_proposals(server, server.accept_coded(coded), props),
{
    let after = server.accept_coded(coded);
    let own = server.shares(coded, server.pid);
    let old = server.storage.model.log + server.storage.batched;
    let new = after.storage.model.log + after.storage.batched;
    assert(new =~= old + own);
    assert forall|e: int| 0 <= e < props.len() implies is_piece(
        server,
        new[old.len() + e],
        #[trigger] props[e],
        server.pid,
    ) by {
        assert(coded[e].key == props[e].key);
        assert(new[old.len() + e] == own[e]);
    }
    if server.fills_batch(coded) && coded.len() > 0 {
        let stored = server.with_storage(
            server.storage.append_with_batching(own),
        ).own_log_accepted();
        lemma_sent(server, stored, props, coded);
    }
}

/// The entries that the leader accepts join its log with their keys and operations, each
/// with this server's fragment of its value, and each peer is sent its own fragments of
/// them under the same keys and operations.
pub proof fn entries_are_accepted_as_proposed<T: ECEntry, B: Storage<T>>(
    before: SequencePaxosEC<T, B>,
    entries: Vec<T>,
    after: SequencePaxosEC<T, B>,
)
    requires
        before.wf(),
        exists|d: &mut SequencePaxosEC<T, B>|
            *d == before && *final(d) == after && #[trigger] call_ensures(
                SequencePaxosEC::<T, B>::accept_entries_leader,
                (d, entries),
                Ok(()),
            ),
    ensures
        took_proposals(before@, after@, proposals(util::views(entries@))),
{
    let views = util::views(entries@);
    lemma_took(before@, proposals(views), before@.coded_all(views));
}

/// An entry by itself is accepted like the others, but for its value: what is encoded is
/// its fragment as a whole, with the index.
pub proof fn entry_is_accepted_as_proposed<T: ECEntry, B: Storage<T>>(
    before: SequencePaxosEC<T, B>,
    entry: T,
    after: SequencePaxosEC<T, B>,
)
    requires
        before.wf(),
        exists|d: &mut SequencePaxosEC<T, B>|
            *d == before && *final(d) == after && #[trigger] call_ensures(
                SequencePaxosEC::<T, B>::accept_entry_leader,
                (d, entry),
                Ok(()),
            ),
    ensures
        took_proposals(
            before@,
            after@,
            seq![
                Proposal {
                    key: entry@.key,
                    op: entry@.operation,
                    value: wire::fragment_bytes(entry@.value),
                },
            ],
        ),
{
    lemma_took(
        before@,
        seq![
            Proposal {
                key: entry@.key,
                op: entry@.operation,
                value: wire::fragment_bytes(entry@.value),
            },
        ],
        seq![before@.coded_whole(entry@)],
    );
}

/// The batch that is flushed is what the log gains, and each peer is sent its fragments
/// of the entries that waited, under their keys and operations. An empty batch changes
/// nothing.
pub proof fn flushed_batch_goes_to_peers<T: ECEntry, B: Storage<T>>(
    before: SequencePaxosEC<T, B>,
    after: SequencePaxosEC<T, B>,
)
    requires
        before.wf(),
        exists|d: &mut SequencePaxosEC<T, B>|
            *d == before && *final(d) == after && #[trigger] call_ensures(
                SequencePaxosEC::<T, B>::flush_batch_leader,
                (d,),
                Ok(()),
            ),
    ensures
        only_accepted(before@, after@),
        after@.storage.model.stopsign == before@.storage.model.stopsign,
        after@.storage.model.log == before@.storage.model.log + before@.storage.batched,
        after@.storage.batched.len() == 0,
        if before@.storage.batched.len() == 0 {
            after@ == before@
        } else {
            &&& went_to_peers(before@, after@, proposals(before@.storage.batched))
            &&& counted(before@, after@, before@.peers)
            &&& log_end(after@) <= usize::MAX ==> after@.leader.accepted
                == before@.leader.accepted.update(before@.pid - 1, log_end(after@) as usize)
        },
{
    let b = before@;
    if b.storage.batched.len() > 0 {
        let stored = b.with_storage(b.storage.flush()).own_log_accepted();
        lemma_sent(b, stored, proposals(b.storage.batched), b.coded_all(b.storage.batched));
    } else {
        assert(after@ =~= b);
    }
}

/// Accepting entries changes none that is in the log.
pub proof fn accepting_keeps_the_log<T: ECEntry, B: Storage<T>>(
    before: SequencePaxosEC<T, B>,
    entries: Vec<T>,
    after: SequencePaxosEC<T, B>,
    i: int,
)
    requires
        before.wf(),
        exists|d: &mut SequencePaxosEC<T, B>|
            *d == before && *final(d) == after && #[trigger] call_ensures(
                SequencePaxosEC::<T, B>::accept_entries_leader,
                (d, entries),
                Ok(()),
            ),
        0 <= i < before@.storage.model.log.len(),
    ensures
        after@.storage.model.log.len() >= before@.storage.model.log.len(),
        after@.storage.model.log[i] == before@.storage.model.log[i],
{
}

/// The message asks a server to accept the stopsign, in the name of the round.
pub open spec fn is_stopsign_accept<T: ECEntry>(
    server: PaxosView<T>,
    message: MessageView<T>,
    ss: crate::storage::StopSignView,
) -> bool {
    &&& message.from == server.pid
    &&& message.msg matches MsgView::AcceptStopSign { n, ss: sent, .. }
    &&& n == server.leader.n_leader
    &&& sent == ss
}

pub(crate) proof fn lemma_lead_stopsign<T: ECEntry>(
    b: PaxosView<T>,
    ss: crate::storage::StopSignView,
    a: PaxosView<T>,
)
    requires
        b.wf(),
        b.storage.model.decided_idx <= usize::MAX,
        a == b.lead_stopsign(ss),
    ensures
        only_accepted(b, a),
        a.storage.model.stopsign == Some(ss),
        a.storage.model.log == b.storage.model.log + b.storage.batched,
        a.storage.batched.len() == 0,
        log_end(a) <= usize::MAX ==> a.leader.accepted
            == b.leader.accepted.update(b.pid - 1, log_end(a) as usize),
        ({
            let announced = if b.storage.batched.len() == 0 {
                0
            } else {
                b.peers.len() as int
            };
            let start = b.outgoing.len() + announced;
            let props = seq![
                Proposal {
                    key: "stopsign"@,
                    op: OperationType::NULL,
                    value: wire::stopsign_bytes(ss),
                },
            ];
            &&& a.outgoing.len() >= start
            &&& forall|i: int|
                0 <= i < b.outgoing.len() ==> (#[trigger] a.outgoing[i]) == b.outgoing[i]
            &&& b.storage.batched.len() > 0 ==> forall|j: int|
                0 <= j < b.peers.len() ==> is_accept(
                    b,
                    a.outgoing[b.outgoing.len() + j],
                    props,
                    #[trigger] b.peers[j],
                )
            &&& forall|i: int|
                start <= i < a.outgoing.len() ==> {
                    let m = #[trigger] a.outgoing[i];
                    &&& is_stopsign_accept(b, m, ss)
                    &&& decide_laws::is_follower(b, m.to)
                    &&& m.msg->AcceptStopSign_seq_num == a.leader.seq_nums[m.to - 1]
                }
            &&& forall|i: int, j: int|
                start <= i < j < a.outgoing.len() ==> (#[trigger] a.outgoing[i]).to < (
                #[trigger] a.outgoing[j]).to
            &&& forall|pid: NodeId|
                #[trigger] decide_laws::is_follower(b, pid) ==> exists|i: int|
                    start <= i < a.outgoing.len() && (#[trigger] a.outgoing[i]).to == pid
            &&& forall|pid: NodeId|
                1 <= pid <= b.leader.max_pid ==> {
                    let last = b.leader.seq_nums[pid - 1];
                    let next = #[trigger] a.leader.seq_nums[pid - 1];
                    let steps = (if decide_laws::is_follower(b, pid) {
                        1int
                    } else {
                        0
                    }) + if b.storage.batched.len() > 0 && b.peers.contains(pid) {
                        1int
                    } else {
                        0
                    };
                    &&& next.session == last.session
                    &&& last.counter + steps <= u64::MAX ==> next.counter == last.counter + steps
                }
        }),
{
    let stored = b.with_storage(b.storage.append_stopsign(ss));
    let props = seq![
        Proposal {
            key: "stopsign"@,
            op: OperationType::NULL,
            value: wire::stopsign_bytes(ss),
        },
    ];
    let announced = if b.storage.batched.len() == 0 {
        stored
    } else {
        stored.send_accepts(b.peers, seq![b.coded_stopsign(ss)])
    };
    if b.storage.batched.len() > 0 {
        lemma_sent(b, stored, props, seq![b.coded_stopsign(ss)]);
        assert(went_to_peers(b, announced, props));
    }
    let ready = announced.own_log_accepted();
    let followers = b.leader.promised_followers();
    leader_state::lemma_promised_followers(b.leader);
    leader_state::lemma_promised_followers_all(b.leader);
    assert(a == ready.send_stopsigns(followers, ss, false));
    let start = announced.outgoing.len() as int;
    assert forall|pid: NodeId| #[trigger] decide_laws::is_follower(b, pid) <==> followers.contains(
        pid,
    ) by {}
    assert forall|i: int| start <= i < a.outgoing.len() implies {
        let m = #[trigger] a.outgoing[i];
        &&& m.to == followers[i - start]
        &&& is_stopsign_accept(b, m, ss)
        &&& decide_laws::is_follower(b, m.to)
        &&& m.msg->AcceptStopSign_seq_num == a.leader.seq_nums[m.to - 1]
    } by {
        let pid = followers[i - start];
        assert(followers.contains(pid));
        assert(b.leader.has(pid));
        assert(a.outgoing[i] == ready.message(pid, ready.accept_stopsign(pid, ss, false)));
    }
    assert forall|i: int, j: int| start <= i < j < a.outgoing.len() implies (
    #[trigger] a.outgoing[i]).to < (#[trigger] a.outgoing[j]).to by {
        assert(followers[i - start] < followers[j - start]);
    }
    assert forall|pid: NodeId| #[trigger] decide_laws::is_follower(b, pid) implies exists|i: int|
        start <= i < a.outgoing.len() && (#[trigger] a.outgoing[i]).to == pid by {
        assert(followers.contains(pid));
        let j = choose|j: int| 0 <= j < followers.len() && followers[j] == pid;
        assert(a.outgoing[start + j].to == pid);
    }
    assert forall|i: int| 0 <= i < b.outgoing.len() implies (#[trigger] a.outgoing[i])
        == b.outgoing[i] by {
        assert(announced.outgoing[i] == b.outgoing[i]);
    }
    if b.storage.batched.len() > 0 {
        assert forall|j: int| 0 <= j < b.peers.len() implies is_accept(
            b,
            a.outgoing[b.outgoing.len() + j],
            props,
            #[trigger] b.peers[j],
        ) by {
            assert(is_accept(b, announced.outgoing[b.outgoing.len() + j], props, b.peers[j]));
            assert(a.outgoing[b.outgoing.len() + j] == announced.outgoing[b.outgoing.len() + j]);
        }
    }
    assert forall|pid: NodeId| 1 <= pid <= b.leader.max_pid implies {
        let last = b.leader.seq_nums[pid - 1];
        let next = #[trigger] a.leader.seq_nums[pid - 1];
        let steps = (if decide_laws::is_follower(b, pid) {
            1int
        } else {
            0
        }) + if b.storage.batched.len() > 0 && b.peers.contains(pid) {
            1int
        } else {
            0
        };
        &&& next.session == last.session
        &&& last.counter + steps <= u64::MAX ==> next.counter == last.counter + steps
    } by {
        assert(decide_laws::is_follower(b, pid) <==> followers.contains(pid));
        assert(((pid - 1) + 1) as NodeId == pid);
    }
}

/// The stopsign is set behind what waited in the batch. Where something waited, each peer
/// is sent its fragment of the stopsign, as an entry without an operation. Then every
/// follower, and nobody else, is sent the stopsign itself, with the number after its
/// last one.
pub proof fn stopsign_goes_to_every_follower<T: ECEntry, B: Storage<T>>(
    before: SequencePaxosEC<T, B>,
    ss: StopSign,
    after: SequencePaxosEC<T, B>,
)
    requires
        before.wf(),
        exists|d: &mut SequencePaxosEC<T, B>|
            *d == before && *final(d) == after && #[trigger] call_ensures(
                SequencePaxosEC::<T, B>::accept_stopsign_leader,
                (d, ss),
                Ok(()),
            ),
    ensures
        only_accepted(before@, after@),
        after@.storage.model.stopsign == Some(ss@),
        after@.storage.model.log == before@.storage.model.log + before@.storage.batched,
        after@.storage.batched.len() == 0,
        log_end(after@) <= usize::MAX ==> after@.leader.accepted
            == before@.leader.accepted.update(before@.pid - 1, log_end(after@) as usize),
        ({
            let b = before@;
            let a = after@;
            let announced = if b.storage.batched.len() == 0 {
                0
            } else {
                b.peers.len() as int
            };
            let start = b.outgoing.len() + announced;
            let props = seq![
                Proposal {
                    key: "stopsign"@,
                    op: OperationType::NULL,
                    value: wire::stopsign_bytes(ss@),
                },
            ];
            &&& a.outgoing.len() >= start
            &&& forall|i: int|
                0 <= i < b.outgoing.len() ==> (#[trigger] a.outgoing[i]) == b.outgoing[i]
            &&& b.storage.batched.len() > 0 ==> forall|j: int|
                0 <= j < b.peers.len() ==> is_accept(
                    b,
                    a.outgoing[b.outgoing.len() + j],
                    props,
                    #[trigger] b.peers[j],
                )
            &&& forall|i: int|
                start <= i < a.outgoing.len() ==> {
                    let m = #[trigger] a.outgoing[i];
                    &&& is_stopsign_accept(b, m, ss@)
                    &&& decide_laws::is_follower(b, m.to)
                    &&& m.msg->AcceptStopSign_seq_num == a.leader.seq_nums[m.to - 1]
                }
            &&& forall|i: int, j: int|
                start <= i < j < a.outgoing.len() ==> (#[trigger] a.outgoing[i]).to < (
                #[trigger] a.outgoing[j]).to
            &&& forall|pid: NodeId|
                #[trigger] decide_laws::is_follower(b, pid) ==> exists|i: int|
                    start <= i < a.outgoing.len() && (#[trigger] a.outgoing[i]).to == pid
            &&& forall|pid: NodeId|
                1 <= pid <= b.leader.max_pid ==> {
                    let last = b.leader.seq_nums[pid - 1];
                    let next = #[trigger] a.leader.seq_nums[pid - 1];
                    let steps = (if decide_laws::is_follower(b, pid) {
                        1int
                    } else {
                        0
                    }) + if b.storage.batched.len() > 0 && b.peers.contains(pid) {
                        1int
                    } else {
                        0
                    };
                    &&& next.session == last.session
                    &&& last.counter + steps <= u64::MAX ==> next.counter == last.counter + steps
                }
        }),
{
    lemma_lead_stopsign(before@, ss@, after@);
}

/// To send one entry is to send its pieces to each peer, as in a batch.
pub proof fn one_entry_goes_to_peers<T: ECEntry, B: Storage<T>>(
    before: SequencePaxosEC<T, B>,
    key: String,
    op: OperationType,
    fragments: Vec<ec_service::EntryFragment>,
    after: SequencePaxosEC<T, B>,
    j: int,
)
    requires
        before.wf(),
        0 <= j < before@.peers.len(),
        exists|d: &mut SequencePaxosEC<T, B>|
            *d == before && *final(d) == after && #[trigger] call_ensures(
                SequencePaxosEC::<T, B>::send_acceptdecide,
                (d, key, op, fragments),
                (),
            ),
    ensures
        after@.outgoing.len() == before@.outgoing.len() + before@.peers.len(),
        after@.storage == before@.storage,
        ({
            let to = before@.peers[j];
            let m = after@.outgoing[before@.outgoing.len() + j];
            &&& m.from == before@.pid
            &&& m.to == to
            &&& m.msg matches MsgView::AcceptDecide(accept)
            &&& accept.n == before@.leader.n_leader
            &&& accept.seq_num == after@.leader.seq_nums[to - 1]
            &&& accept.entries.len() == 1
            &&& accept.entries[0].key == key@
            &&& accept.entries[0].operation == op
            &&& accept.entries[0].value == ec_service::fragment_views(fragments@)[place_of(
                before@,
                to,
            )]
        }),
{
    let to = before@.peers[j];
    assert(before@.leader.has(to));
    assert(before@.peers.contains(to));
    assert(((to - 1) + 1) as NodeId == to);
    let m = after@.outgoing[before@.outgoing.len() + j];
    let coded = seq![crate::sequence_paxos_ec::model::coded_view((key, op, fragments))];
    assert(m == before@.message(to, before@.accept(to, coded)));
}

} // verus!
