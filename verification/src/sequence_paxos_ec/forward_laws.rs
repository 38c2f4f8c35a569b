//! What holds of proposals that come from other servers, and of what is sent again.
use crate::erasure::log_entry::ECEntry;
use crate::leader_state;
use crate::leader_state::PromiseState;
use crate::messages::{MessageView, MsgView};
use crate::sequence_paxos_ec::accept_laws;
use crate::sequence_paxos_ec::decide_laws;
use crate::sequence_paxos_ec::election_laws;
use crate::sequence_paxos_ec::model::PaxosView;
use crate::sequence_paxos_ec::{PhaseEC, RoleEC, SequencePaxosEC};
use crate::storage::{StopSign, Storage};
use crate::util;
use crate::util::NodeId;
use vstd::prelude::*;

verus! {

/// Nothing but the buffers and what is to be sent differs.
pub open spec fn same_but_waiting<T: ECEntry>(before: PaxosView<T>, after: PaxosView<T>) -> bool {
    &&& after.pid == before.pid
    &&& after.peers == before.peers
    &&& after.role == before.role
    &&& after.phase == before.phase
    &&& after.leader == before.leader
    &&& after.storage == before.storage
    &&& after.k == before.k
    &&& after.m == before.m
}

/// The proposals wait behind those that waited, in order; nothing is lost.
pub open spec fn joined_the_waiting<T: ECEntry>(
    before: PaxosView<T>,
    entries: Seq<T>,
    after: PaxosView<T>,
) -> bool {
    let waiting = before.buffered_proposals.len();
    &&& same_but_waiting(before, after)
    &&& after.outgoing == before.outgoing
    &&& after.buffered_stopsign == before.buffered_stopsign
    &&& after.buffered_proposals.len() == waiting + entries.len()
    &&& forall|i: int|
        0 <= i < waiting ==> (#[trigger] after.buffered_proposals[i])
            == before.buffered_proposals[i]
    &&& forall|i: int|
        0 <= i < entries.len() ==> after.buffered_proposals[waiting + i] == (
        #[trigger] entries[i])@
}

/// One message has joined the outgoing ones: to the server that this one has promised,
/// from this one.
pub open spec fn went_to_leader<T: ECEntry>(
    before: PaxosView<T>,
    after: PaxosView<T>,
    msg: MsgView<T>,
) -> bool {
    &&& same_but_waiting(before, after)
    &&& after.buffered_proposals == before.buffered_proposals
    &&& after.buffered_stopsign == before.buffered_stopsign
    &&& after.outgoing == before.outgoing.push(
        MessageView {
            from: before.pid,
            to: election_laws::or_lowest(before.storage.model.promise).pid,
            msg,
        },
    )
}

/// This server has promised another server, which can take proposals.
pub open spec fn has_other_leader<T: ECEntry>(server: PaxosView<T>) -> bool {
    let leader = election_laws::or_lowest(server.storage.model.promise).pid;
    leader > 0 && leader != server.pid
}

/// Forwarded proposals are all in the message to the leader, in order, or wait.
pub open spec fn went_on<T: ECEntry>(
    before: PaxosView<T>,
    entries: Seq<T>,
    after: PaxosView<T>,
) -> bool {
    if has_other_leader(before) {
        &&& after.outgoing.len() == before.outgoing.len() + 1
        &&& after.outgoing.last().msg matches MsgView::ProposalForward(sent)
        &&& sent.len() == entries.len()
        &&& forall|i: int| 0 <= i < entries.len() ==> sent[i] == (#[trigger] entries[i])@
        &&& went_to_leader(before, after, MsgView::ProposalForward(sent))
    } else {
        joined_the_waiting(before, entries, after)
    }
}

/// Proposals that are forwarded go to the leader as they are, or wait until there is one.
pub proof fn proposals_go_to_the_leader_or_wait<T: ECEntry, B: Storage<T>>(
    before: SequencePaxosEC<T, B>,
    entries: Vec<T>,
    after: SequencePaxosEC<T, B>,
)
    requires
        before.wf(),
        exists|d: &mut SequencePaxosEC<T, B>|
            *d == before && *final(d) == after && #[trigger] call_ensures(
                SequencePaxosEC::<T, B>::forward_proposals,
                (d, entries),
                (),
            ),
    ensures
        went_on(before@, entries@, after@),
{
}

/// Proposals of another server lose nothing. Behind a stopsign they are dropped. Before
/// the accept phase of the leader they join those that wait, in order. In it they are
/// accepted as the leader's own are. A server that does not lead hands them on.
pub proof fn forwarded_proposals_are_taken_in_order<T: ECEntry, B: Storage<T>>(
    before: SequencePaxosEC<T, B>,
    entries: Vec<T>,
    after: SequencePaxosEC<T, B>,
)
    requires
        before.wf(),
        exists|d: &mut SequencePaxosEC<T, B>|
            *d == before && *final(d) == after && #[trigger] call_ensures(
                SequencePaxosEC::<T, B>::handle_forwarded_proposal,
                (d, entries),
                Ok(()),
            ),
    ensures
        if before@.storage.model.stopsign is Some {
            after == before
        } else if before@.role == RoleEC::Leader && before@.phase == PhaseEC::Prepare {
            joined_the_waiting(before@, entries@, after@)
        } else if before@.role == RoleEC::Leader && before@.phase == PhaseEC::Accept {
            accept_laws::took_proposals(
                before@,
                after@,
                accept_laws::proposals(util::views(entries@)),
            )
        } else {
            went_on(before@, entries@, after@)
        },
{
    let views = util::views(entries@);
    if before@.storage.model.stopsign is None && before@.role == RoleEC::Leader && before@.phase
        == PhaseEC::Accept {
        accept_laws::lemma_took(
            before@,
            accept_laws::proposals(views),
            before@.coded_all(views),
        );
    }
}

/// A stopsign of another server. Behind a stopsign it is dropped. While the leader
/// prepares it waits, in place of one that waited. A server that does not lead hands it
/// on, or keeps it where none waits.
pub proof fn forwarded_stopsign_is_taken<T: ECEntry, B: Storage<T>>(
    before: SequencePaxosEC<T, B>,
    ss: StopSign,
    after: SequencePaxosEC<T, B>,
)
    requires
        before.wf(),
        exists|d: &mut SequencePaxosEC<T, B>|
            *d == before && *final(d) == after && #[trigger] call_ensures(
                SequencePaxosEC::<T, B>::handle_forwarded_stopsign,
                (d, ss),
                Ok(()),
            ),
    ensures
        before@.storage.model.stopsign is Some ==> after == before,
        before@.storage.model.stopsign is None && before@.role == RoleEC::Leader && before@.phase
            == PhaseEC::Prepare ==> {
            &&& same_but_waiting(before@, after@)
            &&& after@.outgoing == before@.outgoing
            &&& after@.buffered_proposals == before@.buffered_proposals
            &&& after@.buffered_stopsign == Some(ss@)
        },
        before@.storage.model.stopsign is None && before@.role == RoleEC::Leader && before@.phase
            == PhaseEC::Accept ==> {
            &&& after@.storage.model.stopsign == Some(ss@)
            &&& after@.storage.model.log == before@.storage.model.log + before@.storage.batched
            &&& forall|pid: NodeId|
                #[trigger] decide_laws::is_follower(before@, pid) ==> exists|i: int|
                    before@.outgoing.len() <= i < after@.outgoing.len() && (
                    #[trigger] after@.outgoing[i]).to == pid && accept_laws::is_stopsign_accept(
                        before@,
                        after@.outgoing[i],
                        ss@,
                    )
        },
        before@.storage.model.stopsign is None && !(before@.role == RoleEC::Leader && (
        before@.phase == PhaseEC::Prepare || before@.phase == PhaseEC::Accept))
            ==> stopsign_went_on(before@, ss, after@),
{
    if before@.storage.model.stopsign is None && before@.role == RoleEC::Leader && before@.phase
        == PhaseEC::Accept {
        accept_laws::lemma_lead_stopsign(before@, ss@, after@);
        assert forall|pid: NodeId| #[trigger] decide_laws::is_follower(before@, pid) implies exists|
            i: int,
        |
            before@.outgoing.len() <= i < after@.outgoing.len() && (
            #[trigger] after@.outgoing[i]).to == pid && accept_laws::is_stopsign_accept(
                before@,
                after@.outgoing[i],
                ss@,
            ) by {
            let announced = if before@.storage.batched.len() == 0 {
                0
            } else {
                before@.peers.len() as int
            };
            let start = before@.outgoing.len() + announced;
            let i = choose|i: int|
                start <= i < after@.outgoing.len() && (#[trigger] after@.outgoing[i]).to == pid;
            assert(accept_laws::is_stopsign_accept(before@, after@.outgoing[i], ss@));
        }
    }
}

/// A stopsign is in the message to the leader, or waits where none waits.
pub open spec fn stopsign_went_on<T: ECEntry>(
    before: PaxosView<T>,
    ss: StopSign,
    after: PaxosView<T>,
) -> bool {
    if has_other_leader(before) {
        went_to_leader(before, after, MsgView::ForwardStopSign(ss@))
    } else {
        &&& same_but_waiting(before, after)
        &&& after.outgoing == before.outgoing
        &&& after.buffered_proposals == before.buffered_proposals
        &&& after.buffered_stopsign == match before.buffered_stopsign {
            Some(waiting) => Some(waiting),
            None => Some(ss@),
        }
    }
}

/// A stopsign that is forwarded goes to the leader as it is, or waits until there is one.
pub proof fn stopsign_goes_to_the_leader_or_waits<T: ECEntry, B: Storage<T>>(
    before: SequencePaxosEC<T, B>,
    ss: StopSign,
    after: SequencePaxosEC<T, B>,
)
    requires
        before.wf(),
        exists|d: &mut SequencePaxosEC<T, B>|
            *d == before && *final(d) == after && #[trigger] call_ensures(
                SequencePaxosEC::<T, B>::forward_stopsign,
                (d, ss),
                (),
            ),
    ensures
        stopsign_went_on(before@, ss, after@),
{
}

/// The server is a peer that has promised to nobody.
pub open spec fn is_unasked<T: ECEntry>(server: PaxosView<T>, pid: NodeId) -> bool {
    &&& server.peers.contains(pid)
    &&& server.leader.promises[pid - 1] == PromiseState::NotPromised
}

/// The follower still lacks the stopsign, or is to be told that it is decided.
pub open spec fn lacks_stopsign<T: ECEntry>(server: PaxosView<T>, pid: NodeId) -> bool {
    &&& server.phase == PhaseEC::Accept
    &&& server.storage.model.stopsign is Some
    &&& decide_laws::is_follower(server, pid)
    &&& server.storage.model.decided_idx == accept_laws::log_end(server)
        || server.leader.accepted[pid - 1] != accept_laws::log_end(server)
}

/// The message is the stopsign again or, once that is decided, its decide, with the last
/// number to the follower.
pub open spec fn is_stopsign_again<T: ECEntry>(
    server: PaxosView<T>,
    message: MessageView<T>,
) -> bool {
    &&& message.from == server.pid
    &&& lacks_stopsign(server, message.to)
    &&& if server.storage.model.decided_idx == accept_laws::log_end(server) {
        &&& message.msg matches MsgView::Decide(d)
        &&& d.n == server.leader.n_leader
        &&& d.seq_num == server.leader.seq_nums[message.to - 1]
        &&& d.decided_idx == server.storage.model.decided_idx
    } else {
        &&& message.msg matches MsgView::AcceptStopSign { seq_num, n, ss }
        &&& n == server.leader.n_leader
        &&& seq_num == server.leader.seq_nums[message.to - 1]
        &&& server.storage.model.stopsign == Some(ss)
    }
}

proof fn lemma_filter_members<A>(items: Seq<A>, pred: spec_fn(A) -> bool)
    ensures
        forall|x: A| #[trigger] items.filter(pred).contains(x) <==> items.contains(x) && pred(x),
    decreases items.len(),
{
    reveal(Seq::filter);
    let kept = items.filter(pred);
    if items.len() > 0 {
        let first = items.drop_last();
        lemma_filter_members(first, pred);
        assert forall|x: A| #[trigger] kept.contains(x) <==> items.contains(x) && pred(x) by {
            let before = first.filter(pred);
            if kept.contains(x) {
                let i = choose|i: int| 0 <= i < kept.len() && kept[i] == x;
                if i < before.len() {
                    assert(before[i] == x);
                    assert(before.contains(x));
                    let j = choose|j: int| 0 <= j < first.len() && first[j] == x;
                    assert(items[j] == x);
                } else {
                    assert(items[items.len() - 1] == x);
                }
            }
            if items.contains(x) && pred(x) {
                let j = choose|j: int| 0 <= j < items.len() && items[j] == x;
                if j < first.len() {
                    assert(first[j] == x);
                    assert(before.contains(x));
                    let i = choose|i: int| 0 <= i < before.len() && before[i] == x;
                    assert(kept[i] == x);
                } else {
                    assert(kept.last() == x);
                }
            }
        }
    }
}

/// What is sent again: a prepare to every peer that has promised to nobody, while the
/// server prepares or accepts; and, while it accepts behind a stopsign, the stopsign or
/// its decide to every follower that lacks it. Nothing else is sent, and nothing but
/// what is to be sent changes.
pub proof fn what_may_be_lost_is_sent_again<T: ECEntry, B: Storage<T>>(
    before: SequencePaxosEC<T, B>,
    after: SequencePaxosEC<T, B>,
)
    requires
        before.wf(),
        exists|d: &mut SequencePaxosEC<T, B>|
            *d == before && *final(d) == after && #[trigger] call_ensures(
                SequencePaxosEC::<T, B>::resend_messages_leader,
                (d,),
                (),
            ),
    ensures
        same_but_waiting(before@, after@),
        after@.buffered_proposals == before@.buffered_proposals,
        after@.buffered_stopsign == before@.buffered_stopsign,
        after@.outgoing.len() >= before@.outgoing.len(),
        forall|i: int|
            0 <= i < before@.outgoing.len() ==> (#[trigger] after@.outgoing[i])
                == before@.outgoing[i],
        before@.phase != PhaseEC::Prepare && before@.phase != PhaseEC::Accept ==> after@.outgoing
            == before@.outgoing,
        forall|i: int|
            before@.outgoing.len() <= i < after@.outgoing.len() ==> {
                let m = #[trigger] after@.outgoing[i];
                (election_laws::is_prepare(before@, m, m.to) && is_unasked(before@, m.to))
                    || is_stopsign_again(before@, m)
            },
        before@.phase == PhaseEC::Prepare || before@.phase == PhaseEC::Accept ==> forall|
            pid: NodeId,
        |
            #[trigger] is_unasked(before@, pid) ==> exists|i: int|
                before@.outgoing.len() <= i < after@.outgoing.len() && election_laws::is_prepare(
                    before@,
                    #[trigger] after@.outgoing[i],
                    pid,
                ),
        forall|pid: NodeId|
            #[trigger] lacks_stopsign(before@, pid) ==> exists|i: int|
                before@.outgoing.len() <= i < after@.outgoing.len() && (
                #[trigger] after@.outgoing[i]).to == pid && is_stopsign_again(
                    before@,
                    after@.outgoing[i],
                ),
{
    let b = before@;
    let a = after@;
    let len = b.outgoing.len();
    let unasked = b.leader.preparable(b.peers);
    if b.phase == PhaseEC::Prepare || b.phase == PhaseEC::Accept {
        let mid = if b.phase == PhaseEC::Accept {
            b.resend_stopsign()
        } else {
            b
        };
        let at = mid.outgoing.len() as int;
        lemma_unasked(b);
        assert(a == mid.send_prepares(unasked));
        assert forall|i: int| at <= i < a.outgoing.len() implies election_laws::is_prepare(
            b,
            #[trigger] a.outgoing[i],
            a.outgoing[i].to,
        ) && is_unasked(b, a.outgoing[i].to) by {
            assert(unasked.contains(unasked[i - at]));
            assert(a.outgoing[i] == mid.message(unasked[i - at], mid.prepare()));
        }
        assert forall|pid: NodeId| #[trigger] is_unasked(b, pid) implies exists|i: int|
            len <= i < a.outgoing.len() && election_laws::is_prepare(
                b,
                #[trigger] a.outgoing[i],
                pid,
            ) by {
            let j = choose|j: int| 0 <= j < unasked.len() && unasked[j] == pid;
            assert(election_laws::is_prepare(b, a.outgoing[at + j], pid));
        }
        if b.phase == PhaseEC::Accept && b.storage.model.stopsign is Some {
            lemma_stopsign_again(b, mid);
            assert forall|i: int| len <= i < at implies (#[trigger] a.outgoing[i])
                == mid.outgoing[i] by {}
            assert forall|pid: NodeId| #[trigger] lacks_stopsign(b, pid) implies exists|i: int|
                len <= i < a.outgoing.len() && (#[trigger] a.outgoing[i]).to == pid
                    && is_stopsign_again(b, a.outgoing[i]) by {
                let i = choose|i: int|
                    len <= i < at && (#[trigger] mid.outgoing[i]).to == pid;
                assert(a.outgoing[i] == mid.outgoing[i]);
            }
        }
    }
}

proof fn lemma_unasked<T: ECEntry>(server: PaxosView<T>)
    ensures
        forall|pid: NodeId| #[trigger]
            is_unasked(server, pid) <==> server.leader.preparable(server.peers).contains(pid),
{
    let promises = server.leader.promises;
    lemma_filter_members(server.peers, |pid: NodeId| promises[pid - 1] is NotPromised);
}

proof fn lemma_stopsign_again<T: ECEntry>(b: PaxosView<T>, mid: PaxosView<T>)
    requires
        b.wf(),
        b.phase == PhaseEC::Accept,
        b.storage.model.stopsign is Some,
        b.storage.model.decided_idx <= usize::MAX,
        b.storage.accepted_len() <= usize::MAX,
        mid == b.resend_stopsign(),
    ensures
        mid == (PaxosView { outgoing: mid.outgoing, ..b }),
        b.outgoing.is_prefix_of(mid.outgoing),
        forall|i: int|
            b.outgoing.len() <= i < mid.outgoing.len() ==> is_stopsign_again(
                b,
                #[trigger] mid.outgoing[i],
            ),
        forall|pid: NodeId|
            #[trigger] lacks_stopsign(b, pid) ==> exists|i: int|
                b.outgoing.len() <= i < mid.outgoing.len() && (#[trigger] mid.outgoing[i]).to
                    == pid,
{
    let len = b.outgoing.len();
    let followers = b.leader.promised_followers();
    leader_state::lemma_promised_followers_all(b.leader);
    assert forall|pid: NodeId| #[trigger] decide_laws::is_follower(b, pid) <==> followers.contains(
        pid,
    ) by {}
    let behind = |pid: NodeId| b.leader.accepted_of(pid) != b.storage.accepted_idx();
    lemma_filter_members(followers, behind);
    let again = if b.storage.stopsign_is_decided() {
        followers
    } else {
        b.behind()
    };
    assert forall|pid: NodeId| #[trigger] lacks_stopsign(b, pid) <==> again.contains(pid) by {
        assert(decide_laws::is_follower(b, pid) <==> followers.contains(pid));
    }
    assert forall|i: int| len <= i < mid.outgoing.len() implies is_stopsign_again(
        b,
        #[trigger] mid.outgoing[i],
    ) by {
        assert(again.contains(again[i - len]));
        assert(lacks_stopsign(b, again[i - len]));
    }
    assert forall|pid: NodeId| #[trigger] lacks_stopsign(b, pid) implies exists|i: int|
        len <= i < mid.outgoing.len() && (#[trigger] mid.outgoing[i]).to == pid by {
        let j = choose|j: int| 0 <= j < again.len() && again[j] == pid;
        assert(mid.outgoing[len + j].to == pid);
    }
}

/// A stopsign goes to one server, in the name of the round, with the next number or with
/// the last one again.
pub proof fn stopsign_is_addressed<T: ECEntry, B: Storage<T>>(
    before: SequencePaxosEC<T, B>,
    to: NodeId,
    ss: StopSign,
    resend: bool,
    after: SequencePaxosEC<T, B>,
)
    requires
        before.wf(),
        before@.leader.has(to),
        before@.leader.seq_nums[to - 1].counter < u64::MAX,
        exists|d: &mut SequencePaxosEC<T, B>|
            *d == before && *final(d) == after && #[trigger] call_ensures(
                SequencePaxosEC::<T, B>::send_accept_stopsign,
                (d, to, ss, resend),
                (),
            ),
    ensures
        after@.storage == before@.storage,
        after@.leader.accepted == before@.leader.accepted,
        after@.leader.promises == before@.leader.promises,
        after@.outgoing.len() == before@.outgoing.len() + 1,
        before@.outgoing.is_prefix_of(after@.outgoing),
        ({
            let m = after@.outgoing.last();
            let last = before@.leader.seq_nums[to - 1];
            &&& m.to == to
            &&& accept_laws::is_stopsign_accept(before@, m, ss@)
            &&& m.msg->AcceptStopSign_seq_num == after@.leader.seq_nums[to - 1]
            &&& after@.leader.seq_nums[to - 1].session == last.session
            &&& after@.leader.seq_nums[to - 1].counter == last.counter + if resend {
                0int
            } else {
                1int
            }
        }),
{
    assert(seq![to][0] == to);
    assert(((to - 1) + 1) as NodeId == to);
}

} // verus!
