//! What holds of bringing followers to the leader's log.
use crate::erasure::log_entry::{ECEntry, EntryView};
use crate::leader_state;
use crate::leader_state::{LeaderView, PromiseMetaData, PromiseState};
use crate::messages::{
    LogSyncView, MessageView, MsgView, Promise, PromiseView, SnapshotTypeView,
};
use crate::sequence_paxos_ec::accept_laws;
use crate::sequence_paxos_ec::accept_laws::Proposal;
use crate::sequence_paxos_ec::decide_laws;
use crate::sequence_paxos_ec::model::PaxosView;
use crate::sequence_paxos_ec::{PhaseEC, RoleEC, SequencePaxosEC};
use crate::storage::{Snapshot, Storage};
use crate::util::{Ballot, NodeId, Quorum};
use vstd::prelude::*;

verus! {

/// What the entry of the leader's log at an index proposes.
pub open spec fn logged<T: ECEntry>(server: PaxosView<T>, idx: int) -> Proposal {
    let entry = server.storage.model.log[idx - server.storage.model.compacted_idx];
    Proposal { key: entry.key, op: entry.operation, value: entry.value.data }
}

/// The index after the last entry of the leader's log, the stopsign not counted.
pub open spec fn entries_end<T: ECEntry>(server: PaxosView<T>) -> int {
    (server.storage.model.compacted_idx + server.storage.model.log.len()) as int
}

/// The decided index, without the stopsign where that is decided.
pub open spec fn decided_entries<T: ECEntry>(server: PaxosView<T>) -> int {
    if server.storage.model.stopsign is Some && server.storage.model.decided_idx == entries_end(
        server,
    ) + 1 {
        server.storage.model.decided_idx - 1
    } else {
        server.storage.model.decided_idx as int
    }
}

/// A promise tells how far the follower's log is the leader's: as far as it was accepted
/// where that was in the leader's own round; where it was in the round of the most recent
/// promise, as far as that promise goes too; in every other round only as far as it is
/// decided.
pub open spec fn vouched<T: ECEntry>(
    server: PaxosView<T>,
    meta: PromiseMetaData,
    idx: int,
) -> bool {
    ||| meta.n_accepted == server.leader.n_leader && idx == meta.accepted_idx
    ||| meta.n_accepted != server.leader.n_leader && meta.n_accepted
        == server.leader.max_promise_meta.n_accepted && idx <= meta.accepted_idx && idx
        <= server.leader.max_promise_meta.accepted_idx && (idx == meta.accepted_idx || idx
        == server.leader.max_promise_meta.accepted_idx)
    ||| meta.n_accepted != server.leader.n_leader && meta.n_accepted
        != server.leader.max_promise_meta.n_accepted && idx == meta.decided_idx
}

/// The entries are the follower's pieces of the leader's log from an index on, all of
/// them.
pub open spec fn is_rest_of_log<T: ECEntry>(
    server: PaxosView<T>,
    suffix: Seq<EntryView>,
    start: int,
    to: NodeId,
) -> bool {
    &&& suffix.len() == if start <= entries_end(server) {
        entries_end(server) - start
    } else {
        0
    }
    &&& forall|i: int|
        0 <= i < suffix.len() ==> accept_laws::is_piece(
            server,
            #[trigger] suffix[i],
            logged(server, start + i),
            to,
        )
}

/// The snapshot brings a log that is decided up to `from` to the leader's decided index:
/// with the entries between, where none of them is compacted, and with all up to there
/// otherwise.
pub open spec fn is_snapshot_from<T: ECEntry>(
    server: PaxosView<T>,
    snapshot: Option<SnapshotTypeView<T>>,
    from: int,
) -> bool {
    let model = server.storage.model;
    let floor = model.compacted_idx as int;
    let decided = decided_entries(server);
    if from > floor {
        &&& snapshot matches Some(SnapshotTypeView::Delta(delta))
        &&& from <= decided <= entries_end(server) ==> delta == T::Snapshot::created(
            model.log.subrange(from - floor, decided - floor),
        )
    } else if floor < decided {
        &&& snapshot matches Some(SnapshotTypeView::Complete(complete))
        &&& decided <= entries_end(server) ==> complete == match model.snapshot {
            Some(base) => T::Snapshot::merged(
                base,
                T::Snapshot::created(model.log.subrange(0, decided - floor)),
            ),
            None => T::Snapshot::created(model.log.subrange(0, decided - floor)),
        }
    } else {
        match model.snapshot {
            Some(base) => snapshot matches Some(SnapshotTypeView::Complete(complete)) && complete
                == base,
            None => snapshot is None,
        }
    }
}

/// The log sync takes a follower with this promise to the leader's log. Where snapshots
/// are used and the leader has decided more than is vouched for, a snapshot takes it to
/// the decided index and the rest of the log follows; otherwise the rest of the log
/// follows what is vouched for.
pub open spec fn is_sync_for<T: ECEntry>(
    server: PaxosView<T>,
    sync: LogSyncView<T>,
    meta: PromiseMetaData,
    to: NodeId,
) -> bool {
    &&& sync.stopsign == server.storage.model.stopsign
    &&& exists|common: int| #[trigger]
        vouched(server, meta, common) && if T::Snapshot::enabled()
            && server.storage.model.decided_idx > common {
            &&& is_snapshot_from(server, sync.decided_snapshot, meta.decided_idx as int)
            &&& sync.sync_idx == decided_entries(server)
            &&& is_rest_of_log(
                server,
                sync.suffix,
                server.storage.model.decided_idx as int,
                to,
            )
        } else {
            &&& sync.decided_snapshot is None
            &&& sync.sync_idx == common
            &&& is_rest_of_log(server, sync.suffix, common, to)
        }
}

/// The message is the log sync of a follower: in the name of the round, with the decided
/// index, and with the number that the follower is now at.
pub open spec fn is_accsync<T: ECEntry>(
    server: PaxosView<T>,
    message: MessageView<T>,
    to: NodeId,
) -> bool {
    &&& message.from == server.pid
    &&& message.to == to
    &&& server.leader.promises[to - 1] matches PromiseState::Promised(meta)
    &&& message.msg matches MsgView::AcceptSync { n, seq_num, decided_idx, log_sync }
    &&& n == server.leader.n_leader
    &&& seq_num == server.leader.seq_nums[to - 1]
    &&& decided_idx == server.storage.model.decided_idx
    &&& is_sync_for(server, log_sync, meta, to)
}

/// The accepts to this server start again, with the first number of the next session.
pub open spec fn new_session<T: ECEntry>(
    before: PaxosView<T>,
    after: PaxosView<T>,
    pid: NodeId,
) -> bool {
    let last = before.leader.seq_nums[pid - 1];
    let next = after.leader.seq_nums[pid - 1];
    &&& last.session < u64::MAX ==> next.session == last.session + 1
    &&& next.counter == 1
}

proof fn lemma_accsync<T: ECEntry>(server: PaxosView<T>, to: NodeId, after: PaxosView<T>)
    requires
        server.wf(),
        server.can_accsync(to),
        server.storage.model.decided_idx <= usize::MAX,
        after == (PaxosView {
            outgoing: after.outgoing,
            leader: LeaderView { seq_nums: after.leader.seq_nums, ..server.leader },
            ..server
        }),
        after.leader.seq_nums[to - 1] == leader_state::first_number(
            server.leader.seq_nums[to - 1],
        ),
    ensures
        is_accsync(after, server.message(to, server.accsync(to)), to),
{
    let common = server.valid_idx(to);
    let meta = server.promise_meta(to);
    let sync = server.log_sync_for(to);
    let plain = server.create_log_sync(common, meta.decided_idx);
    let start = if server.syncs_by_snapshot(common) {
        server.storage.model.decided_idx as int
    } else {
        common as int
    };
    assert(vouched(after, meta, common as int));
    assert forall|i: int| 0 <= i < sync.suffix.len() implies accept_laws::is_piece(
        after,
        #[trigger] sync.suffix[i],
        logged(after, start + i),
        to,
    ) by {
        assert(plain.suffix[i] == after.storage.model.log[start + i
            - after.storage.model.compacted_idx]);
    }
    assert(is_rest_of_log(after, sync.suffix, start, to));
    if server.syncs_by_snapshot(common) {
        assert(is_snapshot_from(after, sync.decided_snapshot, meta.decided_idx as int));
    }
}

/// A follower that is synchronised is sent what its promise leaves open, and all of it.
pub proof fn follower_is_sent_what_it_lacks<T: ECEntry, B: Storage<T>>(
    before: SequencePaxosEC<T, B>,
    to: NodeId,
    after: SequencePaxosEC<T, B>,
)
    requires
        before.wf(),
        before@.can_accsync(to),
        exists|d: &mut SequencePaxosEC<T, B>|
            *d == before && *final(d) == after && #[trigger] call_ensures(
                SequencePaxosEC::<T, B>::send_accsync,
                (d, to),
                Ok(()),
            ),
    ensures
        after@.outgoing.len() == before@.outgoing.len() + 1,
        before@.outgoing.is_prefix_of(after@.outgoing),
        is_accsync(after@, after@.outgoing.last(), to),
        new_session(before@, after@, to),
        after@.storage == before@.storage,
        after@.leader.promises == before@.leader.promises,
        after@.leader.accepted == before@.leader.accepted,
        forall|pid: NodeId|
            1 <= pid <= before@.leader.max_pid && pid != to ==> (
            #[trigger] after@.leader.seq_nums[pid - 1]) == before@.leader.seq_nums[pid - 1],
{
    assert(seq![to][0] == to);
    assert(((to - 1) + 1) as NodeId == to);
    assert forall|pid: NodeId|
        1 <= pid <= before@.leader.max_pid && pid != to implies (
    #[trigger] after@.leader.seq_nums[pid - 1]) == before@.leader.seq_nums[pid - 1] by {
        assert(((pid - 1) + 1) as NodeId == pid);
    }
    lemma_accsync(before@, to, after@);
    assert(after@.outgoing.last() == before@.message(to, before@.accsync(to)));
}

/// A follower that accepted in a round which is neither the leader's nor that of the most
/// recent promise keeps no entry of its own log beyond its decided index: what it keeps
/// ends there, or a snapshot stands for it. There is no snapshot only where the leader has
/// compacted all that is decided without keeping one.
pub proof fn entries_of_other_rounds_are_replaced<T: ECEntry, B: Storage<T>>(
    before: SequencePaxosEC<T, B>,
    to: NodeId,
    meta: PromiseMetaData,
    after: SequencePaxosEC<T, B>,
)
    requires
        before.wf(),
        before@.can_accsync(to),
        before@.leader.promises[to - 1] == PromiseState::Promised(meta),
        meta.n_accepted != before@.leader.n_leader,
        meta.n_accepted != before@.leader.max_promise_meta.n_accepted,
        exists|d: &mut SequencePaxosEC<T, B>|
            *d == before && *final(d) == after && #[trigger] call_ensures(
                SequencePaxosEC::<T, B>::send_accsync,
                (d, to),
                Ok(()),
            ),
    ensures
        after@.outgoing.last().msg matches MsgView::AcceptSync { log_sync, .. } && (
        log_sync.sync_idx == meta.decided_idx || log_sync.decided_snapshot is Some || (
        T::Snapshot::enabled() && before@.storage.model.snapshot is None
            && before@.storage.model.compacted_idx >= decided_entries(before@))),
{
    follower_is_sent_what_it_lacks(before, to, after);
}

/// The follower's log has the follower's pieces of the leader's log up to an index, as
/// far as the leader's log goes and is not compacted.
pub open spec fn agrees_up_to<T: ECEntry>(
    server: PaxosView<T>,
    theirs: Seq<EntryView>,
    idx: int,
    to: NodeId,
) -> bool {
    &&& idx <= theirs.len()
    &&& forall|i: int|
        server.storage.model.compacted_idx <= i < idx && i < entries_end(server)
            ==> accept_laws::is_piece(server, #[trigger] theirs[i], logged(server, i), to)
}

/// The rounds promise of the log of a follower that it is the leader's up to its decided
/// index, as far as it was accepted in the leader's round, and, where it was accepted in
/// the round of the most recent promise, as far as both go.
pub open spec fn rounds_hold<T: ECEntry>(
    server: PaxosView<T>,
    meta: PromiseMetaData,
    theirs: Seq<EntryView>,
    to: NodeId,
) -> bool {
    &&& agrees_up_to(server, theirs, meta.decided_idx as int, to)
    &&& meta.n_accepted == server.leader.n_leader ==> agrees_up_to(
        server,
        theirs,
        meta.accepted_idx as int,
        to,
    )
    &&& meta.n_accepted == server.leader.max_promise_meta.n_accepted ==> forall|both: int|
        both <= meta.accepted_idx && both <= server.leader.max_promise_meta.accepted_idx
            ==> #[trigger] agrees_up_to(server, theirs, both, to)
}

/// The follower needs no snapshot: none are used, or no more is decided than its promise
/// vouches for.
pub open spec fn needs_no_snapshot<T: ECEntry>(
    server: PaxosView<T>,
    meta: PromiseMetaData,
) -> bool {
    T::Snapshot::enabled() ==> forall|common: int| #[trigger]
        vouched(server, meta, common) ==> server.storage.model.decided_idx <= common
}

/// The follower's log with the log sync applied: what it keeps, and the suffix. It has the
/// follower's piece of every entry of the leader's log that is not compacted.
pub open spec fn has_the_log<T: ECEntry>(
    server: PaxosView<T>,
    theirs: Seq<EntryView>,
    sync: LogSyncView<T>,
    to: NodeId,
) -> bool {
    let applied = theirs.take(sync.sync_idx as int) + sync.suffix;
    &&& sync.sync_idx <= theirs.len()
    &&& applied.len() >= entries_end(server)
    &&& forall|i: int|
        server.storage.model.compacted_idx <= i < entries_end(server) ==> accept_laws::is_piece(
            server,
            #[trigger] applied[i],
            logged(server, i),
            to,
        )
}

/// A follower that applies its log sync has the leader's log: its piece of every entry.
/// This needs of the follower's log what the rounds promise.
pub proof fn log_sync_completes_the_log<T: ECEntry>(
    server: PaxosView<T>,
    message: MessageView<T>,
    to: NodeId,
    meta: PromiseMetaData,
    theirs: Seq<EntryView>,
)
    requires
        is_accsync(server, message, to),
        server.leader.promises[to - 1] == PromiseState::Promised(meta),
        rounds_hold(server, meta, theirs, to),
        needs_no_snapshot(server, meta),
    ensures
        message.msg matches MsgView::AcceptSync { log_sync, .. } && has_the_log(
            server,
            theirs,
            log_sync,
            to,
        ),
{
    let sync = message.msg->AcceptSync_log_sync;
    let common = choose|common: int| #[trigger]
        vouched(server, meta, common) && sync.decided_snapshot is None && sync.sync_idx == common
            && is_rest_of_log(server, sync.suffix, common, to);
    let applied = theirs.take(sync.sync_idx as int) + sync.suffix;
    assert(agrees_up_to(server, theirs, common, to));
    assert forall|i: int|
        server.storage.model.compacted_idx <= i < entries_end(server) implies accept_laws::is_piece(
        server,
        #[trigger] applied[i],
        logged(server, i),
        to,
    ) by {
        if i < common {
            assert(applied[i] == theirs[i]);
        } else {
            assert(applied[i] == sync.suffix[i - common]);
            assert(accept_laws::is_piece(
                server,
                sync.suffix[i - common],
                logged(server, common + (i - common)),
                to,
            ));
        }
    }
}

/// A follower that is synchronised and applies what it is sent has the leader's log.
pub proof fn synchronised_follower_has_the_log<T: ECEntry, B: Storage<T>>(
    before: SequencePaxosEC<T, B>,
    to: NodeId,
    meta: PromiseMetaData,
    theirs: Seq<EntryView>,
    after: SequencePaxosEC<T, B>,
)
    requires
        before.wf(),
        before@.can_accsync(to),
        before@.leader.promises[to - 1] == PromiseState::Promised(meta),
        exists|d: &mut SequencePaxosEC<T, B>|
            *d == before && *final(d) == after && #[trigger] call_ensures(
                SequencePaxosEC::<T, B>::send_accsync,
                (d, to),
                Ok(()),
            ),
        rounds_hold(after@, meta, theirs, to),
        needs_no_snapshot(after@, meta),
    ensures
        after@.storage == before@.storage,
        after@.outgoing.last().msg matches MsgView::AcceptSync { log_sync, .. } && has_the_log(
            after@,
            theirs,
            log_sync,
            to,
        ),
{
    follower_is_sent_what_it_lacks(before, to, after);
    log_sync_completes_the_log(after@, after@.outgoing.last(), to, meta, theirs);
}

/// One promise is of a more recent log than another: accepted in a higher round, or in
/// the same round and longer.
pub open spec fn more_recent(n: Ballot, idx: usize, than_n: Ballot, than_idx: usize) -> bool {
    than_n.below(n) || (n == than_n && idx > than_idx)
}

/// What a promise tells without its log.
pub open spec fn told_by<T: ECEntry>(prom: PromiseView<T>, from: NodeId) -> PromiseMetaData {
    PromiseMetaData {
        n_accepted: prom.n_accepted,
        accepted_idx: prom.accepted_idx,
        decided_idx: prom.decided_idx,
        pid: from,
    }
}

/// The server that has noted a promise: at the place of its sender and, where its log is
/// more recent than that of all before, as the most recent one.
pub open spec fn with_promise<T: ECEntry>(
    server: PaxosView<T>,
    prom: PromiseView<T>,
    from: NodeId,
    compare: bool,
) -> PaxosView<T> {
    let recent = compare && more_recent(
        prom.n_accepted,
        prom.accepted_idx,
        server.leader.max_promise_meta.n_accepted,
        server.leader.max_promise_meta.accepted_idx,
    );
    PaxosView {
        leader: LeaderView {
            promises: server.leader.promises.update(
                from - 1,
                PromiseState::Promised(told_by(prom, from)),
            ),
            max_promise_meta: if recent {
                told_by(prom, from)
            } else {
                server.leader.max_promise_meta
            },
            max_promise_sync: if recent {
                prom.log_sync
            } else {
                server.leader.max_promise_sync
            },
            ..server.leader
        },
        ..server
    }
}

/// How many servers must have promised.
pub open spec fn read_quorum(quorum: Quorum) -> nat {
    match quorum {
        Quorum::Majority(size) => size as nat,
        Quorum::Flexible(sizes) => sizes.read_quorum_size as nat,
    }
}

/// The servers that have promised.
pub open spec fn promisers<T: ECEntry>(server: PaxosView<T>) -> Set<NodeId> {
    Set::new(
        |pid: NodeId|
            1 <= pid <= server.leader.max_pid && server.leader.promises[pid - 1] is Promised,
    )
}

/// A late promise is noted and answered with the log sync of its sender. The most recent
/// promise stays the same. A promise of another round changes nothing.
pub proof fn late_promise_is_answered<T: ECEntry, B: Storage<T>>(
    before: SequencePaxosEC<T, B>,
    prom: Promise<T>,
    from: NodeId,
    after: SequencePaxosEC<T, B>,
)
    requires
        before.wf(),
        before@.leader.has(from),
        prom@.n == before@.leader.n_leader ==> with_promise(
            before@,
            prom@,
            from,
            false,
        ).can_accsync(from),
        exists|d: &mut SequencePaxosEC<T, B>|
            *d == before && *final(d) == after && #[trigger] call_ensures(
                SequencePaxosEC::<T, B>::handle_promise_accept,
                (d, prom, from),
                Ok(()),
            ),
    ensures
        prom@.n != before@.leader.n_leader ==> after@ == before@,
        prom@.n == before@.leader.n_leader ==> {
            &&& after@.outgoing.len() == before@.outgoing.len() + 1
            &&& before@.outgoing.is_prefix_of(after@.outgoing)
            &&& is_accsync(after@, after@.outgoing.last(), from)
            &&& new_session(before@, after@, from)
            &&& after@.leader.promises == before@.leader.promises.update(
                from - 1,
                PromiseState::Promised(told_by(prom@, from)),
            )
            &&& after@.leader.max_promise_meta == before@.leader.max_promise_meta
            &&& after@.leader.max_promise_sync == before@.leader.max_promise_sync
            &&& after@.storage == before@.storage
            &&& after@.leader.accepted == before@.leader.accepted
            &&& after@.role == before@.role
            &&& after@.phase == before@.phase
            &&& forall|pid: NodeId|
                1 <= pid <= before@.leader.max_pid && pid != from ==> (
                #[trigger] after@.leader.seq_nums[pid - 1]) == before@.leader.seq_nums[pid - 1]
        },
{
    if prom@.n == before@.leader.n_leader {
        let noted = with_promise(before@, prom@, from, false);
        assert(noted == before@.with_leader(before@.leader.set_promise(prom@, from, false)));
        assert(seq![from][0] == from);
        assert(((from - 1) + 1) as NodeId == from);
        assert forall|pid: NodeId|
            1 <= pid <= before@.leader.max_pid && pid != from implies (
        #[trigger] after@.leader.seq_nums[pid - 1]) == before@.leader.seq_nums[pid - 1] by {
            assert(((pid - 1) + 1) as NodeId == pid);
        }
        lemma_accsync(noted, from, after@);
        assert(after@.outgoing.last() == noted.message(from, noted.accsync(from)));
    }
}

/// The log of `after` is the one that `before` has adopted: its own where no promise
/// brought a more recent one; otherwise its own up to the index of the log sync and the
/// suffix behind it, or the suffix behind a snapshot that stands for all before it. What
/// was buffered is behind that, unless the adopted log ends with a stopsign.
pub open spec fn has_adopted<T: ECEntry>(
    before: PaxosView<T>,
    after: PaxosView<T>,
    keeps: bool,
) -> bool {
    let old = before.storage.model;
    let new = after.storage.model;
    let base = match before.leader.max_promise_sync {
        None => old.log,
        Some(sync) => match sync.decided_snapshot {
            None => old.log.take(sync.sync_idx - old.compacted_idx) + sync.suffix,
            Some(_) => sync.suffix,
        },
    };
    let stopsign = match before.leader.max_promise_sync {
        None => old.stopsign,
        Some(sync) => sync.stopsign,
    };
    &&& new.compacted_idx == match before.leader.max_promise_sync {
        Some(sync) => match sync.decided_snapshot {
            Some(_) => sync.sync_idx as nat,
            None => old.compacted_idx,
        },
        None => old.compacted_idx,
    }
    &&& match stopsign {
        Some(ss) => {
            &&& new.log == base
            &&& new.stopsign == Some(ss)
            &&& after.storage.batched == before.storage.batched
            &&& after.buffered_proposals == before.buffered_proposals
            &&& after.buffered_stopsign == before.buffered_stopsign
        },
        None => {
            &&& new.stopsign == before.buffered_stopsign
            &&& after.buffered_proposals.len() == 0
            &&& after.buffered_stopsign is None
            &&& match before.buffered_stopsign {
                Some(_) => new.log == base + before.buffered_proposals + before.storage.batched
                    && after.storage.batched.len() == 0,
                None => new.log == base + before.buffered_proposals && after.storage.batched
                    == before.storage.batched,
            }
        },
    }
    &&& match before.leader.max_promise_sync {
        Some(sync) => match sync.decided_snapshot {
            None => new.snapshot == old.snapshot,
            Some(SnapshotTypeView::Complete(complete)) => new.snapshot == if keeps {
                Some(complete)
            } else {
                old.snapshot
            },
            Some(SnapshotTypeView::Delta(delta)) => {
                let decided = decided_entries(before);
                let own = T::Snapshot::created(
                    old.log.subrange(0, decided - old.compacted_idx),
                );
                let all = match old.snapshot {
                    Some(snapshot) => T::Snapshot::merged(snapshot, own),
                    None => own,
                };
                decided <= entries_end(before) ==> new.snapshot == if keeps {
                    Some(T::Snapshot::merged(all, delta))
                } else {
                    old.snapshot
                }
            },
        },
        None => new.snapshot == old.snapshot,
    }
}

/// The decided index of `after` is the highest that a promise told.
pub open spec fn has_highest_decided<T: ECEntry>(
    before: PaxosView<T>,
    after: PaxosView<T>,
) -> bool {
    let decided = after.storage.model.decided_idx;
    &&& forall|i: int|
        0 <= i < before.leader.promises.len() ==> ((#[trigger] before.leader.promises[i]) matches
            PromiseState::Promised(meta) ==> meta.decided_idx <= decided)
    &&& decided == 0 || exists|i: int|
        0 <= i < before.leader.promises.len() && ((#[trigger] before.leader.promises[i]) matches
            PromiseState::Promised(meta) && meta.decided_idx == decided)
}

/// The accept phase was started: the most recent log is adopted in this round, and every
/// follower that has promised, and nobody else, is sent its log sync in a new session.
pub open spec fn has_started<T: ECEntry>(
    before: PaxosView<T>,
    after: PaxosView<T>,
    keeps: bool,
) -> bool {
    let len = before.outgoing.len();
    &&& after.role == RoleEC::Leader
    &&& after.phase == PhaseEC::Accept
    &&& after.pid == before.pid
    &&& after.peers == before.peers
    &&& after.k == before.k
    &&& after.m == before.m
    &&& after.storage.batch_size == before.storage.batch_size
    &&& after.storage.model.promise == before.storage.model.promise
    &&& after.storage.model.accepted_round == Some(before.leader.n_leader)
    &&& has_highest_decided(before, after)
    &&& has_adopted(before, after, keeps)
    &&& after.leader.n_leader == before.leader.n_leader
    &&& after.leader.promises == before.leader.promises
    &&& after.leader.max_promise_meta == before.leader.max_promise_meta
    &&& after.leader.max_promise_sync is None
    &&& after.leader.latest_accept == before.leader.latest_accept
    &&& after.leader.max_pid == before.leader.max_pid
    &&& after.leader.quorum == before.leader.quorum
    &&& accept_laws::log_end(after) <= usize::MAX ==> after.leader.accepted
        == before.leader.accepted.update(before.pid - 1, accept_laws::log_end(after) as usize)
    &&& after.outgoing.len() >= len
    &&& forall|i: int| 0 <= i < len ==> (#[trigger] after.outgoing[i]) == before.outgoing[i]
    &&& forall|i: int|
        len <= i < after.outgoing.len() ==> {
            let m = #[trigger] after.outgoing[i];
            &&& decide_laws::is_follower(before, m.to)
            &&& is_accsync(after, m, m.to)
            &&& new_session(before, after, m.to)
        }
    &&& forall|i: int, j: int|
        len <= i < j < after.outgoing.len() ==> (#[trigger] after.outgoing[i]).to < (
        #[trigger] after.outgoing[j]).to
    &&& forall|pid: NodeId|
        #[trigger] decide_laws::is_follower(before, pid) ==> exists|i: int|
            len <= i < after.outgoing.len() && (#[trigger] after.outgoing[i]).to == pid
    &&& forall|pid: NodeId|
        1 <= pid <= before.leader.max_pid && !decide_laws::is_follower(before, pid) ==> (
        #[trigger] after.leader.seq_nums[pid - 1]) == before.leader.seq_nums[pid - 1]
}

proof fn lemma_max_decided(promises: Seq<PromiseState>)
    ensures
        forall|i: int|
            0 <= i < promises.len() ==> ((#[trigger] promises[i]) matches PromiseState::Promised(
                meta,
            ) ==> meta.decided_idx <= leader_state::max_decided(promises)),
        leader_state::max_decided(promises) == 0 || exists|i: int|
            0 <= i < promises.len() && ((#[trigger] promises[i]) matches PromiseState::Promised(
                meta,
            ) && meta.decided_idx == leader_state::max_decided(promises)),
    decreases promises.len(),
{
    if promises.len() > 0 {
        let first = promises.drop_last();
        lemma_max_decided(first);
        assert forall|i: int| 0 <= i < promises.len() implies ((
        #[trigger] promises[i]) matches PromiseState::Promised(meta) ==> meta.decided_idx
            <= leader_state::max_decided(promises)) by {
            if i < first.len() {
                assert(first[i] == promises[i]);
            }
        }
        let highest = leader_state::max_decided(promises);
        if highest != 0 {
            if highest == leader_state::max_decided(first) {
                let i = choose|i: int|
                    0 <= i < first.len() && ((
                    #[trigger] first[i]) matches PromiseState::Promised(meta) && meta.decided_idx
                        == highest);
                assert(promises[i] == first[i]);
            } else {
                assert(promises[promises.len() - 1] == promises.last());
            }
        }
    }
}

proof fn lemma_started<T: ECEntry>(server: PaxosView<T>, keeps: bool)
    requires
        server.wf(),
        server.can_start_accepting(keeps),
        server.start_accepting(keeps).wf(),
    ensures
        has_started(server, server.handle_majority(keeps), keeps),
{
    let started = server.start_accepting(keeps);
    let after = server.handle_majority(keeps);
    let followers = server.leader.promised_followers();
    let len = server.outgoing.len();
    lemma_max_decided(server.leader.promises);
    leader_state::lemma_promised_followers(server.leader);
    leader_state::lemma_promised_followers_all(server.leader);
    assert(has_highest_decided(server, after));
    assert(has_adopted(server, after, keeps)) by {
        let old = server.storage.model;
        let new = after.storage.model;
        match server.leader.max_promise_sync {
            None => {
                assert(server.adopted(keeps).model.log == old.log);
            },
            Some(sync) => {
                match sync.decided_snapshot {
                    None => {
                        assert(server.adopted(keeps).model.log == old.log.take(
                            sync.sync_idx - old.compacted_idx,
                        ) + sync.suffix);
                    },
                    Some(_) => {
                        assert(server.adopted(keeps).model.log =~= sync.suffix);
                    },
                }
            },
        }
    }
    assert forall|pid: NodeId| #[trigger] decide_laws::is_follower(server, pid)
        <==> followers.contains(pid) by {}
    assert forall|i: int| len <= i < after.outgoing.len() implies {
        let m = #[trigger] after.outgoing[i];
        &&& m.to == followers[i - len]
        &&& decide_laws::is_follower(server, m.to)
        &&& is_accsync(after, m, m.to)
        &&& new_session(server, after, m.to)
    } by {
        let pid = followers[i - len];
        assert(followers.contains(pid));
        assert(server.leader.has(pid));
        assert(((pid - 1) + 1) as NodeId == pid);
        assert(started.can_accsync(pid));
        lemma_accsync(started, pid, after);
        assert(after.outgoing[i] == started.message(pid, started.accsync(pid)));
    }
    assert forall|i: int, j: int| len <= i < j < after.outgoing.len() implies (
    #[trigger] after.outgoing[i]).to < (#[trigger] after.outgoing[j]).to by {
        assert(followers[i - len] < followers[j - len]);
    }
    assert forall|pid: NodeId| #[trigger] decide_laws::is_follower(server, pid) implies exists|
        i: int,
    | len <= i < after.outgoing.len() && (#[trigger] after.outgoing[i]).to == pid by {
        assert(followers.contains(pid));
        let j = choose|j: int| 0 <= j < followers.len() && followers[j] == pid;
        assert(after.outgoing[len + j].to == pid);
    }
    assert forall|pid: NodeId|
        1 <= pid <= server.leader.max_pid && !decide_laws::is_follower(server, pid) implies (
    #[trigger] after.leader.seq_nums[pid - 1]) == server.leader.seq_nums[pid - 1] by {
        assert(((pid - 1) + 1) as NodeId == pid);
    }
}

/// With enough promises the accept phase starts: the leader adopts the most recent log,
/// adds what was buffered, and every follower that has promised is sent its log sync.
pub proof fn accept_phase_reaches_every_follower<T: ECEntry, B: Storage<T>>(
    before: SequencePaxosEC<T, B>,
    after: SequencePaxosEC<T, B>,
)
    requires
        before.wf(),
        before@.can_start_accepting(B::keeps_snapshots()),
        exists|d: &mut SequencePaxosEC<T, B>|
            *d == before && *final(d) == after && #[trigger] call_ensures(
                SequencePaxosEC::<T, B>::handle_majority_promises,
                (d,),
                Ok(()),
            ),
    ensures
        has_started(before@, after@, B::keeps_snapshots()),
{
    lemma_adopted_decided(before@, B::keeps_snapshots());
    lemma_started(before@, B::keeps_snapshots());
}

/// Once the accept phase has started, every follower that has promised can have the log
/// that the leader has adopted: among the messages that have joined the outgoing ones
/// there is one to it, and applying it completes its log.
pub proof fn every_follower_can_have_the_log<T: ECEntry, B: Storage<T>>(
    before: SequencePaxosEC<T, B>,
    to: NodeId,
    meta: PromiseMetaData,
    theirs: Seq<EntryView>,
    after: SequencePaxosEC<T, B>,
) -> (place: int)
    requires
        before.wf(),
        before@.can_start_accepting(B::keeps_snapshots()),
        exists|d: &mut SequencePaxosEC<T, B>|
            *d == before && *final(d) == after && #[trigger] call_ensures(
                SequencePaxosEC::<T, B>::handle_majority_promises,
                (d,),
                Ok(()),
            ),
        1 <= to <= before@.leader.max_pid,
        to != before@.leader.n_leader.pid,
        before@.leader.promises[to - 1] == PromiseState::Promised(meta),
        rounds_hold(after@, meta, theirs, to),
        needs_no_snapshot(after@, meta),
    ensures
        before@.outgoing.len() <= place < after@.outgoing.len(),
        after@.outgoing[place].to == to,
        after@.outgoing[place].msg matches MsgView::AcceptSync { log_sync, .. } && has_the_log(
            after@,
            theirs,
            log_sync,
            to,
        ),
{
    accept_phase_reaches_every_follower(before, after);
    assert(decide_laws::is_follower(before@, to));
    let place = choose|i: int|
        before@.outgoing.len() <= i < after@.outgoing.len() && (#[trigger] after@.outgoing[i]).to
            == to;
    log_sync_completes_the_log(after@, after@.outgoing[place], to, meta, theirs);
    place
}

proof fn lemma_adopted_decided<T: ECEntry>(server: PaxosView<T>, keeps: bool)
    requires
        server.wf(),
    ensures
        server.start_accepting(keeps).wf(),
        server.start_accepting(keeps).storage.model.decided_idx <= usize::MAX,
{
}

/// A promise of the round is noted, as the most recent one where its log is. The accept
/// phase starts with it where the servers that have promised are a read quorum, and only
/// there; until then nothing is sent or written. A promise of another round changes
/// nothing.
pub proof fn promise_counts_towards_the_quorum<T: ECEntry, B: Storage<T>>(
    before: SequencePaxosEC<T, B>,
    prom: Promise<T>,
    from: NodeId,
    after: SequencePaxosEC<T, B>,
)
    requires
        before.wf(),
        before@.leader.has(from),
        ({
            let noted = with_promise(before@, prom@, from, true);
            prom@.n == before@.leader.n_leader && promisers(noted).len() >= read_quorum(
                before@.leader.quorum,
            ) ==> noted.can_start_accepting(B::keeps_snapshots())
        }),
        exists|d: &mut SequencePaxosEC<T, B>|
            *d == before && *final(d) == after && #[trigger] call_ensures(
                SequencePaxosEC::<T, B>::handle_promise_prepare,
                (d, prom, from),
                Ok(()),
            ),
    ensures
        ({
            let noted = with_promise(before@, prom@, from, true);
            if prom@.n != before@.leader.n_leader {
                after@ == before@
            } else if promisers(noted).len() >= read_quorum(before@.leader.quorum) {
                has_started(noted, after@, B::keeps_snapshots())
            } else {
                after@ == noted
            }
        }),
{
    let noted = with_promise(before@, prom@, from, true);
    assert(noted == before@.with_leader(before@.leader.set_promise(prom@, from, true)));
    leader_state::lemma_prepared(noted.leader, promisers(noted));
    if prom@.n == before@.leader.n_leader && promisers(noted).len() >= read_quorum(
        before@.leader.quorum,
    ) {
        lemma_adopted_decided(noted, B::keeps_snapshots());
        lemma_started(noted, B::keeps_snapshots());
    }
}

} // verus!
