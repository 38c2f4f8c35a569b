//! What holds where the storage fails: nothing is sent that was not written.
use crate::erasure::log_entry::ECEntry;
use crate::messages::Accepted;
use crate::sequence_paxos_ec::{PhaseEC, RoleEC, SequencePaxosEC};
use crate::storage::{StopSign, Storage, StorageError};
use crate::util;
use crate::util::{Ballot, NodeId};
use vstd::prelude::*;

verus! {

/// A server whose promise could not be written asks nobody for theirs. Only the election
/// of this server itself, with a ballot above all that it knows, writes anything.
pub proof fn failed_election_is_not_sent<T: ECEntry, B: Storage<T>>(
    before: SequencePaxosEC<T, B>,
    n: Ballot,
    e: StorageError,
    after: SequencePaxosEC<T, B>,
)
    requires
        before.wf(),
        exists|d: &mut SequencePaxosEC<T, B>|
            *d == before && *final(d) == after && #[trigger] call_ensures(
                SequencePaxosEC::<T, B>::handle_leader,
                (d, n),
                Err(e),
            ),
    ensures
        !before.reliable(),
        after@.outgoing == before@.outgoing,
        before@.pid == n.pid,
        before@.leader.n_leader.below(n),
{
}

/// An entry that could not be written is sent to nobody, and only a full batch is written.
pub proof fn failed_entry_is_not_sent<T: ECEntry, B: Storage<T>>(
    before: SequencePaxosEC<T, B>,
    entry: T,
    e: StorageError,
    after: SequencePaxosEC<T, B>,
)
    requires
        before.wf(),
        exists|d: &mut SequencePaxosEC<T, B>|
            *d == before && *final(d) == after && #[trigger] call_ensures(
                SequencePaxosEC::<T, B>::accept_entry_leader,
                (d, entry),
                Err(e),
            ),
    ensures
        !before.reliable(),
        after@.outgoing == before@.outgoing,
        before@.storage.batched.len() + 1 >= before@.storage.batch_size,
{
}

/// Entries that could not be written are sent to nobody, and only a full batch is written.
pub proof fn failed_entries_is_not_sent<T: ECEntry, B: Storage<T>>(
    before: SequencePaxosEC<T, B>,
    entries: Vec<T>,
    e: StorageError,
    after: SequencePaxosEC<T, B>,
)
    requires
        before.wf(),
        exists|d: &mut SequencePaxosEC<T, B>|
            *d == before && *final(d) == after && #[trigger] call_ensures(
                SequencePaxosEC::<T, B>::accept_entries_leader,
                (d, entries),
                Err(e),
            ),
    ensures
        !before.reliable(),
        after@.outgoing == before@.outgoing,
        before@.storage.batched.len() + entries@.len() >= before@.storage.batch_size,
{
    assert(util::views(entries@).len() == entries@.len());
}

/// A batch that could not be written is sent to nobody, and an empty one is not written.
pub proof fn failed_flush_is_not_sent<T: ECEntry, B: Storage<T>>(
    before: SequencePaxosEC<T, B>,
    e: StorageError,
    after: SequencePaxosEC<T, B>,
)
    requires
        before.wf(),
        exists|d: &mut SequencePaxosEC<T, B>|
            *d == before && *final(d) == after && #[trigger] call_ensures(
                SequencePaxosEC::<T, B>::flush_batch_leader,
                (d,),
                Err(e),
            ),
    ensures
        !before.reliable(),
        after@.outgoing == before@.outgoing,
        before@.storage.batched.len() > 0,
{
}

/// A stopsign that could not be written is sent to nobody.
pub proof fn failed_stopsign_is_not_sent<T: ECEntry, B: Storage<T>>(
    before: SequencePaxosEC<T, B>,
    ss: StopSign,
    e: StorageError,
    after: SequencePaxosEC<T, B>,
)
    requires
        before.wf(),
        exists|d: &mut SequencePaxosEC<T, B>|
            *d == before && *final(d) == after && #[trigger] call_ensures(
                SequencePaxosEC::<T, B>::accept_stopsign_leader,
                (d, ss),
                Err(e),
            ),
    ensures
        !before.reliable(),
        after@.outgoing == before@.outgoing,
{
}

/// A decided index that could not be written is told to nobody, and nothing is written of an
/// accepted that decides nothing.
pub proof fn failed_decision_is_not_sent<T: ECEntry, B: Storage<T>>(
    before: SequencePaxosEC<T, B>,
    accepted: Accepted,
    from: NodeId,
    e: StorageError,
    after: SequencePaxosEC<T, B>,
)
    requires
        before.wf(),
        exists|d: &mut SequencePaxosEC<T, B>|
            *d == before && *final(d) == after && #[trigger] call_ensures(
                SequencePaxosEC::<T, B>::handle_accepted,
                (d, accepted, from),
                Err(e),
            ),
    ensures
        !before.reliable(),
        after@.outgoing == before@.outgoing,
        before@.role == RoleEC::Leader,
        before@.phase == PhaseEC::Accept,
        accepted.n == before@.leader.n_leader,
        accepted.accepted_idx > before@.storage.model.decided_idx,
{
}

/// Proposals that could not be written are sent to nobody, and only the leader writes any,
/// in its accept phase.
pub proof fn failed_proposals_is_not_sent<T: ECEntry, B: Storage<T>>(
    before: SequencePaxosEC<T, B>,
    entries: Vec<T>,
    e: StorageError,
    after: SequencePaxosEC<T, B>,
)
    requires
        before.wf(),
        exists|d: &mut SequencePaxosEC<T, B>|
            *d == before && *final(d) == after && #[trigger] call_ensures(
                SequencePaxosEC::<T, B>::handle_forwarded_proposal,
                (d, entries),
                Err(e),
            ),
    ensures
        !before.reliable(),
        after@.outgoing == before@.outgoing,
        before@.role == RoleEC::Leader,
        before@.phase == PhaseEC::Accept,
        before@.storage.model.stopsign is None,
{
}

/// A stopsign of another server that could not be written is sent to nobody, and only the
/// leader writes one, in its accept phase.
pub proof fn failed_forwarded_stopsign_is_not_sent<T: ECEntry, B: Storage<T>>(
    before: SequencePaxosEC<T, B>,
    ss: StopSign,
    e: StorageError,
    after: SequencePaxosEC<T, B>,
)
    requires
        before.wf(),
        exists|d: &mut SequencePaxosEC<T, B>|
            *d == before && *final(d) == after && #[trigger] call_ensures(
                SequencePaxosEC::<T, B>::handle_forwarded_stopsign,
                (d, ss),
                Err(e),
            ),
    ensures
        !before.reliable(),
        after@.outgoing == before@.outgoing,
        before@.role == RoleEC::Leader,
        before@.phase == PhaseEC::Accept,
        before@.storage.model.stopsign is None,
{
}

} // verus!
