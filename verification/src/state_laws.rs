//! What holds of the storage with its cache and its batch, and of what the leader knows.
use crate::internal_storage::{AcceptedMetaData, InternalStorage};
use crate::leader_state;
use crate::leader_state::{LeaderState, PromiseMetaData, PromiseState};
use crate::messages::{Promise, SequenceNumber};
use crate::storage::{Entry, StopSign, Storage, StorageModel};
use crate::util;
use crate::util::{Ballot, NodeId, Quorum};
use vstd::prelude::*;

verus! {

/// The index after the last entry, the stopsign counted.
pub open spec fn end_of<T: Entry>(model: StorageModel<T>) -> nat {
    model.compacted_idx + model.log.len() + if model.stopsign is Some {
        1nat
    } else {
        0nat
    }
}

/// What the cache tells is what the storage holds.
pub proof fn cache_tells_what_is_held<B: Storage<T>, T: Entry>(
    storage: InternalStorage<B, T>,
    promise: Ballot,
    accepted_round: Ballot,
    decided_idx: usize,
    accepted_idx: usize,
    ss: Option<StopSign>,
    decided: bool,
)
    requires
        storage.wf(),
        call_ensures(InternalStorage::<B, T>::get_promise, (&storage,), promise),
        call_ensures(InternalStorage::<B, T>::get_accepted_round, (&storage,), accepted_round),
        call_ensures(InternalStorage::<B, T>::get_decided_idx, (&storage,), decided_idx),
        call_ensures(InternalStorage::<B, T>::get_accepted_idx, (&storage,), accepted_idx),
        call_ensures(InternalStorage::<B, T>::get_stopsign, (&storage,), ss),
        call_ensures(InternalStorage::<B, T>::stopsign_is_decided, (&storage,), decided),
    ensures
        storage.storage.model().promise matches Some(n) ==> promise == n,
        storage.storage.model().promise is None ==> promise == (Ballot {
            config_id: 0,
            n: 0,
            priority: 0,
            pid: 0,
        }),
        storage.storage.model().accepted_round matches Some(n) ==> accepted_round == n,
        storage.storage.model().accepted_round is None ==> accepted_round == (Ballot {
            config_id: 0,
            n: 0,
            priority: 0,
            pid: 0,
        }),
        decided_idx == storage.storage.model().decided_idx,
        accepted_idx == end_of(storage.storage.model()),
        util::view_option(ss) == storage.storage.model().stopsign,
        decided <==> ss is Some && decided_idx == accepted_idx,
{
}

/// Entries wait in the batch, in order, until it has as many as it may. Then all that
/// waited are at the end of the log, and are told with the length that it has.
pub proof fn batch_is_written_when_full<B: Storage<T>, T: Entry>(
    before: InternalStorage<B, T>,
    entries: Vec<T>,
    accepted: Option<AcceptedMetaData<T>>,
    after: InternalStorage<B, T>,
)
    requires
        before.wf(),
        exists|d: &mut InternalStorage<B, T>|
            *d == before && *final(d) == after && #[trigger] call_ensures(
                InternalStorage::<B, T>::append_entries_with_batching,
                (d, entries),
                Ok(accepted),
            ),
    ensures
        ({
            let waiting = util::views(before.state_cache.batched_entries@) + util::views(entries@);
            let old = before.storage.model();
            let new = after.storage.model();
            if waiting.len() < before.state_cache.batch_size {
                &&& accepted is None
                &&& util::views(after.state_cache.batched_entries@) == waiting
                &&& new == old
            } else {
                &&& util::views(after.state_cache.batched_entries@).len() == 0
                &&& new == (StorageModel { log: old.log + waiting, ..old })
                &&& accepted matches Some(metadata) && util::views(metadata.entries@) == waiting
                    && metadata.accepted_idx == end_of(new)
            }
        }),
{
    let waiting = util::views(before.state_cache.batched_entries@) + util::views(entries@);
    assert(before@.batch(util::views(entries@)).batched == waiting);
}

/// One entry is batched like many.
pub proof fn one_entry_is_batched<B: Storage<T>, T: Entry>(
    before: InternalStorage<B, T>,
    entry: T,
    accepted: Option<AcceptedMetaData<T>>,
    after: InternalStorage<B, T>,
)
    requires
        before.wf(),
        exists|d: &mut InternalStorage<B, T>|
            *d == before && *final(d) == after && #[trigger] call_ensures(
                InternalStorage::<B, T>::append_entry_with_batching,
                (d, entry),
                Ok(accepted),
            ),
    ensures
        ({
            let waiting = util::views(before.state_cache.batched_entries@).push(entry@);
            let old = before.storage.model();
            let new = after.storage.model();
            if waiting.len() < before.state_cache.batch_size {
                &&& accepted is None
                &&& util::views(after.state_cache.batched_entries@) == waiting
                &&& new == old
            } else {
                &&& util::views(after.state_cache.batched_entries@).len() == 0
                &&& new == (StorageModel { log: old.log + waiting, ..old })
                &&& accepted matches Some(metadata) && util::views(metadata.entries@) == waiting
                    && metadata.accepted_idx == end_of(new)
            }
        }),
{
    let waiting = util::views(before.state_cache.batched_entries@).push(entry@);
    assert(before@.batch(seq![entry@]).batched =~= waiting);
}

/// To flush the batch puts what waits at the end of the log, and tells it where there is
/// any.
pub proof fn flushing_writes_what_waits<B: Storage<T>, T: Entry>(
    before: InternalStorage<B, T>,
    accepted: Option<AcceptedMetaData<T>>,
    after: InternalStorage<B, T>,
)
    requires
        before.wf(),
        exists|d: &mut InternalStorage<B, T>|
            *d == before && *final(d) == after && #[trigger] call_ensures(
                InternalStorage::<B, T>::flush_batch_and_get_entries,
                (d,),
                Ok(accepted),
            ),
    ensures
        ({
            let waiting = util::views(before.state_cache.batched_entries@);
            let new = after.storage.model();
            &&& util::views(after.state_cache.batched_entries@).len() == 0
            &&& new == (StorageModel {
                log: before.storage.model().log + waiting,
                ..before.storage.model()
            })
            &&& waiting.len() == 0 ==> accepted is None
            &&& waiting.len() > 0 ==> (accepted matches Some(metadata) && util::views(
                metadata.entries@,
            ) == waiting && metadata.accepted_idx == end_of(new))
        }),
{
}

/// A stopsign is set behind what waits in the batch.
pub proof fn stopsign_stands_behind_the_batch<B: Storage<T>, T: Entry>(
    before: InternalStorage<B, T>,
    ss: StopSign,
    accepted: Option<AcceptedMetaData<T>>,
    after: InternalStorage<B, T>,
)
    requires
        before.wf(),
        exists|d: &mut InternalStorage<B, T>|
            *d == before && *final(d) == after && #[trigger] call_ensures(
                InternalStorage::<B, T>::append_stopsign,
                (d, ss),
                Ok(accepted),
            ),
    ensures
        ({
            let waiting = util::views(before.state_cache.batched_entries@);
            &&& util::views(after.state_cache.batched_entries@).len() == 0
            &&& after.storage.model() == (StorageModel {
                log: before.storage.model().log + waiting,
                stopsign: Some(ss@),
                ..before.storage.model()
            })
            &&& accepted is Some <==> waiting.len() > 0
        }),
{
}

/// A storage that gets its cache and its batch holds what it held, and nothing waits.
pub proof fn nothing_waits_at_first<B: Storage<T>, T: Entry>(
    storage: B,
    batch_size: usize,
    internal: InternalStorage<B, T>,
)
    requires
        call_ensures(InternalStorage::<B, T>::with, (storage, batch_size), Ok(internal)),
    ensures
        internal.wf(),
        internal.storage == storage,
        internal.state_cache.batched_entries@.len() == 0,
        internal.state_cache.batch_size == batch_size,
{
    assert(util::views(internal.state_cache.batched_entries@).len()
        == internal.state_cache.batched_entries@.len());
    assert(internal@.batched.len() == 0);
}

/// An index is chosen where as many servers as the quorum asks for have accepted the log
/// that far, each server counted once.
pub proof fn chosen_index_has_a_quorum<T: Entry>(
    state: LeaderState<T>,
    idx: usize,
    chosen: bool,
    servers: Set<NodeId>,
)
    requires
        state@.wf(),
        forall|pid: NodeId|
            #[trigger] servers.contains(pid) <==> 1 <= pid <= state.max_pid
                && state.accepted_indexes@[pid - 1] >= idx,
        call_ensures(LeaderState::<T>::is_chosen, (&state, idx), chosen),
    ensures
        servers.finite(),
        chosen <==> servers.len() >= match state.quorum {
            Quorum::Majority(size) => size,
            Quorum::Flexible(sizes) => sizes.write_quorum_size,
        },
{
    leader_state::lemma_chosen(state@, idx, servers);
}

/// A promise is noted for its sender alone. It is the most recent one where its log was
/// accepted in a higher round than that of the most recent one before, or in the same
/// round and is longer. The leader is prepared where as many servers as the quorum asks
/// for have promised.
pub proof fn promise_is_compared<T: Entry>(
    before: LeaderState<T>,
    prom: Promise<T>,
    from: NodeId,
    compare: bool,
    prepared: bool,
    after: LeaderState<T>,
    servers: Set<NodeId>,
)
    requires
        before@.wf(),
        before@.has(from),
        exists|d: &mut LeaderState<T>|
            *d == before && *final(d) == after && #[trigger] call_ensures(
                LeaderState::<T>::set_promise,
                (d, prom, from, compare),
                prepared,
            ),
        forall|pid: NodeId|
            #[trigger] servers.contains(pid) <==> 1 <= pid <= before.max_pid && (pid == from
                || before.promises_meta@[pid - 1] is Promised),
    ensures
        ({
            let meta = PromiseMetaData {
                n_accepted: prom.n_accepted,
                accepted_idx: prom.accepted_idx,
                decided_idx: prom.decided_idx,
                pid: from,
            };
            let max = before.max_promise_meta;
            let recent = compare && (max.n_accepted.below(prom.n_accepted) || (max.n_accepted
                == prom.n_accepted && max.accepted_idx < prom.accepted_idx));
            &&& after.promises_meta@ == before.promises_meta@.update(
                from - 1,
                PromiseState::Promised(meta),
            )
            &&& recent ==> after.max_promise_meta == meta && util::view_option(
                after.max_promise_sync,
            ) == util::view_option(prom.log_sync)
            &&& !recent ==> after.max_promise_meta == max && util::view_option(
                after.max_promise_sync,
            ) == util::view_option(before.max_promise_sync)
            &&& servers.finite()
            &&& prepared <==> servers.len() >= match before.quorum {
                Quorum::Majority(size) => size,
                Quorum::Flexible(sizes) => sizes.read_quorum_size,
            }
        }),
{
    assert(after@ == before@.set_promise(prom@, from, compare));
    leader_state::lemma_prepared(after@, servers);
}

/// The followers are all servers that have promised but the leader, in the order of their
/// ids.
pub proof fn followers_are_those_that_promised<T: Entry>(
    state: LeaderState<T>,
    followers: Vec<NodeId>,
)
    requires
        state@.wf(),
        call_ensures(LeaderState::<T>::get_promised_followers, (&state,), followers),
    ensures
        forall|pid: NodeId|
            #[trigger] followers@.contains(pid) <==> 1 <= pid <= state.max_pid
                && state.promises_meta@[pid - 1] is Promised && pid != state.n_leader.pid,
        forall|i: int, j: int|
            0 <= i < j < followers@.len() ==> #[trigger] followers@[i] < #[trigger] followers@[j],
{
    leader_state::lemma_promised_followers_all(state@);
}

/// The next accept to a server has the number after the last one; other servers' numbers
/// stay.
pub proof fn next_number_follows<T: Entry>(
    before: LeaderState<T>,
    pid: NodeId,
    number: SequenceNumber,
    after: LeaderState<T>,
)
    requires
        before@.wf(),
        before@.has(pid),
        before.follower_seq_nums@[pid - 1].counter < u64::MAX,
        exists|d: &mut LeaderState<T>|
            *d == before && *final(d) == after && #[trigger] call_ensures(
                LeaderState::<T>::next_seq_num,
                (d, pid),
                number,
            ),
    ensures
        number.session == before.follower_seq_nums@[pid - 1].session,
        number.counter == before.follower_seq_nums@[pid - 1].counter + 1,
        after.follower_seq_nums@ == before.follower_seq_nums@.update(pid - 1, number),
{
    assert(after@ == before@.bump_seq_num(pid));
}

} // verus!
