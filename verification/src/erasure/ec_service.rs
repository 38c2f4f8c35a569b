//! Encoding log entries into fragments and decoding them again.
use crate::erasure::codec;
use crate::erasure::framing;
use reed_solomon_erasure::Error as RSError;
use vstd::prelude::*;

verus! {

/// Why a code could not be made, or fragments could not be decoded.
#[derive(Clone, Copy, Debug, PartialEq, Eq, Structural)]
pub enum ECError {
    TooFewShards,
    TooManyShards,
    TooFewDataShards,
    TooManyDataShards,
    TooFewParityShards,
    TooManyParityShards,
    TooFewBufferShards,
    TooManyBufferShards,
    IncorrectShardSize,
    TooFewShardsPresent,
    EmptyShard,
    InvalidShardFlags,
    InvalidIndex,
}

impl ECError {
    /// The error of the same name.
    pub open spec fn of(e: RSError) -> ECError {
        match e {
            RSError::TooFewShards => ECError::TooFewShards,
            RSError::TooManyShards => ECError::TooManyShards,
            RSError::TooFewDataShards => ECError::TooFewDataShards,
            RSError::TooManyDataShards => ECError::TooManyDataShards,
            RSError::TooFewParityShards => ECError::TooFewParityShards,
            RSError::TooManyParityShards => ECError::TooManyParityShards,
            RSError::TooFewBufferShards => ECError::TooFewBufferShards,
            RSError::TooManyBufferShards => ECError::TooManyBufferShards,
            RSError::IncorrectShardSize => ECError::IncorrectShardSize,
            RSError::TooFewShardsPresent => ECError::TooFewShardsPresent,
            RSError::EmptyShard => ECError::EmptyShard,
            RSError::InvalidShardFlags => ECError::InvalidShardFlags,
            RSError::InvalidIndex => ECError::InvalidIndex,
        }
    }

    fn from_codec(e: RSError) -> (error: ECError)
        ensures
            error == ECError::of(e),
    {
        match e {
            RSError::TooFewShards => ECError::TooFewShards,
            RSError::TooManyShards => ECError::TooManyShards,
            RSError::TooFewDataShards => ECError::TooFewDataShards,
            RSError::TooManyDataShards => ECError::TooManyDataShards,
            RSError::TooFewParityShards => ECError::TooFewParityShards,
            RSError::TooManyParityShards => ECError::TooManyParityShards,
            RSError::TooFewBufferShards => ECError::TooFewBufferShards,
            RSError::TooManyBufferShards => ECError::TooManyBufferShards,
            RSError::IncorrectShardSize => ECError::IncorrectShardSize,
            RSError::TooFewShardsPresent => ECError::TooFewShardsPresent,
            RSError::EmptyShard => ECError::EmptyShard,
            RSError::InvalidShardFlags => ECError::InvalidShardFlags,
            RSError::InvalidIndex => ECError::InvalidIndex,
        }
    }
}

/// A fragment of a log entry for erasure-coded consensus.
#[derive(Debug, PartialEq, Eq)]
pub struct EntryFragment {
    /// The index of the fragment in the original log entry.
    pub idx: usize,
    /// The data of the fragment, which is a slice of the original log entry.
    pub data: Vec<u8>,
}

/// What a fragment holds.
pub struct FragmentView {
    pub idx: nat,
    pub data: Seq<u8>,
}

impl View for EntryFragment {
    type V = FragmentView;

    open spec fn view(&self) -> FragmentView {
        FragmentView { idx: self.idx as nat, data: self.data@ }
    }
}

impl EntryFragment {
    /// Creates a new `EntryFragment` with the given index and data.
    pub fn new(idx: usize, data: Vec<u8>) -> (fragment: Self)
        ensures
            fragment.idx == idx,
            fragment.data == data,
    {
        Self { idx, data }
    }
}

impl Clone for EntryFragment {
    fn clone(&self) -> (copy: Self)
        ensures
            copy@ == self@,
    {
        let data: Vec<u8> = framing::copy_range(&self.data, 0, self.data.len());
        assert(data@ =~= self.data@);
        EntryFragment { idx: self.idx, data }
    }
}

/// What each fragment holds.
pub open spec fn fragment_views(fragments: Seq<EntryFragment>) -> Seq<FragmentView> {
    fragments.map_values(|fragment: EntryFragment| fragment@)
}

/// The fragments of an entry under a code of `k` data and `m` parity shards: the
/// shards of the codeword of its data shards, numbered in order.
pub open spec fn fragments_of(k: nat, m: nat, value: Seq<u8>) -> Seq<FragmentView> {
    Seq::new(
        k + m,
        |i: int|
            FragmentView {
                idx: i as nat,
                data: codec::codeword(k, m, framing::data_row(k, value))[i],
            },
    )
}

/// The fragments of an entry all have the size of a shard.
pub open spec fn sized(k: nat, m: nat, value: Seq<u8>) -> bool {
    forall|i: int|
        0 <= i < k + m ==> (#[trigger] fragments_of(k, m, value)[i]).data.len()
            == framing::shard_size(k, value.len())
}

/// Every fragment whose index the code has is the fragment of `value` with that
/// index.
pub open spec fn come_from(
    k: nat,
    m: nat,
    fragments: Seq<FragmentView>,
    value: Seq<u8>,
) -> bool {
    forall|i: int|
        0 <= i < fragments.len() && (#[trigger] fragments[i]).idx < k + m ==> fragments[i]
            == fragments_of(k, m, value)[fragments[i].idx as int] && fragments[i].data.len()
            == framing::shard_size(k, value.len())
}

/// One slot for each shard: the data of the last fragment with that index.
pub open spec fn slots_of(total: nat, fragments: Seq<FragmentView>) -> Seq<Option<Seq<u8>>>
    decreases fragments.len(),
{
    if fragments.len() == 0 {
        Seq::new(total, |i: int| None)
    } else {
        let slots = slots_of(total, fragments.drop_last());
        let last = fragments.last();
        if last.idx < total {
            slots.update(last.idx as int, Some(last.data))
        } else {
            slots
        }
    }
}

/// The row of shards in slots that are all filled.
pub open spec fn filled(slots: Seq<Option<Seq<u8>>>) -> Seq<Seq<u8>> {
    slots.map_values(|slot: Option<Seq<u8>>| slot->0)
}

/// The entry that the first `k` shards of a row hold.
pub open spec fn assembled(k: nat, row: Seq<Seq<u8>>) -> Result<Seq<u8>, ECError> {
    match framing::unframed(framing::joined(row.take(k as int))) {
        Some(value) => Ok(value),
        None => Err(ECError::IncorrectShardSize),
    }
}

/// What decoding `fragments` gives under a code of `k` data and `m` parity
/// shards.
pub open spec fn decoded(k: nat, m: nat, fragments: Seq<FragmentView>) -> Result<
    Seq<u8>,
    ECError,
> {
    let slots = slots_of(k + m, fragments);
    if codec::present(slots) < k {
        Err(ECError::TooFewShardsPresent)
    } else {
        match codec::reconstruct_fault(k, slots) {
            Some(e) => Err(ECError::of(e)),
            None => assembled(k, codec::rs_rebuilt(k, m, slots)),
        }
    }
}

/// Where the slots can be completed, the row that completes them has a shard for each,
/// and every shard that is present stays.
pub open spec fn kept(k: nat, m: nat, slots: Seq<Option<Seq<u8>>>) -> bool {
    codec::reconstruct_fault(k, slots) is None ==> {
        let row = codec::rs_rebuilt(k, m, slots);
        &&& row.len() == k + m
        &&& forall|i: int|
            0 <= i < slots.len() && (#[trigger] slots[i]) is Some ==> row[i] == slots[i]->0
    }
}

/// A result, with the bytes for their vector.
pub open spec fn bytes_view(result: Result<Vec<u8>, ECError>) -> Result<Seq<u8>, ECError> {
    match result {
        Ok(bytes) => Ok(bytes@),
        Err(e) => Err(e),
    }
}

proof fn lemma_slots_len(total: nat, fragments: Seq<FragmentView>)
    ensures
        slots_of(total, fragments).len() == total,
    decreases fragments.len(),
{
    if fragments.len() > 0 {
        lemma_slots_len(total, fragments.drop_last());
    }
}

/// Fragments of one entry fill slots with shards of its codeword.
proof fn lemma_slots_agree(k: nat, m: nat, fragments: Seq<FragmentView>, value: Seq<u8>)
    requires
        come_from(k, m, fragments, value),
    ensures
        ({
            let slots = slots_of(k + m, fragments);
            &&& codec::agrees(slots, codec::codeword(k, m, framing::data_row(k, value)))
            &&& forall|i: int|
                0 <= i < slots.len() && (#[trigger] slots[i]) is Some ==> slots[i]->0.len()
                    == framing::shard_size(k, value.len())
        }),
    decreases fragments.len(),
{
    lemma_slots_len(k + m, fragments);
    if fragments.len() > 0 {
        let before = fragments.drop_last();
        assert(come_from(k, m, before, value)) by {
            assert forall|i: int|
                0 <= i < before.len() && (#[trigger] before[i]).idx < k + m implies before[i]
                == fragments_of(k, m, value)[before[i].idx as int] && before[i].data.len()
                == framing::shard_size(k, value.len()) by {
                assert(before[i] == fragments[i]);
            }
        }
        lemma_slots_agree(k, m, before, value);
        lemma_slots_len(k + m, before);
        assert(fragments.last() == fragments[fragments.len() - 1]);
    }
}

/// Shards of one nonzero length have no length fault.
proof fn lemma_no_length_fault(slots: Seq<Option<Seq<u8>>>, len: nat)
    requires
        len > 0,
        forall|i: int|
            0 <= i < slots.len() && (#[trigger] slots[i]) is Some ==> slots[i]->0.len() == len,
    ensures
        codec::length_fault(slots) is None,
    decreases slots.len(),
{
    if slots.len() > 0 {
        assert forall|i: int|
            0 <= i < slots.len() - 1 && (#[trigger] slots.drop_last()[i]) is Some implies (
        slots.drop_last()[i]->0).len() == len by {
            assert(slots.drop_last()[i] == slots[i]);
        }
        lemma_no_length_fault(slots.drop_last(), len);
        assert(slots.last() == slots[slots.len() - 1]);
    }
}

/// Utility for encoding and decoding log entries using Reed-Solomon erasure coding.
#[derive(Debug)]
pub struct ECService {
    /// The number of data shards.
    pub data_shards: usize,
    /// The number of parity shards.
    pub parity_shards: usize,
}

impl Clone for ECService {
    fn clone(&self) -> (copy: Self)
        ensures
            copy == *self,
    {
        ECService { data_shards: self.data_shards, parity_shards: self.parity_shards }
    }
}

impl ECService {
    /// The number of bytes used for the length prefix metadata of the original log entry.
    pub const LENGTH_PREFIX_BYTES: usize = framing::LENGTH_PREFIX_BYTES;

    /// There is a code of these counts.
    pub open spec fn wf(&self) -> bool {
        codec::is_code(self.data_shards as nat, self.parity_shards as nat)
    }

    /// The number of data shards.
    pub open spec fn k(&self) -> nat {
        self.data_shards as nat
    }

    /// The number of parity shards.
    pub open spec fn m(&self) -> nat {
        self.parity_shards as nat
    }

    /// Creates a new `ECService` with the specified number of data and parity shards.
    pub fn new(data_shards: usize, parity_shards: usize) -> (result: Result<Self, ECError>)
        requires
            data_shards + parity_shards <= usize::MAX,
        ensures
            result == if data_shards == 0 {
                Err(ECError::TooFewDataShards)
            } else if parity_shards == 0 {
                Err(ECError::TooFewParityShards)
            } else if data_shards + parity_shards > codec::MAX_SHARDS {
                Err(ECError::TooManyShards)
            } else {
                Ok(ECService { data_shards, parity_shards })
            },
            result matches Ok(service) ==> service.wf(),
    {
        match codec::rs_new(data_shards, parity_shards) {
            Ok(_) => Ok(ECService { data_shards, parity_shards }),
            Err(e) => Err(ECError::from_codec(e)),
        }
    }

    /// Encode a log entry into fragments.
    pub fn encode(&self, value: &Vec<u8>) -> (result: Result<Vec<EntryFragment>, ECError>)
        requires
            self.wf(),
            framing::fits(self.k(), value@.len()),
        ensures
            result is Ok,
            fragment_views(result->Ok_0@) == fragments_of(self.k(), self.m(), value@),
            codec::rs_parity(self.k(), self.m(), framing::data_row(self.k(), value@)).len()
                == self.m(),
            sized(self.k(), self.m(), value@),
            forall|i: int|
                0 <= i < self.k() + self.m() ==> (#[trigger] result->Ok_0@[i])@.data.len()
                    == framing::shard_size(self.k(), value@.len()),
    {
        let ghost size = framing::shard_size(self.k(), value@.len());
        let bytes: Vec<u8> = framing::frame(value, self.data_shards);
        proof {
            framing::lemma_data_row(self.k(), value@);
            framing::lemma_shard_size(self.k(), value@.len());
            assert((size * self.k()) as int / (self.k() as int) == size) by {
                vstd::arithmetic::div_mod::lemma_div_by_multiple(size as int, self.k() as int);
            }
        }
        let shard_len: usize = bytes.len() / self.data_shards;
        let mut shards: Vec<Vec<u8>> = framing::cut(&bytes, self.data_shards, shard_len);
        let mut i: usize = 0;
        while i < self.parity_shards
            invariant
                self.wf(),
                i <= self.parity_shards,
                shards@.len() == self.data_shards + i,
                shard_len == size,
                framing::data_row(self.k(), value@).len() == self.data_shards,
                forall|j: int|
                    0 <= j < self.data_shards ==> (#[trigger] shards@[j])@ == framing::data_row(
                        self.k(),
                        value@,
                    )[j],
                forall|j: int|
                    self.data_shards <= j < shards@.len() ==> (#[trigger] shards@[j])@.len()
                        == size,
            decreases self.parity_shards - i,
        {
            shards.push(vec![0; shard_len]);
            i = i + 1;
        }
        proof {
            assert forall|j: int| 0 <= j < shards@.len() implies (#[trigger] codec::shard_views(
                shards@,
            )[j]).len() == size by {
                if j < self.data_shards {
                    assert(shards@[j]@ == framing::data_row(self.k(), value@)[j]);
                }
            }
            assert(codec::shard_views(shards@)[0].len() == size);
            assert(codec::shard_views(shards@).take(self.data_shards as int) =~= framing::data_row(
                self.k(),
                value@,
            ));
        }
        let done = codec::rs_encode(self.data_shards, self.parity_shards, &mut shards);
        let ghost row = codec::shard_views(shards@);
        let mut fragments: Vec<EntryFragment> = Vec::with_capacity(
            self.data_shards + self.parity_shards,
        );
        let ghost all = shards@;
        let total: usize = self.data_shards + self.parity_shards;
        let mut i: usize = 0;
        while i < total
            invariant
                i <= total,
                row.len() == total,
                codec::all_len(row, size),
                all.len() == total,
                row == codec::shard_views(all),
                shards@ == all,
                fragments@.len() == i,
                forall|j: int|
                    0 <= j < i ==> (#[trigger] fragments@[j])@ == (FragmentView {
                        idx: j as nat,
                        data: row[j],
                    }),
            decreases total - i,
        {
            let shard: Vec<u8> = framing::copy_range(&shards[i], 0, shards[i].len());
            assert(shard@ =~= row[i as int]);
            fragments.push(EntryFragment::new(i, shard));
            i = i + 1;
        }
        proof {
            assert(fragment_views(fragments@) =~= fragments_of(self.k(), self.m(), value@));
            assert forall|i: int| 0 <= i < total implies (#[trigger] fragments_of(
                self.k(),
                self.m(),
                value@,
            )[i]).data.len() == size by {
                assert(row[i].len() == size);
            }
            assert forall|i: int| 0 <= i < total implies (#[trigger] fragments@[i])@.data.len()
                == size by {
                assert(row[i].len() == size);
            }
        }
        Ok(fragments)
    }

    /// Puts the data of each fragment into the slot of its index.
    fn fill_slots(total: usize, fragments: &Vec<EntryFragment>) -> (slots: Vec<Option<Vec<u8>>>)
        ensures
            codec::slot_views(slots@) == slots_of(total as nat, fragment_views(fragments@)),
            slots@.len() == total,
    {
        let ghost views = fragment_views(fragments@);
        let mut slots: Vec<Option<Vec<u8>>> = Vec::with_capacity(total);
        let mut i: usize = 0;
        while i < total
            invariant
                i <= total,
                slots@.len() == i,
                forall|j: int| 0 <= j < i ==> (#[trigger] slots@[j]) is None,
            decreases total - i,
        {
            slots.push(None);
            i = i + 1;
        }
        assert(views.take(0) =~= Seq::empty());
        assert(codec::slot_views(slots@) =~= slots_of(total as nat, views.take(0)));
        let mut i: usize = 0;
        while i < fragments.len()
            invariant
                i <= fragments@.len(),
                views == fragment_views(fragments@),
                slots@.len() == total,
                codec::slot_views(slots@) == slots_of(total as nat, views.take(i as int)),
            decreases fragments.len() - i,
        {
            let fragment: &EntryFragment = &fragments[i];
            let ghost before = slots@;
            assert(views.take(i + 1).drop_last() =~= views.take(i as int));
            assert(views.take(i + 1).last() == fragment@);
            if fragment.idx < total {
                let data: Vec<u8> = framing::copy_range(&fragment.data, 0, fragment.data.len());
                assert(data@ =~= fragment.data@);
                slots[fragment.idx] = Some(data);
                assert(codec::slot_views(slots@) =~= codec::slot_views(before).update(
                    fragment.idx as int,
                    Some(fragment.data@),
                ));
            }
            i = i + 1;
        }
        assert(views.take(i as int) =~= views);
        slots
    }

    /// Counts the slots that hold a shard.
    fn count_present(slots: &Vec<Option<Vec<u8>>>) -> (count: usize)
        ensures
            count == codec::present(codec::slot_views(slots@)),
            count <= slots@.len(),
    {
        let ghost views = codec::slot_views(slots@);
        let mut count: usize = 0;
        let mut i: usize = 0;
        assert(views.take(0) =~= Seq::empty());
        while i < slots.len()
            invariant
                i <= slots@.len(),
                views == codec::slot_views(slots@),
                count == codec::present(views.take(i as int)),
                count <= i,
            decreases slots.len() - i,
        {
            assert(views.take(i + 1).drop_last() =~= views.take(i as int));
            assert(views.take(i + 1).last() == codec::slot_view(slots@[i as int]));
            if slots[i].is_some() {
                count = count + 1;
            }
            i = i + 1;
        }
        assert(views.take(i as int) =~= views);
        count
    }

    /// Reads the entry out of the data shards at the front of a row.
    pub fn assemble(&self, slots: &Vec<Option<Vec<u8>>>) -> (result: Result<Vec<u8>, ECError>)
        requires
            self.data_shards <= slots@.len(),
            forall|i: int| 0 <= i < self.data_shards ==> (#[trigger] slots@[i]) is Some,
        ensures
            bytes_view(result) == assembled(self.k(), filled(codec::slot_views(slots@))),
    {
        let ghost row = filled(codec::slot_views(slots@));
        let mut bytes: Vec<u8> = Vec::new();
        let mut i: usize = 0;
        assert(row.take(0) =~= Seq::empty());
        while i < self.data_shards
            invariant
                i <= self.data_shards <= slots@.len(),
                row == filled(codec::slot_views(slots@)),
                forall|i: int| 0 <= i < self.data_shards ==> (#[trigger] slots@[i]) is Some,
                bytes@ == framing::joined(row.take(i as int)),
            decreases self.data_shards - i,
        {
            assert(slots@[i as int] is Some);
            assert(row.take(i + 1).drop_last() =~= row.take(i as int));
            if let Some(shard) = &slots[i] {
                let ghost before = bytes@;
                bytes.extend_from_slice(shard.as_slice());
                assert(bytes@ =~= before + row[i as int]);
            }
            i = i + 1;
        }
        match framing::unframe(&bytes) {
            Some(value) => Ok(value),
            None => Err(ECError::IncorrectShardSize),
        }
    }

    /// Decode fragments into the original log entry.
    ///
    /// Any fragments of one entry, as many of them with different indices as
    /// there are data shards, give the entry back. The shards that are present are
    /// taken as they are.
    pub fn decode(&self, fragments: &Vec<EntryFragment>) -> (result: Result<Vec<u8>, ECError>)
        requires
            self.wf(),
        ensures
            bytes_view(result) == decoded(self.k(), self.m(), fragment_views(fragments@)),
            forall|value: Seq<u8>|
                value.len() <= usize::MAX && #[trigger] come_from(
                    self.k(),
                    self.m(),
                    fragment_views(fragments@),
                    value,
                ) && codec::present(slots_of(self.k() + self.m(), fragment_views(fragments@)))
                    >= self.k() ==> bytes_view(result) == Ok::<Seq<u8>, ECError>(value),
            kept(
                self.k(),
                self.m(),
                slots_of(self.k() + self.m(), fragment_views(fragments@)),
            ),
    {
        let ghost views = fragment_views(fragments@);
        let total: usize = self.data_shards + self.parity_shards;
        let mut slots: Vec<Option<Vec<u8>>> = Self::fill_slots(total, fragments);
        let ghost before = codec::slot_views(slots@);
        let count: usize = Self::count_present(&slots);
        if count < self.data_shards {
            return Err(ECError::TooFewShardsPresent);
        }
        let done = codec::rs_reconstruct(self.data_shards, self.parity_shards, &mut slots);
        proof {
            assert forall|value: Seq<u8>|
                value.len() <= usize::MAX && #[trigger] come_from(
                    self.k(),
                    self.m(),
                    views,
                    value,
                ) implies done is Ok && codec::slot_views(slots@) == codec::codeword(
                self.k(),
                self.m(),
                framing::data_row(self.k(), value),
            ).map_values(|shard: Seq<u8>| Some(shard)) by {
                let size = framing::shard_size(self.k(), value.len());
                framing::lemma_shard_size(self.k(), value.len());
                framing::lemma_data_row(self.k(), value);
                assert(codec::all_len(framing::data_row(self.k(), value), size));
                lemma_slots_agree(self.k(), self.m(), views, value);
                lemma_no_length_fault(before, size);
            }
        }
        match done {
            Ok(_) => {
                let ghost rebuilt = codec::rs_rebuilt(self.k(), self.m(), before);
                let ghost row = rebuilt.map_values(|shard: Seq<u8>| Some(shard));
                assert(codec::slot_views(slots@).len() == row.len());
                assert forall|i: int|
                    0 <= i < before.len() && (#[trigger] before[i]) is Some implies rebuilt[i]
                    == before[i]->0 by {
                    assert(codec::slot_views(slots@)[i] == row[i]);
                }
                assert forall|i: int| 0 <= i < self.data_shards implies (
                #[trigger] slots@[i]) is Some by {
                    assert(codec::slot_views(slots@)[i] == row[i]);
                }
                let result = self.assemble(&slots);
                proof {
                    assert(filled(codec::slot_views(slots@)) =~= rebuilt);
                    assert forall|value: Seq<u8>|
                        value.len() <= usize::MAX && #[trigger] come_from(
                            self.k(),
                            self.m(),
                            views,
                            value,
                        ) implies bytes_view(result) == Ok::<Seq<u8>, ECError>(value) by {
                        let row = framing::data_row(self.k(), value);
                        framing::lemma_data_row(self.k(), value);
                        assert(rebuilt =~= codec::codeword(self.k(), self.m(), row));
                        assert(rebuilt.take(self.k() as int) =~= row);
                        framing::lemma_unframed(self.k(), value);
                    }
                }
                result
            },
            Err(e) => Err(ECError::from_codec(e)),
        }
    }

    /// Helper to assign a fragment index to a node for a given log index: the
    /// fragments go round the nodes in turn.
    pub fn fragment_index_for_node(
        node_id: usize,
        log_idx: usize,
        total_shards: usize,
    ) -> (idx: usize)
        requires
            total_shards > 0,
            node_id + log_idx <= usize::MAX,
        ensures
            idx == fragment_index(node_id as nat, log_idx as nat, total_shards as nat),
            idx < total_shards,
    {
        (node_id + log_idx) % total_shards
    }
}

/// The index of the fragment that a node holds of the entry at `log_idx`.
pub open spec fn fragment_index(node_id: nat, log_idx: nat, total_shards: nat) -> nat {
    (node_id + log_idx) % total_shards
}

} // verus!
