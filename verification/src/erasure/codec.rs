//! The boundary to the `reed-solomon-erasure` crate.
//!
//! Everything the library takes on trust about the erasure code stands in this
//! file: the declared types, the names for what the code computes, and one
//! function for each call.
use reed_solomon_erasure::galois_8::ReedSolomon;
use reed_solomon_erasure::Error as RSError;
use vstd::prelude::*;

verus! {

/// Declares `reed_solomon_erasure::Error`, an enumeration of plain variants.
#[verifier::external_type_specification]
pub struct ExRSError(reed_solomon_erasure::Error);

/// The largest number of shards of a code over GF(2^8): the order of the field.
pub const MAX_SHARDS: usize = 256;

/// The parity shards that `ReedSolomon::encode` computes from `data`, for a
/// code of `k` data and `m` parity shards.
pub uninterp spec fn rs_parity(k: nat, m: nat, data: Seq<Seq<u8>>) -> Seq<Seq<u8>>;

/// The complete row of shards that `ReedSolomon::reconstruct` leaves when it is
/// given `slots`, for a code of `k` data and `m` parity shards.
pub uninterp spec fn rs_rebuilt(k: nat, m: nat, slots: Seq<Option<Seq<u8>>>) -> Seq<Seq<u8>>;

/// The bytes of each shard.
pub open spec fn shard_views(shards: Seq<Vec<u8>>) -> Seq<Seq<u8>> {
    shards.map_values(|shard: Vec<u8>| shard@)
}

/// The bytes of an optional shard.
pub open spec fn slot_view(slot: Option<Vec<u8>>) -> Option<Seq<u8>> {
    match slot {
        Some(shard) => Some(shard@),
        None => None,
    }
}

/// The bytes of each optional shard.
pub open spec fn slot_views(slots: Seq<Option<Vec<u8>>>) -> Seq<Option<Seq<u8>>> {
    slots.map_values(|slot: Option<Vec<u8>>| slot_view(slot))
}

/// All shards have `len` bytes.
pub open spec fn all_len(shards: Seq<Seq<u8>>, len: nat) -> bool {
    forall|i: int| 0 <= i < shards.len() ==> (#[trigger] shards[i]).len() == len
}

/// A row of `k` data shards of one nonzero length.
pub open spec fn is_data_row(k: nat, data: Seq<Seq<u8>>) -> bool {
    &&& data.len() == k
    &&& exists|len: nat| len > 0 && #[trigger] all_len(data, len)
}

/// The data shards followed by their parity shards.
pub open spec fn codeword(k: nat, m: nat, data: Seq<Seq<u8>>) -> Seq<Seq<u8>> {
    data + rs_parity(k, m, data)
}

/// The number of shards that are present.
pub open spec fn present(slots: Seq<Option<Seq<u8>>>) -> nat
    decreases slots.len(),
{
    if slots.len() == 0 {
        0
    } else {
        present(slots.drop_last()) + if slots.last() is Some { 1nat } else { 0nat }
    }
}

/// Every shard that is present is the one that `row` has in its place.
pub open spec fn agrees(slots: Seq<Option<Seq<u8>>>, row: Seq<Seq<u8>>) -> bool {
    forall|i: int|
        0 <= i < slots.len() && (#[trigger] slots[i]) is Some ==> slots[i] == Some(row[i])
}

/// The first fault in the lengths of the shards that are present, in order: a
/// shard without bytes, or one whose length is not that of a shard before it.
pub open spec fn length_fault(slots: Seq<Option<Seq<u8>>>) -> Option<RSError>
    decreases slots.len(),
{
    if slots.len() == 0 {
        None
    } else if length_fault(slots.drop_last()) is Some {
        length_fault(slots.drop_last())
    } else {
        match slots.last() {
            None => None,
            Some(shard) => if shard.len() == 0 {
                Some(RSError::EmptyShard)
            } else if exists|j: int|
                0 <= j < slots.len() - 1 && (#[trigger] slots[j]) is Some && slots[j]->0.len()
                    != shard.len() {
                Some(RSError::IncorrectShardSize)
            } else {
                None
            },
        }
    }
}

/// Why `slots` cannot be completed by a code of `k` data shards.
pub open spec fn reconstruct_fault(k: nat, slots: Seq<Option<Seq<u8>>>) -> Option<RSError> {
    if length_fault(slots) is Some {
        length_fault(slots)
    } else if present(slots) < k {
        Some(RSError::TooFewShardsPresent)
    } else {
        None
    }
}

/// A code of `k` data and `m` parity shards exists over GF(2^8).
pub open spec fn is_code(k: nat, m: nat) -> bool {
    0 < k && 0 < m && k + m <= MAX_SHARDS
}

/// Calls `ReedSolomon::new` over GF(2^8) and reports whether there is a codec of
/// these counts.
///
/// It refuses a code without data shards, then one without parity shards, then
/// one of more than 256 shards in all.
#[verifier::external_body]
pub(crate) fn rs_new(data_shards: usize, parity_shards: usize) -> (result: Result<(), RSError>)
    requires
        data_shards + parity_shards <= usize::MAX,
    ensures
        match result {
            Ok(_) => is_code(data_shards as nat, parity_shards as nat),
            Err(e) => if data_shards == 0 {
                e == RSError::TooFewDataShards
            } else if parity_shards == 0 {
                e == RSError::TooFewParityShards
            } else {
                data_shards + parity_shards > MAX_SHARDS && e == RSError::TooManyShards
            },
        },
{
    ReedSolomon::new(data_shards, parity_shards).map(|_| ())
}

/// Calls `ReedSolomon::encode`, of the codec with these counts, on a full row of
/// shards of one nonzero length.
///
/// It then succeeds, leaves the data shards as they are, and overwrites the
/// parity shards with what it computes from the data shards, length for length.
#[verifier::external_body]
pub(crate) fn rs_encode(
    data_shards: usize,
    parity_shards: usize,
    shards: &mut Vec<Vec<u8>>,
) -> (result: Result<(), RSError>)
    requires
        is_code(data_shards as nat, parity_shards as nat),
        old(shards)@.len() == data_shards + parity_shards,
        old(shards)@[0]@.len() > 0,
        all_len(shard_views(old(shards)@), old(shards)@[0]@.len()),
    ensures
        result is Ok,
        shard_views(final(shards)@) == shard_views(old(shards)@).take(data_shards as int)
            + rs_parity(
            data_shards as nat,
            parity_shards as nat,
            shard_views(old(shards)@).take(data_shards as int),
        ),
        all_len(shard_views(final(shards)@), old(shards)@[0]@.len()),
        final(shards)@.len() == old(shards)@.len(),
{
    ReedSolomon::new(data_shards, parity_shards)?.encode(shards)
}

/// Calls `ReedSolomon::reconstruct`, of the codec with these counts, on a row
/// with one slot for each shard.
///
/// It fails exactly on a fault in the lengths of the shards that are present, or
/// where fewer than the data shards are present; it then touches nothing.
/// Otherwise it fills every slot: the shards that were present stay, and where
/// they all come from one codeword, the whole codeword is restored.
#[verifier::external_body]
pub(crate) fn rs_reconstruct(
    data_shards: usize,
    parity_shards: usize,
    slots: &mut Vec<Option<Vec<u8>>>,
) -> (result: Result<(), RSError>)
    requires
        is_code(data_shards as nat, parity_shards as nat),
        old(slots)@.len() == data_shards + parity_shards,
    ensures
        match result {
            Ok(_) => reconstruct_fault(data_shards as nat, slot_views(old(slots)@)) is None,
            Err(e) => reconstruct_fault(data_shards as nat, slot_views(old(slots)@)) == Some(e),
        },
        result is Err ==> final(slots)@ == old(slots)@,
        result is Ok ==> slot_views(final(slots)@) == rs_rebuilt(
            data_shards as nat,
            parity_shards as nat,
            slot_views(old(slots)@),
        ).map_values(|shard: Seq<u8>| Some(shard)),
        final(slots)@.len() == old(slots)@.len(),
        result is Ok ==> forall|i: int|
            0 <= i < old(slots)@.len() && (#[trigger] slot_views(old(slots)@)[i]) is Some
                ==> slot_views(final(slots)@)[i] == slot_views(old(slots)@)[i],
        result is Ok ==> forall|data: Seq<Seq<u8>>|
            is_data_row(data_shards as nat, data) && agrees(
                slot_views(old(slots)@),
                #[trigger] codeword(data_shards as nat, parity_shards as nat, data),
            ) ==> slot_views(final(slots)@) == codeword(
                data_shards as nat,
                parity_shards as nat,
                data,
            ).map_values(|shard: Seq<u8>| Some(shard)),
{
    ReedSolomon::new(data_shards, parity_shards)?.reconstruct(slots)
}

} // verus!
