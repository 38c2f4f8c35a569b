//! What holds of codes and of the way fragments go round the nodes.
use crate::erasure::codec;
use crate::erasure::ec_service;
use crate::erasure::ec_service::{ECError, ECService, EntryFragment, FragmentView};
use crate::erasure::framing;
use vstd::prelude::*;

verus! {

/// No two fragments have the same index.
pub open spec fn different(fragments: Seq<FragmentView>) -> bool {
    forall|i: int, j: int|
        0 <= i < j < fragments.len() ==> (#[trigger] fragments[i]).idx != (
        #[trigger] fragments[j]).idx
}

/// Each of `fragments` is one of `encoded`.
pub open spec fn taken_from(fragments: Seq<FragmentView>, encoded: Seq<FragmentView>) -> bool {
    forall|i: int|
        0 <= i < fragments.len() ==> encoded.contains(#[trigger] fragments[i])
}

/// Any fragments of an entry, as many different ones as there are data shards, can
/// be decoded: of them, decoding gives the entry back, whichever others are lost.
/// Encoding the entry promises that its fragments are sized.
pub proof fn any_fragments_suffice(
    k: nat,
    m: nat,
    value: Seq<u8>,
    fragments: Seq<FragmentView>,
)
    requires
        ec_service::sized(k, m, value),
        taken_from(fragments, ec_service::fragments_of(k, m, value)),
        different(fragments),
        fragments.len() >= k,
    ensures
        ec_service::come_from(k, m, fragments, value),
        codec::present(ec_service::slots_of(k + m, fragments)) >= k,
{
    let encoded = ec_service::fragments_of(k, m, value);
    assert forall|i: int| 0 <= i < fragments.len() implies (#[trigger] fragments[i]).idx < k + m
        && fragments[i] == encoded[fragments[i].idx as int] by {
        let j = choose|j: int| 0 <= j < encoded.len() && encoded[j] == fragments[i];
        assert(encoded[j].idx == j);
    }
    different_fragments_fill(k + m, fragments);
}

/// Different fragments fill as many slots as they are.
pub proof fn different_fragments_fill(total: nat, fragments: Seq<FragmentView>)
    requires
        different(fragments),
        forall|i: int| 0 <= i < fragments.len() ==> (#[trigger] fragments[i]).idx < total,
    ensures
        codec::present(ec_service::slots_of(total, fragments)) == fragments.len(),
    decreases fragments.len(),
{
    let slots = ec_service::slots_of(total, fragments);
    if fragments.len() == 0 {
        lemma_present_none(slots);
    } else {
        let before = fragments.drop_last();
        let last = fragments.last();
        different_fragments_fill(total, before);
        lemma_slot_empty(total, before, last.idx);
        lemma_present_update(
            ec_service::slots_of(total, before),
            last.idx as int,
            last.data,
        );
    }
}

proof fn lemma_present_none(slots: Seq<Option<Seq<u8>>>)
    requires
        forall|i: int| 0 <= i < slots.len() ==> (#[trigger] slots[i]) is None,
    ensures
        codec::present(slots) == 0,
    decreases slots.len(),
{
    if slots.len() > 0 {
        lemma_present_none(slots.drop_last());
    }
}

/// A slot whose index no fragment has stays empty.
proof fn lemma_slot_empty(total: nat, fragments: Seq<FragmentView>, idx: nat)
    requires
        idx < total,
        forall|i: int| 0 <= i < fragments.len() ==> (#[trigger] fragments[i]).idx != idx,
    ensures
        ec_service::slots_of(total, fragments).len() == total,
        ec_service::slots_of(total, fragments)[idx as int] is None,
    decreases fragments.len(),
{
    if fragments.len() > 0 {
        lemma_slot_empty(total, fragments.drop_last(), idx);
        assert(fragments.last() == fragments[fragments.len() - 1]);
    }
}

/// Filling an empty slot makes one more that is present.
proof fn lemma_present_update(slots: Seq<Option<Seq<u8>>>, i: int, shard: Seq<u8>)
    requires
        0 <= i < slots.len(),
        slots[i] is None,
    ensures
        codec::present(slots.update(i, Some(shard))) == codec::present(slots) + 1,
    decreases slots.len(),
{
    let updated = slots.update(i, Some(shard));
    if i == slots.len() - 1 {
        assert(updated.drop_last() =~= slots.drop_last());
    } else {
        assert(updated.drop_last() =~= slots.drop_last().update(i, Some(shard)));
        lemma_present_update(slots.drop_last(), i, shard);
    }
}

/// Two numbers closer together than `n` have different remainders.
proof fn lemma_close_differ(a: int, b: int, n: int)
    requires
        n > 0,
        a != b,
        -n < a - b < n,
    ensures
        a % n != b % n,
{
    vstd::arithmetic::div_mod::lemma_fundamental_div_mod(a, n);
    vstd::arithmetic::div_mod::lemma_fundamental_div_mod(b, n);
    if a % n == b % n {
        let d = a / n - b / n;
        assert(a - b == n * d) by (nonlinear_arith)
            requires
                a == n * (a / n) + a % n,
                b == n * (b / n) + b % n,
                a % n == b % n,
                d == a / n - b / n,
        ;
        assert(d == 0) by (nonlinear_arith)
            requires
                n > 0,
                -n < n * d < n,
        ;
        assert(n * d == 0) by (nonlinear_arith)
            requires
                d == 0,
        ;
    }
}

/// The nodes of a cluster of `total_shards` nodes with consecutive ids hold
/// different fragments of every entry.
pub proof fn nodes_hold_different_fragments(a: nat, b: nat, log_idx: nat, total_shards: nat)
    requires
        a != b,
        -total_shards < a - b < total_shards,
    ensures
        ec_service::fragment_index(a, log_idx, total_shards) != ec_service::fragment_index(
            b,
            log_idx,
            total_shards,
        ),
{
    lemma_close_differ((a + log_idx) as int, (b + log_idx) as int, total_shards as int);
}

/// A node holds different fragments of entries that are less than a round apart.
pub proof fn fragments_go_round(node_id: nat, i: nat, j: nat, total_shards: nat)
    requires
        i != j,
        -total_shards < i - j < total_shards,
    ensures
        ec_service::fragment_index(node_id, i, total_shards) != ec_service::fragment_index(
            node_id,
            j,
            total_shards,
        ),
{
    lemma_close_differ((node_id + i) as int, (node_id + j) as int, total_shards as int);
}

/// Of `total_shards` nodes with consecutive ids one holds each fragment of every
/// entry.
pub proof fn every_fragment_is_held(first: nat, log_idx: nat, total_shards: nat, idx: nat) -> (node:
    nat)
    requires
        idx < total_shards,
    ensures
        first <= node < first + total_shards,
        ec_service::fragment_index(node, log_idx, total_shards) == idx,
{
    let n = total_shards as int;
    let start = (first + log_idx) as int;
    let offset = (idx - start) % n;
    vstd::arithmetic::div_mod::lemma_mod_bound(idx - start, n);
    vstd::arithmetic::div_mod::lemma_fundamental_div_mod(idx - start, n);
    let q = (idx - start) / n;
    assert(start + offset == idx + n * (-q)) by (nonlinear_arith)
        requires
            idx - start == n * q + offset,
    ;
    vstd::arithmetic::div_mod::lemma_mod_multiples_vanish(-q, idx as int, n);
    vstd::arithmetic::div_mod::lemma_small_mod(idx, total_shards);
    (first + offset) as nat
}

/// The digit of a number to the base 256 at a place, counted from the most significant of
/// `width` digits.
pub open spec fn digit(n: nat, width: nat, place: int) -> int {
    (n as int / vstd::arithmetic::power::pow(256, (width - 1 - place) as nat)) % 256
}

proof fn lemma_be_digit(n: nat, width: nat, place: int)
    requires
        0 <= place < width,
    ensures
        framing::be_bytes(n, width).len() == width,
        framing::be_bytes(n, width)[place] == digit(n, width, place),
    decreases width,
{
    let low = (width - 1) as nat;
    framing::lemma_be_bytes_len(n, width);
    framing::lemma_be_bytes_len(n / 256, low);
    if place == width - 1 {
        vstd::arithmetic::power::lemma_pow0(256);
        assert(n as int / 1 == n);
    } else {
        lemma_be_digit(n / 256, low, place);
        let e = (low - 1 - place) as nat;
        vstd::arithmetic::power::lemma_pow_positive(256, e);
        assert(vstd::arithmetic::power::pow(256, e + 1) == 256 * vstd::arithmetic::power::pow(
            256,
            e,
        )) by {
            reveal(vstd::arithmetic::power::pow);
        }
        vstd::arithmetic::div_mod::lemma_div_denominator(
            n as int,
            256,
            vstd::arithmetic::power::pow(256, e),
        );
        assert((width - 1 - place) as nat == e + 1);
    }
}

/// Encoding numbers its fragments in order and gives them one size, the smallest at which
/// the data fragments hold the entry and its length. The data fragments, one after the
/// other, are the length of the entry, most significant byte first, then the entry, then
/// zeros. The others are the parity of the data fragments.
pub proof fn encoding_frames_the_entry(
    service: ECService,
    value: Vec<u8>,
    fragments: Vec<EntryFragment>,
)
    requires
        service.wf(),
        value@.len() <= usize::MAX,
        call_ensures(ECService::encode, (&service, &value), Ok(fragments)),
    ensures
        fragments@.len() == service.data_shards + service.parity_shards,
        ({
            let k = service.data_shards as int;
            let prefix = ECService::LENGTH_PREFIX_BYTES as int;
            let size = fragments@[0].data@.len() as int;
            &&& size * k >= prefix + value@.len()
            &&& (size - 1) * k < prefix + value@.len()
            &&& forall|i: int|
                0 <= i < fragments@.len() ==> (#[trigger] fragments@[i]).idx == i
                    && fragments@[i].data@.len() == size
            &&& forall|i: int, p: int|
                0 <= i < k && 0 <= p < size ==> {
                    let at = i * size + p;
                    let byte = #[trigger] fragments@[i].data@[p];
                    byte == if at < prefix {
                        digit(value@.len(), prefix as nat, at)
                    } else if at < prefix + value@.len() {
                        value@[at - prefix] as int
                    } else {
                        0
                    }
                }
            &&& forall|j: int|
                0 <= j < service.parity_shards ==> (#[trigger] fragments@[k + j]).data@
                    == codec::rs_parity(
                    service.data_shards as nat,
                    service.parity_shards as nat,
                    Seq::new(service.data_shards as nat, |i: int| fragments@[i].data@),
                )[j]
        }),
{
    let k = service.data_shards as nat;
    let m = service.parity_shards as nat;
    let prefix = ECService::LENGTH_PREFIX_BYTES as int;
    let views = ec_service::fragment_views(fragments@);
    let row = framing::data_row(k, value@);
    let size = framing::shard_size(k, value@.len());
    framing::lemma_shard_size(k, value@.len());
    framing::lemma_data_row(k, value@);
    framing::lemma_prefix_width();
    assert(views.len() == k + m);
    assert forall|i: int| 0 <= i < fragments@.len() implies (#[trigger] fragments@[i]).idx == i
        && fragments@[i].data@.len() == size && fragments@[i].data@ == codec::codeword(
        k,
        m,
        row,
    )[i] by {
        assert(views[i] == fragments@[i]@);
        assert(views[i] == ec_service::fragments_of(k, m, value@)[i]);
    }
    assert((size - 1) * k < prefix + value@.len()) by (nonlinear_arith)
        requires
            size * k < value@.len() + prefix + k,
    ;
    assert(row =~= Seq::new(k, |i: int| fragments@[i].data@)) by {
        assert forall|i: int| 0 <= i < k implies (#[trigger] row[i]) == fragments@[i].data@ by {}
    }
    assert forall|i: int, p: int| 0 <= i < k && 0 <= p < size implies {
        let at = i * size + p;
        let byte = #[trigger] fragments@[i].data@[p];
        byte == if at < prefix {
            digit(value@.len(), prefix as nat, at)
        } else if at < prefix + value@.len() {
            value@[at - prefix] as int
        } else {
            0
        }
    } by {
        let at = i * size + p;
        framing::lemma_piece_bounds(k, size, i);
        assert(fragments@[i].data@ == row[i]);
        assert(row[i][p] == framing::padded(k, value@)[at]);
        framing::lemma_be_bytes_len(value@.len(), prefix as nat);
        if at < prefix {
            lemma_be_digit(value@.len(), prefix as nat, at);
        }
    }
    assert forall|j: int| 0 <= j < m implies (#[trigger] fragments@[k + j]).data@
        == codec::rs_parity(k, m, Seq::new(k, |i: int| fragments@[i].data@))[j] by {}
}

/// What was encoded is decoded from any of its fragments, as many different ones as there
/// are data shards, in any order and with others lost.
pub proof fn decoding_undoes_encoding(
    service: ECService,
    value: Vec<u8>,
    encoded: Vec<EntryFragment>,
    fragments: Vec<EntryFragment>,
    result: Result<Vec<u8>, ECError>,
)
    requires
        service.wf(),
        value@.len() <= usize::MAX,
        call_ensures(ECService::encode, (&service, &value), Ok(encoded)),
        forall|i: int|
            0 <= i < fragments@.len() ==> exists|j: int|
                0 <= j < encoded@.len() && #[trigger] encoded@[j]@ == (#[trigger] fragments@[i])@,
        forall|i: int, j: int|
            0 <= i < j < fragments@.len() ==> (#[trigger] fragments@[i]).idx != (
            #[trigger] fragments@[j]).idx,
        fragments@.len() >= service.data_shards,
        call_ensures(ECService::decode, (&service, &fragments), result),
    ensures
        result matches Ok(decoded) && decoded@ == value@,
{
    let k = service.data_shards as nat;
    let m = service.parity_shards as nat;
    let views = ec_service::fragment_views(fragments@);
    let all = ec_service::fragments_of(k, m, value@);
    assert(ec_service::fragment_views(encoded@) == all);
    assert forall|i: int| 0 <= i < views.len() implies all.contains(#[trigger] views[i]) by {
        assert(views[i] == fragments@[i]@);
        let j = choose|j: int|
            0 <= j < encoded@.len() && #[trigger] encoded@[j]@ == fragments@[i]@;
        assert(ec_service::fragment_views(encoded@)[j] == encoded@[j]@);
        assert(all[j] == views[i]);
    }
    assert forall|i: int, j: int| 0 <= i < j < views.len() implies (#[trigger] views[i]).idx != (
    #[trigger] views[j]).idx by {
        assert(fragments@[i].idx != fragments@[j].idx);
    }
    any_fragments_suffice(k, m, value@, views);
    assert(ec_service::come_from(k, m, views, value@));
}

/// Each slot holds the data of the last fragment with its index, and is empty where there
/// is none. Fragments whose index the code does not have are left out.
pub proof fn slot_holds_the_last_of_its_fragments(
    total: nat,
    fragments: Seq<FragmentView>,
    idx: int,
)
    requires
        0 <= idx < total,
    ensures
        ec_service::slots_of(total, fragments).len() == total,
        match ec_service::slots_of(total, fragments)[idx] {
            Some(data) => exists|i: int|
                0 <= i < fragments.len() && (#[trigger] fragments[i]).idx == idx
                    && fragments[i].data == data && forall|j: int|
                    i < j < fragments.len() ==> (#[trigger] fragments[j]).idx != idx,
            None => forall|i: int|
                0 <= i < fragments.len() ==> (#[trigger] fragments[i]).idx != idx,
        },
    decreases fragments.len(),
{
    if fragments.len() > 0 {
        let first = fragments.drop_last();
        let last = fragments.last();
        slot_holds_the_last_of_its_fragments(total, first, idx);
        if last.idx == idx {
            let i = fragments.len() - 1;
            assert(fragments[i].idx == idx && fragments[i].data == last.data);
        } else {
            assert(ec_service::slots_of(total, fragments)[idx] == ec_service::slots_of(
                total,
                first,
            )[idx]);
            match ec_service::slots_of(total, first)[idx] {
                Some(data) => {
                    let i = choose|i: int|
                        0 <= i < first.len() && (#[trigger] first[i]).idx == idx && first[i].data
                            == data && forall|j: int|
                            i < j < first.len() ==> (#[trigger] first[j]).idx != idx;
                    assert(fragments[i] == first[i]);
                    assert forall|j: int| i < j < fragments.len() implies (
                    #[trigger] fragments[j]).idx != idx by {
                        if j < first.len() {
                            assert(first[j] == fragments[j]);
                        }
                    }
                },
                None => {
                    assert forall|i: int| 0 <= i < fragments.len() implies (
                    #[trigger] fragments[i]).idx != idx by {
                        if i < first.len() {
                            assert(first[i] == fragments[i]);
                        }
                    }
                },
            }
        }
    }
}

/// The indices that the code has among those of the fragments.
pub open spec fn indices(total: nat, fragments: Seq<FragmentView>) -> Set<int> {
    Set::new(
        |idx: int|
            0 <= idx < total && exists|i: int|
                0 <= i < fragments.len() && (#[trigger] fragments[i]).idx == idx,
    )
}

proof fn lemma_present_set(slots: Seq<Option<Seq<u8>>>, filled: Set<int>)
    requires
        forall|i: int| #[trigger] filled.contains(i) <==> 0 <= i < slots.len() && slots[i] is Some,
    ensures
        filled.finite(),
        filled.len() == codec::present(slots),
    decreases slots.len(),
{
    if slots.len() == 0 {
        assert(filled =~= Set::empty());
    } else {
        let last = slots.len() - 1;
        let fewer = filled.remove(last);
        assert forall|i: int| #[trigger] fewer.contains(i) <==> 0 <= i < slots.drop_last().len()
            && slots.drop_last()[i] is Some by {
            assert(filled.contains(i) <==> 0 <= i < slots.len() && slots[i] is Some);
        }
        lemma_present_set(slots.drop_last(), fewer);
        assert(filled.contains(last) <==> slots.last() is Some);
        if filled.contains(last) {
            assert(filled =~= fewer.insert(last));
        } else {
            assert(filled =~= fewer);
        }
    }
}

/// Decoding fails for want of fragments where fewer different ones than there are data
/// shards have an index of the code, whatever they hold, and only there.
pub proof fn too_few_fragments_are_refused(
    service: ECService,
    fragments: Vec<EntryFragment>,
    result: Result<Vec<u8>, ECError>,
)
    requires
        service.wf(),
        call_ensures(ECService::decode, (&service, &fragments), result),
    ensures
        ({
            let total = (service.data_shards + service.parity_shards) as nat;
            let have = indices(total, ec_service::fragment_views(fragments@));
            &&& have.finite()
            &&& have.len() < service.data_shards ==> result == Err::<Vec<u8>, ECError>(
                ECError::TooFewShardsPresent,
            )
            &&& have.len() >= service.data_shards ==> result != Err::<Vec<u8>, ECError>(
                ECError::TooFewShardsPresent,
            )
        }),
{
    let total = (service.data_shards + service.parity_shards) as nat;
    let views = ec_service::fragment_views(fragments@);
    let slots = ec_service::slots_of(total, views);
    let have = indices(total, views);
    lemma_slots_of_len(total, views);
    assert forall|i: int| #[trigger] have.contains(i) <==> 0 <= i < slots.len()
        && slots[i] is Some by {
        if 0 <= i < total {
            slot_holds_the_last_of_its_fragments(total, views, i);
        }
    }
    lemma_present_set(slots, have);
    lemma_length_fault_kind(slots);
}

proof fn lemma_slots_of_len(total: nat, fragments: Seq<FragmentView>)
    ensures
        ec_service::slots_of(total, fragments).len() == total,
    decreases fragments.len(),
{
    if fragments.len() > 0 {
        lemma_slots_of_len(total, fragments.drop_last());
    }
}

proof fn lemma_length_fault_kind(slots: Seq<Option<Seq<u8>>>)
    ensures
        codec::length_fault(slots) matches Some(e) ==> ECError::of(e) == ECError::EmptyShard
            || ECError::of(e) == ECError::IncorrectShardSize,
    decreases slots.len(),
{
    if slots.len() > 0 {
        lemma_length_fault_kind(slots.drop_last());
    }
}

/// A row of shards of `bytes` is read as a length and an entry of that length behind it;
/// bytes behind the entry are left out. It is refused where it is too short for either.
pub proof fn assembling_reads_the_frame(
    service: ECService,
    slots: Vec<Option<Vec<u8>>>,
    size: nat,
    bytes: Seq<u8>,
    result: Result<Vec<u8>, ECError>,
)
    requires
        service.data_shards <= slots@.len(),
        bytes.len() == size * service.data_shards,
        forall|i: int|
            0 <= i < service.data_shards ==> ((#[trigger] slots@[i]) matches Some(shard) && shard@
                == bytes.subrange(i * size, (i + 1) * size)),
        call_ensures(ECService::assemble, (&service, &slots), result),
    ensures
        ({
            let prefix = ECService::LENGTH_PREFIX_BYTES as int;
            match result {
                Ok(entry) => {
                    &&& bytes.len() >= prefix + entry@.len()
                    &&& entry@ == bytes.subrange(prefix, prefix + entry@.len())
                    &&& framing::be_value(bytes.take(prefix)) == entry@.len()
                },
                Err(e) => e == ECError::IncorrectShardSize && (bytes.len() < prefix || bytes.len()
                    < prefix + framing::be_value(bytes.take(prefix))),
            }
        }),
{
    let k = service.data_shards as nat;
    let row = ec_service::filled(codec::slot_views(slots@));
    assert(row.take(k as int) =~= framing::pieces(k, size, bytes)) by {
        assert forall|i: int| 0 <= i < k implies (#[trigger] row[i]) == bytes.subrange(
            i * size,
            (i + 1) * size,
        ) by {
            assert(slots@[i] is Some);
        }
    }
    framing::lemma_joined_pieces(k, size, bytes, k);
    assert(framing::pieces(k, size, bytes).take(k as int) =~= framing::pieces(k, size, bytes));
    vstd::arithmetic::mul::lemma_mul_is_commutative(size as int, k as int);
    assert(bytes.take(k * size as int) =~= bytes);
}

/// The fragment of a node moves on by one with each log index and with each node id, and
/// starts again behind the last.
pub proof fn fragment_moves_on_by_one(node_id: nat, log_idx: nat, total_shards: nat)
    requires
        total_shards > 0,
    ensures
        ec_service::fragment_index(0, 0, total_shards) == 0,
        ec_service::fragment_index(node_id, log_idx, total_shards) < total_shards,
        ({
            let here = ec_service::fragment_index(node_id, log_idx, total_shards);
            let next = if here + 1 == total_shards {
                0
            } else {
                here + 1
            };
            &&& ec_service::fragment_index(node_id + 1, log_idx, total_shards) == next
            &&& ec_service::fragment_index(node_id, log_idx + 1, total_shards) == next
        }),
{
    let n = total_shards as int;
    let at = (node_id + log_idx) as int;
    vstd::arithmetic::div_mod::lemma_small_mod(0, total_shards);
    vstd::arithmetic::div_mod::lemma_mod_bound(at, n);
    vstd::arithmetic::div_mod::lemma_add_mod_noop(at, 1, n);
    if n == 1 {
        assert((at + 1) % 1 == 0 && at % 1 == 0);
    } else {
        vstd::arithmetic::div_mod::lemma_small_mod(1, total_shards);
        if at % n + 1 == n {
            vstd::arithmetic::div_mod::lemma_mod_self_0(n);
        } else {
            vstd::arithmetic::div_mod::lemma_small_mod((at % n + 1) as nat, total_shards);
        }
    }
}

/// A service is made where there is a code of its counts: at least one data shard, at
/// least one parity shard, and at most 256 in all. The counts are kept. Otherwise the
/// first of these that fails is told.
pub proof fn codes_that_exist_are_made(
    data_shards: usize,
    parity_shards: usize,
    result: Result<ECService, ECError>,
)
    requires
        call_ensures(ECService::new, (data_shards, parity_shards), result),
    ensures
        match result {
            Ok(service) => {
                &&& data_shards >= 1 && parity_shards >= 1 && data_shards + parity_shards <= 256
                &&& service.data_shards == data_shards
                &&& service.parity_shards == parity_shards
            },
            Err(ECError::TooFewDataShards) => data_shards == 0,
            Err(ECError::TooFewParityShards) => data_shards > 0 && parity_shards == 0,
            Err(ECError::TooManyShards) => data_shards > 0 && parity_shards > 0 && data_shards
                + parity_shards > 256,
            Err(_) => false,
        },
{
}

/// Nodes that are less than a round apart are given different fragments of an entry, and
/// every one of them a fragment that there is.
pub proof fn nodes_are_given_different_fragments(
    a: usize,
    b: usize,
    log_idx: usize,
    total_shards: usize,
    of_a: usize,
    of_b: usize,
)
    requires
        total_shards > 0,
        a < b < a + total_shards,
        call_ensures(ECService::fragment_index_for_node, (a, log_idx, total_shards), of_a),
        call_ensures(ECService::fragment_index_for_node, (b, log_idx, total_shards), of_b),
    ensures
        of_a != of_b,
        of_a < total_shards,
        of_b < total_shards,
        b == a + 1 ==> of_b == if of_a + 1 == total_shards {
            0
        } else {
            of_a + 1
        },
{
    nodes_hold_different_fragments(a as nat, b as nat, log_idx as nat, total_shards as nat);
    fragment_moves_on_by_one(a as nat, log_idx as nat, total_shards as nat);
}

} // verus!
