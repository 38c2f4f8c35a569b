//! The bytes of values that are erasure coded as a whole.
//!
//! Values are written by `bincode`: numbers in little-endian order and full
//! width, each sequence after its length, each optional value after a byte that
//! tells whether it is there.
use crate::erasure::ec_service::{EntryFragment, FragmentView};
use crate::storage::{StopSign, StopSignView};
use crate::util::{ClusterConfigView, FlexibleQuorum, NodeId};
use crate::util;
use vstd::prelude::*;

verus! {

/// The last `width` digits of `n` to the base 256, least significant first.
pub open spec fn le_bytes(n: nat, width: nat) -> Seq<u8>
    decreases width,
{
    if width == 0 {
        Seq::empty()
    } else {
        seq![(n % 256) as u8] + le_bytes(n / 256, (width - 1) as nat)
    }
}

/// The bytes of a sequence of bytes.
pub open spec fn byte_seq(bytes: Seq<u8>) -> Seq<u8> {
    le_bytes(bytes.len(), 8) + bytes
}

/// The bytes of each of the ids.
pub open spec fn id_bytes(ids: Seq<NodeId>) -> Seq<u8>
    decreases ids.len(),
{
    if ids.len() == 0 {
        Seq::empty()
    } else {
        id_bytes(ids.drop_last()) + le_bytes(ids.last() as nat, 8)
    }
}

/// The bytes of a fragment: its index, then its data.
pub open spec fn fragment_bytes(fragment: FragmentView) -> Seq<u8> {
    le_bytes(fragment.idx, 8) + byte_seq(fragment.data)
}

/// The bytes of optional quorum sizes.
pub open spec fn quorum_bytes(quorum: Option<FlexibleQuorum>) -> Seq<u8> {
    match quorum {
        None => seq![0u8],
        Some(sizes) => seq![1u8] + le_bytes(sizes.read_quorum_size as nat, 8) + le_bytes(
            sizes.write_quorum_size as nat,
            8,
        ),
    }
}

/// The bytes of optional metadata.
pub open spec fn metadata_bytes(metadata: Option<Seq<u8>>) -> Seq<u8> {
    match metadata {
        None => seq![0u8],
        Some(bytes) => seq![1u8] + byte_seq(bytes),
    }
}

/// The bytes of a stopsign: the next configuration (its id, its servers and its
/// quorum sizes), then the metadata.
pub open spec fn stopsign_bytes(ss: StopSignView) -> Seq<u8> {
    le_bytes(ss.next_config.configuration_id as nat, 4) + le_bytes(
        ss.next_config.nodes.len(),
        8,
    ) + id_bytes(ss.next_config.nodes) + quorum_bytes(ss.next_config.flexible_quorum)
        + metadata_bytes(ss.metadata)
}

/// Calls `bincode::serialize` on the fields of a fragment, in order.
///
/// In its default configuration it writes fields one after the other, a `usize`
/// as eight bytes, the least significant first, and a vector after its length. It
/// has no size limit and does not fail.
#[verifier::external_body]
fn bincode_fragment(idx: usize, data: &Vec<u8>) -> (result: Option<Vec<u8>>)
    requires
        16 + data@.len() <= isize::MAX,
    ensures
        match result {
            Some(bytes) => bytes@ == fragment_bytes(
                (FragmentView { idx: idx as nat, data: data@ }),
            ),
            None => false,
        },
{
    bincode::serialize(&(idx, data)).ok()
}

/// Calls `bincode::serialize` on the fields of a stopsign, in order.
///
/// As for a fragment; an optional value is written as one byte 0, or as one byte
/// 1 and the value.
#[verifier::external_body]
fn bincode_stopsign(
    configuration_id: u32,
    nodes: &Vec<NodeId>,
    quorum: Option<(usize, usize)>,
    metadata: &Option<Vec<u8>>,
) -> (result: Option<Vec<u8>>)
    requires
        38 + 8 * nodes@.len() + (match *metadata {
            Some(bytes) => bytes@.len(),
            None => 0,
        }) <= isize::MAX,
    ensures
        match result {
            Some(bytes) => bytes@ == stopsign_bytes(
                (StopSignView {
                    next_config: ClusterConfigView {
                        configuration_id,
                        nodes: nodes@,
                        flexible_quorum: match quorum {
                            Some((read, write)) => Some(
                                FlexibleQuorum {
                                    read_quorum_size: read,
                                    write_quorum_size: write,
                                },
                            ),
                            None => None,
                        },
                    },
                    metadata: util::view_option(*metadata),
                }),
            ),
            None => false,
        },
{
    bincode::serialize(&(configuration_id, nodes, quorum, metadata)).ok()
}

/// The bytes of a fragment can be held in memory.
pub open spec fn fragment_fits(fragment: FragmentView) -> bool {
    16 + fragment.data.len() <= isize::MAX
}

/// The bytes of a stopsign can be held in memory.
pub open spec fn stopsign_fits(ss: StopSignView) -> bool {
    38 + 8 * ss.next_config.nodes.len() + (match ss.metadata {
        Some(bytes) => bytes.len(),
        None => 0,
    }) <= isize::MAX
}

/// Writes a fragment as bytes.
pub fn serialize_fragment(fragment: &EntryFragment) -> (bytes: Vec<u8>)
    requires
        fragment_fits(fragment@),
    ensures
        bytes@ == fragment_bytes(fragment@),
{
    match bincode_fragment(fragment.idx, &fragment.data) {
        Some(bytes) => bytes,
        None => vstd::pervasive::unreached(),
    }
}

/// Writes a stopsign as bytes.
pub fn serialize_stopsign(ss: &StopSign) -> (bytes: Vec<u8>)
    requires
        stopsign_fits(ss@),
    ensures
        bytes@ == stopsign_bytes(ss@),
{
    let quorum: Option<(usize, usize)> = match ss.next_config.flexible_quorum {
        Some(sizes) => Some((sizes.read_quorum_size, sizes.write_quorum_size)),
        None => None,
    };
    match bincode_stopsign(
        ss.next_config.configuration_id,
        &ss.next_config.nodes,
        quorum,
        &ss.metadata,
    ) {
        Some(bytes) => bytes,
        None => vstd::pervasive::unreached(),
    }
}

/// The digit of a number to the base 256 at a place, counted from the least significant.
pub open spec fn low_digit(n: nat, place: int) -> int {
    (n as int / vstd::arithmetic::power::pow(256, place as nat)) % 256
}

/// The bytes from a place on are these digits of a number.
pub open spec fn has_number(bytes: Seq<u8>, at: int, n: nat, width: int) -> bool {
    forall|i: int| 0 <= i < width ==> (#[trigger] bytes[at + i]) == low_digit(n, i)
}

proof fn lemma_le_digit(n: nat, width: nat, place: int)
    requires
        0 <= place < width,
    ensures
        le_bytes(n, width).len() == width,
        le_bytes(n, width)[place] == low_digit(n, place),
    decreases width,
{
    lemma_le_len(n, width);
    if place == 0 {
        vstd::arithmetic::power::lemma_pow0(256);
        assert(n as int / 1 == n);
    } else {
        let e = (place - 1) as nat;
        lemma_le_digit(n / 256, (width - 1) as nat, place - 1);
        lemma_le_len(n / 256, (width - 1) as nat);
        vstd::arithmetic::power::lemma_pow_positive(256, e);
        assert(vstd::arithmetic::power::pow(256, e + 1) == 256 * vstd::arithmetic::power::pow(
            256,
            e,
        )) by {
            reveal(vstd::arithmetic::power::pow);
        }
        vstd::arithmetic::div_mod::lemma_div_denominator(
            n as int,
            256,
            vstd::arithmetic::power::pow(256, e),
        );
        assert(place as nat == e + 1);
    }
}

proof fn lemma_le_len(n: nat, width: nat)
    ensures
        le_bytes(n, width).len() == width,
    decreases width,
{
    if width > 0 {
        lemma_le_len(n / 256, (width - 1) as nat);
    }
}

proof fn lemma_has_number(before: Seq<u8>, n: nat, width: nat, after: Seq<u8>)
    ensures
        has_number(before + le_bytes(n, width) + after, before.len() as int, n, width as int),
        le_bytes(n, width).len() == width,
{
    lemma_le_len(n, width);
    let bytes = before + le_bytes(n, width) + after;
    assert forall|i: int| 0 <= i < width implies (#[trigger] bytes[before.len() + i]) == low_digit(
        n,
        i,
    ) by {
        lemma_le_digit(n, width, i);
    }
}

proof fn lemma_ids(ids: Seq<NodeId>)
    ensures
        id_bytes(ids).len() == 8 * ids.len(),
        forall|j: int|
            0 <= j < ids.len() ==> has_number(id_bytes(ids), 8 * j, #[trigger] ids[j] as nat, 8),
    decreases ids.len(),
{
    if ids.len() > 0 {
        let first = ids.drop_last();
        lemma_ids(first);
        lemma_has_number(id_bytes(first), ids.last() as nat, 8, Seq::empty());
        assert(id_bytes(first) + le_bytes(ids.last() as nat, 8) + Seq::empty() =~= id_bytes(ids));
        assert forall|j: int| 0 <= j < ids.len() implies has_number(
            id_bytes(ids),
            8 * j,
            #[trigger] ids[j] as nat,
            8,
        ) by {
            if j < first.len() {
                assert(first[j] == ids[j]);
                assert(has_number(id_bytes(first), 8 * j, first[j] as nat, 8));
                assert forall|i: int| 0 <= i < 8 implies (#[trigger] id_bytes(ids)[8 * j + i])
                    == low_digit(ids[j] as nat, i) by {
                    assert(id_bytes(first)[8 * j + i] == low_digit(first[j] as nat, i));
                }
            }
        }
    }
}

/// A fragment is written as its index, the number of its bytes, and these, each number in
/// eight bytes with the least significant first.
pub proof fn fragment_is_written_field_by_field(fragment: EntryFragment, bytes: Vec<u8>)
    requires
        call_ensures(serialize_fragment, (&fragment,), bytes),
    ensures
        bytes@.len() == 16 + fragment.data@.len(),
        has_number(bytes@, 0, fragment.idx as nat, 8),
        has_number(bytes@, 8, fragment.data@.len(), 8),
        bytes@.skip(16) == fragment.data@,
{
    let idx = le_bytes(fragment.idx as nat, 8);
    let len = le_bytes(fragment.data@.len(), 8);
    lemma_has_number(Seq::empty(), fragment.idx as nat, 8, len + fragment.data@);
    lemma_has_number(idx, fragment.data@.len(), 8, fragment.data@);
    assert(bytes@ =~= Seq::empty() + idx + (len + fragment.data@));
    assert(bytes@ =~= idx + len + fragment.data@);
    assert(bytes@.skip(16) =~= fragment.data@);
}

/// A stopsign is written as the id of the next configuration in four bytes, the number of
/// its servers and their ids, the quorum sizes and the metadata, each of these two after
/// a byte that tells whether it is there.
pub proof fn stopsign_is_written_field_by_field(ss: StopSign, bytes: Vec<u8>)
    requires
        call_ensures(serialize_stopsign, (&ss,), bytes),
    ensures
        ({
            let nodes = ss.next_config.nodes@;
            let quorum = (12 + 8 * nodes.len()) as int;
            let metadata = quorum + if ss.next_config.flexible_quorum is Some {
                17int
            } else {
                1int
            };
            &&& has_number(bytes@, 0, ss.next_config.configuration_id as nat, 4)
            &&& has_number(bytes@, 4, nodes.len(), 8)
            &&& forall|j: int|
                0 <= j < nodes.len() ==> has_number(
                    bytes@,
                    12 + 8 * j,
                    #[trigger] nodes[j] as nat,
                    8,
                )
            &&& match ss.next_config.flexible_quorum {
                Some(sizes) => {
                    &&& bytes@[quorum] == 1
                    &&& has_number(bytes@, quorum + 1, sizes.read_quorum_size as nat, 8)
                    &&& has_number(bytes@, quorum + 9, sizes.write_quorum_size as nat, 8)
                },
                None => bytes@[quorum] == 0,
            }
            &&& match ss.metadata {
                Some(data) => {
                    &&& bytes@.len() == metadata + 9 + data@.len()
                    &&& bytes@[metadata] == 1
                    &&& has_number(bytes@, metadata + 1, data@.len(), 8)
                    &&& bytes@.skip(metadata + 9) == data@
                },
                None => bytes@.len() == metadata + 1 && bytes@[metadata] == 0,
            }
        }),
{
    let view = ss@;
    let nodes = ss.next_config.nodes@;
    let id = le_bytes(ss.next_config.configuration_id as nat, 4);
    let count = le_bytes(nodes.len(), 8);
    let ids = id_bytes(nodes);
    let quorum = quorum_bytes(view.next_config.flexible_quorum);
    let metadata = metadata_bytes(view.metadata);
    let all = bytes@;
    assert(all == id + count + ids + quorum + metadata);
    lemma_has_number(
        Seq::empty(),
        ss.next_config.configuration_id as nat,
        4,
        count + ids + quorum + metadata,
    );
    assert(all =~= Seq::empty() + id + (count + ids + quorum + metadata));
    lemma_has_number(id, nodes.len(), 8, ids + quorum + metadata);
    assert(all =~= id + count + (ids + quorum + metadata));
    lemma_ids(nodes);
    assert forall|j: int| 0 <= j < nodes.len() implies has_number(
        all,
        12 + 8 * j,
        #[trigger] nodes[j] as nat,
        8,
    ) by {
        assert forall|i: int| 0 <= i < 8 implies (#[trigger] all[12 + 8 * j + i]) == low_digit(
            nodes[j] as nat,
            i,
        ) by {
            assert(has_number(ids, 8 * j, nodes[j] as nat, 8));
            assert(ids[8 * j + i] == low_digit(nodes[j] as nat, i));
            assert(all[12 + 8 * j + i] == ids[8 * j + i]);
        }
    }
    let front = id + count + ids;
    match ss.next_config.flexible_quorum {
        Some(sizes) => {
            let read = le_bytes(sizes.read_quorum_size as nat, 8);
            let write = le_bytes(sizes.write_quorum_size as nat, 8);
            lemma_has_number(front + seq![1u8], sizes.read_quorum_size as nat, 8, write + metadata);
            assert(all =~= front + seq![1u8] + read + (write + metadata));
            lemma_has_number(
                front + seq![1u8] + read,
                sizes.write_quorum_size as nat,
                8,
                metadata,
            );
            assert(all =~= front + seq![1u8] + read + write + metadata);
        },
        None => {},
    }
    let most = front + quorum;
    match ss.metadata {
        Some(data) => {
            lemma_has_number(most + seq![1u8], data@.len(), 8, data@);
            assert(all =~= most + seq![1u8] + le_bytes(data@.len(), 8) + data@);
            assert(all.skip(most.len() as int + 9) =~= data@);
        },
        None => {},
    }
}

} // verus!
