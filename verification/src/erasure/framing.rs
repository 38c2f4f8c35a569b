//! How a log entry becomes a row of data shards, and how it is read back.
//!
//! An entry is framed by its length, in big-endian order and as wide as the
//! machine's `usize`. The frame is padded with zeros to a multiple of the number
//! of data shards and cut into shards of equal size.
use crate::erasure::codec::MAX_SHARDS;
use vstd::arithmetic::div_mod::*;
use vstd::arithmetic::mul::*;
use vstd::arithmetic::power::*;
use vstd::prelude::*;

verus! {

/// The number of bytes of the length prefix.
pub const LENGTH_PREFIX_BYTES: usize = (usize::BITS / 8) as usize;

/// The last `width` digits of `n` to the base 256, most significant first.
pub open spec fn be_bytes(n: nat, width: nat) -> Seq<u8>
    decreases width,
{
    if width == 0 {
        Seq::empty()
    } else {
        be_bytes(n / 256, (width - 1) as nat).push((n % 256) as u8)
    }
}

/// The number whose digits to the base 256 are `bytes`, most significant first.
pub open spec fn be_value(bytes: Seq<u8>) -> nat
    decreases bytes.len(),
{
    if bytes.len() == 0 {
        0
    } else {
        be_value(bytes.drop_last()) * 256 + bytes.last() as nat
    }
}

/// The length prefix of an entry, followed by the entry.
pub open spec fn framed(value: Seq<u8>) -> Seq<u8> {
    be_bytes(value.len(), LENGTH_PREFIX_BYTES as nat) + value
}

/// The size of each shard of an entry of `len` bytes: the smallest at which `k`
/// shards hold the frame.
pub open spec fn shard_size(k: nat, len: nat) -> nat {
    ((len + LENGTH_PREFIX_BYTES + k - 1) / k as int) as nat
}

/// The frame of an entry, padded with zeros.
pub open spec fn padded(k: nat, value: Seq<u8>) -> Seq<u8> {
    Seq::new(
        shard_size(k, value.len()) * k,
        |i: int|
            if i < framed(value).len() {
                framed(value)[i]
            } else {
                0u8
            },
    )
}

/// The pieces of `size` bytes of `bytes`, of which there are `k`.
pub open spec fn pieces(k: nat, size: nat, bytes: Seq<u8>) -> Seq<Seq<u8>> {
    Seq::new(k, |i: int| bytes.subrange(i * size, (i + 1) * size))
}

/// The data shards of an entry.
pub open spec fn data_row(k: nat, value: Seq<u8>) -> Seq<Seq<u8>> {
    pieces(k, shard_size(k, value.len()), padded(k, value))
}

/// The shards joined end to end.
pub open spec fn joined(shards: Seq<Seq<u8>>) -> Seq<u8>
    decreases shards.len(),
{
    if shards.len() == 0 {
        Seq::empty()
    } else {
        joined(shards.drop_last()) + shards.last()
    }
}

/// The entry at the front of a padded frame; none where the bytes are too few
/// for a prefix, or for the length that the prefix tells.
pub open spec fn unframed(bytes: Seq<u8>) -> Option<Seq<u8>> {
    let prefix = LENGTH_PREFIX_BYTES as int;
    if bytes.len() < prefix {
        None
    } else {
        let len = be_value(bytes.take(prefix));
        if prefix + len > bytes.len() {
            None
        } else {
            Some(bytes.subrange(prefix, prefix + len))
        }
    }
}

/// The padded frame of an entry of `len` bytes is no larger than an allocation
/// can be.
pub open spec fn fits(k: nat, len: nat) -> bool {
    shard_size(k, len) * k <= isize::MAX
}

pub proof fn lemma_be_bytes_len(n: nat, width: nat)
    ensures
        be_bytes(n, width).len() == width,
    decreases width,
{
    if width > 0 {
        lemma_be_bytes_len(n / 256, (width - 1) as nat);
    }
}

/// Reading a number from its digits gives the number back.
pub proof fn lemma_be_round_trip(n: nat, width: nat)
    requires
        n < pow(256, width),
    ensures
        be_value(be_bytes(n, width)) == n,
    decreases width,
{
    if width == 0 {
        lemma_pow0(256);
    } else {
        let low = (width - 1) as nat;
        assert(pow(256, width) == 256 * pow(256, low)) by {
            reveal(pow);
        }
        assert(n / 256 < pow(256, low)) by {
            lemma_fundamental_div_mod(n as int, 256);
        }
        lemma_be_round_trip(n / 256, low);
        assert(be_bytes(n, width).drop_last() =~= be_bytes(n / 256, low));
        lemma_fundamental_div_mod(n as int, 256);
    }
}

pub proof fn lemma_be_value_bound(bytes: Seq<u8>)
    ensures
        be_value(bytes) < pow(256, bytes.len()),
    decreases bytes.len(),
{
    if bytes.len() == 0 {
        lemma_pow0(256);
    } else {
        lemma_be_value_bound(bytes.drop_last());
        assert(pow(256, bytes.len()) == 256 * pow(256, bytes.drop_last().len())) by {
            reveal(pow);
        }
    }
}

/// A `usize` has as many digits to the base 256 as the prefix has bytes.
pub proof fn lemma_prefix_width()
    ensures
        pow(256, LENGTH_PREFIX_BYTES as nat) == usize::MAX + 1,
        LENGTH_PREFIX_BYTES == 4 || LENGTH_PREFIX_BYTES == 8,
{
    reveal(pow);
    assert(pow(256, 0) == 1);
    assert(pow(256, 1) == 256);
    assert(pow(256, 2) == 0x1_0000);
    assert(pow(256, 3) == 0x100_0000);
    assert(pow(256, 4) == 0x1_0000_0000);
    assert(pow(256, 5) == 0x100_0000_0000);
    assert(pow(256, 6) == 0x1_0000_0000_0000);
    assert(pow(256, 7) == 0x100_0000_0000_0000);
    assert(pow(256, 8) == 0x1_0000_0000_0000_0000);
}

/// The shards hold the whole frame, and less than one shard per byte more.
pub proof fn lemma_shard_size(k: nat, len: nat)
    requires
        k > 0,
    ensures
        shard_size(k, len) > 0,
        len + LENGTH_PREFIX_BYTES <= shard_size(k, len) * k < len + LENGTH_PREFIX_BYTES + k,
{
    lemma_prefix_width();
    let total = len + LENGTH_PREFIX_BYTES + k - 1;
    lemma_fundamental_div_mod(total, k as int);
    lemma_mul_is_commutative(k as int, total / k as int);
    assert(total / k as int >= 1) by {
        lemma_div_is_ordered(k as int, total, k as int);
        lemma_div_by_self(k as int);
    }
}

pub proof fn lemma_piece_bounds(k: nat, size: nat, i: int)
    requires
        0 <= i < k,
    ensures
        0 <= i * size <= (i + 1) * size <= size * k,
        (i + 1) * size == i * size + size,
{
    lemma_mul_is_distributive_add_other_way(size as int, i, 1);
    lemma_mul_inequality(i + 1, k as int, size as int);
    lemma_mul_is_commutative(size as int, k as int);
    lemma_mul_nonnegative(i, size as int);
}

/// Cutting bytes into pieces and joining these gives the bytes back.
pub proof fn lemma_joined_pieces(k: nat, size: nat, bytes: Seq<u8>, n: nat)
    requires
        n <= k,
        bytes.len() == size * k,
    ensures
        joined(pieces(k, size, bytes).take(n as int)) == bytes.take(n * size as int),
    decreases n,
{
    let row = pieces(k, size, bytes);
    if n == 0 {
        assert(row.take(0) =~= Seq::empty());
        assert(bytes.take(0) =~= Seq::empty());
        assert(0 * size == 0) by {
            lemma_mul_basics(size as int);
        }
    } else {
        let m = (n - 1) as nat;
        lemma_joined_pieces(k, size, bytes, m);
        lemma_piece_bounds(k, size, m as int);
        assert(row.take(n as int).drop_last() =~= row.take(m as int));
        assert(bytes.take(n * size as int) =~= bytes.take(m * size as int) + row[m as int]);
    }
}

/// The data shards of an entry have one nonzero size, and joined they are its
/// padded frame.
pub proof fn lemma_data_row(k: nat, value: Seq<u8>)
    requires
        k > 0,
    ensures
        data_row(k, value).len() == k,
        forall|i: int|
            0 <= i < k ==> (#[trigger] data_row(k, value)[i]).len() == shard_size(
                k,
                value.len(),
            ),
        joined(data_row(k, value)) == padded(k, value),
{
    let size = shard_size(k, value.len());
    lemma_shard_size(k, value.len());
    let row = data_row(k, value);
    assert forall|i: int| 0 <= i < k implies (#[trigger] row[i]).len() == size by {
        lemma_piece_bounds(k, size, i);
    }
    lemma_joined_pieces(k, size, padded(k, value), k);
    assert(row.take(k as int) =~= row);
    lemma_mul_is_commutative(k as int, size as int);
    assert(padded(k, value).take(k * size as int) =~= padded(k, value));
}

/// What a padded frame was made of is read back from it.
pub proof fn lemma_unframed(k: nat, value: Seq<u8>)
    requires
        k > 0,
        value.len() <= usize::MAX,
    ensures
        unframed(padded(k, value)) == Some(value),
{
    let prefix = LENGTH_PREFIX_BYTES as int;
    let bytes = padded(k, value);
    lemma_shard_size(k, value.len());
    lemma_be_bytes_len(value.len(), prefix as nat);
    assert(bytes.take(prefix) =~= be_bytes(value.len(), prefix as nat));
    lemma_prefix_width();
    lemma_be_round_trip(value.len(), prefix as nat);
    assert(bytes.subrange(prefix, prefix + value.len()) =~= value);
}

/// The big-endian bytes of a number.
pub fn to_be_bytes(n: usize) -> (bytes: Vec<u8>)
    ensures
        bytes@ == be_bytes(n as nat, LENGTH_PREFIX_BYTES as nat),
{
    let mut bytes: Vec<u8> = vec![0; LENGTH_PREFIX_BYTES];
    let mut pos: usize = LENGTH_PREFIX_BYTES;
    let mut rest: usize = n;
    assert(bytes@.skip(pos as int) =~= Seq::empty());
    assert(be_bytes(n as nat, pos as nat) =~= be_bytes(rest as nat, pos as nat) + bytes@.skip(
        pos as int,
    ));
    while pos > 0
        invariant
            pos <= LENGTH_PREFIX_BYTES == bytes@.len(),
            be_bytes(n as nat, LENGTH_PREFIX_BYTES as nat) == be_bytes(rest as nat, pos as nat)
                + bytes@.skip(pos as int),
        decreases pos,
    {
        let ghost tail = bytes@.skip(pos as int);
        let ghost head = be_bytes(rest as nat / 256, (pos - 1) as nat);
        pos = pos - 1;
        let digit: u8 = (rest % 256) as u8;
        bytes[pos] = digit;
        assert(bytes@.skip(pos as int) =~= seq![digit] + tail);
        assert(head.push(digit) + tail =~= head + (seq![digit] + tail));
        rest = rest / 256;
    }
    assert(bytes@.skip(0) =~= bytes@);
    assert(be_bytes(rest as nat, 0) + bytes@ =~= bytes@);
    bytes
}

/// The number that the length prefix at the front of `bytes` tells.
pub fn read_prefix(bytes: &Vec<u8>) -> (n: usize)
    requires
        bytes@.len() >= LENGTH_PREFIX_BYTES,
    ensures
        n == be_value(bytes@.take(LENGTH_PREFIX_BYTES as int)),
{
    let mut n: usize = 0;
    let mut i: usize = 0;
    while i < LENGTH_PREFIX_BYTES
        invariant
            i <= LENGTH_PREFIX_BYTES <= bytes@.len(),
            n == be_value(bytes@.take(i as int)),
        decreases LENGTH_PREFIX_BYTES - i,
    {
        let ghost next = bytes@.take(i + 1);
        assert(next.drop_last() =~= bytes@.take(i as int));
        proof {
            lemma_be_value_bound(next);
            lemma_prefix_width();
            lemma_pow_increases(256, next.len(), LENGTH_PREFIX_BYTES as nat);
        }
        n = n * 256 + bytes[i] as usize;
        i = i + 1;
    }
    n
}

/// Copies the bytes from `start` up to `end`.
pub fn copy_range(bytes: &Vec<u8>, start: usize, end: usize) -> (piece: Vec<u8>)
    requires
        start <= end <= bytes@.len(),
    ensures
        piece@ == bytes@.subrange(start as int, end as int),
{
    let mut piece: Vec<u8> = Vec::with_capacity(end - start);
    piece.extend_from_slice(vstd::slice::slice_subrange(bytes.as_slice(), start, end));
    assert(piece@ =~= bytes@.subrange(start as int, end as int));
    piece
}

/// Frames an entry and pads the frame to a multiple of `data_shards`.
pub fn frame(value: &Vec<u8>, data_shards: usize) -> (bytes: Vec<u8>)
    requires
        0 < data_shards <= MAX_SHARDS,
        fits(data_shards as nat, value@.len()),
    ensures
        bytes@ == padded(data_shards as nat, value@),
{
    let mut bytes: Vec<u8> = to_be_bytes(value.len());
    proof {
        lemma_be_bytes_len(value@.len(), LENGTH_PREFIX_BYTES as nat);
        lemma_shard_size(data_shards as nat, value@.len());
    }
    bytes.extend_from_slice(value.as_slice());
    assert(bytes@ =~= framed(value@));
    let size: usize = (bytes.len() + data_shards - 1) / data_shards;
    assert(size == shard_size(data_shards as nat, value@.len()));
    bytes.resize(size * data_shards, 0);
    assert(bytes@ =~= padded(data_shards as nat, value@));
    bytes
}

/// Cuts bytes into `count` pieces of `size` bytes.
pub fn cut(bytes: &Vec<u8>, count: usize, size: usize) -> (row: Vec<Vec<u8>>)
    requires
        bytes@.len() == size * count,
    ensures
        row@.len() == count,
        forall|i: int|
            0 <= i < count ==> (#[trigger] row@[i])@ == pieces(
                count as nat,
                size as nat,
                bytes@,
            )[i],
{
    let mut row: Vec<Vec<u8>> = Vec::with_capacity(count);
    let mut i: usize = 0;
    while i < count
        invariant
            i <= count,
            row@.len() == i,
            bytes@.len() == size * count,
            forall|j: int|
                0 <= j < i ==> (#[trigger] row@[j])@ == pieces(
                    count as nat,
                    size as nat,
                    bytes@,
                )[j],
        decreases count - i,
    {
        proof {
            lemma_piece_bounds(count as nat, size as nat, i as int);
            assert(size * count == bytes.len());
        }
        let start: usize = i * size;
        let end: usize = start + size;
        let piece: Vec<u8> = copy_range(bytes, start, end);
        row.push(piece);
        i = i + 1;
    }
    row
}

/// Reads the entry at the front of a padded frame.
pub fn unframe(bytes: &Vec<u8>) -> (value: Option<Vec<u8>>)
    ensures
        match value {
            Some(v) => unframed(bytes@) == Some(v@),
            None => unframed(bytes@) is None,
        },
{
    if bytes.len() < LENGTH_PREFIX_BYTES {
        return None;
    }
    let len: usize = read_prefix(bytes);
    if len > bytes.len() - LENGTH_PREFIX_BYTES {
        return None;
    }
    Some(copy_range(bytes, LENGTH_PREFIX_BYTES, LENGTH_PREFIX_BYTES + len))
}

} // verus!
