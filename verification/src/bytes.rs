//! Numbers as byte strings, and copying between byte strings.

use vstd::prelude::*;

verus! {

/// 256 to the power `len`: how many values `len` bytes can hold.
pub open spec fn byte_range(len: nat) -> nat
    decreases len,
{
    if len == 0 {
        1
    } else {
        256 * byte_range((len - 1) as nat)
    }
}

/// The lowest `len` bytes of `value`, most significant first.
pub open spec fn be_bytes(value: nat, len: nat) -> Seq<u8>
    decreases len,
{
    if len == 0 {
        Seq::empty()
    } else {
        be_bytes(value / 256, (len - 1) as nat).push((value % 256) as u8)
    }
}

/// The number that `bytes` spell, most significant byte first.
pub open spec fn be_value(bytes: Seq<u8>) -> nat
    decreases bytes.len(),
{
    if bytes.len() == 0 {
        0
    } else {
        256 * be_value(bytes.drop_last()) + bytes.last() as nat
    }
}

/// The lowest `len` bytes of `value`, least significant first.
pub open spec fn le_bytes(value: nat, len: nat) -> Seq<u8> {
    be_bytes(value, len).reverse()
}

/// The number that `bytes` spell, least significant byte first.
pub open spec fn le_value(bytes: Seq<u8>) -> nat {
    be_value(bytes.reverse())
}

pub proof fn lemma_be_bytes_len(value: nat, len: nat)
    ensures
        be_bytes(value, len).len() == len,
    decreases len,
{
    if len > 0 {
        lemma_be_bytes_len(value / 256, (len - 1) as nat);
    }
}

/// Reading back what was written gives the number, if it fits.
pub proof fn be_bytes_read_back(value: nat, len: nat)
    requires
        value < byte_range(len),
    ensures
        be_bytes(value, len).len() == len,
        be_value(be_bytes(value, len)) == value,
    decreases len,
{
    lemma_be_bytes_len(value, len);
    if len > 0 {
        be_bytes_read_back(value / 256, (len - 1) as nat);
        let rest = be_bytes(value / 256, (len - 1) as nat);
        assert(be_bytes(value, len).drop_last() =~= rest);
    }
}

/// A byte string is determined by its length and the number that it spells.
pub proof fn be_value_written_back(bytes: Seq<u8>)
    ensures
        be_value(bytes) < byte_range(bytes.len()),
        be_bytes(be_value(bytes), bytes.len()) == bytes,
    decreases bytes.len(),
{
    if bytes.len() > 0 {
        be_value_written_back(bytes.drop_last());
        let value = be_value(bytes);
        assert(value / 256 == be_value(bytes.drop_last()));
        assert(value % 256 == bytes.last() as nat);
        assert(be_bytes(value, bytes.len()) =~= bytes);
    } else {
        assert(be_bytes(0, 0) =~= bytes);
    }
}

/// The same, least significant byte first.
pub proof fn le_bytes_read_back(value: nat, len: nat)
    requires
        value < byte_range(len),
    ensures
        le_bytes(value, len).len() == len,
        le_value(le_bytes(value, len)) == value,
{
    be_bytes_read_back(value, len);
    assert(le_bytes(value, len).reverse() =~= be_bytes(value, len));
}

/// A byte string is determined by its length and the number that it spells,
/// least significant byte first.
pub proof fn le_value_written_back(bytes: Seq<u8>)
    ensures
        le_value(bytes) < byte_range(bytes.len()),
        le_bytes(le_value(bytes), bytes.len()) == bytes,
{
    be_value_written_back(bytes.reverse());
    assert(bytes.reverse().reverse() =~= bytes);
}

pub proof fn lemma_byte_range_values()
    ensures
        byte_range(1) == 0x100,
        byte_range(2) == 0x1_0000,
        byte_range(4) == 0x1_0000_0000,
        byte_range(16) == 0x1_0000_0000_0000_0000_0000_0000_0000_0000,
{
    reveal_with_fuel(byte_range, 17);
}

pub proof fn lemma_byte_range_grows(a: nat, b: nat)
    requires
        a <= b,
    ensures
        byte_range(a) <= byte_range(b),
    decreases b,
{
    if a < b {
        lemma_byte_range_grows(a, (b - 1) as nat);
    }
}

/// Write the lowest `len` bytes of `value`, most significant first.
pub fn to_be_bytes(value: u128, len: usize) -> (bytes: Vec<u8>)
    ensures
        bytes@ == be_bytes(value as nat, len as nat),
        bytes.len() == len,
    decreases len,
{
    if len == 0 {
        Vec::new()
    } else {
        let mut bytes = to_be_bytes(value / 256, len - 1);
        bytes.push((value % 256) as u8);
        bytes
    }
}

/// Write the lowest `len` bytes of `value`, least significant first.
pub fn to_le_bytes(value: u128, len: usize) -> (bytes: Vec<u8>)
    ensures
        bytes@ == le_bytes(value as nat, len as nat),
        bytes.len() == len,
{
    let mut bytes: Vec<u8> = Vec::new();
    let mut rest: u128 = value;
    let mut done: usize = 0;
    proof {
        lemma_be_bytes_len(value as nat, len as nat);
    }
    while done < len
        invariant
            done <= len,
            bytes.len() == done,
            be_bytes(value as nat, len as nat).len() == len,
            be_bytes(rest as nat, (len - done) as nat).len() == len - done,
            be_bytes(value as nat, len as nat) == be_bytes(rest as nat, (len - done) as nat)
                + bytes@.reverse(),
        decreases len - done,
    {
        let ghost before = bytes@;
        let byte: u8 = (rest % 256) as u8;
        bytes.push(byte);
        proof {
            let left = (len - done) as nat;
            lemma_be_bytes_len((rest / 256) as nat, (left - 1) as nat);
            assert(be_bytes(rest as nat, left) == be_bytes(
                (rest / 256) as nat,
                (left - 1) as nat,
            ).push(byte));
            assert(be_bytes(rest as nat, left) + before.reverse() =~= be_bytes(
                (rest / 256) as nat,
                (left - 1) as nat,
            ) + bytes@.reverse());
        }
        rest = rest / 256;
        done = done + 1;
    }
    assert(bytes@ =~= le_bytes(value as nat, len as nat));
    bytes
}

/// Read a number, most significant byte first.
pub fn from_be_bytes(bytes: &[u8]) -> (value: u128)
    requires
        bytes@.len() <= 16,
    ensures
        value as nat == be_value(bytes@),
{
    let mut value: u128 = 0;
    let mut i: usize = 0;
    while i < bytes.len()
        invariant
            i <= bytes@.len() <= 16,
            value as nat == be_value(bytes@.take(i as int)),
        decreases bytes@.len() - i,
    {
        proof {
            let next = bytes@.take(i + 1);
            assert(next.drop_last() =~= bytes@.take(i as int));
            be_value_written_back(next);
            lemma_byte_range_grows((i + 1) as nat, 16);
            lemma_byte_range_values();
        }
        value = value * 256 + bytes[i] as u128;
        i = i + 1;
    }
    assert(bytes@.take(i as int) =~= bytes@);
    value
}

/// Read a number, least significant byte first.
pub fn from_le_bytes(bytes: &[u8]) -> (value: u128)
    requires
        bytes@.len() <= 16,
    ensures
        value as nat == le_value(bytes@),
{
    let mut value: u128 = 0;
    let mut i: usize = bytes.len();
    let ghost turned = bytes@.reverse();
    while i > 0
        invariant
            i <= bytes@.len() <= 16,
            turned == bytes@.reverse(),
            value as nat == be_value(turned.take(bytes@.len() - i)),
        decreases i,
    {
        proof {
            let next = turned.take(bytes@.len() - i + 1);
            assert(next.drop_last() =~= turned.take(bytes@.len() - i));
            be_value_written_back(next);
            lemma_byte_range_grows(next.len(), 16);
            lemma_byte_range_values();
        }
        i = i - 1;
        value = value * 256 + bytes[i] as u128;
    }
    assert(turned.take(bytes@.len() as int) =~= turned);
    value
}

/// Append `src` to `dst`.
pub fn append(dst: &mut Vec<u8>, src: &[u8])
    ensures
        final(dst)@ == old(dst)@ + src@,
{
    let ghost before = dst@;
    dst.extend_from_slice(src);
    assert(dst@ =~= before + src@);
}

/// The bytes of `src` from `from` up to, and not including, `to`.
pub fn copy_range(src: &[u8], from: usize, to: usize) -> (bytes: Vec<u8>)
    requires
        from <= to <= src@.len(),
    ensures
        bytes@ == src@.subrange(from as int, to as int),
{
    let mut bytes: Vec<u8> = Vec::new();
    let mut i: usize = from;
    while i < to
        invariant
            from <= i <= to <= src@.len(),
            bytes@ == src@.subrange(from as int, i as int),
        decreases to - i,
    {
        bytes.push(src[i]);
        i = i + 1;
        assert(bytes@ =~= src@.subrange(from as int, i as int));
    }
    bytes
}

/// Overwrite the start of `dst` with `src`.
pub fn overwrite(dst: &mut [u8], src: &[u8])
    requires
        src@.len() <= old(dst)@.len(),
    ensures
        final(dst)@ == src@ + old(dst)@.skip(src@.len() as int),
{
    let mut i: usize = 0;
    while i < src.len()
        invariant
            i <= src@.len() <= old(dst)@.len(),
            dst@ == src@.take(i as int) + old(dst)@.skip(i as int),
        decreases src@.len() - i,
    {
        dst[i] = src[i];
        i = i + 1;
        assert(dst@ =~= src@.take(i as int) + old(dst)@.skip(i as int));
    }
    assert(src@.take(i as int) =~= src@);
}

/// Two bytes spell a number of their own, in either order.
pub proof fn two_bytes_spell(b: Seq<u8>)
    requires
        b.len() == 2,
    ensures
        le_value(b) == b[0] + 256 * b[1],
        be_value(b) == 256 * b[0] + b[1],
{
    reveal_with_fuel(be_value, 3);
    assert(b.drop_last().drop_last().len() == 0);
    assert(b.reverse().drop_last().drop_last().len() == 0);
}

/// Four bytes spell a number of their own, in either order.
pub proof fn four_bytes_spell(b: Seq<u8>)
    requires
        b.len() == 4,
    ensures
        le_value(b) == b[0] + 256 * b[1] + 0x1_0000 * b[2] + 0x100_0000 * b[3],
        be_value(b) == 0x100_0000 * b[0] + 0x1_0000 * b[1] + 256 * b[2] + b[3],
{
    reveal_with_fuel(be_value, 5);
    let r = b.reverse();
    assert(b.drop_last().drop_last().drop_last().drop_last().len() == 0);
    assert(r.drop_last().drop_last().drop_last().drop_last().len() == 0);
}

/// Writing a number and reading it gives the number back, in either order and
/// in no other, where it fits into the bytes.
pub proof fn numbers_read_back(
    value: u128,
    len: usize,
    be: Vec<u8>,
    le: Vec<u8>,
    from_be: &[u8],
    from_le: &[u8],
    a: u128,
    b: u128,
)
    requires
        len == 2 && value <= 0xffff || len == 4 && value <= 0xffff_ffff || len == 16,
        call_ensures(to_be_bytes, (value, len), be),
        call_ensures(to_le_bytes, (value, len), le),
        from_be@ == be@,
        from_le@ == le@,
        call_ensures(from_be_bytes, (from_be,), a),
        call_ensures(from_le_bytes, (from_le,), b),
    ensures
        be@.len() == len,
        le@.len() == len,
        a == value,
        b == value,
        forall|i: int| 0 <= i < len ==> #[trigger] be@[i] == le@[len - 1 - i],
{
    lemma_byte_range_values();
    be_bytes_read_back(value as nat, len as nat);
    le_bytes_read_back(value as nat, len as nat);
}

/// The last byte that is written most significant first is the lowest of the
/// number.
pub proof fn lowest_byte_comes_last(value: u128, len: usize, be: Vec<u8>)
    requires
        len > 0,
        call_ensures(to_be_bytes, (value, len), be),
    ensures
        be@.len() == len,
        be@[len - 1] == value % 256,
{
    lemma_be_bytes_len(value as nat, len as nat);
}

/// Appending keeps both texts, one behind the other.
pub proof fn appending_keeps_both(dst: &mut Vec<u8>, src: &[u8])
    requires
        call_ensures(append, (dst, src), ()),
    ensures
        final(dst)@.len() == old(dst)@.len() + src@.len(),
        forall|i: int| 0 <= i < old(dst)@.len() ==> #[trigger] final(dst)@[i] == old(dst)@[i],
        forall|i: int| 0 <= i < src@.len() ==> final(dst)@[old(dst)@.len() + i] == #[trigger] src@[i],
{
}

/// Copying a range takes its bytes and no others.
pub proof fn copies_have_their_bytes(src: &[u8], from: usize, to: usize, bytes: Vec<u8>)
    requires
        from <= to <= src@.len(),
        call_ensures(copy_range, (src, from, to), bytes),
    ensures
        bytes@.len() == to - from,
        forall|i: int| 0 <= i < bytes@.len() ==> #[trigger] bytes@[i] == src@[from + i],
{
}

/// Overwriting replaces the start, and leaves the rest.
pub proof fn overwriting_leaves_the_rest(dst: &mut [u8], src: &[u8])
    requires
        src@.len() <= old(dst)@.len(),
        call_ensures(overwrite, (dst, src), ()),
    ensures
        final(dst)@.len() == old(dst)@.len(),
        forall|i: int| 0 <= i < src@.len() ==> #[trigger] final(dst)@[i] == src@[i],
        forall|i: int|
            src@.len() <= i < old(dst)@.len() ==> #[trigger] final(dst)@[i] == old(dst)@[i],
{
}

/// Of any number of bytes, highest first, the last one is the lowest, and those in
/// front of it are the bytes of the 256th part. Lowest first, they stand the other
/// way round.
pub proof fn bytes_are_digits_to_the_base_256(
    value: u128,
    len: usize,
    be: Vec<u8>,
    shorter: Vec<u8>,
    le: Vec<u8>,
)
    requires
        len > 0,
        call_ensures(to_be_bytes, (value, len), be),
        call_ensures(to_be_bytes, (value / 256, (len - 1) as usize), shorter),
        call_ensures(to_le_bytes, (value, len), le),
    ensures
        be@ == shorter@.push((value % 256) as u8),
        le@.len() == len,
        forall|i: int| 0 <= i < len ==> #[trigger] le@[i] == be@[len - 1 - i],
{
    lemma_be_bytes_len(value as nat, len as nat);
}

/// Bytes spell a number to the base 256, with the highest digit first, or with the
/// lowest.
pub proof fn bytes_spell_to_the_base_256(
    bytes: &[u8],
    value: u128,
    front: &[u8],
    front_value: u128,
    turned: &[u8],
    turned_value: u128,
)
    requires
        0 < bytes@.len() <= 16,
        call_ensures(from_be_bytes, (bytes,), value),
        front@ == bytes@.drop_last(),
        call_ensures(from_be_bytes, (front,), front_value),
        turned@.len() == bytes@.len(),
        forall|i: int| 0 <= i < bytes@.len() ==> #[trigger] turned@[i] == bytes@[bytes@.len() - 1 - i],
        call_ensures(from_le_bytes, (turned,), turned_value),
    ensures
        value == 256 * front_value + bytes@.last(),
        turned_value == value,
{
    assert(turned@.reverse() =~= bytes@);
}

/// No bytes make zero.
pub proof fn no_bytes_make_zero(bytes: &[u8], value: u128, made: Vec<u8>, any: u128)
    requires
        bytes@.len() == 0,
        call_ensures(from_be_bytes, (bytes,), value),
        call_ensures(to_be_bytes, (any, 0), made),
    ensures
        value == 0,
        made@.len() == 0,
{
}

} // verus!
