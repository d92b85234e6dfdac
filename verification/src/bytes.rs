//! Integers in byte buffers, in the byte order of a machine.

use vstd::prelude::*;

verus! {

/// The four bytes of `x`, least significant first.
pub open spec fn le32(x: u32) -> Seq<u8> {
    seq![x as u8, (x >> 8) as u8, (x >> 16) as u8, (x >> 24) as u8]
}

/// The number that four bytes stand for, least significant first.
pub open spec fn from_le32(s: Seq<u8>) -> u32 {
    (s[0] as u32) | ((s[1] as u32) << 8) | ((s[2] as u32) << 16) | ((s[3] as u32) << 24)
}

/// The eight bytes of `x`, least significant first.
pub open spec fn le64(x: u64) -> Seq<u8> {
    le32(x as u32) + le32((x >> 32) as u32)
}

/// The number that eight bytes stand for, least significant first.
pub open spec fn from_le64(s: Seq<u8>) -> u64 {
    (from_le32(s.subrange(0, 4)) as u64) | ((from_le32(s.subrange(4, 8)) as u64) << 32)
}

/// Four bytes and the number they stand for, least significant first, determine each other.
pub proof fn law_le32_inverse(x: u32, s: Seq<u8>)
    requires
        s.len() == 4,
    ensures
        from_le32(le32(x)) == x,
        le32(from_le32(s)) == s,
{
    let (b0, b1, b2, b3) = (x as u8, (x >> 8) as u8, (x >> 16) as u8, (x >> 24) as u8);
    assert(x == (b0 as u32) | ((b1 as u32) << 8) | ((b2 as u32) << 16) | ((b3 as u32) << 24))
        by (bit_vector)
        requires
            b0 == x as u8,
            b1 == (x >> 8) as u8,
            b2 == (x >> 16) as u8,
            b3 == (x >> 24) as u8,
    ;
    let (c0, c1, c2, c3) = (s[0], s[1], s[2], s[3]);
    let y = (c0 as u32) | ((c1 as u32) << 8) | ((c2 as u32) << 16) | ((c3 as u32) << 24);
    assert(y as u8 == c0 && (y >> 8) as u8 == c1 && (y >> 16) as u8 == c2 && (y >> 24) as u8 == c3)
        by (bit_vector)
        requires
            y == (c0 as u32) | ((c1 as u32) << 8) | ((c2 as u32) << 16) | ((c3 as u32) << 24),
    ;
    assert(le32(from_le32(s)) =~= s);
}

/// Eight bytes and the number they stand for, least significant first, determine each other.
pub proof fn law_le64_inverse(x: u64, s: Seq<u8>)
    requires
        s.len() == 8,
    ensures
        from_le64(le64(x)) == x,
        le64(from_le64(s)) == s,
{
    let (lo, hi) = (x as u32, (x >> 32) as u32);
    assert(x == (lo as u64) | ((hi as u64) << 32)) by (bit_vector)
        requires
            lo == x as u32,
            hi == (x >> 32) as u32,
    ;
    law_le32_inverse(lo, s.subrange(0, 4));
    law_le32_inverse(hi, s.subrange(4, 8));
    assert(le64(x).subrange(0, 4) =~= le32(lo));
    assert(le64(x).subrange(4, 8) =~= le32(hi));
    let (a, b) = (from_le32(s.subrange(0, 4)), from_le32(s.subrange(4, 8)));
    let y = (a as u64) | ((b as u64) << 32);
    assert(y as u32 == a && (y >> 32) as u32 == b) by (bit_vector)
        requires
            y == (a as u64) | ((b as u64) << 32),
    ;
    assert(le64(from_le64(s)) =~= s);
}

/// The order in which a machine keeps the bytes of a number.
#[derive(Clone, Copy, Debug, PartialEq, Eq, Structural)]
pub enum ByteOrder {
    /// The least significant byte first.
    Little,
    /// The most significant byte first.
    Big,
}

/// `u16::to_ne_bytes`: the two bytes of a number in the order of this machine, which is one of the
/// two orders. Which of them it is, is not said: it is up to the machine.
#[verifier::external_body]
fn u16_to_ne_bytes(x: u16) -> (bytes: [u8; 2])
    ensures
        bytes@ == seq![x as u8, (x >> 8) as u8] || bytes@ == seq![(x >> 8) as u8, x as u8],
{
    x.to_ne_bytes()
}

/// The order in which the bytes of the number one were found.
pub fn order_of_one(bytes: [u8; 2]) -> (order: ByteOrder)
    ensures
        order == if bytes@[0] == 1 {
            ByteOrder::Little
        } else {
            ByteOrder::Big
        },
{
    if bytes[0] == 1 {
        ByteOrder::Little
    } else {
        ByteOrder::Big
    }
}

/// Whether `order` is that of this machine: that in which it was found to keep the number one.
pub closed spec fn is_native(order: ByteOrder) -> bool {
    exists|bytes: [u8; 2]|
        call_ensures(u16_to_ne_bytes, (1u16,), bytes) && order == if #[trigger] bytes@[0] == 1 {
            ByteOrder::Little
        } else {
            ByteOrder::Big
        }
}

/// The byte order of this machine: that in which it keeps the number one.
pub fn native_order() -> (order: ByteOrder)
    ensures
        is_native(order),
{
    let bytes = u16_to_ne_bytes(1);
    assert(call_ensures(u16_to_ne_bytes, (1u16,), bytes));
    order_of_one(bytes)
}

/// The four bytes of `x`.
pub open spec fn bytes32(x: u32, order: ByteOrder) -> Seq<u8> {
    match order {
        ByteOrder::Little => le32(x),
        ByteOrder::Big => le32(x).reverse(),
    }
}

/// The number that four bytes stand for.
pub open spec fn number32(s: Seq<u8>, order: ByteOrder) -> u32 {
    match order {
        ByteOrder::Little => from_le32(s),
        ByteOrder::Big => from_le32(s.reverse()),
    }
}

/// The eight bytes of `x`.
pub open spec fn bytes64(x: u64, order: ByteOrder) -> Seq<u8> {
    match order {
        ByteOrder::Little => le64(x),
        ByteOrder::Big => le64(x).reverse(),
    }
}

/// The number that eight bytes stand for.
pub open spec fn number64(s: Seq<u8>, order: ByteOrder) -> u64 {
    match order {
        ByteOrder::Little => from_le64(s),
        ByteOrder::Big => from_le64(s.reverse()),
    }
}

/// Four bytes and the number they stand for determine each other, in either order.
pub proof fn law_bytes32_inverse(x: u32, s: Seq<u8>, order: ByteOrder)
    requires
        s.len() == 4,
    ensures
        bytes32(x, order).len() == 4,
        number32(bytes32(x, order), order) == x,
        bytes32(number32(s, order), order) == s,
{
    law_le32_inverse(x, s);
    law_le32_inverse(x, s.reverse());
    assert(le32(x).reverse().reverse() =~= le32(x));
    assert(s.reverse().reverse() =~= s);
}

/// Eight bytes and the number they stand for determine each other, in either order.
pub proof fn law_bytes64_inverse(x: u64, s: Seq<u8>, order: ByteOrder)
    requires
        s.len() == 8,
    ensures
        bytes64(x, order).len() == 8,
        number64(bytes64(x, order), order) == x,
        bytes64(number64(s, order), order) == s,
{
    law_le64_inverse(x, s);
    law_le64_inverse(x, s.reverse());
    assert(le64(x).reverse().reverse() =~= le64(x));
    assert(s.reverse().reverse() =~= s);
}

/// `data` with `bytes` in place of what stood from `offset` on.
pub open spec fn splice(data: Seq<u8>, offset: int, bytes: Seq<u8>) -> Seq<u8> {
    Seq::new(
        data.len(),
        |i: int|
            if offset <= i < offset + bytes.len() {
                bytes[i - offset]
            } else {
                data[i]
            },
    )
}

/// Overwrites the first `count` of `bytes` into `data`, from `offset` on.
pub fn put_bytes(data: &mut Vec<u8>, offset: usize, bytes: &Vec<u8>, count: usize)
    requires
        count <= bytes.len(),
        offset + count <= old(data).len(),
    ensures
        final(data)@ == splice(old(data)@, offset as int, bytes@.take(count as int)),
{
    let ghost before = data@;
    let mut i: usize = 0;
    while i < count
        invariant
            i <= count,
            count <= bytes.len(),
            offset + count <= before.len() == data.len(),
            data@ == splice(before, offset as int, bytes@.take(i as int)),
        decreases count - i,
    {
        data.set(offset + i, bytes[i]);
        i = i + 1;
        assert(data@ =~= splice(before, offset as int, bytes@.take(i as int)));
    }
}

/// Overwrites four bytes of `data` with those of `x`.
pub fn put_u32(data: &mut Vec<u8>, offset: usize, x: u32, order: ByteOrder)
    requires
        offset + 4 <= old(data).len(),
    ensures
        final(data)@ == splice(old(data)@, offset as int, bytes32(x, order)),
{
    let ghost before = data@;
    let b0: u8 = #[verifier::truncate] (x as u8);
    let b1: u8 = #[verifier::truncate] ((x >> 8) as u8);
    let b2: u8 = #[verifier::truncate] ((x >> 16) as u8);
    let b3: u8 = #[verifier::truncate] ((x >> 24) as u8);
    match order {
        ByteOrder::Little => {
            data.set(offset, b0);
            data.set(offset + 1, b1);
            data.set(offset + 2, b2);
            data.set(offset + 3, b3);
        },
        ByteOrder::Big => {
            data.set(offset, b3);
            data.set(offset + 1, b2);
            data.set(offset + 2, b1);
            data.set(offset + 3, b0);
        },
    }
    assert(data@ =~= splice(before, offset as int, bytes32(x, order)));
}

/// Overwrites eight bytes of `data` with those of `x`.
pub fn put_u64(data: &mut Vec<u8>, offset: usize, x: u64, order: ByteOrder)
    requires
        offset + 8 <= old(data).len(),
    ensures
        final(data)@ == splice(old(data)@, offset as int, bytes64(x, order)),
{
    let ghost before = data@;
    let low: u32 = #[verifier::truncate] (x as u32);
    let high: u32 = #[verifier::truncate] ((x >> 32) as u32);
    match order {
        ByteOrder::Little => {
            put_u32(data, offset, low, order);
            put_u32(data, offset + 4, high, order);
        },
        ByteOrder::Big => {
            put_u32(data, offset, high, order);
            put_u32(data, offset + 4, low, order);
            assert(bytes64(x, order) =~= bytes32(high, order) + bytes32(low, order));
        },
    }
    assert(data@ =~= splice(before, offset as int, bytes64(x, order)));
}

/// The number that four bytes of `data` stand for.
pub fn get_u32(data: &[u8], offset: usize, order: ByteOrder) -> (x: u32)
    requires
        offset + 4 <= data.len(),
    ensures
        x == number32(data@.subrange(offset as int, offset + 4), order),
{
    match order {
        ByteOrder::Little => (data[offset] as u32) | ((data[offset + 1] as u32) << 8) | ((data[offset
            + 2] as u32) << 16) | ((data[offset + 3] as u32) << 24),
        ByteOrder::Big => (data[offset + 3] as u32) | ((data[offset + 2] as u32) << 8) | ((
        data[offset + 1] as u32) << 16) | ((data[offset] as u32) << 24),
    }
}

/// The number that eight bytes of `data` stand for.
pub fn get_u64(data: &[u8], offset: usize, order: ByteOrder) -> (x: u64)
    requires
        offset + 8 <= data.len(),
    ensures
        x == number64(data@.subrange(offset as int, offset + 8), order),
{
    let first: u32 = get_u32(data, offset, order);
    let second: u32 = get_u32(data, offset + 4, order);
    proof {
        let s = data@.subrange(offset as int, offset + 8);
        let a = data@.subrange(offset as int, offset + 4);
        let b = data@.subrange(offset + 4, offset + 8);
        assert(s.subrange(0, 4) =~= a);
        assert(s.subrange(4, 8) =~= b);
        assert(s.reverse().subrange(0, 4) =~= b.reverse());
        assert(s.reverse().subrange(4, 8) =~= a.reverse());
    }
    match order {
        ByteOrder::Little => (first as u64) | ((second as u64) << 32),
        ByteOrder::Big => (second as u64) | ((first as u64) << 32),
    }
}

/// `count` bytes of `data`, from `offset` on.
pub fn get_bytes(data: &[u8], offset: usize, count: usize) -> (bytes: Vec<u8>)
    requires
        offset + count <= data.len(),
    ensures
        bytes@ == data@.subrange(offset as int, offset + count),
{
    let mut bytes: Vec<u8> = Vec::new();
    let mut i: usize = 0;
    while i < count
        invariant
            i <= count,
            offset + count <= data.len(),
            bytes@ == data@.subrange(offset as int, offset + i),
        decreases count - i,
    {
        bytes.push(data[offset + i]);
        i = i + 1;
        assert(bytes@ =~= data@.subrange(offset as int, offset + i));
    }
    bytes
}

/// `count` bytes, all zero.
pub fn zeroed(count: usize) -> (bytes: Vec<u8>)
    ensures
        bytes@ == Seq::new(count as nat, |i: int| 0u8),
{
    let mut bytes: Vec<u8> = Vec::new();
    let mut i: usize = 0;
    while i < count
        invariant
            i <= count,
            bytes@ == Seq::new(i as nat, |j: int| 0u8),
        decreases count - i,
    {
        bytes.push(0);
        i = i + 1;
        assert(bytes@ =~= Seq::new(i as nat, |j: int| 0u8));
    }
    bytes
}

/// The bytes of a number are its digits to base 256, the least significant first or last, as the
/// order says.
pub proof fn law_bytes_are_digits(x: u32)
    ensures
        ({
            let (a, b) = (bytes32(x, ByteOrder::Little), bytes32(x, ByteOrder::Big));
            &&& a.len() == 4 && b.len() == 4
            &&& x == a[0] + 256 * a[1] + 65536 * a[2] + 16777216 * a[3]
            &&& x == b[3] + 256 * b[2] + 65536 * b[1] + 16777216 * b[0]
        }),
{
    let (b0, b1, b2, b3) = (x as u8, (x >> 8) as u8, (x >> 16) as u8, (x >> 24) as u8);
    assert(x == b0 + 256 * b1 + 65536 * b2 + 16777216 * b3) by (bit_vector)
        requires
            b0 == x as u8,
            b1 == (x >> 8) as u8,
            b2 == (x >> 16) as u8,
            b3 == (x >> 24) as u8,
    ;
}

/// The bytes of a number of 64 bits are those of its halves, the less significant half first or
/// last, as the order says.
pub proof fn law_long_numbers_are_two_halves(x: u64)
    ensures
        exists|low: u32, high: u32| #[trigger]
            halves(low, high) == x && bytes64(x, ByteOrder::Little) == bytes32(
                low,
                ByteOrder::Little,
            ) + bytes32(high, ByteOrder::Little) && bytes64(x, ByteOrder::Big) == bytes32(
                high,
                ByteOrder::Big,
            ) + bytes32(low, ByteOrder::Big),
{
    let (low, high) = (x as u32, (x >> 32) as u32);
    assert(x == low + 4294967296 * high) by (bit_vector)
        requires
            low == x as u32,
            high == (x >> 32) as u32,
    ;
    assert(bytes64(x, ByteOrder::Big) =~= bytes32(high, ByteOrder::Big) + bytes32(
        low,
        ByteOrder::Big,
    ));
    assert(halves(low, high) == x);
}

/// The number with the given halves.
pub open spec fn halves(low: u32, high: u32) -> int {
    low + 4294967296 * high
}

/// Overwriting puts the new bytes in place, and changes no other byte and no length.
pub proof fn law_splicing_changes_one_place(data: Seq<u8>, offset: int, bytes: Seq<u8>)
    requires
        0 <= offset,
        offset + bytes.len() <= data.len(),
    ensures
        splice(data, offset, bytes).len() == data.len(),
        splice(data, offset, bytes).subrange(offset, offset + bytes.len()) == bytes,
        splice(data, offset, bytes).take(offset) == data.take(offset),
        splice(data, offset, bytes).skip(offset + bytes.len()) == data.skip(offset + bytes.len()),
{
    let after = splice(data, offset, bytes);
    assert(after.subrange(offset, offset + bytes.len()) =~= bytes);
    assert(after.take(offset) =~= data.take(offset));
    assert(after.skip(offset + bytes.len()) =~= data.skip(offset + bytes.len()));
}

/// A machine of a given order was found to keep the number one as that order says.
proof fn law_machines_keep_numbers_in_their_order(order: ByteOrder)
    requires
        is_native(order),
    ensures
        exists|bytes: [u8; 2]|
            call_ensures(u16_to_ne_bytes, (1u16,), bytes) && #[trigger] bytes@ == (match order {
                ByteOrder::Little => seq![1u8, 0u8],
                ByteOrder::Big => seq![0u8, 1u8],
            }),
{
    let bytes = choose|bytes: [u8; 2]|
        call_ensures(u16_to_ne_bytes, (1u16,), bytes) && order == if #[trigger] bytes@[0] == 1 {
            ByteOrder::Little
        } else {
            ByteOrder::Big
        };
    assert(1u16 as u8 == 1u8 && (1u16 >> 8) as u8 == 0u8) by (bit_vector);
    assert(bytes@ =~= (match order {
        ByteOrder::Little => seq![1u8, 0u8],
        ByteOrder::Big => seq![0u8, 1u8],
    }));
}

/// A number that was put into bytes is got back from there, in either order; the bytes are its digits
/// to base 256, in that order; and no other byte changes.
pub proof fn law_numbers_are_got_back(
    data: &mut Vec<u8>,
    offset: usize,
    x: u32,
    slice: &[u8],
    got: u32,
    order: ByteOrder,
)
    requires
        offset + 4 <= old(data)@.len(),
        call_ensures(put_u32, (data, offset, x, order), ()),
        slice@ == final(data)@,
        call_ensures(get_u32, (slice, offset, order), got),
    ensures
        got == x,
        final(data)@.len() == old(data)@.len(),
        forall|p: int|
            0 <= p < old(data)@.len() && !(offset <= p < offset + 4) ==> #[trigger] final(data)@[p]
                == old(data)@[p],
        order is Little ==> x == final(data)@[offset as int] + 256 * final(data)@[offset + 1] + 65536
            * final(data)@[offset + 2] + 16777216 * final(data)@[offset + 3],
        order is Big ==> x == final(data)@[offset + 3] + 256 * final(data)@[offset + 2] + 65536
            * final(data)@[offset + 1] + 16777216 * final(data)@[offset as int],
{
    let bytes = bytes32(x, order);
    law_bytes32_inverse(x, bytes, order);
    law_bytes_are_digits(x);
    law_splicing_changes_one_place(old(data)@, offset as int, bytes);
    assert(slice@.subrange(offset as int, offset + 4) =~= bytes);
    assert(forall|i: int| 0 <= i < 4 ==> final(data)@[offset + i] == #[trigger] bytes[i]);
    assert(final(data)@[offset as int] == bytes[0] && final(data)@[offset + 1] == bytes[1]
        && final(data)@[offset + 2] == bytes[2] && final(data)@[offset + 3] == bytes[3]);
}

/// A number of 64 bits that was put into bytes is got back from there, in either order, and no other
/// byte changes.
pub proof fn law_long_numbers_are_got_back(
    data: &mut Vec<u8>,
    offset: usize,
    x: u64,
    slice: &[u8],
    got: u64,
    order: ByteOrder,
)
    requires
        offset + 8 <= old(data)@.len(),
        call_ensures(put_u64, (data, offset, x, order), ()),
        slice@ == final(data)@,
        call_ensures(get_u64, (slice, offset, order), got),
    ensures
        got == x,
        final(data)@.len() == old(data)@.len(),
        forall|p: int|
            0 <= p < old(data)@.len() && !(offset <= p < offset + 8) ==> #[trigger] final(data)@[p]
                == old(data)@[p],
{
    let bytes = bytes64(x, order);
    law_bytes64_inverse(x, bytes, order);
    law_splicing_changes_one_place(old(data)@, offset as int, bytes);
    assert(slice@.subrange(offset as int, offset + 8) =~= bytes);
}

/// Bytes that were put somewhere are got back from there, and no other byte changes.
pub proof fn law_bytes_are_got_back(
    data: &mut Vec<u8>,
    offset: usize,
    bytes: Vec<u8>,
    count: usize,
    slice: &[u8],
    got: Vec<u8>,
)
    requires
        count <= bytes@.len(),
        offset + count <= old(data)@.len(),
        call_ensures(put_bytes, (data, offset, &bytes, count), ()),
        slice@ == final(data)@,
        call_ensures(get_bytes, (slice, offset, count), got),
    ensures
        got@ == bytes@.take(count as int),
        final(data)@.len() == old(data)@.len(),
        forall|p: int|
            0 <= p < old(data)@.len() && !(offset <= p < offset + count)
                ==> #[trigger] final(data)@[p] == old(data)@[p],
{
    assert(got@ =~= bytes@.take(count as int));
}

/// Bytes that are made anew are as many as asked for, and all zero.
pub proof fn law_new_bytes_are_zero(size: usize, data: Vec<u8>)
    requires
        call_ensures(zeroed, (size,), data),
    ensures
        data@.len() == size,
        forall|p: int| 0 <= p < size ==> #[trigger] data@[p] == 0,
{
}

/// The order of a machine that keeps the number one as `bytes` is the order in which these stand for
/// one.
pub proof fn law_one_tells_the_order(bytes: [u8; 2], order: ByteOrder)
    requires
        call_ensures(order_of_one, (bytes,), order),
        bytes@ == seq![1u8, 0u8] || bytes@ == seq![0u8, 1u8],
    ensures
        order is Little <==> bytes@ == seq![1u8, 0u8],
        order is Big <==> bytes@ == seq![0u8, 1u8],
{
    assert(seq![1u8, 0u8][0] == 1u8 && seq![0u8, 1u8][0] == 0u8);
}

} // verus!
