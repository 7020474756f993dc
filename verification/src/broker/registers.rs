//! Call arguments and the integers in the memory of a stopped process.
//!
//! Integers in memory are in the byte order of the machine, and network
//! integers big-endian. Addresses and sizes in memory are words, as wide as a
//! `usize`.

use vstd::prelude::*;

verus! {

/// The value of a little-endian integer.
pub open spec fn little_endian(bytes: Seq<u8>) -> nat
    decreases bytes.len(),
{
    if bytes.len() == 0 {
        0
    } else {
        bytes[0] as nat + 256 * little_endian(bytes.skip(1))
    }
}

/// The byte order of a machine.
#[derive(Clone, Copy, Debug, PartialEq, Eq, Structural)]
pub enum ByteOrder {
    Little,
    Big,
}

/// The value of an integer in memory.
pub open spec fn native(order: ByteOrder, bytes: Seq<u8>) -> nat {
    match order {
        ByteOrder::Little => little_endian(bytes),
        ByteOrder::Big => little_endian(bytes.reverse()),
    }
}

/// The size of a number of words.
pub open spec fn words(count: int) -> int {
    if usize::BITS == 64 {
        8 * count
    } else {
        4 * count
    }
}

/// The size of a number of words.
pub fn words_len(count: usize) -> (len: usize)
    requires
        count <= 0x10_0000,
    ensures
        len == words(count as int),
{
    if usize::BITS == 64 {
        8 * count
    } else {
        4 * count
    }
}

/// The low half of an argument register as a C `unsigned int`.
pub fn syscall_u32(value: u64) -> (low: u32)
    ensures
        low == value % 0x1_0000_0000,
{
    assert(value as u32 == value % 0x1_0000_0000) by (bit_vector);
    value as u32
}

/// The signed value of 32 bits.
pub open spec fn signed(value: int) -> int {
    if value < 0x8000_0000 {
        value
    } else {
        value - 0x1_0000_0000
    }
}

/// The C `int` in an argument register.
pub open spec fn int_register(value: u64) -> i32 {
    signed((value % 0x1_0000_0000) as int) as i32
}

/// The low half of an argument register as a C `int`, so that a sign-extended
/// value such as `AT_FDCWD` comes back as it was.
pub fn syscall_i32(value: u64) -> (low: i32)
    ensures
        low == signed((value % 0x1_0000_0000) as int),
        low == int_register(value),
{
    let low = syscall_u32(value);
    cast_signed(low)
}

/// The same 32 bits as a signed integer.
pub fn cast_signed(value: u32) -> (same: i32)
    ensures
        same == signed(value as int),
{
    assert(value < 0x8000_0000u32 ==> value as i32 == value) by (bit_vector);
    assert(value >= 0x8000_0000u32 ==> value as i32 == value - 0x1_0000_0000) by (bit_vector);
    value as i32
}

/// An argument register as a signed 64-bit integer.
pub fn syscall_i64(value: u64) -> (same: i64)
    ensures
        same == (if value < 0x8000_0000_0000_0000 {
            value as int
        } else {
            value - 0x1_0000_0000_0000_0000
        }),
{
    assert(value < 0x8000_0000_0000_0000u64 ==> value as i64 == value) by (bit_vector);
    assert(value >= 0x8000_0000_0000_0000u64 ==> value as i64 == value - 0x1_0000_0000_0000_0000)
        by (bit_vector);
    value as i64
}

/// The 16-bit integer at the start of `bytes`.
pub fn read_u16(order: ByteOrder, bytes: &[u8]) -> (value: u16)
    requires
        bytes@.len() >= 2,
    ensures
        value == native(order, bytes@.take(2)),
{
    proof {
        let first = bytes@.take(2);
        let back = first.reverse();
        assert(first.skip(1).skip(1).len() == 0);
        assert(back.skip(1).skip(1).len() == 0);
        reveal_with_fuel(little_endian, 3);
    }
    match order {
        ByteOrder::Little => bytes[0] as u16 + 256 * (bytes[1] as u16),
        ByteOrder::Big => bytes[1] as u16 + 256 * (bytes[0] as u16),
    }
}

/// The 32-bit integer at the start of `bytes`.
pub fn read_u32(order: ByteOrder, bytes: &[u8]) -> (value: u32)
    requires
        bytes@.len() >= 4,
    ensures
        value == native(order, bytes@.take(4)),
{
    let first = read_u16(order, bytes);
    let second = read_u16(order, vstd::slice::slice_subrange(bytes, 2, bytes.len()));
    proof {
        lemma_native_halves(order, bytes@, 2);
        assert(bound(2) == 0x1_0000) by {
            reveal_with_fuel(bound, 3);
        }
    }
    match order {
        ByteOrder::Little => first as u32 + 0x1_0000 * (second as u32),
        ByteOrder::Big => second as u32 + 0x1_0000 * (first as u32),
    }
}

/// The 64-bit integer at the start of `bytes`.
pub fn read_u64(order: ByteOrder, bytes: &[u8]) -> (value: u64)
    requires
        bytes@.len() >= 8,
    ensures
        value == native(order, bytes@.take(8)),
{
    let first = read_u32(order, bytes);
    let second = read_u32(order, vstd::slice::slice_subrange(bytes, 4, bytes.len()));
    proof {
        lemma_native_halves(order, bytes@, 4);
        assert(bound(4) == 0x1_0000_0000) by {
            reveal_with_fuel(bound, 5);
        }
    }
    match order {
        ByteOrder::Little => first as u64 + 0x1_0000_0000 * (second as u64),
        ByteOrder::Big => second as u64 + 0x1_0000_0000 * (first as u64),
    }
}

/// The word at the start of `bytes`.
pub fn read_word(order: ByteOrder, bytes: &[u8]) -> (value: u64)
    requires
        bytes@.len() >= words(1),
    ensures
        value == native(order, bytes@.take(words(1))),
{
    if usize::BITS == 64 {
        read_u64(order, bytes)
    } else {
        read_u32(order, bytes) as u64
    }
}

/// An integer is its halves, the one that comes first being the lower or the
/// higher.
proof fn lemma_native_halves(order: ByteOrder, bytes: Seq<u8>, half: nat)
    requires
        half + half <= bytes.len(),
    ensures
        ({
            let first = native(order, bytes.take(half as int));
            let second = native(
                order,
                bytes.subrange(half as int, bytes.len() as int).take(half as int),
            );
            native(order, bytes.take((half + half) as int)) == match order {
                ByteOrder::Little => first + bound(half) * second,
                ByteOrder::Big => second + bound(half) * first,
            }
        }),
{
    let whole = bytes.take((half + half) as int);
    let front = bytes.take(half as int);
    let back = bytes.subrange(half as int, bytes.len() as int).take(half as int);
    match order {
        ByteOrder::Little => {
            lemma_little_endian_splits(whole, half);
            assert(whole.take(half as int) =~= front);
            assert(whole.skip(half as int) =~= back);
        },
        ByteOrder::Big => {
            lemma_little_endian_splits(whole.reverse(), half);
            assert(whole.reverse().take(half as int) =~= back.reverse());
            assert(whole.reverse().skip(half as int) =~= front.reverse());
        },
    }
}

/// How many values that many bytes hold.
pub open spec fn bound(count: nat) -> nat
    decreases count,
{
    if count == 0 {
        1
    } else {
        256 * bound((count - 1) as nat)
    }
}

/// An integer is its low bytes and, above them, its high bytes.
pub proof fn lemma_little_endian_splits(bytes: Seq<u8>, at: nat)
    requires
        at <= bytes.len(),
    ensures
        little_endian(bytes) == little_endian(bytes.take(at as int)) + bound(at) * little_endian(
            bytes.skip(at as int),
        ),
    decreases at,
{
    if at == 0 {
        assert(bytes.skip(0) =~= bytes);
        assert(bound(0) * little_endian(bytes) == little_endian(bytes)) by (nonlinear_arith)
            requires
                bound(0) == 1,
        ;
    } else {
        let rest = bytes.skip(1);
        let less = (at - 1) as nat;
        lemma_little_endian_splits(rest, less);
        assert(bytes.take(at as int).skip(1) =~= rest.take(less as int));
        assert(bytes.skip(at as int) =~= rest.skip(less as int));
        let high = little_endian(bytes.skip(at as int));
        assert(bytes.take(at as int)[0] == bytes[0]);
        assert(256 * (bound(less) * high) == bound(at) * high) by (nonlinear_arith)
            requires
                bound(at) == 256 * bound(less),
        ;
    }
}

/// An integer of two bytes, of four and of eight, by its bytes: on a
/// little-endian machine the first byte counts least, on the other the last.
pub proof fn law_integers_are_their_bytes(first: u8, second: u8, third: u8, fourth: u8)
    ensures
        native(ByteOrder::Little, seq![first, second]) == first + 256 * second,
        native(ByteOrder::Big, seq![first, second]) == 256 * first + second,
        native(ByteOrder::Little, seq![first, second, third, fourth]) == first + 256 * second
            + 0x1_0000 * third + 0x100_0000 * fourth,
        native(ByteOrder::Big, seq![first, second, third, fourth]) == 0x100_0000 * first + 0x1_0000
            * second + 256 * third + fourth,
{
    let two = seq![first, second];
    let four = seq![first, second, third, fourth];
    assert(two.reverse() =~= seq![second, first]);
    assert(four.reverse() =~= seq![fourth, third, second, first]);
    assert(two.skip(1) =~= seq![second]);
    assert(seq![second, first].skip(1) =~= seq![first]);
    assert(four.skip(1) =~= seq![second, third, fourth]);
    assert(seq![second, third, fourth].skip(1) =~= seq![third, fourth]);
    assert(seq![third, fourth].skip(1) =~= seq![fourth]);
    assert(seq![fourth, third, second, first].skip(1) =~= seq![third, second, first]);
    assert(seq![third, second, first].skip(1) =~= seq![second, first]);
    assert(seq![first].skip(1).len() == 0);
    assert(seq![second].skip(1).len() == 0);
    assert(seq![fourth].skip(1).len() == 0);
    reveal_with_fuel(little_endian, 5);
}

/// The halves of an integer stand in the machine's order: on a little-endian
/// machine the lower half comes first.
pub proof fn law_integers_are_their_halves(low: Seq<u8>, high: Seq<u8>)
    ensures
        native(ByteOrder::Little, low + high) == native(ByteOrder::Little, low) + bound(low.len())
            * native(ByteOrder::Little, high),
        native(ByteOrder::Big, high + low) == native(ByteOrder::Big, low) + bound(low.len())
            * native(ByteOrder::Big, high),
{
    lemma_little_endian_splits(low + high, low.len());
    assert((low + high).take(low.len() as int) =~= low);
    assert((low + high).skip(low.len() as int) =~= high);
    let back = (high + low).reverse();
    lemma_little_endian_splits(back, low.len());
    assert(back.take(low.len() as int) =~= low.reverse());
    assert(back.skip(low.len() as int) =~= high.reverse());
}

/// A C `int` in a register is the low half of the register with its sign.
pub proof fn law_int_registers_keep_their_sign(value: u64)
    ensures
        value % 0x1_0000_0000 < 0x8000_0000 ==> int_register(value) == value % 0x1_0000_0000,
        value % 0x1_0000_0000 >= 0x8000_0000 ==> int_register(value) == value % 0x1_0000_0000
            - 0x1_0000_0000,
{
}

} // verus!
