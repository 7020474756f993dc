//! Reads of a stopped process's memory: what is read for a call's arguments,
//! and what the bytes that came back say.

use crate::broker::address::BrokerError;
use crate::broker::grant::FileTimes;
use crate::broker::machine::{Machine, TimeLayout};
use crate::broker::registers;
use crate::broker::registers::{words_len, ByteOrder};
use crate::bytes;
use crate::sys;
use vstd::prelude::*;

verus! {

/// A range of a process's memory.
#[derive(Clone, Copy, Debug, PartialEq, Eq, Structural)]
pub struct MemoryRead {
    pub base: usize,
    pub len: usize,
}

/// The socket, the address and the process of a call that takes an address.
#[derive(Clone, Copy, Debug, PartialEq, Eq, Structural)]
pub struct SocketArguments {
    pub pid: i32,
    pub fd: i32,
    pub addr: MemoryRead,
}

/// A register as a pointer or a length.
pub fn usize_register(value: u64) -> (size: Option<usize>)
    ensures
        size == (if value <= usize::MAX {
            Some(value as usize)
        } else {
            None
        }),
{
    if value > usize::MAX as u64 {
        return None;
    }
    Some(value as usize)
}

/// The process of a notification, which the kernel numbers with an `int`.
pub fn process_number(pid: u32) -> (number: Result<i32, BrokerError>)
    ensures
        number == (if pid <= i32::MAX {
            Ok::<i32, BrokerError>(pid as i32)
        } else {
            Err(BrokerError::InvalidAddress)
        }),
{
    if pid > i32::MAX as u32 {
        return Err(BrokerError::InvalidAddress);
    }
    Ok(pid as i32)
}

/// The descriptor in a register.
pub fn descriptor(value: u64) -> (fd: Result<i32, BrokerError>)
    ensures
        fd == (if value <= i32::MAX {
            Ok::<i32, BrokerError>(value as i32)
        } else {
            Err(BrokerError::BadFileDescriptor)
        }),
{
    if value > i32::MAX as u64 {
        return Err(BrokerError::BadFileDescriptor);
    }
    Ok(value as i32)
}

/// What a call that takes an address reads, or why it is refused.
pub open spec fn socket_request(args: Seq<u64>, pid: u32) -> Result<SocketArguments, BrokerError> {
    if args[0] > i32::MAX {
        Err(BrokerError::BadFileDescriptor)
    } else if args[1] > usize::MAX {
        Err(BrokerError::BadAddress)
    } else if args[2] > usize::MAX || pid > i32::MAX || args[2] > sys::SOCKADDR_STORAGE_LEN
        || args[2] < 2 {
        Err(BrokerError::InvalidAddress)
    } else {
        Ok(
            SocketArguments {
                pid: pid as i32,
                fd: args[0] as i32,
                addr: MemoryRead { base: args[1] as usize, len: args[2] as usize },
            },
        )
    }
}

/// What a call that takes an address reads.
pub fn target_socket(args: &[u64; 6], pid: u32) -> (found: Result<SocketArguments, BrokerError>)
    ensures
        found == socket_request(args@, pid),
{
    let fd = match descriptor(args[0]) {
        Ok(fd) => fd,
        Err(error) => return Err(error),
    };
    let base = match usize_register(args[1]) {
        Some(base) => base,
        None => return Err(BrokerError::BadAddress),
    };
    let len = match usize_register(args[2]) {
        Some(len) => len,
        None => return Err(BrokerError::InvalidAddress),
    };
    let pid = match process_number(pid) {
        Ok(pid) => pid,
        Err(error) => return Err(error),
    };
    if len > sys::SOCKADDR_STORAGE_LEN || len < 2 {
        return Err(BrokerError::InvalidAddress);
    }
    Ok(SocketArguments { pid, fd, addr: MemoryRead { base, len } })
}

/// The optional address of a datagram: none where its length is zero.
pub open spec fn optional_address(
    target: u64,
    len: usize,
) -> Result<Option<MemoryRead>, BrokerError> {
    if len == 0 {
        Ok(None)
    } else if len > sys::SOCKADDR_STORAGE_LEN {
        Err(BrokerError::InvalidAddress)
    } else if target > usize::MAX || target == 0 {
        Err(BrokerError::BadAddress)
    } else if len < 2 {
        Err(BrokerError::InvalidAddress)
    } else {
        Ok(Some(MemoryRead { base: target as usize, len }))
    }
}

/// The read of a datagram's optional address.
pub fn read_optional_target_addr(
    target: u64,
    len: usize,
) -> (read: Result<Option<MemoryRead>, BrokerError>)
    ensures
        read == optional_address(target, len),
{
    if len == 0 {
        return Ok(None);
    }
    if len > sys::SOCKADDR_STORAGE_LEN {
        return Err(BrokerError::InvalidAddress);
    }
    match usize_register(target) {
        Some(base) => if base == 0 {
            Err(BrokerError::BadAddress)
        } else if len < 2 {
            Err(BrokerError::InvalidAddress)
        } else {
            Ok(Some(MemoryRead { base, len }))
        },
        None => Err(BrokerError::BadAddress),
    }
}

/// An exact read: nothing where nothing is asked for, and never at null.
pub open spec fn exact(target: u64, len: usize) -> Result<Option<MemoryRead>, BrokerError> {
    if len == 0 {
        Ok(None)
    } else if target > usize::MAX || target == 0 {
        Err(BrokerError::BadAddress)
    } else {
        Ok(Some(MemoryRead { base: target as usize, len }))
    }
}

/// The read of exactly `len` bytes.
pub fn read_child_exact(
    target: u64,
    len: usize,
) -> (read: Result<Option<MemoryRead>, BrokerError>)
    ensures
        read == exact(target, len),
{
    if len == 0 {
        return Ok(None);
    }
    match usize_register(target) {
        Some(base) => if base == 0 {
            Err(BrokerError::BadAddress)
        } else {
            Ok(Some(MemoryRead { base, len }))
        },
        None => Err(BrokerError::BadAddress),
    }
}

/// The read of `count` values of `size` bytes each.
pub fn read_child_values(
    target: u64,
    count: usize,
    size: usize,
) -> (read: Result<Option<MemoryRead>, BrokerError>)
    ensures
        count == 0 ==> read == Ok::<Option<MemoryRead>, BrokerError>(None),
        count > 0 && size * count > usize::MAX ==> read == Err::<Option<MemoryRead>, _>(
            BrokerError::BadAddress,
        ),
        count > 0 && size * count <= usize::MAX ==> read == exact(
            target,
            (size * count) as usize,
        ),
{
    if count == 0 {
        return Ok(None);
    }
    match size.checked_mul(count) {
        Some(len) => read_child_exact(target, len),
        None => Err(BrokerError::BadAddress),
    }
}

/// The largest extended attribute.
pub const XATTR_MAX: usize = 65536;

/// The read of an extended attribute. A value too large is refused, never cut.
pub open spec fn attribute_value(
    target: u64,
    size: u64,
) -> Result<Option<MemoryRead>, BrokerError> {
    if size > XATTR_MAX {
        Err(BrokerError::SystemCall { errno: sys::E2BIG })
    } else {
        exact(target, size as usize)
    }
}

/// The read of an extended attribute's value.
pub fn read_child_bytes(
    target: u64,
    size: u64,
) -> (read: Result<Option<MemoryRead>, BrokerError>)
    ensures
        read == attribute_value(target, size),
{
    if size > XATTR_MAX as u64 {
        return Err(BrokerError::SystemCall { errno: sys::E2BIG });
    }
    read_child_exact(target, size as usize)
}

/// The longest path, its end included.
pub const PATH_MAX: usize = 4096;

/// The read of a string, or `None` at null.
pub fn read_child_target(target: u64) -> (read: Result<Option<MemoryRead>, BrokerError>)
    ensures
        read == (if target > usize::MAX {
            Err::<Option<MemoryRead>, _>(BrokerError::BadAddress)
        } else if target == 0 {
            Ok(None)
        } else {
            Ok(Some(MemoryRead { base: target as usize, len: PATH_MAX }))
        }),
{
    match usize_register(target) {
        Some(base) => if base == 0 {
            Ok(None)
        } else {
            Ok(Some(MemoryRead { base, len: PATH_MAX }))
        },
        None => Err(BrokerError::BadAddress),
    }
}

/// The string at the start of what was read.
pub open spec fn read_string(read: Seq<u8>) -> Result<Seq<u8>, BrokerError> {
    if read.len() == 0 {
        Err(BrokerError::BadAddress)
    } else if bytes::index_from(read, 0, 0) == read.len() {
        Err(BrokerError::NameTooLong)
    } else {
        Ok(read.take(bytes::index_from(read, 0, 0)))
    }
}

/// The string at the start of what was read, up to its end.
pub fn read_child_string(read: &[u8]) -> (text: Result<Vec<u8>, BrokerError>)
    ensures
        read_string(read@) matches Err(error) ==> text == Err::<Vec<u8>, _>(error),
        read_string(read@) matches Ok(found) ==> (text matches Ok(copy) && copy@ == found),
{
    if read.len() == 0 {
        return Err(BrokerError::BadAddress);
    }
    let end = bytes::find_byte(read, 0, 0);
    proof {
        bytes::lemma_index_from_unique(read@, 0, 0, end as int);
    }
    if end == read.len() {
        return Err(BrokerError::NameTooLong);
    }
    let text = vstd::slice::slice_subrange(read, 0, end);
    assert(text@ =~= read@.take(end as int));
    Ok(bytes::copy_bytes(text))
}

/// The path at the start of what was read. An empty one is none.
pub fn read_child_path(read: &[u8]) -> (path: Result<Option<Vec<u8>>, BrokerError>)
    ensures
        read_string(read@) matches Err(error) ==> path == Err::<Option<Vec<u8>>, _>(error),
        read_string(read@) matches Ok(found) ==> if found.len() == 0 {
            path == Ok::<Option<Vec<u8>>, BrokerError>(None)
        } else {
            path matches Ok(Some(copy)) && copy@ == found
        },
{
    match read_child_string(read) {
        Ok(text) => if text.len() == 0 {
            Ok(None)
        } else {
            Ok(Some(text))
        },
        Err(error) => Err(error),
    }
}

/// The size of the seconds of a time, and of its nanoseconds.
pub open spec fn time_len(layout: TimeLayout) -> int {
    if layout is Words {
        registers::words(1)
    } else {
        8
    }
}

/// The size of the seconds of a time, and of its nanoseconds.
pub fn time_part_len(layout: TimeLayout) -> (len: usize)
    ensures
        len == time_len(layout),
{
    match layout {
        TimeLayout::Words => words_len(1),
        _ => 8,
    }
}

/// The signed integer of `len` bytes at `at`.
pub open spec fn signed_at(order: ByteOrder, bytes: Seq<u8>, at: int, len: int) -> int {
    let value = registers::native(order, bytes.subrange(at, at + len)) as int;
    if len == 8 {
        if value < 0x8000_0000_0000_0000 {
            value
        } else {
            value - 0x1_0000_0000_0000_0000
        }
    } else {
        registers::signed(value)
    }
}

/// The nanoseconds at `at`.
pub open spec fn nanoseconds_at(machine: Machine, bytes: Seq<u8>, at: int) -> int {
    if machine.times is Padded {
        registers::signed(
            registers::native(machine.order, bytes.subrange(at, at + 8)) as int % 0x1_0000_0000,
        )
    } else {
        signed_at(machine.order, bytes, at, time_len(machine.times))
    }
}

fn read_signed(order: ByteOrder, bytes: &[u8], at: usize, len: usize) -> (value: i64)
    requires
        len == 4 || len == 8,
        at + len <= bytes.len(),
    ensures
        value == signed_at(order, bytes@, at as int, len as int),
{
    let part = vstd::slice::slice_subrange(bytes, at, at + len);
    assert(part@.take(len as int) =~= bytes@.subrange(at as int, at + len));
    if len == 8 {
        registers::syscall_i64(registers::read_u64(order, part))
    } else {
        registers::cast_signed(registers::read_u32(order, part)) as i64
    }
}

fn read_nanoseconds(machine: &Machine, bytes: &[u8], at: usize) -> (value: i64)
    requires
        at + time_len(machine.times) <= bytes.len(),
    ensures
        value == nanoseconds_at(*machine, bytes@, at as int),
{
    match machine.times {
        TimeLayout::Padded => {
            let part = vstd::slice::slice_subrange(bytes, at, at + 8);
            assert(part@.take(8) =~= bytes@.subrange(at as int, at + 8));
            registers::syscall_i32(registers::read_u64(machine.order, part)) as i64
        },
        _ => read_signed(machine.order, bytes, at, time_part_len(machine.times)),
    }
}

/// The two times in what was read.
pub fn read_child_times(machine: &Machine, read: &[u8]) -> (times: Result<FileTimes, BrokerError>)
    ensures
        ({
            let len = time_len(machine.times);
            if read@.len() < 4 * len {
                times == Err::<FileTimes, _>(BrokerError::BadAddress)
            } else {
                &&& times matches Ok(found)
                &&& found.access_seconds == signed_at(machine.order, read@, 0, len)
                &&& found.access_nanoseconds == nanoseconds_at(*machine, read@, len)
                &&& found.change_seconds == signed_at(machine.order, read@, 2 * len, len)
                &&& found.change_nanoseconds == nanoseconds_at(*machine, read@, 3 * len)
            }
        }),
{
    let len = time_part_len(machine.times);
    if read.len() < 4 * len {
        return Err(BrokerError::BadAddress);
    }
    Ok(
        FileTimes {
            access_seconds: read_signed(machine.order, read, 0, len),
            access_nanoseconds: read_nanoseconds(machine, read, len),
            change_seconds: read_signed(machine.order, read, 2 * len, len),
            change_nanoseconds: read_nanoseconds(machine, read, 3 * len),
        },
    )
}

/// What a read came back with: all of it, or the range is bad.
pub fn read_whole(read: Vec<u8>, wanted: usize) -> (whole: Result<Vec<u8>, BrokerError>)
    ensures
        whole == (if read@.len() == wanted {
            Ok::<Vec<u8>, BrokerError>(read)
        } else {
            Err(BrokerError::BadAddress)
        }),
{
    if read.len() != wanted {
        return Err(BrokerError::BadAddress);
    }
    Ok(read)
}

/// Nothing is read where nothing is asked for, and never at null or beyond the
/// address space. An address of a datagram is no longer than any address and
/// holds a family, and the value of an attribute no longer than any attribute.
pub proof fn law_reads_stay_within_bounds(target: u64, len: usize, size: u64)
    ensures
        exact(target, 0) == Ok::<Option<MemoryRead>, BrokerError>(None),
        len > 0 && 0 < target <= usize::MAX ==> exact(target, len) == Ok::<_, BrokerError>(
            Some(MemoryRead { base: target as usize, len }),
        ),
        len > 0 && (target == 0 || target > usize::MAX) ==> exact(target, len) == Err::<
            Option<MemoryRead>,
            _,
        >(BrokerError::BadAddress),
        optional_address(target, 0) == Ok::<Option<MemoryRead>, BrokerError>(None),
        2 <= len <= 128 && 0 < target <= usize::MAX ==> optional_address(target, len) == Ok::<
            _,
            BrokerError,
        >(Some(MemoryRead { base: target as usize, len })),
        len > 128 ==> optional_address(target, len) == Err::<Option<MemoryRead>, _>(
            BrokerError::InvalidAddress,
        ),
        1 <= len <= 128 && (target == 0 || target > usize::MAX) ==> optional_address(target, len)
            == Err::<Option<MemoryRead>, _>(BrokerError::BadAddress),
        len == 1 && 0 < target <= usize::MAX ==> optional_address(target, len) == Err::<
            Option<MemoryRead>,
            _,
        >(BrokerError::InvalidAddress),
        size > 65536 ==> attribute_value(target, size) == Err::<Option<MemoryRead>, _>(
            BrokerError::SystemCall { errno: 7 },
        ),
        size <= 65536 ==> attribute_value(target, size) == exact(target, size as usize),
{
}

/// The address of a call is read as long as the call says, from where it says,
/// on the descriptor that it names.
pub proof fn law_socket_calls_say_what_they_read(args: Seq<u64>, pid: u32)
    requires
        args.len() == 6,
    ensures
        args[0] > i32::MAX ==> socket_request(args, pid) == Err::<SocketArguments, _>(
            BrokerError::BadFileDescriptor,
        ),
        args[0] <= i32::MAX && args[1] <= usize::MAX && (args[2] < 2 || args[2] > 128 || pid
            > i32::MAX) ==> socket_request(args, pid) == Err::<SocketArguments, _>(
            BrokerError::InvalidAddress,
        ),
        args[0] <= i32::MAX && args[1] <= usize::MAX && 2 <= args[2] <= 128 && pid <= i32::MAX
            ==> socket_request(args, pid) == Ok::<_, BrokerError>(
            SocketArguments {
                pid: pid as i32,
                fd: args[0] as i32,
                addr: MemoryRead { base: args[1] as usize, len: args[2] as usize },
            },
        ),
{
}

/// A string ends before its first zero byte. One that does not end is too long,
/// and where nothing could be read the address is bad.
pub proof fn law_strings_end_at_a_zero(text: Seq<u8>, rest: Seq<u8>)
    requires
        forall|i: int| 0 <= i < text.len() ==> text[i] != 0,
    ensures
        read_string(text + seq![0u8] + rest) == Ok::<_, BrokerError>(text),
        text.len() > 0 ==> read_string(text) == Err::<Seq<u8>, _>(BrokerError::NameTooLong),
        read_string(Seq::empty()) == Err::<Seq<u8>, _>(BrokerError::BadAddress),
{
    let whole = text + seq![0u8] + rest;
    assert(whole[text.len() as int] == 0);
    bytes::lemma_index_from_unique(whole, 0, 0, text.len() as int);
    assert(whole.take(text.len() as int) =~= text);
    bytes::lemma_index_from_unique(text, 0, 0, text.len() as int);
}

/// Two times are four integers: seconds and nanoseconds of each, as wide as the
/// machine has them, with their signs.
pub proof fn law_times_are_signed_integers(machine: Machine, bytes: Seq<u8>, value: int)
    requires
        0 <= value,
    ensures
        machine.times is Words && usize::BITS == 64 ==> time_len(machine.times) == 8,
        machine.times is Words && usize::BITS == 32 ==> time_len(machine.times) == 4,
        machine.times is Long || machine.times is Padded ==> time_len(machine.times) == 8,
        bytes.len() == 8 && registers::native(machine.order, bytes) == value ==> signed_at(
            machine.order,
            bytes,
            0,
            8,
        ) == (if value < 0x8000_0000_0000_0000 {
            value
        } else {
            value - 0x1_0000_0000_0000_0000
        }),
        bytes.len() == 8 && machine.times is Long && registers::native(machine.order, bytes)
            == value ==> nanoseconds_at(machine, bytes, 0) == (if value < 0x8000_0000_0000_0000 {
            value
        } else {
            value - 0x1_0000_0000_0000_0000
        }),
        bytes.len() == 8 && machine.times is Padded && registers::native(machine.order, bytes)
            == value ==> nanoseconds_at(machine, bytes, 0) == (if value % 0x1_0000_0000
            < 0x8000_0000 {
            value % 0x1_0000_0000
        } else {
            value % 0x1_0000_0000 - 0x1_0000_0000
        }),
{
    if bytes.len() == 8 {
        assert(bytes.subrange(0, 8) =~= bytes);
    }
}

} // verus!
