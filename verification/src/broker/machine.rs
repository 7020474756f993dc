//! What differs between the machines and C libraries of Linux: byte order,
//! layouts in memory, and some of the numbers.

use crate::broker::registers::ByteOrder;
use vstd::prelude::*;

verus! {

/// How wide the counts in message headers are. A narrow one is the low half of
/// its word, whatever the other half holds. Read as unsigned, one below zero is
/// over every bound.
#[derive(Clone, Copy, Debug, PartialEq, Eq, Structural)]
pub enum CountWidth {
    Word,
    Narrow,
}

/// How a time is laid out: its seconds, then its nanoseconds.
#[derive(Clone, Copy, Debug, PartialEq, Eq, Structural)]
pub enum TimeLayout {
    /// Both as wide as a word.
    Words,
    /// Both of 64 bits.
    Long,
    /// Seconds of 64 bits, and nanoseconds of 32 bits in the low half of
    /// another 64.
    Padded,
}

/// The flags of an open.
#[derive(Clone, Copy, Debug, PartialEq, Eq, Structural)]
pub struct OpenFlags {
    /// What tells reading from writing.
    pub access_mode: i32,
    pub create: i32,
    pub exclusive: i32,
    pub truncate: i32,
    pub append: i32,
    pub close_on_exec: i32,
    /// Against access to the file.
    pub path: i32,
    /// Against links.
    pub no_follow: i32,
}

/// The types of sockets.
#[derive(Clone, Copy, Debug, PartialEq, Eq, Structural)]
pub struct SocketTypes {
    pub stream: i32,
    pub datagram: i32,
}

/// The error numbers on which machines differ, by their POSIX names.
#[derive(Clone, Copy, Debug, PartialEq, Eq, Structural)]
pub struct ErrorNumbers {
    pub eafnosupport: i32,
    pub emsgsize: i32,
    pub enametoolong: i32,
    pub enobufs: i32,
    pub enosys: i32,
    pub enotconn: i32,
    pub eopnotsupp: i32,
}

/// A machine and its C library.
#[derive(Clone, Copy, Debug, PartialEq, Eq, Structural)]
pub struct Machine {
    pub order: ByteOrder,
    pub counts: CountWidth,
    pub times: TimeLayout,
    pub open: OpenFlags,
    pub sockets: SocketTypes,
    pub errors: ErrorNumbers,
}

} // verus!
