//! The numbers of the Linux interface that every machine shares. Those on which
//! machines differ are in [`crate::broker::machine`].

use vstd::prelude::*;

verus! {

pub const ENOENT: i32 = 2;

pub const EIO: i32 = 5;

pub const E2BIG: i32 = 7;

pub const EBADF: i32 = 9;

pub const EACCES: i32 = 13;

pub const EFAULT: i32 = 14;

pub const EEXIST: i32 = 17;

pub const EINVAL: i32 = 22;

pub const O_WRONLY: i32 = 1;

pub const O_RDWR: i32 = 2;

pub const AT_FDCWD: i32 = -100;

pub const AT_SYMLINK_NOFOLLOW: i32 = 0x100;

pub const AT_REMOVEDIR: i32 = 0x200;

pub const AT_SYMLINK_FOLLOW: i32 = 0x400;

/// Exchanges two files.
pub const RENAME_EXCHANGE: u32 = 2;

pub const AF_UNSPEC: i32 = 0;

pub const AF_UNIX: i32 = 1;

pub const AF_INET: i32 = 2;

pub const AF_INET6: i32 = 10;

pub const AF_NETLINK: i32 = 16;

pub const AF_PACKET: i32 = 17;

pub const IPPROTO_TCP: i32 = 6;

pub const IPPROTO_UDP: i32 = 17;

pub const IPPROTO_IP: i32 = 0;

pub const IPPROTO_IPV6: i32 = 41;

pub const SOL_UDP: i32 = 17;

pub const IP_TOS: i32 = 1;

pub const IP_TTL: i32 = 2;

pub const IPV6_HOPLIMIT: i32 = 52;

pub const IPV6_TCLASS: i32 = 67;

/// The control message that sets the size of UDP segments.
pub const UDP_SEGMENT: i32 = 103;

pub const MSG_ZEROCOPY: i32 = 0x400_0000;

/// The size of `struct sockaddr_in`.
pub const SOCKADDR_IN_LEN: usize = 16;

/// The size of `struct sockaddr_in6`.
pub const SOCKADDR_IN6_LEN: usize = 28;

/// The size of `struct sockaddr_un`.
pub const SOCKADDR_UN_LEN: usize = 110;

/// The size of `struct sockaddr_storage`.
pub const SOCKADDR_STORAGE_LEN: usize = 128;

} // verus!
