//! Opening files: what the call asks for, whether the policy lets it pass, and
//! how the broker opens in its place.

use crate::broker::address::BrokerError;
use crate::broker::denials;
use crate::broker::denials::{Denial, Denials};
use crate::broker::grant::{Anchor, Grant, Handled, NotificationResult, OpenGrant, OpenKind};
use crate::broker::machine::OpenFlags;
use crate::broker::memory::{process_number, read_child_target, usize_register, MemoryRead};
use crate::broker::registers;
use crate::broker::registers::ByteOrder;
use crate::broker::syscalls::NotificationSyscalls;
use crate::bytes;
use crate::paths;
use crate::policy;
use crate::policy::{AccessPolicy, DenialReason};
use crate::sys;
use crate::text;
use crate::trap;
use crate::trap::{FilesystemDenial, ProcessContext, Trap, TrapOperation};
use vstd::prelude::*;

verus! {

/// The flags and the mode of an open.
#[derive(Clone, Copy, Debug, PartialEq, Eq, Structural)]
pub struct Open {
    pub flags: i32,
    pub mode: u32,
}

/// Where the flags of an open stand: in the registers, or in memory.
#[derive(Clone, Copy, Debug, PartialEq, Eq, Structural)]
pub enum OpenHow {
    Known(Open),
    Read(MemoryRead),
}

/// What an open was called with.
#[derive(Debug)]
pub struct OpenRequest {
    pub pid: i32,
    pub dirfd: i32,
    pub how: OpenHow,
    /// Where the path is, or `None` at null.
    pub path: Option<MemoryRead>,
    pub syscall: &'static str,
}

/// The size of `struct open_how`.
pub const OPEN_HOW_LEN: usize = 24;

/// The flags and the mode in two registers.
pub open spec fn scalar_open(flags: u64, mode: u64) -> Result<Open, BrokerError> {
    if flags > i32::MAX {
        Err(BrokerError::InvalidAddress)
    } else {
        Ok(Open { flags: flags as i32, mode: (mode % 0x1_0000_0000) as u32 })
    }
}

/// The read of `struct open_how`, of which an older and shorter one is taken
/// as it is.
pub open spec fn how_read(target: u64, size: u64) -> Result<MemoryRead, BrokerError> {
    if target > usize::MAX {
        Err(BrokerError::BadAddress)
    } else if size > usize::MAX {
        Err(BrokerError::InvalidAddress)
    } else if target == 0 {
        Err(BrokerError::BadAddress)
    } else {
        Ok(
            MemoryRead {
                base: target as usize,
                len: if size < OPEN_HOW_LEN {
                    size as usize
                } else {
                    OPEN_HOW_LEN
                },
            },
        )
    }
}

/// The flags and the mode in `struct open_how`.
pub open spec fn memory_open(order: ByteOrder, read: Seq<u8>) -> Result<Open, BrokerError> {
    let flags = registers::native(order, read.subrange(0, 8));
    let mode = registers::native(order, read.subrange(8, 16));
    if read.len() < 16 {
        Err(BrokerError::BadAddress)
    } else if flags > i32::MAX || mode > u32::MAX {
        Err(BrokerError::InvalidAddress)
    } else {
        Ok(Open { flags: flags as i32, mode: mode as u32 })
    }
}

impl Open {
    /// The flags and the mode that `open` and `openat` pass as they are.
    pub fn from_args(args: &[u64; 6], legacy_open: bool) -> (open: Result<Self, BrokerError>)
        ensures
            open == (if legacy_open {
                scalar_open(args@[1], args@[2])
            } else {
                scalar_open(args@[2], args@[3])
            }),
    {
        let (flags, mode) = if legacy_open {
            (args[1], args[2])
        } else {
            (args[2], args[3])
        };
        if flags > i32::MAX as u64 {
            return Err(BrokerError::InvalidAddress);
        }
        Ok(Open { flags: flags as i32, mode: registers::syscall_u32(mode) })
    }

    /// The flags and the mode that `openat2` passes in memory.
    pub fn from_how(order: ByteOrder, read: &[u8]) -> (open: Result<Self, BrokerError>)
        ensures
            open == memory_open(order, read@),
    {
        if read.len() < 16 {
            return Err(BrokerError::BadAddress);
        }
        let flags = registers::read_u64(order, read);
        assert(read@.take(8) =~= read@.subrange(0, 8));
        let rest = vstd::slice::slice_subrange(read, 8, 16);
        assert(rest@.take(8) =~= read@.subrange(8, 16));
        let mode = registers::read_u64(order, rest);
        if flags > i32::MAX as u64 || mode > u32::MAX as u64 {
            return Err(BrokerError::InvalidAddress);
        }
        Ok(Open { flags: flags as i32, mode: mode as u32 })
    }
}

/// Whether a request is what an open was called with.
pub open spec fn open_called(
    calls: NotificationSyscalls,
    syscall: i64,
    args: Seq<u64>,
    pid: u32,
    result: Result<OpenRequest, BrokerError>,
) -> bool {
    let legacy = calls.open == Some(syscall);
    let second = syscall == calls.openat2;
    let target = if legacy {
        args[0]
    } else {
        args[1]
    };
    let how = if second {
        match how_read(args[2], args[3]) {
            Ok(range) => Ok(OpenHow::Read(range)),
            Err(error) => Err(error),
        }
    } else {
        match if legacy {
            scalar_open(args[1], args[2])
        } else {
            scalar_open(args[2], args[3])
        } {
            Ok(open) => Ok(OpenHow::Known(open)),
            Err(error) => Err(error),
        }
    };
    if target > usize::MAX {
        result == Err::<OpenRequest, _>(BrokerError::BadAddress)
    } else if pid > i32::MAX {
        result == Err::<OpenRequest, _>(BrokerError::InvalidAddress)
    } else {
        match how {
            Err(error) => result == Err::<OpenRequest, _>(error),
            Ok(how) => {
                &&& result matches Ok(request)
                &&& request.pid == pid
                &&& request.dirfd == (if legacy {
                    sys::AT_FDCWD
                } else {
                    registers::int_register(args[0])
                })
                &&& request.how == how
                &&& request.path == (if target == 0 {
                    None
                } else {
                    Some(
                        MemoryRead { base: target as usize, len: crate::broker::memory::PATH_MAX },
                    )
                })
                &&& request.syscall@ == (if second {
                    "openat2"@
                } else if legacy {
                    "open"@
                } else {
                    "openat"@
                })
            },
        }
    }
}

/// What an open was called with. `open` takes its path first and starts from
/// the working directory, and the others take a directory before it.
pub fn open_request(
    calls: &NotificationSyscalls,
    syscall: i64,
    args: &[u64; 6],
    pid: u32,
) -> (result: Result<OpenRequest, BrokerError>)
    ensures
        open_called(*calls, syscall, args@, pid, result),
{
    let second = syscall == calls.openat2;
    let legacy = match calls.open {
        Some(open) => open == syscall,
        None => false,
    };
    let dirfd = if legacy {
        sys::AT_FDCWD
    } else {
        registers::syscall_i32(args[0])
    };
    let path = match read_child_target(
        if legacy {
            args[0]
        } else {
            args[1]
        },
    ) {
        Ok(path) => path,
        Err(error) => return Err(error),
    };
    let pid = match process_number(pid) {
        Ok(pid) => pid,
        Err(error) => return Err(error),
    };
    let how = if second {
        let base = match usize_register(args[2]) {
            Some(base) => base,
            None => return Err(BrokerError::BadAddress),
        };
        let size = match usize_register(args[3]) {
            Some(size) => size,
            None => return Err(BrokerError::InvalidAddress),
        };
        if base == 0 {
            return Err(BrokerError::BadAddress);
        }
        let len = if size < OPEN_HOW_LEN {
            size
        } else {
            OPEN_HOW_LEN
        };
        OpenHow::Read(MemoryRead { base, len })
    } else {
        match Open::from_args(args, legacy) {
            Ok(open) => OpenHow::Known(open),
            Err(error) => return Err(error),
        }
    };
    let syscall = if second {
        "openat2"
    } else if legacy {
        "open"
    } else {
        "openat"
    };
    Ok(OpenRequest { pid, dirfd, how, path, syscall })
}

/// What a path of a process starts from.
#[derive(Debug)]
pub enum PathStart {
    /// The path itself.
    Known(Vec<u8>),
    /// The working directory of the process.
    WorkingDirectory,
    /// A directory that the process holds open.
    Descriptor(i32),
}

/// The components of `/proc/self`.
pub open spec fn own_process() -> Seq<Seq<u8>> {
    paths::components(vstd::utf8::encode_utf8("/proc/self"@))
}

/// The directory of a process in `/proc`.
pub open spec fn process_directory(pid: i32) -> Seq<u8> {
    paths::joined(
        vstd::utf8::encode_utf8("/proc"@),
        vstd::utf8::encode_utf8(text::decimal(pid as nat)),
    )
}

/// Where an absolute path of a process leads: `/proc/self` is the process, not
/// the broker.
pub open spec fn seen_by(pid: i32, path: Seq<u8>) -> Seq<u8> {
    if own_process().is_prefix_of(paths::components(path)) {
        paths::joined(
            process_directory(pid),
            paths::back_text(path, own_process().len()),
        )
    } else {
        path
    }
}

/// What a path of a process starts from.
pub fn resolve_child_path(pid: i32, dirfd: i32, path: &[u8]) -> (start: PathStart)
    requires
        pid >= 0,
    ensures
        paths::is_rooted(path@) ==> (start matches PathStart::Known(whole) && whole@ == seen_by(
            pid,
            path@,
        )),
        !paths::is_rooted(path@) && dirfd == sys::AT_FDCWD ==> start is WorkingDirectory,
        !paths::is_rooted(path@) && dirfd != sys::AT_FDCWD ==> start == PathStart::Descriptor(
            dirfd,
        ),
{
    if path.len() == 0 || path[0] != paths::SLASH {
        if dirfd == sys::AT_FDCWD {
            return PathStart::WorkingDirectory;
        }
        return PathStart::Descriptor(dirfd);
    }
    if !paths::is_under(path, "/proc/self".as_bytes()) {
        return PathStart::Known(bytes::copy_bytes(path));
    }
    let own = paths::path_components("/proc/self".as_bytes());
    let suffix = paths::path_back(path, own.len());
    let dir = paths::join(
        "/proc".as_bytes(),
        text::decimal_text(pid as u64).as_str().as_bytes(),
    );
    PathStart::Known(paths::join(dir.as_slice(), suffix.as_slice()))
}

/// Whether an open changes what it opens, or may.
pub open spec fn wants_write(known: OpenFlags, flags: i32) -> bool {
    flags & (sys::O_WRONLY | sys::O_RDWR | known.create | known.truncate) != 0
}

/// Whether an open is meant to change what it opens: programs open files for
/// writing that they then only read.
pub open spec fn reports_write(known: OpenFlags, flags: i32) -> bool {
    flags & (known.create | known.truncate | known.append) != 0
}

/// Whether an open reads what it opens.
pub open spec fn wants_read(flags: i32) -> bool {
    flags & sys::O_WRONLY == 0
}

/// What the policy says of an open.
#[derive(Clone, Copy, Debug, PartialEq, Eq, Structural)]
pub enum OpenVerdict {
    /// The process opens by itself.
    Continue,
    /// The broker opens.
    Open,
    /// It is denied. Where `must_exist`, a file that is not there is reported
    /// as missing instead.
    Denied { operation: TrapOperation, reason: DenialReason, report: bool, must_exist: bool },
}

/// What the policy says of an open of a path, given where it leads and how it
/// is written. A descriptor that gives no access to the file passes, since it
/// cannot be handed over.
pub open spec fn open_verdict(
    policy: AccessPolicy,
    known: OpenFlags,
    flags: i32,
    resolved: Seq<u8>,
    lexical: Seq<u8>,
) -> OpenVerdict {
    let write = policy::write_decision(policy, resolved, lexical, true);
    let read = policy::read_decision(policy, resolved);
    if wants_write(known, flags) && write is Some {
        OpenVerdict::Denied {
            operation: TrapOperation::Write,
            reason: write->0,
            report: reports_write(known, flags),
            must_exist: flags & known.create == 0,
        }
    } else if wants_read(flags) && read is Some {
        OpenVerdict::Denied {
            operation: TrapOperation::Read,
            reason: read->0,
            report: true,
            must_exist: true,
        }
    } else if flags & known.path != 0 {
        OpenVerdict::Continue
    } else {
        OpenVerdict::Open
    }
}

/// What the policy says of an open of a path, given where it leads and how it
/// is written.
pub fn handle_openat(
    policy: &AccessPolicy,
    known: &OpenFlags,
    flags: i32,
    resolved: &[u8],
    lexical: &[u8],
) -> (verdict: OpenVerdict)
    ensures
        verdict == open_verdict(*policy, *known, flags, resolved@, lexical@),
{
    if flags & (sys::O_WRONLY | sys::O_RDWR | known.create | known.truncate) != 0 {
        if let Some(reason) = policy.write_reason(resolved, lexical, true) {
            return OpenVerdict::Denied {
                operation: TrapOperation::Write,
                reason,
                report: flags & (known.create | known.truncate | known.append) != 0,
                must_exist: flags & known.create == 0,
            };
        }
    }
    if flags & sys::O_WRONLY == 0 {
        if let Some(reason) = policy.read_reason(resolved) {
            return OpenVerdict::Denied {
                operation: TrapOperation::Read,
                reason,
                report: true,
                must_exist: true,
            };
        }
    }
    if flags & known.path != 0 {
        return OpenVerdict::Continue;
    }
    OpenVerdict::Open
}

/// What a denied open comes to before it is told: a file that is not there is
/// missing, whatever the policy says of it.
pub fn check_exists(must_exist: bool, exists: Result<bool, BrokerError>) -> (result: Result<
    (),
    BrokerError,
>)
    ensures
        !must_exist ==> result == Ok::<(), BrokerError>(()),
        must_exist ==> result == (match exists {
            Ok(true) => Ok::<(), BrokerError>(()),
            Ok(false) => Err(BrokerError::SystemCall { errno: sys::ENOENT }),
            Err(error) => Err(error),
        }),
{
    if !must_exist {
        return Ok(());
    }
    match exists {
        Ok(found) => if found {
            Ok(())
        } else {
            Err(BrokerError::SystemCall { errno: sys::ENOENT })
        },
        Err(error) => Err(error),
    }
}

/// The access mode and the creating flags of an open by name.
pub open spec fn flag_texts(known: OpenFlags, flags: i32) -> Seq<Seq<char>> {
    seq![
        if flags & known.access_mode == sys::O_WRONLY {
            "O_WRONLY"@
        } else if flags & known.access_mode == sys::O_RDWR {
            "O_RDWR"@
        } else {
            "O_RDONLY"@
        },
    ] + (if flags & known.create != 0 {
        seq!["O_CREAT"@]
    } else {
        Seq::empty()
    }) + (if flags & known.truncate != 0 {
        seq!["O_TRUNC"@]
    } else {
        Seq::empty()
    }) + (if flags & known.append != 0 {
        seq!["O_APPEND"@]
    } else {
        Seq::empty()
    })
}

/// The access mode and the creating flags of an open by name.
pub fn open_flag_names(known: &OpenFlags, flags: i32) -> (names: Vec<&'static str>)
    ensures
        trap::str_texts(names@) == flag_texts(*known, flags),
{
    let mut names: Vec<&'static str> = Vec::new();
    if flags & known.access_mode == sys::O_WRONLY {
        names.push("O_WRONLY");
    } else if flags & known.access_mode == sys::O_RDWR {
        names.push("O_RDWR");
    } else {
        names.push("O_RDONLY");
    }
    if flags & known.create != 0 {
        names.push("O_CREAT");
    }
    if flags & known.truncate != 0 {
        names.push("O_TRUNC");
    }
    if flags & known.append != 0 {
        names.push("O_APPEND");
    }
    assert(trap::str_texts(names@) =~= flag_texts(*known, flags));
    names
}

/// The flags with which a file that is held is opened again: it is there, so
/// it is not created, and it is no longer reached through a link.
pub open spec fn reopened(known: OpenFlags, flags: i32) -> i32 {
    (flags & !(known.create | known.exclusive | known.no_follow)) | known.close_on_exec
}

/// The flags with which a file is created in a directory that is held, never
/// through a link.
pub open spec fn created(known: OpenFlags, flags: i32) -> i32 {
    flags | known.no_follow | known.close_on_exec
}

/// The flags with which a file that is held is opened again.
pub fn reopen_bits(known: &OpenFlags, flags: i32) -> (bits: i32)
    ensures
        bits == reopened(*known, flags),
{
    (flags & !(known.create | known.exclusive | known.no_follow)) | known.close_on_exec
}

/// The flags with which a file is created in a directory that is held.
pub fn create_bits(known: &OpenFlags, flags: i32) -> (bits: i32)
    ensures
        bits == created(*known, flags),
{
    flags | known.no_follow | known.close_on_exec
}

/// The flags with which the broker opens: again what it holds, or anew in the
/// directory that it holds.
pub fn broker_open<H>(known: &OpenFlags, grant: &OpenGrant<H>) -> (bits: i32)
    ensures
        bits == (match grant.kind {
            OpenKind::Reopen(_) => reopened(*known, grant.flags),
            OpenKind::Create { .. } => created(*known, grant.flags),
        }),
{
    match &grant.kind {
        OpenKind::Reopen(_) => reopen_bits(known, grant.flags),
        OpenKind::Create { .. } => create_bits(known, grant.flags),
    }
}

/// The flags of the descriptor that a process gets for an open: it is closed
/// when the process starts another program, if the process asked for that.
pub fn grant_open<H>(known: &OpenFlags, grant: &OpenGrant<H>) -> (flags: u32)
    ensures
        flags == (if grant.flags & known.close_on_exec != 0 {
            known.close_on_exec as u32
        } else {
            0
        }),
{
    if grant.flags & known.close_on_exec != 0 {
        known.close_on_exec as u32
    } else {
        0
    }
}

/// A denied open.
#[derive(Debug)]
pub struct OpenDenial {
    pub operation: TrapOperation,
    pub path: Vec<u8>,
    pub requested_path: Vec<u8>,
    pub syscall: &'static str,
    pub flags: i32,
    pub reason: DenialReason,
    pub report: bool,
}

/// Whether a denial tells of a denied open.
pub open spec fn describes(
    known: OpenFlags,
    denial: FilesystemDenial,
    details: OpenDenial,
    process: ProcessContext,
) -> bool {
    &&& denial.operation == details.operation
    &&& denial.path == details.path
    &&& denial.requested_path == details.requested_path
    &&& denial.syscall == details.syscall
    &&& trap::str_texts(denial.flags@) == flag_texts(known, details.flags)
    &&& denial.reason == details.reason
    &&& denial.process == process
}

/// Whether a question is about a denied open.
pub open spec fn asks_for(
    known: OpenFlags,
    question: Trap,
    details: OpenDenial,
    process: ProcessContext,
    query_id: u64,
) -> bool {
    &&& question matches Trap::Filesystem(record)
    &&& exists|denial: FilesystemDenial|
        describes(known, denial, details, process) && #[trigger] trap::reports_denial(
            record,
            denial,
            Some(query_id),
        )
}

/// What a denied open comes to: nothing but a refusal where it is not told, a
/// question where the launcher can be asked, and otherwise a record and a
/// refusal. `grant` is what is opened on approval, and where it could not be
/// pinned the open fails as that did.
pub fn deny_open<H>(
    known: &OpenFlags,
    details: OpenDenial,
    process: ProcessContext,
    grant: Option<Result<OpenGrant<H>, i32>>,
    denials: &mut Denials,
    query_enabled: bool,
    next_query_id: &mut u64,
) -> (result: Handled<H>)
    requires
        *old(next_query_id) < u64::MAX,
        details.report && query_enabled ==> grant is Some,
    ensures
        !details.report ==> result == Err::<NotificationResult<H>, _>(BrokerError::PolicyDenied)
            && *final(next_query_id) == *old(next_query_id) && final(denials).pending@ == old(
            denials,
        ).pending@,
        details.report && query_enabled ==> *final(next_query_id) == *old(next_query_id) + 1
            && final(denials).pending@ == old(denials).pending@ && match grant->0 {
            Err(errno) => result == Err::<NotificationResult<H>, _>(
                BrokerError::SystemCall { errno },
            ),
            Ok(opened) => result matches Ok(NotificationResult::Query(decision))
                && decision.query_id == *old(next_query_id) && decision.grant == Some(
                Grant::Open(opened),
            ) && asks_for(*known, decision.trap, details, process, decision.query_id),
        },
        details.report && !query_enabled ==> result == Err::<NotificationResult<H>, _>(
            BrokerError::PolicyDenied,
        ) && *final(next_query_id) == *old(next_query_id) && exists|denial: FilesystemDenial|
            describes(*known, denial, details, process) && final(denials).pending@
                == #[trigger] denials::recorded(old(denials).pending@, Denial::Filesystem(denial)),
        denials::no_repeats(old(denials).pending@) ==> denials::no_repeats(final(denials).pending@),
{
    if !details.report {
        return Err(BrokerError::PolicyDenied);
    }
    let denial = FilesystemDenial {
        operation: details.operation,
        path: details.path,
        requested_path: details.requested_path,
        syscall: details.syscall,
        flags: open_flag_names(known, details.flags),
        reason: details.reason,
        process,
    };
    assert(describes(*known, denial, details, process));
    if query_enabled {
        let query_id: u64 = *next_query_id;
        *next_query_id = query_id + 1;
        return match grant {
            Some(Ok(opened)) => Ok(
                NotificationResult::query(
                    query_id,
                    Trap::filesystem(denial, Some(query_id)),
                    Some(Grant::Open(opened)),
                ),
            ),
            Some(Err(errno)) => Err(BrokerError::SystemCall { errno }),
            None => Err(BrokerError::PolicyDenied),
        };
    }
    denials.record(Denial::Filesystem(denial));
    Err(BrokerError::PolicyDenied)
}

/// Whether bytes can be handed to the kernel as a string.
pub fn is_c_string(bytes: &[u8]) -> (yes: bool)
    ensures
        yes == !bytes@.contains(0),
{
    let at = bytes::find_byte(bytes, 0, 0);
    proof {
        if at < bytes@.len() {
            assert(bytes@[at as int] == 0);
        } else {
            assert forall|i: int| 0 <= i < bytes@.len() implies bytes@[i] != 0 by {}
        }
    }
    at == bytes.len()
}

/// The directory and the name by which a path is reached.
pub open spec fn anchored(path: Seq<u8>) -> Result<(Seq<u8>, Seq<u8>), i32> {
    if !paths::has_parent(path) || !paths::has_file_name(path) || paths::components(
        path,
    ).last().contains(0) {
        Err(sys::EINVAL)
    } else {
        Ok(
            (paths::parent_text(path), paths::components(path).last()),
        )
    }
}

/// The directory and the name by which a path is reached, so that the
/// directory can be held open.
pub fn anchor_parts(path: &[u8]) -> (parts: Result<(Vec<u8>, Vec<u8>), i32>)
    ensures
        match anchored(path@) {
            Ok(found) => parts matches Ok((dir, name)) && dir@ == found.0 && name@ == found.1,
            Err(errno) => parts == Err::<(Vec<u8>, Vec<u8>), _>(errno),
        },
{
    let dir = match paths::parent(path) {
        Some(dir) => dir,
        None => return Err(sys::EINVAL),
    };
    let name = match paths::file_name(path) {
        Some(name) => name,
        None => return Err(sys::EINVAL),
    };
    if !is_c_string(name.as_slice()) {
        return Err(sys::EINVAL);
    }
    Ok((dir, name))
}

/// How a file is pinned before it is opened for a process.
pub enum OpenPin<H> {
    /// It is there: it is opened again.
    Ready(OpenGrant<H>),
    /// It is not there: its directory has to be held.
    NeedsAnchor,
    /// It cannot be pinned.
    Failed(i32),
}

impl<H> OpenGrant<H> {
    /// How a file is pinned, given what came of holding it.
    pub fn pin(flags: i32, held: Result<H, i32>) -> (pin: OpenPin<H>)
        ensures
            match held {
                Ok(handle) => pin == OpenPin::Ready(
                    OpenGrant { flags, kind: OpenKind::Reopen(handle) },
                ),
                Err(errno) => if errno == sys::ENOENT {
                    pin is NeedsAnchor
                } else {
                    pin == OpenPin::<H>::Failed(errno)
                },
            },
    {
        match held {
            Ok(handle) => OpenPin::Ready(OpenGrant { flags, kind: OpenKind::Reopen(handle) }),
            Err(errno) => if errno == sys::ENOENT {
                OpenPin::NeedsAnchor
            } else {
                OpenPin::Failed(errno)
            },
        }
    }

    /// A file that is created in a directory that is held.
    pub fn create(flags: i32, anchor: Anchor<H>, mode: u32) -> (grant: Self)
        ensures
            grant == (OpenGrant { flags, kind: OpenKind::Create { anchor, mode } }),
    {
        OpenGrant { flags, kind: OpenKind::Create { anchor, mode } }
    }
}

/// What a policy denies is never opened: neither written nor read, by the
/// process or by the broker.
pub proof fn law_denied_open_is_never_performed(
    policy: AccessPolicy,
    known: OpenFlags,
    flags: i32,
    resolved: Seq<u8>,
    lexical: Seq<u8>,
)
    requires
        (wants_write(known, flags) && policy::write_decision(policy, resolved, lexical, true) is Some) || (
        wants_read(flags) && policy::read_decision(policy, resolved) is Some),
    ensures
        open_verdict(policy, known, flags, resolved, lexical) is Denied,
{
}

/// Every open writes or reads, so nothing passes unless one of the two was
/// asked of the policy.
pub proof fn law_every_open_is_checked(known: OpenFlags, flags: i32)
    ensures
        wants_write(known, flags) || wants_read(flags),
{
    let create = known.create;
    let truncate = known.truncate;
    assert(flags & (1i32 | 2i32 | create | truncate) != 0 || flags & 1i32 == 0) by (bit_vector);
}

/// A file that is opened again is not created where that flag stands apart from
/// the one for closing. It keeps its access mode, as far as the flags that are
/// put in and taken out stand apart from it. One that is created is never
/// reached through a link. No descriptor is left to other programs.
pub proof fn law_broker_opens_what_was_checked(known: OpenFlags, flags: i32)
    ensures
        known.create & known.close_on_exec == 0 ==> reopened(known, flags) & known.create == 0,
        known.access_mode & (known.create | known.exclusive | known.no_follow
            | known.close_on_exec) == 0 ==> reopened(known, flags) & known.access_mode == flags
            & known.access_mode,
        reopened(known, flags) & known.close_on_exec == known.close_on_exec,
        created(known, flags) & known.no_follow == known.no_follow,
        created(known, flags) & known.close_on_exec == known.close_on_exec,
{
    let create = known.create;
    let exclusive = known.exclusive;
    let no_follow = known.no_follow;
    let close = known.close_on_exec;
    let mode = known.access_mode;
    assert(create & close == 0 ==> ((flags & !(create | exclusive | no_follow)) | close) & create
        == 0) by (bit_vector);
    assert(mode & (create | exclusive | no_follow | close) == 0 ==> ((flags & !(create | exclusive
        | no_follow)) | close) & mode == flags & mode) by (bit_vector);
    assert(((flags & !(create | exclusive | no_follow)) | close) & close == close)
        by (bit_vector);
    assert((flags | no_follow | close) & no_follow == no_follow) by (bit_vector);
    assert((flags | no_follow | close) & close == close) by (bit_vector);
}

/// Each flag that lets an open change what it opens counts by itself: where
/// writing is denied, an open that writes, reads and writes, creates or empties
/// is denied as a write. It is told where it creates, empties or appends, and
/// has to find its file unless it creates.
pub proof fn law_each_write_flag_is_checked(
    policy: AccessPolicy,
    known: OpenFlags,
    flags: i32,
    resolved: Seq<u8>,
    lexical: Seq<u8>,
    denied: DenialReason,
)
    requires
        flags & sys::O_WRONLY != 0 || flags & sys::O_RDWR != 0 || flags & known.create != 0 || flags
            & known.truncate != 0,
        policy::write_decision(policy, resolved, lexical, true) == Some(denied),
    ensures
        open_verdict(policy, known, flags, resolved, lexical) == (OpenVerdict::Denied {
            operation: TrapOperation::Write,
            reason: denied,
            report: flags & known.create != 0 || flags & known.truncate != 0 || flags & known.append
                != 0,
            must_exist: flags & known.create == 0,
        }),
{
    let create = known.create;
    let truncate = known.truncate;
    let append = known.append;
    assert(flags & 1i32 != 0 || flags & 2i32 != 0 || flags & create != 0 || flags & truncate != 0
        ==> flags & (1i32 | 2i32 | create | truncate) != 0) by (bit_vector);
    assert(flags & (create | truncate | append) != 0 <==> flags & create != 0 || flags & truncate
        != 0 || flags & append != 0) by (bit_vector);
}

/// An open that asks for writing alone does not read. Every other open reads,
/// and is denied as a read where reading is denied and writing did not deny it
/// before.
pub proof fn law_each_reading_open_is_checked(
    policy: AccessPolicy,
    known: OpenFlags,
    flags: i32,
    resolved: Seq<u8>,
    lexical: Seq<u8>,
    denied: DenialReason,
)
    requires
        flags & sys::O_WRONLY == 0,
        policy::read_decision(policy, resolved) == Some(denied),
        policy::write_decision(policy, resolved, lexical, true) is None || (flags & sys::O_RDWR == 0
            && flags & known.create == 0 && flags & known.truncate == 0),
    ensures
        open_verdict(policy, known, flags, resolved, lexical) == (OpenVerdict::Denied {
            operation: TrapOperation::Read,
            reason: denied,
            report: true,
            must_exist: true,
        }),
{
    let create = known.create;
    let truncate = known.truncate;
    assert(flags & 1i32 == 0 && flags & 2i32 == 0 && flags & create == 0 && flags & truncate == 0
        ==> flags & (1i32 | 2i32 | create | truncate) == 0) by (bit_vector);
}

/// What is neither written nor read against the policy passes: the broker opens
/// it, but for a descriptor that gives no access to the file.
pub proof fn law_allowed_open_passes(
    policy: AccessPolicy,
    known: OpenFlags,
    flags: i32,
    resolved: Seq<u8>,
    lexical: Seq<u8>,
)
    requires
        policy::write_decision(policy, resolved, lexical, true) is None || (flags & sys::O_WRONLY
            == 0 && flags & sys::O_RDWR == 0 && flags & known.create == 0 && flags & known.truncate
            == 0),
        policy::read_decision(policy, resolved) is None || flags & sys::O_WRONLY != 0,
    ensures
        open_verdict(policy, known, flags, resolved, lexical) == (if flags & known.path != 0 {
            OpenVerdict::Continue
        } else {
            OpenVerdict::Open
        }),
{
    let create = known.create;
    let truncate = known.truncate;
    assert(flags & 1i32 == 0 && flags & 2i32 == 0 && flags & create == 0 && flags & truncate == 0
        ==> flags & (1i32 | 2i32 | create | truncate) == 0) by (bit_vector);
}

/// The names of an open's flags are one for its access mode, and one for each
/// of the flags that create, empty and append.
pub proof fn law_flag_names_tell_the_flags(known: OpenFlags, flags: i32)
    ensures
        flag_texts(known, flags).contains("O_CREAT"@) <==> flags & known.create != 0,
        flag_texts(known, flags).contains("O_TRUNC"@) <==> flags & known.truncate != 0,
        flag_texts(known, flags).contains("O_APPEND"@) <==> flags & known.append != 0,
        flag_texts(known, flags).contains("O_WRONLY"@) <==> flags & known.access_mode
            == sys::O_WRONLY,
        flag_texts(known, flags).contains("O_RDWR"@) <==> flags & known.access_mode == sys::O_RDWR,
        flag_texts(known, flags).contains("O_RDONLY"@) <==> flags & known.access_mode
            != sys::O_WRONLY && flags & known.access_mode != sys::O_RDWR,
{
    let texts = flag_texts(known, flags);
    let mode = flags & known.access_mode;
    reveal_strlit("O_CREAT");
    reveal_strlit("O_TRUNC");
    reveal_strlit("O_APPEND");
    reveal_strlit("O_WRONLY");
    reveal_strlit("O_RDWR");
    reveal_strlit("O_RDONLY");
    assert("O_CREAT"@[2] == 'C' && "O_TRUNC"@[2] == 'T' && "O_APPEND"@[2] == 'A');
    assert("O_WRONLY"@[2] == 'W' && "O_RDWR"@[2] == 'R' && "O_RDONLY"@[2] == 'R');
    assert("O_RDWR"@.len() == 6 && "O_RDONLY"@.len() == 8);
    let first = texts[0];
    let created = flags & known.create != 0;
    let emptied = flags & known.truncate != 0;
    let appended = flags & known.append != 0;
    let second: int = 1;
    let third: int = if created {
        2
    } else {
        1
    };
    let fourth: int = third + (if emptied {
        1int
    } else {
        0int
    });
    assert(created ==> texts[second] == "O_CREAT"@);
    assert(emptied ==> texts[third] == "O_TRUNC"@);
    assert(appended ==> texts[fourth] == "O_APPEND"@);
    assert(texts.len() == fourth + (if appended {
        1int
    } else {
        0int
    }));
    assert(texts[0] == first);
}

/// Each open says where its path is, where it starts and how it opens: `open` in
/// its first registers and from the working directory, `openat` behind a
/// directory, and `openat2` in memory.
pub proof fn law_each_open_says_what_it_opens(
    calls: NotificationSyscalls,
    syscall: i64,
    args: Seq<u64>,
    pid: u32,
    result: Result<OpenRequest, BrokerError>,
)
    requires
        args.len() == 6,
        open_called(calls, syscall, args, pid, result),
        pid <= i32::MAX,
        forall|i: int| 0 <= i < 6 ==> #[trigger] args[i] <= 0x7fff_ffff,
    ensures
        calls.open == Some(syscall) && syscall != calls.openat2 ==> (result matches Ok(request)
            && request.pid == pid && request.dirfd == -100 && request.how == OpenHow::Known(
            Open { flags: args[1] as i32, mode: args[2] as u32 },
        ) && request.syscall@ == "open"@ && request.path == (if args[0] == 0 {
            None
        } else {
            Some(MemoryRead { base: args[0] as usize, len: 4096 })
        })),
        calls.open != Some(syscall) && syscall != calls.openat2 ==> (result matches Ok(request)
            && request.pid == pid && request.dirfd == args[0] && request.how == OpenHow::Known(
            Open { flags: args[2] as i32, mode: args[3] as u32 },
        ) && request.syscall@ == "openat"@ && request.path == (if args[1] == 0 {
            None
        } else {
            Some(MemoryRead { base: args[1] as usize, len: 4096 })
        })),
        calls.open != Some(syscall) && syscall == calls.openat2 && args[2] != 0 ==> (
        result matches Ok(request) && request.pid == pid && request.dirfd == args[0] && request.how
            == OpenHow::Read(
            MemoryRead {
                base: args[2] as usize,
                len: if args[3] < 24 {
                    args[3] as usize
                } else {
                    24
                },
            },
        ) && request.syscall@ == "openat2"@ && request.path == (if args[1] == 0 {
            None
        } else {
            Some(MemoryRead { base: args[1] as usize, len: 4096 })
        })),
        calls.open != Some(syscall) && syscall == calls.openat2 && args[2] == 0 ==> result == Err::<
            OpenRequest,
            _,
        >(BrokerError::BadAddress),
{
    assert(usize::MAX >= 0xffff_ffff);
    assert(args[0] <= 0x7fff_ffff && args[1] <= 0x7fff_ffff && args[2] <= 0x7fff_ffff && args[3]
        <= 0x7fff_ffff);
    registers::law_int_registers_keep_their_sign(args[0]);
}

/// Flags that are no flags and modes that are no modes are refused. What
/// `openat2` opens with stands in memory as two integers of eight bytes.
pub proof fn law_open_flags_are_read_whole(order: ByteOrder, read: Seq<u8>, flags: u64, mode: u64)
    ensures
        flags > 0x7fff_ffff ==> scalar_open(flags, mode) == Err::<Open, _>(
            BrokerError::InvalidAddress,
        ),
        flags <= 0x7fff_ffff && mode <= 0xffff_ffff ==> scalar_open(flags, mode) == Ok::<
            _,
            BrokerError,
        >(Open { flags: flags as i32, mode: mode as u32 }),
        read.len() < 16 ==> memory_open(order, read) == Err::<Open, _>(BrokerError::BadAddress),
        read.len() >= 16 && registers::native(order, read.subrange(0, 8)) == flags
            && registers::native(order, read.subrange(8, 16)) == mode ==> memory_open(order, read)
            == (if flags > 0x7fff_ffff || mode > 0xffff_ffff {
            Err::<Open, _>(BrokerError::InvalidAddress)
        } else {
            Ok(Open { flags: flags as i32, mode: mode as u32 })
        }),
{
}

/// Below `/proc/self` a process sees itself: the path leads to the directory of
/// the process, with what follows as it is. Every other path is its own.
pub proof fn law_own_paths_lead_to_the_process(pid: i32, path: Seq<u8>)
    requires
        pid >= 0,
    ensures
        ({
            let own = paths::components(vstd::utf8::encode_utf8("/proc/self"@));
            let parts = paths::components(path);
            &&& !paths::under(path, vstd::utf8::encode_utf8("/proc/self"@)) ==> seen_by(pid, path)
                == path
            &&& paths::under(path, vstd::utf8::encode_utf8("/proc/self"@)) ==> seen_by(pid, path)
                == paths::joined(
                paths::joined(
                    vstd::utf8::encode_utf8("/proc"@),
                    vstd::utf8::encode_utf8(text::decimal(pid as nat)),
                ),
                paths::back_text(path, own.len()),
            )
        }),
{
}

/// A file is reached by its name in the directory that holds it. The root, a
/// path that ends in dots, and a name that the kernel could not be told are not
/// reached that way.
pub proof fn law_files_are_reached_by_their_names(directory: Seq<u8>, name: Seq<u8>)
    requires
        directory.len() > 0,
        name.len() > 0,
        forall|i: int| 0 <= i < name.len() ==> name[i] != 0x2f,
        name != seq![0x2eu8],
    ensures
        name != seq![0x2eu8, 0x2eu8] && !name.contains(0) ==> (anchored(
            directory + seq![0x2fu8] + name,
        ) matches Ok((held, last)) && last == name && paths::same_path(held, directory)),
        name == seq![0x2eu8, 0x2eu8] || name.contains(0) ==> anchored(
            directory + seq![0x2fu8] + name,
        ) == Err::<(Seq<u8>, Seq<u8>), _>(22i32),
        anchored(seq![0x2fu8]) == Err::<(Seq<u8>, Seq<u8>), _>(22i32),
{
    let whole = directory + seq![0x2fu8] + name;
    let slash = seq![paths::SLASH];
    paths::law_a_name_is_one_more_component(directory, name);
    let all = paths::components(directory);
    assert(paths::components(whole).last() == name);
    assert(slash[0] == paths::SLASH && seq![paths::DOT][0] == paths::DOT);
    assert(seq![slash].last() == slash);
    paths::lemma_front_text(whole, all.len());
    assert(all.push(name).take(all.len() as int) =~= all);
}

/// Apart from the flags that are put in or taken out, the broker opens with the
/// flags that it was asked to open with.
pub proof fn law_broker_keeps_the_other_flags(known: OpenFlags, flags: i32, other: i32)
    requires
        other & (known.create | known.exclusive | known.no_follow | known.close_on_exec) == 0,
    ensures
        reopened(known, flags) & other == flags & other,
        created(known, flags) & other == flags & other,
        created(known, flags) & flags == flags,
{
    let create = known.create;
    let exclusive = known.exclusive;
    let no_follow = known.no_follow;
    let close = known.close_on_exec;
    assert(other & (create | exclusive | no_follow | close) == 0 ==> ((flags & !(create | exclusive
        | no_follow)) | close) & other == flags & other && (flags | no_follow | close) & other
        == flags & other) by (bit_vector);
    assert((flags | no_follow | close) & flags == flags) by (bit_vector);
}

/// A denied open is told with the file that it led to, the path as the process
/// wrote it, its call, its flags by name and why it is denied.
pub proof fn law_denied_opens_are_told_as_they_were(
    known: OpenFlags,
    question: Trap,
    details: OpenDenial,
    process: ProcessContext,
    query_id: u64,
)
    requires
        asks_for(known, question, details, process, query_id),
    ensures
        question is Filesystem,
        question->Filesystem_0.operation == details.operation,
        question->Filesystem_0.path@ == text::shown(details.path@),
        question->Filesystem_0.requested_path@ == text::shown(details.requested_path@),
        question->Filesystem_0.syscall == details.syscall,
        question->Filesystem_0.reason == details.reason,
        question->Filesystem_0.process == process,
        question->Filesystem_0.query_id@ == text::decimal(query_id as nat),
        trap::str_texts(question->Filesystem_0.flags@) == flag_texts(known, details.flags),
{
    let record = question->Filesystem_0;
    let denial = choose|denial: FilesystemDenial|
        describes(known, denial, details, process) && #[trigger] trap::reports_denial(
            record,
            denial,
            Some(query_id),
        );
    trap::law_records_tell_the_denied_access(record, denial, Some(query_id));
}

} // verus!
