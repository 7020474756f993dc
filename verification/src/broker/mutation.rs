//! Changes to the filesystem: what a call would change, whether the policy
//! lets it pass, and how the broker changes it in its place.

use crate::broker::address::BrokerError;
use crate::broker::denials;
use crate::broker::denials::{Denial, Denials};
use crate::broker::grant::{Anchor, FileTimes, Grant, Handled, MutationGrant, MutationOp};
use crate::broker::grant::NotificationResult;
use crate::broker::machine::{OpenFlags, TimeLayout};
use crate::broker::memory;
use crate::broker::memory::{process_number, read_child_bytes, read_child_target, usize_register};
use crate::broker::memory::MemoryRead;
use crate::broker::registers;
use crate::bytes;
use crate::paths;
use crate::policy;
use crate::policy::{AccessPolicy, DenialReason, ReadAccess};
use crate::sys;
use crate::trap;
use crate::trap::{FilesystemDenial, ProcessContext, Trap, TrapOperation};
use vstd::prelude::*;

verus! {

/// The calls that change the filesystem by path.
#[derive(Clone, Copy, Debug, PartialEq, Eq, Hash, Structural)]
pub enum MutationSyscall {
    Renameat2,
    Renameat,
    Linkat,
    Symlinkat,
    Unlinkat,
    Mkdirat,
    Mknodat,
    Truncate,
    Fchmodat,
    Fchmodat2,
    Fchownat,
    Utimensat,
    Setxattr,
    Lsetxattr,
    Removexattr,
    Lremovexattr,
    Rename,
    Link,
    Symlink,
    Unlink,
    Rmdir,
    Mkdir,
    Mknod,
    Creat,
    Chmod,
    Chown,
    Lchown,
}

/// The number of a call on this machine.
#[derive(Clone, Copy, Debug, PartialEq, Eq, Structural)]
pub struct MutationNumber {
    pub nr: i64,
    pub kind: MutationSyscall,
}

/// The name of a call.
pub open spec fn kind_text(kind: MutationSyscall) -> Seq<char> {
    match kind {
        MutationSyscall::Renameat2 => "renameat2"@,
        MutationSyscall::Renameat => "renameat"@,
        MutationSyscall::Linkat => "linkat"@,
        MutationSyscall::Symlinkat => "symlinkat"@,
        MutationSyscall::Unlinkat => "unlinkat"@,
        MutationSyscall::Mkdirat => "mkdirat"@,
        MutationSyscall::Mknodat => "mknodat"@,
        MutationSyscall::Truncate => "truncate"@,
        MutationSyscall::Fchmodat => "fchmodat"@,
        MutationSyscall::Fchmodat2 => "fchmodat2"@,
        MutationSyscall::Fchownat => "fchownat"@,
        MutationSyscall::Utimensat => "utimensat"@,
        MutationSyscall::Setxattr => "setxattr"@,
        MutationSyscall::Lsetxattr => "lsetxattr"@,
        MutationSyscall::Removexattr => "removexattr"@,
        MutationSyscall::Lremovexattr => "lremovexattr"@,
        MutationSyscall::Rename => "rename"@,
        MutationSyscall::Link => "link"@,
        MutationSyscall::Symlink => "symlink"@,
        MutationSyscall::Unlink => "unlink"@,
        MutationSyscall::Rmdir => "rmdir"@,
        MutationSyscall::Mkdir => "mkdir"@,
        MutationSyscall::Mknod => "mknod"@,
        MutationSyscall::Creat => "creat"@,
        MutationSyscall::Chmod => "chmod"@,
        MutationSyscall::Chown => "chown"@,
        MutationSyscall::Lchown => "lchown"@,
    }
}

/// The call with a number, if it changes the filesystem.
pub open spec fn kind_of(numbers: Seq<MutationNumber>, syscall: i64) -> Option<MutationSyscall>
    decreases numbers.len(),
{
    if numbers.len() == 0 {
        None
    } else if numbers[0].nr == syscall {
        Some(numbers[0].kind)
    } else {
        kind_of(numbers.skip(1), syscall)
    }
}

/// The call with a number, if it changes the filesystem.
pub fn mutation_kind(numbers: &[MutationNumber], syscall: i64) -> (kind: Option<MutationSyscall>)
    ensures
        kind == kind_of(numbers@, syscall),
{
    let mut at: usize = 0;
    assert(numbers@.skip(0) =~= numbers@);
    while at < numbers.len()
        invariant
            at <= numbers@.len(),
            kind_of(numbers@, syscall) == kind_of(numbers@.skip(at as int), syscall),
        decreases numbers.len() - at,
    {
        if numbers[at].nr == syscall {
            return Some(numbers[at].kind);
        }
        assert(numbers@.skip(at as int).skip(1) =~= numbers@.skip(at + 1));
        at += 1;
    }
    None
}

/// The registers of a path of a call: that of its directory, if it has one,
/// and that of the path.
pub type PathRegisters = (Option<usize>, usize);

/// The registers of each path of a call.
pub open spec fn path_registers(kind: MutationSyscall) -> Seq<PathRegisters> {
    match kind {
        MutationSyscall::Renameat2 | MutationSyscall::Renameat | MutationSyscall::Linkat => seq![
            (Some(0usize), 1usize),
            (Some(2usize), 3usize),
        ],
        MutationSyscall::Symlinkat => seq![(Some(1usize), 2usize)],
        MutationSyscall::Unlinkat
        | MutationSyscall::Mkdirat
        | MutationSyscall::Mknodat
        | MutationSyscall::Fchmodat
        | MutationSyscall::Fchmodat2
        | MutationSyscall::Fchownat
        | MutationSyscall::Utimensat => seq![(Some(0usize), 1usize)],
        MutationSyscall::Rename | MutationSyscall::Link => seq![(None, 0usize), (None, 1usize)],
        MutationSyscall::Symlink => seq![(None, 1usize)],
        _ => seq![(None, 0usize)],
    }
}

/// Whether the sandbox itself holds the call to the write roots.
pub open spec fn is_landlock_backed(kind: MutationSyscall) -> bool {
    match kind {
        MutationSyscall::Fchmodat
        | MutationSyscall::Fchmodat2
        | MutationSyscall::Fchownat
        | MutationSyscall::Utimensat
        | MutationSyscall::Setxattr
        | MutationSyscall::Lsetxattr
        | MutationSyscall::Removexattr
        | MutationSyscall::Lremovexattr
        | MutationSyscall::Chmod
        | MutationSyscall::Chown
        | MutationSyscall::Lchown => false,
        _ => true,
    }
}

/// Whether a call gives a file another name.
pub open spec fn reparents(kind: MutationSyscall) -> bool {
    match kind {
        MutationSyscall::Link
        | MutationSyscall::Linkat
        | MutationSyscall::Rename
        | MutationSyscall::Renameat
        | MutationSyscall::Renameat2 => true,
        _ => false,
    }
}

/// Whether a call makes a directory.
pub open spec fn makes_directory(kind: MutationSyscall) -> bool {
    kind == MutationSyscall::Mkdir || kind == MutationSyscall::Mkdirat
}

/// Whether a call is about a link itself, not what it leads to: always, or
/// where its flags say so. `linkat` follows links only where its flags say so.
pub open spec fn spares_links(kind: MutationSyscall, args: Seq<u64>) -> bool {
    match kind {
        MutationSyscall::Unlink
        | MutationSyscall::Unlinkat
        | MutationSyscall::Rmdir
        | MutationSyscall::Lchown
        | MutationSyscall::Lsetxattr
        | MutationSyscall::Lremovexattr
        | MutationSyscall::Link => true,
        MutationSyscall::Fchownat => registers::int_register(args[4]) & sys::AT_SYMLINK_NOFOLLOW
            != 0,
        MutationSyscall::Fchmodat
        | MutationSyscall::Fchmodat2
        | MutationSyscall::Utimensat => registers::int_register(args[3]) & sys::AT_SYMLINK_NOFOLLOW
            != 0,
        MutationSyscall::Linkat => registers::int_register(args[4]) & sys::AT_SYMLINK_FOLLOW == 0,
        _ => false,
    }
}

impl MutationSyscall {
    /// The name of the call.
    pub fn name(self) -> (name: &'static str)
        ensures
            name@ == kind_text(self),
    {
        match self {
            MutationSyscall::Renameat2 => "renameat2",
            MutationSyscall::Renameat => "renameat",
            MutationSyscall::Linkat => "linkat",
            MutationSyscall::Symlinkat => "symlinkat",
            MutationSyscall::Unlinkat => "unlinkat",
            MutationSyscall::Mkdirat => "mkdirat",
            MutationSyscall::Mknodat => "mknodat",
            MutationSyscall::Truncate => "truncate",
            MutationSyscall::Fchmodat => "fchmodat",
            MutationSyscall::Fchmodat2 => "fchmodat2",
            MutationSyscall::Fchownat => "fchownat",
            MutationSyscall::Utimensat => "utimensat",
            MutationSyscall::Setxattr => "setxattr",
            MutationSyscall::Lsetxattr => "lsetxattr",
            MutationSyscall::Removexattr => "removexattr",
            MutationSyscall::Lremovexattr => "lremovexattr",
            MutationSyscall::Rename => "rename",
            MutationSyscall::Link => "link",
            MutationSyscall::Symlink => "symlink",
            MutationSyscall::Unlink => "unlink",
            MutationSyscall::Rmdir => "rmdir",
            MutationSyscall::Mkdir => "mkdir",
            MutationSyscall::Mknod => "mknod",
            MutationSyscall::Creat => "creat",
            MutationSyscall::Chmod => "chmod",
            MutationSyscall::Chown => "chown",
            MutationSyscall::Lchown => "lchown",
        }
    }

    /// Whether the call is about a link itself, not what it leads to.
    pub fn no_follow(self, args: &[u64; 6]) -> (yes: bool)
        ensures
            yes == spares_links(self, args@),
    {
        match self {
            MutationSyscall::Unlink
            | MutationSyscall::Unlinkat
            | MutationSyscall::Rmdir
            | MutationSyscall::Lchown
            | MutationSyscall::Lsetxattr
            | MutationSyscall::Lremovexattr
            | MutationSyscall::Link => true,
            MutationSyscall::Fchownat => registers::syscall_i32(args[4])
                & sys::AT_SYMLINK_NOFOLLOW != 0,
            MutationSyscall::Fchmodat
            | MutationSyscall::Fchmodat2
            | MutationSyscall::Utimensat => registers::syscall_i32(args[3])
                & sys::AT_SYMLINK_NOFOLLOW != 0,
            MutationSyscall::Linkat => registers::syscall_i32(args[4]) & sys::AT_SYMLINK_FOLLOW
                == 0,
            _ => false,
        }
    }

    /// Whether the call makes a directory.
    pub fn is_mkdir(self) -> (yes: bool)
        ensures
            yes == makes_directory(self),
    {
        match self {
            MutationSyscall::Mkdir | MutationSyscall::Mkdirat => true,
            _ => false,
        }
    }

    /// Whether the call gives a file another name.
    pub fn is_reparent(self) -> (yes: bool)
        ensures
            yes == reparents(self),
    {
        match self {
            MutationSyscall::Link
            | MutationSyscall::Linkat
            | MutationSyscall::Rename
            | MutationSyscall::Renameat
            | MutationSyscall::Renameat2 => true,
            _ => false,
        }
    }

    /// Whether the sandbox itself holds the call to the write roots.
    pub fn landlock_backed(self) -> (yes: bool)
        ensures
            yes == is_landlock_backed(self),
    {
        match self {
            MutationSyscall::Fchmodat
            | MutationSyscall::Fchmodat2
            | MutationSyscall::Fchownat
            | MutationSyscall::Utimensat
            | MutationSyscall::Setxattr
            | MutationSyscall::Lsetxattr
            | MutationSyscall::Removexattr
            | MutationSyscall::Lremovexattr
            | MutationSyscall::Chmod
            | MutationSyscall::Chown
            | MutationSyscall::Lchown => false,
            _ => true,
        }
    }

    /// The registers of each path of the call.
    pub fn paths(self) -> (registers: Vec<PathRegisters>)
        ensures
            registers@ == path_registers(self),
    {
        let registers: Vec<PathRegisters> = match self {
            MutationSyscall::Renameat2 | MutationSyscall::Renameat | MutationSyscall::Linkat => {
                vec![(Some(0usize), 1usize), (Some(2usize), 3usize)]
            },
            MutationSyscall::Symlinkat => vec![(Some(1usize), 2usize)],
            MutationSyscall::Unlinkat
            | MutationSyscall::Mkdirat
            | MutationSyscall::Mknodat
            | MutationSyscall::Fchmodat
            | MutationSyscall::Fchmodat2
            | MutationSyscall::Fchownat
            | MutationSyscall::Utimensat => vec![(Some(0usize), 1usize)],
            MutationSyscall::Rename | MutationSyscall::Link => {
                vec![(None, 0usize), (None, 1usize)]
            },
            MutationSyscall::Symlink => vec![(None, 1usize)],
            _ => vec![(None, 0usize)],
        };
        assert(registers@ =~= path_registers(self));
        registers
    }
}

/// A path of a call: where it leads, how it is written out in full, and how
/// the process wrote it.
#[derive(Debug)]
pub struct Slot {
    pub resolved: Vec<u8>,
    pub lexical: Vec<u8>,
    pub path: Vec<u8>,
}

/// What of a call's path has to be looked up.
#[derive(Clone, Copy, Debug, PartialEq, Eq, Structural)]
pub struct SlotRequest {
    pub dirfd: i32,
    /// Where the path is, or `None` at null.
    pub path: Option<MemoryRead>,
}

/// Where one path of a call is.
pub open spec fn slot_request(args: Seq<u64>, registers: PathRegisters) -> Result<
    SlotRequest,
    BrokerError,
> {
    let target = args[registers.1 as int];
    if target > usize::MAX {
        Err(BrokerError::BadAddress)
    } else {
        Ok(
            SlotRequest {
                dirfd: match registers.0 {
                    Some(dirfd) => registers::int_register(args[dirfd as int]),
                    None => sys::AT_FDCWD,
                },
                path: if target == 0 {
                    None
                } else {
                    Some(MemoryRead { base: target as usize, len: memory::PATH_MAX })
                },
            },
        )
    }
}

/// Where one path of a call is.
pub fn mutation_path(args: &[u64; 6], registers: PathRegisters) -> (request: Result<
    SlotRequest,
    BrokerError,
>)
    requires
        registers.1 < 6,
        registers.0 matches Some(dirfd) ==> dirfd < 6,
    ensures
        request == slot_request(args@, registers),
{
    let dirfd = match registers.0 {
        Some(dirfd) => registers::syscall_i32(args[dirfd]),
        None => sys::AT_FDCWD,
    };
    match read_child_target(args[registers.1]) {
        Ok(path) => Ok(SlotRequest { dirfd, path }),
        Err(error) => Err(error),
    }
}

/// The flags with which it is looked up whether a directory that is to be made
/// is there: a trailing separator follows a link.
pub fn mkdir_stat_flags(raw: &[u8]) -> (flags: i32)
    ensures
        flags == (if raw@.len() > 0 && raw@.last() == paths::SLASH {
            0
        } else {
            sys::AT_SYMLINK_NOFOLLOW
        }),
{
    if raw.len() > 0 && raw[raw.len() - 1] == paths::SLASH {
        0
    } else {
        sys::AT_SYMLINK_NOFOLLOW
    }
}

/// A directory that is there is not made again: the call fails as it would by
/// itself, without a question, since programs make every directory on the way
/// to a new one.
pub fn check_mkdir(kind: MutationSyscall, exists: bool) -> (result: Result<(), BrokerError>)
    ensures
        result == (if makes_directory(kind) && exists {
            Err::<(), _>(BrokerError::SystemCall { errno: sys::EEXIST })
        } else {
            Ok(())
        }),
{
    if kind.is_mkdir() && exists {
        return Err(BrokerError::SystemCall { errno: sys::EEXIST });
    }
    Ok(())
}

/// Which path of a call is denied, why, and what would have been done to it.
#[derive(Clone, Copy, Debug, PartialEq, Eq, Structural)]
pub struct SlotDenial {
    pub index: usize,
    pub reason: DenialReason,
    pub operation: TrapOperation,
}

/// What the policy says of a call.
#[derive(Clone, Copy, Debug, PartialEq, Eq, Structural)]
pub enum MutationVerdict {
    /// The process makes the call itself.
    Continue,
    /// The broker makes the call.
    Pin,
    /// It is denied.
    Denied(SlotDenial),
}

/// Whether and why writing to a path of a call is denied. A path that is not
/// given is not.
pub open spec fn slot_decision(
    policy: AccessPolicy,
    slot: Option<Slot>,
    surface_allow_miss: bool,
) -> Option<DenialReason> {
    match slot {
        Some(slot) => policy::write_decision(
            policy,
            slot.resolved@,
            slot.lexical@,
            surface_allow_miss,
        ),
        None => None,
    }
}

/// The first path from `at` on that must not be written to.
pub open spec fn first_denied(
    policy: AccessPolicy,
    slots: Seq<Option<Slot>>,
    at: nat,
    surface_allow_miss: bool,
) -> Option<SlotDenial>
    decreases slots.len() - at,
{
    if at >= slots.len() {
        None
    } else {
        match slot_decision(policy, slots[at as int], surface_allow_miss) {
            Some(reason) => Some(
                SlotDenial { index: at as usize, reason, operation: TrapOperation::Write },
            ),
            None => first_denied(policy, slots, at + 1, surface_allow_miss),
        }
    }
}

/// Whether a path of a call may be read. A path that is not given may.
pub open spec fn slot_readable(policy: AccessPolicy, slots: Seq<Option<Slot>>, at: int) -> bool {
    at < slots.len() && slots[at] is Some ==> policy::read_decision(
        policy,
        slots[at]->0.resolved@,
    ) is None
}

/// The first file of a call that must not be read gets no name under which it
/// could be.
pub open spec fn read_denial(
    policy: AccessPolicy,
    kind: MutationSyscall,
    slots: Seq<Option<Slot>>,
) -> Option<SlotDenial> {
    if reparents(kind) && !slot_readable(policy, slots, 0) && slot_readable(policy, slots, 1) {
        Some(
            SlotDenial {
                index: 0,
                reason: policy::read_decision(policy, slots[0]->0.resolved@)->0,
                operation: TrapOperation::Read,
            },
        )
    } else {
        None
    }
}

/// Whether the broker has to make an allowed call, because the process could
/// turn it to something else in between: where anything is denied below a
/// write root, where the sandbox does not hold the call to the write roots, and
/// where a name could be given to a file that must not be read.
pub open spec fn must_pin(policy: AccessPolicy, kind: MutationSyscall) -> bool {
    ||| policy.write_denied_roots@.len() > 0
    ||| policy.write_denied_patterns@.len() > 0
    ||| policy.write_denied_links@.len() > 0
    ||| !is_landlock_backed(kind)
    ||| reparents(kind) && !(policy.read_access is Unrestricted)
}

/// What the policy says of a call with these paths.
pub open spec fn mutation_verdict(
    policy: AccessPolicy,
    kind: MutationSyscall,
    slots: Seq<Option<Slot>>,
    query_enabled: bool,
) -> MutationVerdict {
    let written = first_denied(policy, slots, 0, query_enabled || !is_landlock_backed(kind));
    if written is Some {
        MutationVerdict::Denied(written->0)
    } else if read_denial(policy, kind, slots) is Some {
        MutationVerdict::Denied(read_denial(policy, kind, slots)->0)
    } else if must_pin(policy, kind) {
        MutationVerdict::Pin
    } else {
        MutationVerdict::Continue
    }
}

fn is_slot_readable(policy: &AccessPolicy, slots: &Vec<Option<Slot>>, at: usize) -> (readable: bool)
    ensures
        readable == slot_readable(*policy, slots@, at as int),
{
    if at >= slots.len() {
        return true;
    }
    match &slots[at] {
        Some(slot) => policy.read_reason(slot.resolved.as_slice()).is_none(),
        None => true,
    }
}

/// Denies another name for a file that must not be read, where it could be
/// read under that name.
pub fn reparent_read_denial(
    policy: &AccessPolicy,
    kind: MutationSyscall,
    slots: &Vec<Option<Slot>>,
) -> (denial: Option<SlotDenial>)
    ensures
        denial == read_denial(*policy, kind, slots@),
{
    if !kind.is_reparent() || slots.len() == 0 {
        return None;
    }
    let reason = match &slots[0] {
        Some(slot) => match policy.read_reason(slot.resolved.as_slice()) {
            Some(reason) => reason,
            None => return None,
        },
        None => return None,
    };
    if !is_slot_readable(policy, slots, 1) {
        return None;
    }
    Some(SlotDenial { index: 0, reason, operation: TrapOperation::Read })
}

/// What the policy says of a call with these paths.
pub fn handle_mutation(
    policy: &AccessPolicy,
    kind: MutationSyscall,
    slots: &Vec<Option<Slot>>,
    query_enabled: bool,
) -> (verdict: MutationVerdict)
    ensures
        verdict == mutation_verdict(*policy, kind, slots@, query_enabled),
{
    let surface_allow_miss = query_enabled || !kind.landlock_backed();
    let mut at: usize = 0;
    while at < slots.len()
        invariant
            at <= slots.len(),
            surface_allow_miss == (query_enabled || !is_landlock_backed(kind)),
            first_denied(*policy, slots@, 0, surface_allow_miss) == first_denied(
                *policy,
                slots@,
                at as nat,
                surface_allow_miss,
            ),
        decreases slots.len() - at,
    {
        if let Some(slot) = &slots[at] {
            if let Some(reason) = policy.write_reason(
                slot.resolved.as_slice(),
                slot.lexical.as_slice(),
                surface_allow_miss,
            ) {
                return MutationVerdict::Denied(
                    SlotDenial { index: at, reason, operation: TrapOperation::Write },
                );
            }
        }
        at += 1;
    }
    if let Some(denial) = reparent_read_denial(policy, kind, slots) {
        return MutationVerdict::Denied(denial);
    }
    let unrestricted = match &policy.read_access {
        ReadAccess::Unrestricted => true,
        ReadAccess::AllowRoots(_) => false,
    };
    if policy.write_denied_roots.len() > 0 || policy.write_denied_patterns.len() > 0
        || policy.write_denied_links.len() > 0 || !kind.landlock_backed() || (kind.is_reparent()
        && !unrestricted) {
        return MutationVerdict::Pin;
    }
    MutationVerdict::Continue
}

/// Whether a call exchanges two files, so that each gets the other's name.
pub open spec fn exchanges(kind: MutationSyscall, args: Seq<u64>) -> bool {
    kind == MutationSyscall::Renameat2 && uint_register(args[4]) & sys::RENAME_EXCHANGE != 0
}

/// A file that must not be read gets no name under which it could be by an
/// exchange either, where it is the second of the two.
pub open spec fn exchange_denial(
    policy: AccessPolicy,
    kind: MutationSyscall,
    args: Seq<u64>,
    slots: Seq<Option<Slot>>,
) -> Option<SlotDenial> {
    if exchanges(kind, args) && !slot_readable(policy, slots, 1) && slot_readable(
        policy,
        slots,
        0,
    ) {
        Some(
            SlotDenial {
                index: 1,
                reason: policy::read_decision(policy, slots[1]->0.resolved@)->0,
                operation: TrapOperation::Read,
            },
        )
    } else {
        None
    }
}

/// Denies an exchange by which a file that must not be read could be read under
/// the other's name.
pub fn exchange_read_denial(
    policy: &AccessPolicy,
    kind: MutationSyscall,
    args: &[u64; 6],
    slots: &Vec<Option<Slot>>,
) -> (denial: Option<SlotDenial>)
    ensures
        denial == exchange_denial(*policy, kind, args@, slots@),
{
    if kind != MutationSyscall::Renameat2 || registers::syscall_u32(args[4]) & sys::RENAME_EXCHANGE
        == 0 || slots.len() < 2 {
        return None;
    }
    let reason = match &slots[1] {
        Some(slot) => match policy.read_reason(slot.resolved.as_slice()) {
            Some(reason) => reason,
            None => return None,
        },
        None => return None,
    };
    if !is_slot_readable(policy, slots, 0) {
        return None;
    }
    Some(SlotDenial { index: 1, reason, operation: TrapOperation::Read })
}

/// What the policy says of a call with these registers and paths.
pub open spec fn call_verdict(
    policy: AccessPolicy,
    kind: MutationSyscall,
    args: Seq<u64>,
    slots: Seq<Option<Slot>>,
    query_enabled: bool,
) -> MutationVerdict {
    let verdict = mutation_verdict(policy, kind, slots, query_enabled);
    if verdict is Denied {
        verdict
    } else {
        match exchange_denial(policy, kind, args, slots) {
            Some(denial) => MutationVerdict::Denied(denial),
            None => verdict,
        }
    }
}

/// What the policy says of a call with these registers and paths.
pub fn decide_mutation(
    policy: &AccessPolicy,
    kind: MutationSyscall,
    args: &[u64; 6],
    slots: &Vec<Option<Slot>>,
    query_enabled: bool,
) -> (verdict: MutationVerdict)
    ensures
        verdict == call_verdict(*policy, kind, args@, slots@, query_enabled),
{
    match handle_mutation(policy, kind, slots, query_enabled) {
        MutationVerdict::Denied(denial) => MutationVerdict::Denied(denial),
        verdict => match exchange_read_denial(policy, kind, args, slots) {
            Some(denial) => MutationVerdict::Denied(denial),
            None => verdict,
        },
    }
}

/// How a path of a call is brought to the form that the policy is asked about.
#[derive(Clone, Copy, Debug, PartialEq, Eq, Structural)]
pub enum NormalForm {
    /// Where it leads.
    Followed,
    /// Where its directory leads, and its name: the call is about a link.
    LinkItself,
}

/// What comes next for a stopped call.
#[derive(Debug)]
pub enum MutationRoute {
    /// It changes nothing: the process makes it.
    Continue,
    /// It changes the times of a file that it holds open.
    DescriptorTimes,
    /// Its paths are read from these registers and brought to this form. Where
    /// it makes a directory, one that is there is told as such.
    Paths {
        kind: MutationSyscall,
        registers: Vec<PathRegisters>,
        form: NormalForm,
        makes_directory: bool,
    },
}

/// What comes next for a stopped call, by its number and its registers.
pub fn mutation_route(
    numbers: &[MutationNumber],
    syscall: i64,
    args: &[u64; 6],
) -> (route: MutationRoute)
    ensures
        match kind_of(numbers@, syscall) {
            None => route is Continue,
            Some(kind) => if changes_descriptor_times(kind, args@) {
                route is DescriptorTimes
            } else {
                &&& route matches MutationRoute::Paths {
                    kind: found,
                    registers,
                    form,
                    makes_directory,
                }
                &&& found == kind
                &&& registers@ == path_registers(kind)
                &&& form == (if spares_links(kind, args@) {
                    NormalForm::LinkItself
                } else {
                    NormalForm::Followed
                })
                &&& makes_directory == self::makes_directory(kind)
            },
        },
{
    let kind = match mutation_kind(numbers, syscall) {
        Some(kind) => kind,
        None => return MutationRoute::Continue,
    };
    if is_fd_utimensat(kind, args) {
        return MutationRoute::DescriptorTimes;
    }
    let form = if kind.no_follow(args) {
        NormalForm::LinkItself
    } else {
        NormalForm::Followed
    };
    MutationRoute::Paths {
        kind,
        registers: kind.paths(),
        form,
        makes_directory: kind.is_mkdir(),
    }
}

/// What the broker still has to read before it can make a call.
#[derive(Debug)]
pub enum OpNeed<H> {
    /// The call creates a file: it is an open with this mode.
    Create { mode: u32 },
    /// Nothing.
    Ready(MutationOp<H>),
    /// What the link leads to, or nothing at null.
    Target(Option<MemoryRead>),
    /// The times.
    Times(MemoryRead),
    /// The name of an attribute to set, or nothing at null.
    SetName(Option<MemoryRead>),
    /// The name of an attribute to remove, or nothing at null.
    RemoveName(Option<MemoryRead>),
}

/// The flags of a call that creates a file.
pub open spec fn creat_flags(known: OpenFlags) -> i32 {
    known.create | sys::O_WRONLY | known.truncate
}

/// The flags with which a file is created by a call that does no more.
pub fn creat_open_flags(known: &OpenFlags) -> (flags: i32)
    ensures
        flags == creat_flags(*known),
{
    known.create | sys::O_WRONLY | known.truncate
}

/// A string in memory, or nothing at null.
pub open spec fn string_at(target: u64) -> Result<Option<MemoryRead>, BrokerError> {
    if target > usize::MAX {
        Err(BrokerError::BadAddress)
    } else if target == 0 {
        Ok(None)
    } else {
        Ok(Some(MemoryRead { base: target as usize, len: memory::PATH_MAX }))
    }
}

/// The low half of a register.
pub open spec fn uint_register(value: u64) -> u32 {
    (value % 0x1_0000_0000) as u32
}

/// A register as a signed integer.
pub open spec fn long_register(value: u64) -> i64 {
    (if value < 0x8000_0000_0000_0000 {
        value as int
    } else {
        value - 0x1_0000_0000_0000_0000
    }) as i64
}

/// What a call does, as far as its registers say.
pub open spec fn op_of<H>(
    layout: TimeLayout,
    kind: MutationSyscall,
    args: Seq<u64>,
) -> Result<OpNeed<H>, BrokerError> {
    match kind {
        MutationSyscall::Creat => Ok(OpNeed::Create { mode: uint_register(args[1]) }),
        MutationSyscall::Mkdirat => Ok(
            OpNeed::Ready(MutationOp::Mkdir { mode: uint_register(args[2]) }),
        ),
        MutationSyscall::Mkdir => Ok(
            OpNeed::Ready(MutationOp::Mkdir { mode: uint_register(args[1]) }),
        ),
        MutationSyscall::Mknodat => Ok(
            OpNeed::Ready(MutationOp::Mknod { mode: uint_register(args[2]), dev: args[3] }),
        ),
        MutationSyscall::Mknod => Ok(
            OpNeed::Ready(MutationOp::Mknod { mode: uint_register(args[1]), dev: args[2] }),
        ),
        MutationSyscall::Unlinkat => Ok(
            OpNeed::Ready(MutationOp::Unlink { flags: registers::int_register(args[2]) }),
        ),
        MutationSyscall::Unlink => Ok(OpNeed::Ready(MutationOp::Unlink { flags: 0 })),
        MutationSyscall::Rmdir => Ok(
            OpNeed::Ready(MutationOp::Unlink { flags: sys::AT_REMOVEDIR }),
        ),
        MutationSyscall::Renameat2 => Ok(
            OpNeed::Ready(MutationOp::Rename { flags: uint_register(args[4]) }),
        ),
        MutationSyscall::Renameat | MutationSyscall::Rename => Ok(
            OpNeed::Ready(MutationOp::Rename { flags: 0 }),
        ),
        MutationSyscall::Linkat => Ok(
            OpNeed::Ready(MutationOp::Link { flags: registers::int_register(args[4]) }),
        ),
        MutationSyscall::Link => Ok(OpNeed::Ready(MutationOp::Link { flags: 0 })),
        MutationSyscall::Symlinkat | MutationSyscall::Symlink => match string_at(args[0]) {
            Ok(target) => Ok(OpNeed::Target(target)),
            Err(error) => Err(error),
        },
        MutationSyscall::Truncate => Ok(
            OpNeed::Ready(MutationOp::Truncate { length: long_register(args[1]) }),
        ),
        MutationSyscall::Fchmodat | MutationSyscall::Fchmodat2 => Ok(
            OpNeed::Ready(MutationOp::Chmod { mode: uint_register(args[2]) }),
        ),
        MutationSyscall::Chmod => Ok(
            OpNeed::Ready(MutationOp::Chmod { mode: uint_register(args[1]) }),
        ),
        MutationSyscall::Fchownat => Ok(
            OpNeed::Ready(
                MutationOp::Chown { uid: uint_register(args[2]), gid: uint_register(args[3]) },
            ),
        ),
        MutationSyscall::Chown | MutationSyscall::Lchown => Ok(
            OpNeed::Ready(
                MutationOp::Chown { uid: uint_register(args[1]), gid: uint_register(args[2]) },
            ),
        ),
        MutationSyscall::Utimensat => match times_at(layout, args[2]) {
            Ok(Some(range)) => Ok(OpNeed::Times(range)),
            Ok(None) => Ok(OpNeed::Ready(MutationOp::Utimes { times: None })),
            Err(error) => Err(error),
        },
        MutationSyscall::Setxattr | MutationSyscall::Lsetxattr => match string_at(args[1]) {
            Ok(name) => Ok(OpNeed::SetName(name)),
            Err(error) => Err(error),
        },
        MutationSyscall::Removexattr | MutationSyscall::Lremovexattr => match string_at(args[1]) {
            Ok(name) => Ok(OpNeed::RemoveName(name)),
            Err(error) => Err(error),
        },
    }
}

/// Two times in memory, or now at null.
pub open spec fn times_at(layout: TimeLayout, target: u64) -> Result<Option<MemoryRead>, BrokerError> {
    if target > usize::MAX {
        Err(BrokerError::BadAddress)
    } else if target == 0 {
        Ok(None)
    } else {
        Ok(
            Some(
                MemoryRead {
                    base: target as usize,
                    len: (4 * memory::time_len(layout)) as usize,
                },
            ),
        )
    }
}

/// The read of two times, or now at null.
pub fn times_read(layout: TimeLayout, target: u64) -> (read: Result<Option<MemoryRead>, BrokerError>)
    ensures
        read == times_at(layout, target),
{
    match usize_register(target) {
        Some(base) => if base == 0 {
            Ok(None)
        } else {
            Ok(Some(MemoryRead { base, len: 4 * memory::time_part_len(layout) }))
        },
        None => Err(BrokerError::BadAddress),
    }
}

impl<H> Grant<H> {
    /// What a call does, as far as its registers say.
    pub fn mutation(layout: TimeLayout, kind: MutationSyscall, args: &[u64; 6]) -> (need: Result<
        OpNeed<H>,
        BrokerError,
    >)
        ensures
            need == op_of::<H>(layout, kind, args@),
    {
        let op = match kind {
            MutationSyscall::Creat => {
                return Ok(OpNeed::Create { mode: registers::syscall_u32(args[1]) });
            },
            MutationSyscall::Mkdirat => MutationOp::Mkdir { mode: registers::syscall_u32(args[2]) },
            MutationSyscall::Mkdir => MutationOp::Mkdir { mode: registers::syscall_u32(args[1]) },
            MutationSyscall::Mknodat => MutationOp::Mknod {
                mode: registers::syscall_u32(args[2]),
                dev: args[3],
            },
            MutationSyscall::Mknod => MutationOp::Mknod {
                mode: registers::syscall_u32(args[1]),
                dev: args[2],
            },
            MutationSyscall::Unlinkat => MutationOp::Unlink {
                flags: registers::syscall_i32(args[2]),
            },
            MutationSyscall::Unlink => MutationOp::Unlink { flags: 0 },
            MutationSyscall::Rmdir => MutationOp::Unlink { flags: sys::AT_REMOVEDIR },
            MutationSyscall::Renameat2 => MutationOp::Rename {
                flags: registers::syscall_u32(args[4]),
            },
            MutationSyscall::Renameat | MutationSyscall::Rename => MutationOp::Rename { flags: 0 },
            MutationSyscall::Linkat => MutationOp::Link { flags: registers::syscall_i32(args[4]) },
            MutationSyscall::Link => MutationOp::Link { flags: 0 },
            MutationSyscall::Symlinkat | MutationSyscall::Symlink => {
                return match read_child_target(args[0]) {
                    Ok(target) => Ok(OpNeed::Target(target)),
                    Err(error) => Err(error),
                };
            },
            MutationSyscall::Truncate => MutationOp::Truncate {
                length: registers::syscall_i64(args[1]),
            },
            MutationSyscall::Fchmodat | MutationSyscall::Fchmodat2 => MutationOp::Chmod {
                mode: registers::syscall_u32(args[2]),
            },
            MutationSyscall::Chmod => MutationOp::Chmod { mode: registers::syscall_u32(args[1]) },
            MutationSyscall::Fchownat => MutationOp::Chown {
                uid: registers::syscall_u32(args[2]),
                gid: registers::syscall_u32(args[3]),
            },
            MutationSyscall::Chown | MutationSyscall::Lchown => MutationOp::Chown {
                uid: registers::syscall_u32(args[1]),
                gid: registers::syscall_u32(args[2]),
            },
            MutationSyscall::Utimensat => match times_read(layout, args[2]) {
                Ok(Some(range)) => return Ok(OpNeed::Times(range)),
                Ok(None) => MutationOp::Utimes { times: None },
                Err(error) => return Err(error),
            },
            MutationSyscall::Setxattr | MutationSyscall::Lsetxattr => {
                return match read_child_target(args[1]) {
                    Ok(name) => Ok(OpNeed::SetName(name)),
                    Err(error) => Err(error),
                };
            },
            MutationSyscall::Removexattr | MutationSyscall::Lremovexattr => {
                return match read_child_target(args[1]) {
                    Ok(name) => Ok(OpNeed::RemoveName(name)),
                    Err(error) => Err(error),
                };
            },
        };
        Ok(OpNeed::Ready(op))
    }
}

/// The read of the value of an attribute.
pub fn setxattr_value(args: &[u64; 6]) -> (read: Result<Option<MemoryRead>, BrokerError>)
    ensures
        read == memory::attribute_value(args@[2], args@[3]),
{
    read_child_bytes(args[2], args[3])
}

/// The setting of an attribute whose name and value have been read.
pub fn setxattr_op<H>(name: Vec<u8>, value: Vec<u8>, args: &[u64; 6]) -> (op: MutationOp<H>)
    ensures
        op == (MutationOp::<H>::SetXattr {
            name,
            value,
            flags: registers::int_register(args@[4]),
        }),
{
    MutationOp::SetXattr { name, value, flags: registers::syscall_i32(args[4]) }
}

/// The next directory to hold for a call, one for each path in its order.
#[derive(Debug)]
pub enum AnchorStep {
    /// All are held.
    Done,
    /// A path is not given, so the broker cannot make the call.
    Missing,
    /// Hold the directory of this path.
    Hold(Vec<u8>),
}

/// The next directory to hold, `held` of them being held.
pub fn next_anchor(slots: &Vec<Option<Slot>>, held: usize) -> (step: AnchorStep)
    ensures
        held >= slots@.len() ==> step is Done,
        held < slots@.len() ==> match slots@[held as int] {
            Some(slot) => step matches AnchorStep::Hold(path) && path@ == slot.resolved@,
            None => step is Missing,
        },
{
    if held >= slots.len() {
        return AnchorStep::Done;
    }
    match &slots[held] {
        Some(slot) => AnchorStep::Hold(bytes::copy_bytes(slot.resolved.as_slice())),
        None => AnchorStep::Missing,
    }
}

/// The call as the broker makes it.
pub fn mutation_grant<H>(
    kind: MutationSyscall,
    args: &[u64; 6],
    op: MutationOp<H>,
    anchors: Vec<Anchor<H>>,
) -> (grant: MutationGrant<H>)
    ensures
        grant == (MutationGrant { op, anchors, no_follow: spares_links(kind, args@) }),
{
    MutationGrant { op, anchors, no_follow: kind.no_follow(args) }
}

/// What becomes of an allowed call that the broker has to make. One that it
/// cannot make fails: the process does not make it instead.
pub fn pinned<H>(grant: Result<Option<Grant<H>>, BrokerError>) -> (result: Handled<H>)
    ensures
        match grant {
            Ok(Some(Grant::Mutation(made))) => result == Ok::<_, BrokerError>(
                NotificationResult::Mutation(made),
            ),
            Ok(Some(Grant::Open(made))) => result == Ok::<_, BrokerError>(
                NotificationResult::Open(made),
            ),
            Ok(_) => result == Err::<NotificationResult<H>, _>(
                BrokerError::SystemCall { errno: sys::EIO },
            ),
            Err(error) => result == Err::<NotificationResult<H>, _>(error),
        },
{
    match grant {
        Ok(Some(Grant::Mutation(made))) => Ok(NotificationResult::Mutation(made)),
        Ok(Some(Grant::Open(made))) => Ok(NotificationResult::Open(made)),
        Ok(_) => Err(BrokerError::SystemCall { errno: sys::EIO }),
        Err(error) => Err(error),
    }
}

/// Whether a denial tells of a denied change to a path.
pub open spec fn describes(
    denial: FilesystemDenial,
    kind: MutationSyscall,
    resolved: Seq<u8>,
    path: Seq<u8>,
    operation: TrapOperation,
    reason: DenialReason,
    process: ProcessContext,
) -> bool {
    &&& denial.operation == operation
    &&& denial.path@ == resolved
    &&& denial.requested_path@ == path
    &&& denial.syscall@ == kind_text(kind)
    &&& denial.flags@.len() == 0
    &&& denial.reason == reason
    &&& denial.process == process
}

/// Whether a denial is answered as it has to be: with a question about it
/// where the launcher can be asked, and otherwise with a record of it and a
/// refusal. On approval `grant` is made; where it could not be prepared, the
/// call fails as that did.
pub open spec fn denial_answered<H>(
    denial: FilesystemDenial,
    grant: Option<Result<Option<Grant<H>>, BrokerError>>,
    query_enabled: bool,
    query_id: u64,
    next: u64,
    before: Seq<Denial>,
    after: Seq<Denial>,
    result: Handled<H>,
) -> bool {
    if query_enabled {
        &&& next == query_id + 1
        &&& after == before
        &&& match grant->0 {
            Ok(made) => result matches Ok(NotificationResult::Query(decision))
                && decision.query_id == query_id && decision.grant == made && (
            decision.trap matches Trap::Filesystem(record) && trap::reports_denial(
                record,
                denial,
                Some(query_id),
            )),
            Err(error) => result == Err::<NotificationResult<H>, _>(error),
        }
    } else {
        &&& next == query_id
        &&& after == denials::recorded(before, Denial::Filesystem(denial))
        &&& result == Err::<NotificationResult<H>, _>(BrokerError::PolicyDenied)
    }
}

fn answer_denial<H>(
    denial: FilesystemDenial,
    grant: Option<Result<Option<Grant<H>>, BrokerError>>,
    denials: &mut Denials,
    query_enabled: bool,
    next_query_id: &mut u64,
) -> (result: Handled<H>)
    requires
        *old(next_query_id) < u64::MAX,
        query_enabled ==> grant is Some,
    ensures
        denial_answered(
            denial,
            grant,
            query_enabled,
            *old(next_query_id),
            *final(next_query_id),
            old(denials).pending@,
            final(denials).pending@,
            result,
        ),
        denials::no_repeats(old(denials).pending@) ==> denials::no_repeats(final(denials).pending@),
{
    if !query_enabled {
        denials.record(Denial::Filesystem(denial));
        return Err(BrokerError::PolicyDenied);
    }
    let query_id: u64 = *next_query_id;
    *next_query_id = query_id + 1;
    match grant {
        Some(Ok(made)) => Ok(
            NotificationResult::query(query_id, Trap::filesystem(denial, Some(query_id)), made),
        ),
        Some(Err(error)) => Err(error),
        None => Err(BrokerError::PolicyDenied),
    }
}

/// What a denied call comes to. `grant` is what is made on approval, and is
/// there where the launcher can be asked.
pub fn deny_mutation<H>(
    kind: MutationSyscall,
    slot: &Slot,
    operation: TrapOperation,
    reason: DenialReason,
    process: ProcessContext,
    grant: Option<Result<Option<Grant<H>>, BrokerError>>,
    denials: &mut Denials,
    query_enabled: bool,
    next_query_id: &mut u64,
) -> (result: Handled<H>)
    requires
        *old(next_query_id) < u64::MAX,
        query_enabled ==> grant is Some,
    ensures
        exists|denial: FilesystemDenial|
            describes(
                denial,
                kind,
                slot.resolved@,
                slot.path@,
                operation,
                reason,
                process,
            ) && #[trigger] denial_answered(
                denial,
                grant,
                query_enabled,
                *old(next_query_id),
                *final(next_query_id),
                old(denials).pending@,
                final(denials).pending@,
                result,
            ),
        denials::no_repeats(old(denials).pending@) ==> denials::no_repeats(final(denials).pending@),
{
    let denial = FilesystemDenial {
        operation,
        path: bytes::copy_bytes(slot.resolved.as_slice()),
        requested_path: bytes::copy_bytes(slot.path.as_slice()),
        syscall: kind.name(),
        flags: Vec::new(),
        reason,
        process,
    };
    answer_denial(denial, grant, denials, query_enabled, next_query_id)
}

/// A change of the times of a file that the process holds open.
#[derive(Clone, Copy, Debug, PartialEq, Eq, Structural)]
pub struct FdTimesRequest {
    pub pid: i32,
    pub fd: i32,
}

/// Whether a call changes the times of a file that the process holds open: it
/// gives no path.
pub open spec fn changes_descriptor_times(kind: MutationSyscall, args: Seq<u64>) -> bool {
    kind == MutationSyscall::Utimensat && args[1] == 0
}

/// Whether a call changes the times of a file that the process holds open.
pub fn is_fd_utimensat(kind: MutationSyscall, args: &[u64; 6]) -> (yes: bool)
    ensures
        yes == changes_descriptor_times(kind, args@),
{
    kind == MutationSyscall::Utimensat && args[1] == 0
}

/// The file whose times are changed.
pub fn fd_utimensat_request(args: &[u64; 6], pid: u32) -> (request: Result<
    FdTimesRequest,
    BrokerError,
>)
    ensures
        request == (if pid > i32::MAX {
            Err::<FdTimesRequest, _>(BrokerError::InvalidAddress)
        } else if registers::int_register(args@[3]) != 0 {
            Err(BrokerError::SystemCall { errno: sys::EINVAL })
        } else if registers::int_register(args@[0]) < 0 {
            Err(BrokerError::BadFileDescriptor)
        } else {
            Ok(FdTimesRequest { pid: pid as i32, fd: registers::int_register(args@[0]) })
        }),
{
    let pid = match process_number(pid) {
        Ok(pid) => pid,
        Err(error) => return Err(error),
    };
    if registers::syscall_i32(args[3]) != 0 {
        return Err(BrokerError::SystemCall { errno: sys::EINVAL });
    }
    let fd = registers::syscall_i32(args[0]);
    if fd < 0 {
        return Err(BrokerError::BadFileDescriptor);
    }
    Ok(FdTimesRequest { pid, fd })
}

/// What becomes of a change of the times of a file that is held, given the
/// path by which it is known and where that leads. The file is held before the
/// policy is asked, so that it is the same one whose times are changed.
pub fn handle_fd_utimensat<H>(
    policy: &AccessPolicy,
    target: H,
    times: Option<FileTimes>,
    requested_path: Vec<u8>,
    resolved: Vec<u8>,
    process: ProcessContext,
    denials: &mut Denials,
    query_enabled: bool,
    next_query_id: &mut u64,
) -> (result: Handled<H>)
    requires
        *old(next_query_id) < u64::MAX,
    ensures
        match policy::write_decision(
            *policy,
            resolved@,
            paths::normalized(requested_path@),
            true,
        ) {
            None => result matches Ok(NotificationResult::Mutation(made)) && made.op == (
            MutationOp::UtimesFd { target, times }) && made.anchors@.len() == 0 && !made.no_follow
                && *final(next_query_id) == *old(next_query_id) && final(denials).pending@ == old(
                denials,
            ).pending@,
            Some(reason) => exists|denial: FilesystemDenial, made: MutationGrant<H>|
                describes(
                    denial,
                    MutationSyscall::Utimensat,
                    resolved@,
                    requested_path@,
                    TrapOperation::Write,
                    reason,
                    process,
                ) && made.op == (MutationOp::UtimesFd { target, times }) && made.anchors@.len() == 0
                    && !made.no_follow && #[trigger] denial_answered(
                    denial,
                    Some(Ok::<_, BrokerError>(Some(Grant::Mutation(made)))),
                    query_enabled,
                    *old(next_query_id),
                    *final(next_query_id),
                    old(denials).pending@,
                    final(denials).pending@,
                    result,
                ),
        },
        denials::no_repeats(old(denials).pending@) ==> denials::no_repeats(final(denials).pending@),
{
    let lexical = paths::normalize_path_lexically(requested_path.as_slice());
    let reason = policy.write_reason(resolved.as_slice(), lexical.as_slice(), true);
    let operation = MutationGrant {
        op: MutationOp::UtimesFd { target, times },
        anchors: Vec::new(),
        no_follow: false,
    };
    match reason {
        None => Ok(NotificationResult::Mutation(operation)),
        Some(reason) => {
            let denial = FilesystemDenial {
                operation: TrapOperation::Write,
                path: resolved,
                requested_path,
                syscall: MutationSyscall::Utimensat.name(),
                flags: Vec::new(),
                reason,
                process,
            };
            answer_denial(
                denial,
                Some(Ok(Some(Grant::Mutation(operation)))),
                denials,
                query_enabled,
                next_query_id,
            )
        },
    }
}

/// What a call acts on, so that a link put in its place is not followed.
#[derive(Clone, Copy, Debug, PartialEq, Eq, Structural)]
pub enum ActsOn {
    /// The descriptor of the file itself.
    Descriptor,
    /// A name in the directory that is held.
    Name,
    /// Two names, each in a directory that is held.
    TwoNames,
    /// A link in the directory that is held, not followed.
    Link,
    /// The file under the name, held without following a link.
    Held,
}

/// What a change acts on.
pub open spec fn acts_on<H>(grant: MutationGrant<H>) -> ActsOn {
    match grant.op {
        MutationOp::UtimesFd { .. } => ActsOn::Descriptor,
        MutationOp::Mkdir { .. }
        | MutationOp::Mknod { .. }
        | MutationOp::Unlink { .. }
        | MutationOp::Symlink { .. } => ActsOn::Name,
        MutationOp::Rename { .. } | MutationOp::Link { .. } => ActsOn::TwoNames,
        MutationOp::Chown { .. } | MutationOp::Utimes { .. } => if grant.no_follow {
            ActsOn::Link
        } else {
            ActsOn::Held
        },
        MutationOp::Truncate { .. }
        | MutationOp::Chmod { .. }
        | MutationOp::SetXattr { .. }
        | MutationOp::RemoveXattr { .. } => ActsOn::Held,
    }
}

/// How many directories have to be held for what a change acts on.
pub open spec fn anchors_needed(on: ActsOn) -> nat {
    match on {
        ActsOn::Descriptor => 0,
        ActsOn::TwoNames => 2,
        _ => 1,
    }
}

/// What a change acts on, or why the broker cannot make it.
pub fn run_mutation<H>(grant: &MutationGrant<H>) -> (on: Result<ActsOn, i32>)
    ensures
        on == (if grant.anchors@.len() >= anchors_needed(acts_on(*grant)) {
            Ok::<ActsOn, i32>(acts_on(*grant))
        } else {
            Err(sys::EINVAL)
        }),
{
    let on = match &grant.op {
        MutationOp::UtimesFd { .. } => return Ok(ActsOn::Descriptor),
        MutationOp::Mkdir { .. }
        | MutationOp::Mknod { .. }
        | MutationOp::Unlink { .. }
        | MutationOp::Symlink { .. } => ActsOn::Name,
        MutationOp::Rename { .. } | MutationOp::Link { .. } => ActsOn::TwoNames,
        MutationOp::Chown { .. } | MutationOp::Utimes { .. } => if grant.no_follow {
            ActsOn::Link
        } else {
            ActsOn::Held
        },
        MutationOp::Truncate { .. }
        | MutationOp::Chmod { .. }
        | MutationOp::SetXattr { .. }
        | MutationOp::RemoveXattr { .. } => ActsOn::Held,
    };
    let needed: usize = if on == ActsOn::TwoNames {
        2
    } else {
        1
    };
    if grant.anchors.len() < needed {
        return Err(sys::EINVAL);
    }
    Ok(on)
}

/// The flags of a call that acts on a name: a link is not followed where the
/// call is about the link.
pub fn name_flags(on: ActsOn) -> (flags: i32)
    ensures
        flags == (if on == ActsOn::Link {
            sys::AT_SYMLINK_NOFOLLOW
        } else {
            0
        }),
{
    if on == ActsOn::Link {
        sys::AT_SYMLINK_NOFOLLOW
    } else {
        0
    }
}

/// The flags with which a file is held without following a link.
pub open spec fn pin_flags(known: OpenFlags) -> i32 {
    known.path | known.no_follow | known.close_on_exec
}

/// The flags with which a file is held without following a link.
pub fn pin_target(known: &OpenFlags) -> (flags: i32)
    ensures
        flags == pin_flags(*known),
{
    known.path | known.no_follow | known.close_on_exec
}

/// What a call by the broker came to, given what the kernel returned and the
/// error number it left.
pub fn check(returned: i64, errno: i32) -> (result: Result<(), i32>)
    ensures
        result == (if returned < 0 {
            Err::<(), i32>(errno)
        } else {
            Ok(())
        }),
{
    if returned < 0 {
        return Err(errno);
    }
    Ok(())
}

/// A link is changed itself exactly where the call meant it. Any other file is
/// held first, with the flag against links, and only a change through a
/// descriptor needs no directory that is held.
pub proof fn law_change_follows_no_link<H>(grant: MutationGrant<H>, known: OpenFlags)
    ensures
        acts_on(grant) == ActsOn::Link <==> grant.no_follow && (grant.op is Chown
            || grant.op is Utimes),
        acts_on(grant) == ActsOn::Held ==> pin_flags(known) & known.no_follow
            == known.no_follow,
        anchors_needed(acts_on(grant)) == 0 <==> grant.op is UtimesFd,
{
    let path = known.path;
    let no_follow = known.no_follow;
    let close_on_exec = known.close_on_exec;
    assert((path | no_follow | close_on_exec) & no_follow == no_follow) by (bit_vector);
}

proof fn lemma_first_denied(
    policy: AccessPolicy,
    slots: Seq<Option<Slot>>,
    at: nat,
    surface_allow_miss: bool,
)
    requires
        at <= slots.len() <= usize::MAX,
    ensures
        first_denied(policy, slots, at, surface_allow_miss) is None ==> forall|i: int|
            at <= i < slots.len() ==> slot_decision(
                policy,
                #[trigger] slots[i],
                surface_allow_miss,
            ) is None,
        first_denied(policy, slots, at, surface_allow_miss) matches Some(denial) ==> at
            <= denial.index < slots.len() && slots[denial.index as int] is Some,
    decreases slots.len() - at,
{
    if at < slots.len() && slot_decision(policy, slots[at as int], surface_allow_miss) is None {
        lemma_first_denied(policy, slots, at + 1, surface_allow_miss);
    }
}

/// A call that is not denied writes to nothing that is denied. Where the
/// sandbox does not hold it to the write roots, or the launcher can be asked,
/// everything it writes to lies below one.
pub proof fn law_allowed_change_touches_nothing_denied(
    policy: AccessPolicy,
    kind: MutationSyscall,
    args: Seq<u64>,
    slots: Seq<Option<Slot>>,
    query_enabled: bool,
    at: int,
)
    requires
        slots.len() <= usize::MAX,
        !(call_verdict(policy, kind, args, slots, query_enabled) is Denied),
        0 <= at < slots.len(),
        slots[at] is Some,
    ensures
        !policy::write_denied(policy, slots[at]->0.resolved@, slots[at]->0.lexical@),
        query_enabled || !is_landlock_backed(kind) ==> paths::under_any(
            slots[at]->0.resolved@,
            bytes::texts(policy.write_roots@),
        ),
{
    lemma_first_denied(policy, slots, 0, query_enabled || !is_landlock_backed(kind));
    assert(slot_decision(policy, slots[at], query_enabled || !is_landlock_backed(kind)) is None);
}

/// A file that must not be read never gets a name under which it may be: not by
/// a link or a rename, and not by an exchange, whichever of the two it is.
pub proof fn law_denied_read_gets_no_readable_name(
    policy: AccessPolicy,
    kind: MutationSyscall,
    args: Seq<u64>,
    first: Slot,
    second: Slot,
    query_enabled: bool,
)
    requires
        reparents(kind) && policy::read_decision(policy, first.resolved@) is Some
            && policy::read_decision(policy, second.resolved@) is None || exchanges(kind, args)
            && policy::read_decision(policy, first.resolved@) is None && policy::read_decision(
            policy,
            second.resolved@,
        ) is Some,
    ensures
        call_verdict(
            policy,
            kind,
            args,
            seq![Some(first), Some(second)],
            query_enabled,
        ) is Denied,
{
}

/// The process makes a call itself only where nothing is denied below a write
/// root, the sandbox holds the call to the write roots, and no name is given
/// to a file under restricted reads.
pub proof fn law_continued_change_cannot_be_redirected(
    policy: AccessPolicy,
    kind: MutationSyscall,
    args: Seq<u64>,
    slots: Seq<Option<Slot>>,
    query_enabled: bool,
)
    requires
        call_verdict(policy, kind, args, slots, query_enabled) is Continue,
    ensures
        is_landlock_backed(kind),
        policy.write_denied_roots@.len() == 0,
        policy.write_denied_patterns@.len() == 0,
        policy.write_denied_links@.len() == 0,
        reparents(kind) ==> policy.read_access is Unrestricted,
{
}

/// The path that is told of a denied call was given by the process.
pub proof fn law_denied_path_was_given(
    policy: AccessPolicy,
    kind: MutationSyscall,
    args: Seq<u64>,
    slots: Seq<Option<Slot>>,
    query_enabled: bool,
)
    requires
        slots.len() <= usize::MAX,
        call_verdict(policy, kind, args, slots, query_enabled) is Denied,
    ensures
        call_verdict(policy, kind, args, slots, query_enabled)->Denied_0.index < slots.len(),
        slots[call_verdict(policy, kind, args, slots, query_enabled)->Denied_0.index as int] is Some,
{
    lemma_first_denied(policy, slots, 0, query_enabled || !is_landlock_backed(kind));
}

/// Each call that gives a file another name, by a link or a rename, keeps the
/// file out of sight: where the file must not be read and could be under its
/// new name, the call is denied. An exchange is denied in the other direction
/// too. Under restricted reads the process makes none of them itself.
pub proof fn law_each_renaming_call_hides_what_is_hidden(
    policy: AccessPolicy,
    kind: MutationSyscall,
    args: Seq<u64>,
    first: Slot,
    second: Slot,
    query_enabled: bool,
)
    requires
        kind == MutationSyscall::Link || kind == MutationSyscall::Linkat || kind
            == MutationSyscall::Rename || kind == MutationSyscall::Renameat || kind
            == MutationSyscall::Renameat2,
    ensures
        ({
            let verdict = call_verdict(
                policy,
                kind,
                args,
                seq![Some(first), Some(second)],
                query_enabled,
            );
            let hidden = policy::read_decision(policy, first.resolved@);
            let other = policy::read_decision(policy, second.resolved@);
            &&& hidden is Some && other is None ==> verdict is Denied
            &&& hidden is None && other is Some && kind == MutationSyscall::Renameat2 && (args[4]
                % 0x1_0000_0000) as u32 & 2 != 0 ==> verdict is Denied
            &&& policy.read_access is AllowRoots ==> !(verdict is Continue)
        }),
{
}

/// The first path of a call that must not be written to is the one that is told,
/// with its reason. That nothing allows it counts where the launcher can be
/// asked, and for every call that changes modes, owners, times or attributes.
pub proof fn law_first_path_that_must_not_be_written_is_told(
    policy: AccessPolicy,
    kind: MutationSyscall,
    args: Seq<u64>,
    slots: Seq<Option<Slot>>,
    query_enabled: bool,
    at: int,
    denied: DenialReason,
)
    requires
        slots.len() <= usize::MAX,
        0 <= at < slots.len(),
        slots[at] is Some,
        ({
            let surface = query_enabled || kind == MutationSyscall::Fchmodat || kind
                == MutationSyscall::Fchmodat2 || kind == MutationSyscall::Chmod || kind
                == MutationSyscall::Fchownat || kind == MutationSyscall::Chown || kind
                == MutationSyscall::Lchown || kind == MutationSyscall::Utimensat || kind
                == MutationSyscall::Setxattr || kind == MutationSyscall::Lsetxattr || kind
                == MutationSyscall::Removexattr || kind == MutationSyscall::Lremovexattr;
            &&& policy::write_decision(
                policy,
                slots[at]->0.resolved@,
                slots[at]->0.lexical@,
                surface,
            ) == Some(denied)
            &&& forall|i: int|
                0 <= i < at && (#[trigger] slots[i]) is Some ==> policy::write_decision(
                    policy,
                    slots[i]->0.resolved@,
                    slots[i]->0.lexical@,
                    surface,
                ) is None
        }),
    ensures
        call_verdict(policy, kind, args, slots, query_enabled) == MutationVerdict::Denied(
            SlotDenial { index: at as usize, reason: denied, operation: TrapOperation::Write },
        ),
{
    let surface = query_enabled || !is_landlock_backed(kind);
    assert forall|i: int| 0 <= i < at implies slot_decision(policy, #[trigger] slots[i], surface)
        is None by {}
    lemma_first_denied_at(policy, slots, 0, at as nat, surface);
}

proof fn lemma_first_denied_at(
    policy: AccessPolicy,
    slots: Seq<Option<Slot>>,
    from: nat,
    at: nat,
    surface: bool,
)
    requires
        from <= at < slots.len() <= usize::MAX,
        slot_decision(policy, slots[at as int], surface) is Some,
        forall|i: int|
            from <= i < at ==> slot_decision(policy, #[trigger] slots[i], surface) is None,
    ensures
        first_denied(policy, slots, from, surface) == Some(
            SlotDenial {
                index: at as usize,
                reason: slot_decision(policy, slots[at as int], surface)->0,
                operation: TrapOperation::Write,
            },
        ),
    decreases at - from,
{
    if from < at {
        lemma_first_denied_at(policy, slots, from + 1, at, surface);
    }
}

/// A call whose paths may all be written to and read passes. The broker makes
/// it where anything is denied to writing, where it changes modes, owners,
/// times or attributes, and where it gives a file another name under restricted
/// reads. Otherwise the process does.
pub proof fn law_allowed_change_passes(
    policy: AccessPolicy,
    kind: MutationSyscall,
    args: Seq<u64>,
    slots: Seq<Option<Slot>>,
    query_enabled: bool,
)
    requires
        slots.len() <= usize::MAX,
        forall|i: int|
            0 <= i < slots.len() && (#[trigger] slots[i]) is Some ==> policy::write_decision(
                policy,
                slots[i]->0.resolved@,
                slots[i]->0.lexical@,
                true,
            ) is None && policy::read_decision(policy, slots[i]->0.resolved@) is None,
    ensures
        ({
            let metadata = kind == MutationSyscall::Fchmodat || kind == MutationSyscall::Fchmodat2
                || kind == MutationSyscall::Chmod || kind == MutationSyscall::Fchownat || kind
                == MutationSyscall::Chown || kind == MutationSyscall::Lchown || kind
                == MutationSyscall::Utimensat || kind == MutationSyscall::Setxattr || kind
                == MutationSyscall::Lsetxattr || kind == MutationSyscall::Removexattr || kind
                == MutationSyscall::Lremovexattr;
            let names = kind == MutationSyscall::Link || kind == MutationSyscall::Linkat || kind
                == MutationSyscall::Rename || kind == MutationSyscall::Renameat || kind
                == MutationSyscall::Renameat2;
            call_verdict(policy, kind, args, slots, query_enabled) == (
            if policy.write_denied_roots@.len() > 0 || policy.write_denied_patterns@.len() > 0
                || policy.write_denied_links@.len() > 0 || metadata || (names
                && policy.read_access is AllowRoots) {
                MutationVerdict::Pin
            } else {
                MutationVerdict::Continue
            })
        }),
{
    let surface = query_enabled || !is_landlock_backed(kind);
    assert forall|i: int| 0 <= i < slots.len() implies slot_decision(
        policy,
        #[trigger] slots[i],
        surface,
    ) is None by {
        if slots[i] is Some {
            assert(policy::write_decision(
                policy,
                slots[i]->0.resolved@,
                slots[i]->0.lexical@,
                true,
            ) is None);
        }
    }
    lemma_nothing_denied(policy, slots, 0, surface);
    assert(slots.len() > 0 ==> slot_readable(policy, slots, 0));
    assert(slots.len() > 1 ==> slot_readable(policy, slots, 1));
}

proof fn lemma_nothing_denied(
    policy: AccessPolicy,
    slots: Seq<Option<Slot>>,
    at: nat,
    surface: bool,
)
    requires
        forall|i: int|
            at <= i < slots.len() ==> slot_decision(policy, #[trigger] slots[i], surface) is None,
    ensures
        first_denied(policy, slots, at, surface) is None,
    decreases slots.len() - at,
{
    if at < slots.len() {
        lemma_nothing_denied(policy, slots, at + 1, surface);
    }
}

/// A call that names a file in a directory takes its path from the register
/// after the directory's. One that has two paths has two such pairs, and one
/// without a directory starts from the working directory. A new link's target
/// is not one of the paths.
pub proof fn law_paths_stand_where_the_calls_put_them(kind: MutationSyscall)
    ensures
        kind == MutationSyscall::Renameat2 || kind == MutationSyscall::Renameat || kind
            == MutationSyscall::Linkat ==> path_registers(kind).len() == 2 && path_registers(kind)[0]
            == (Some(0usize), 1usize) && path_registers(kind)[1] == (Some(2usize), 3usize),
        kind == MutationSyscall::Rename || kind == MutationSyscall::Link ==> path_registers(
            kind,
        ).len() == 2 && path_registers(kind)[0] == (None::<usize>, 0usize) && path_registers(
            kind,
        )[1] == (None::<usize>, 1usize),
        kind == MutationSyscall::Symlinkat ==> path_registers(kind).len() == 1 && path_registers(
            kind,
        )[0] == (Some(1usize), 2usize),
        kind == MutationSyscall::Symlink ==> path_registers(kind).len() == 1 && path_registers(
            kind,
        )[0] == (None::<usize>, 1usize),
        kind == MutationSyscall::Unlinkat || kind == MutationSyscall::Mkdirat || kind
            == MutationSyscall::Mknodat || kind == MutationSyscall::Fchmodat || kind
            == MutationSyscall::Fchmodat2 || kind == MutationSyscall::Fchownat || kind
            == MutationSyscall::Utimensat ==> path_registers(kind).len() == 1 && path_registers(
            kind,
        )[0] == (Some(0usize), 1usize),
        kind == MutationSyscall::Truncate || kind == MutationSyscall::Setxattr || kind
            == MutationSyscall::Lsetxattr || kind == MutationSyscall::Removexattr || kind
            == MutationSyscall::Lremovexattr || kind == MutationSyscall::Unlink || kind
            == MutationSyscall::Rmdir || kind == MutationSyscall::Mkdir || kind
            == MutationSyscall::Mknod || kind == MutationSyscall::Creat || kind
            == MutationSyscall::Chmod || kind == MutationSyscall::Chown || kind
            == MutationSyscall::Lchown ==> path_registers(kind).len() == 1 && path_registers(kind)[0]
            == (None::<usize>, 0usize),
{
}

/// A call is about a link itself where it removes or links a name, where its
/// name says so, and where its flags do. Every other call is about what the
/// link leads to.
pub proof fn law_calls_about_links_spare_what_they_lead_to(
    kind: MutationSyscall,
    args: Seq<u64>,
)
    ensures
        kind == MutationSyscall::Unlink || kind == MutationSyscall::Unlinkat || kind
            == MutationSyscall::Rmdir || kind == MutationSyscall::Link || kind
            == MutationSyscall::Lchown || kind == MutationSyscall::Lsetxattr || kind
            == MutationSyscall::Lremovexattr ==> spares_links(kind, args),
        kind == MutationSyscall::Fchownat ==> spares_links(kind, args) == (registers::int_register(
            args[4],
        ) & 0x100 != 0),
        kind == MutationSyscall::Fchmodat || kind == MutationSyscall::Fchmodat2 || kind
            == MutationSyscall::Utimensat ==> spares_links(kind, args) == (registers::int_register(
            args[3],
        ) & 0x100 != 0),
        kind == MutationSyscall::Linkat ==> spares_links(kind, args) == (registers::int_register(
            args[4],
        ) & 0x400 == 0),
        kind == MutationSyscall::Chown || kind == MutationSyscall::Chmod || kind
            == MutationSyscall::Setxattr || kind == MutationSyscall::Removexattr || kind
            == MutationSyscall::Truncate || kind == MutationSyscall::Creat || kind
            == MutationSyscall::Mkdir || kind == MutationSyscall::Mkdirat || kind
            == MutationSyscall::Mknod || kind == MutationSyscall::Mknodat || kind
            == MutationSyscall::Symlink || kind == MutationSyscall::Symlinkat || kind
            == MutationSyscall::Rename || kind == MutationSyscall::Renameat || kind
            == MutationSyscall::Renameat2 ==> !spares_links(kind, args),
{
}

/// What a change acts on follows from what it does: entries of a directory by
/// name, both names of a rename or a link, the file that is held for what
/// changes a file, and the link itself for an owner or times that were meant
/// for a link.
pub proof fn law_changes_act_on_what_they_name<H>(grant: MutationGrant<H>)
    ensures
        grant.op is Mkdir || grant.op is Mknod || grant.op is Unlink || grant.op is Symlink
            ==> acts_on(grant) == ActsOn::Name,
        grant.op is Rename || grant.op is Link ==> acts_on(grant) == ActsOn::TwoNames
            && anchors_needed(acts_on(grant)) == 2,
        grant.op is Truncate || grant.op is Chmod || grant.op is SetXattr
            || grant.op is RemoveXattr ==> acts_on(grant) == ActsOn::Held && anchors_needed(
            acts_on(grant),
        ) == 1,
        (grant.op is Chown || grant.op is Utimes) && !grant.no_follow ==> acts_on(grant)
            == ActsOn::Held,
        grant.op is UtimesFd ==> acts_on(grant) == ActsOn::Descriptor,
{
}

/// A call is made as it was asked for: with the mode, the owner, the length, the
/// device or the flags in the registers where that call puts them.
pub proof fn law_calls_are_made_as_they_were_asked_for<H>(
    layout: TimeLayout,
    args: Seq<u64>,
)
    requires
        args.len() == 6,
        forall|i: int| 0 <= i < 6 ==> #[trigger] args[i] <= 0x7fff_ffff,
    ensures
        op_of::<H>(layout, MutationSyscall::Creat, args) == Ok::<_, BrokerError>(
            OpNeed::<H>::Create { mode: args[1] as u32 },
        ),
        op_of::<H>(layout, MutationSyscall::Mkdir, args) == Ok::<_, BrokerError>(
            OpNeed::Ready(MutationOp::<H>::Mkdir { mode: args[1] as u32 }),
        ),
        op_of::<H>(layout, MutationSyscall::Mkdirat, args) == Ok::<_, BrokerError>(
            OpNeed::Ready(MutationOp::<H>::Mkdir { mode: args[2] as u32 }),
        ),
        op_of::<H>(layout, MutationSyscall::Mknod, args) == Ok::<_, BrokerError>(
            OpNeed::Ready(MutationOp::<H>::Mknod { mode: args[1] as u32, dev: args[2] }),
        ),
        op_of::<H>(layout, MutationSyscall::Mknodat, args) == Ok::<_, BrokerError>(
            OpNeed::Ready(MutationOp::<H>::Mknod { mode: args[2] as u32, dev: args[3] }),
        ),
        op_of::<H>(layout, MutationSyscall::Unlink, args) == Ok::<_, BrokerError>(
            OpNeed::Ready(MutationOp::<H>::Unlink { flags: 0 }),
        ),
        op_of::<H>(layout, MutationSyscall::Rmdir, args) == Ok::<_, BrokerError>(
            OpNeed::Ready(MutationOp::<H>::Unlink { flags: 0x200 }),
        ),
        op_of::<H>(layout, MutationSyscall::Unlinkat, args) == Ok::<_, BrokerError>(
            OpNeed::Ready(MutationOp::<H>::Unlink { flags: args[2] as i32 }),
        ),
        op_of::<H>(layout, MutationSyscall::Rename, args) == Ok::<_, BrokerError>(
            OpNeed::Ready(MutationOp::<H>::Rename { flags: 0 }),
        ),
        op_of::<H>(layout, MutationSyscall::Renameat, args) == Ok::<_, BrokerError>(
            OpNeed::Ready(MutationOp::<H>::Rename { flags: 0 }),
        ),
        op_of::<H>(layout, MutationSyscall::Renameat2, args) == Ok::<_, BrokerError>(
            OpNeed::Ready(MutationOp::<H>::Rename { flags: args[4] as u32 }),
        ),
        op_of::<H>(layout, MutationSyscall::Link, args) == Ok::<_, BrokerError>(
            OpNeed::Ready(MutationOp::<H>::Link { flags: 0 }),
        ),
        op_of::<H>(layout, MutationSyscall::Linkat, args) == Ok::<_, BrokerError>(
            OpNeed::Ready(MutationOp::<H>::Link { flags: args[4] as i32 }),
        ),
        op_of::<H>(layout, MutationSyscall::Truncate, args) == Ok::<_, BrokerError>(
            OpNeed::Ready(MutationOp::<H>::Truncate { length: args[1] as i64 }),
        ),
        op_of::<H>(layout, MutationSyscall::Chmod, args) == Ok::<_, BrokerError>(
            OpNeed::Ready(MutationOp::<H>::Chmod { mode: args[1] as u32 }),
        ),
        op_of::<H>(layout, MutationSyscall::Fchmodat, args) == Ok::<_, BrokerError>(
            OpNeed::Ready(MutationOp::<H>::Chmod { mode: args[2] as u32 }),
        ),
        op_of::<H>(layout, MutationSyscall::Fchmodat2, args) == Ok::<_, BrokerError>(
            OpNeed::Ready(MutationOp::<H>::Chmod { mode: args[2] as u32 }),
        ),
        op_of::<H>(layout, MutationSyscall::Chown, args) == Ok::<_, BrokerError>(
            OpNeed::Ready(MutationOp::<H>::Chown { uid: args[1] as u32, gid: args[2] as u32 }),
        ),
        op_of::<H>(layout, MutationSyscall::Lchown, args) == Ok::<_, BrokerError>(
            OpNeed::Ready(MutationOp::<H>::Chown { uid: args[1] as u32, gid: args[2] as u32 }),
        ),
        op_of::<H>(layout, MutationSyscall::Fchownat, args) == Ok::<_, BrokerError>(
            OpNeed::Ready(MutationOp::<H>::Chown { uid: args[2] as u32, gid: args[3] as u32 }),
        ),
        args[2] == 0 ==> op_of::<H>(layout, MutationSyscall::Utimensat, args) == Ok::<
            _,
            BrokerError,
        >(OpNeed::Ready(MutationOp::<H>::Utimes { times: None })),
        args[2] > 0 ==> op_of::<H>(layout, MutationSyscall::Utimensat, args) == Ok::<
            _,
            BrokerError,
        >(
            OpNeed::<H>::Times(
                MemoryRead {
                    base: args[2] as usize,
                    len: if layout is Words && usize::BITS == 32 {
                        16
                    } else {
                        32
                    },
                },
            ),
        ),
        args[0] > 0 ==> op_of::<H>(layout, MutationSyscall::Symlink, args) == Ok::<_, BrokerError>(
            OpNeed::<H>::Target(Some(MemoryRead { base: args[0] as usize, len: 4096 })),
        ) && op_of::<H>(layout, MutationSyscall::Symlinkat, args) == op_of::<H>(
            layout,
            MutationSyscall::Symlink,
            args,
        ),
        args[1] > 0 ==> op_of::<H>(layout, MutationSyscall::Setxattr, args) == Ok::<_, BrokerError>(
            OpNeed::<H>::SetName(Some(MemoryRead { base: args[1] as usize, len: 4096 })),
        ) && op_of::<H>(layout, MutationSyscall::Lsetxattr, args) == op_of::<H>(
            layout,
            MutationSyscall::Setxattr,
            args,
        ),
        args[1] > 0 ==> op_of::<H>(layout, MutationSyscall::Removexattr, args) == Ok::<
            _,
            BrokerError,
        >(
            OpNeed::<H>::RemoveName(Some(MemoryRead { base: args[1] as usize, len: 4096 })),
        ) && op_of::<H>(layout, MutationSyscall::Lremovexattr, args) == op_of::<H>(
            layout,
            MutationSyscall::Removexattr,
            args,
        ),
{
    assert(usize::MAX >= 0xffff_ffff);
    assert(args[0] <= 0x7fff_ffff && args[1] <= 0x7fff_ffff && args[2] <= 0x7fff_ffff);
    assert(args[3] <= 0x7fff_ffff && args[4] <= 0x7fff_ffff && args[5] <= 0x7fff_ffff);
    registers::law_int_registers_keep_their_sign(args[2]);
    registers::law_int_registers_keep_their_sign(args[4]);
}

/// A call is known by the first entry with its number, and by none where no
/// entry has it. Each has the name that the kernel knows it by.
pub proof fn law_changes_are_known_by_their_numbers(
    numbers: Seq<MutationNumber>,
    syscall: i64,
    at: int,
)
    ensures
        0 <= at < numbers.len() && numbers[at].nr == syscall && (forall|i: int|
            0 <= i < at ==> (#[trigger] numbers[i]).nr != syscall) ==> kind_of(numbers, syscall)
            == Some(numbers[at].kind),
        (forall|i: int| 0 <= i < numbers.len() ==> (#[trigger] numbers[i]).nr != syscall)
            ==> kind_of(numbers, syscall) is None,
    decreases numbers.len(),
{
    if numbers.len() > 0 && numbers[0].nr != syscall {
        let rest = numbers.skip(1);
        assert(forall|i: int| 0 <= i < rest.len() ==> #[trigger] rest[i] == numbers[i + 1]);
        law_changes_are_known_by_their_numbers(rest, syscall, at - 1);
    }
}

/// A path of a call is read from its register, from the directory in the other
/// or from the working directory. One at null is none.
pub proof fn law_paths_are_read_from_their_registers(
    args: Seq<u64>,
    registers: PathRegisters,
)
    requires
        args.len() == 6,
        registers.1 < 6,
        registers.0 matches Some(dirfd) ==> dirfd < 6,
    ensures
        args[registers.1 as int] > usize::MAX ==> slot_request(args, registers) == Err::<
            SlotRequest,
            _,
        >(BrokerError::BadAddress),
        args[registers.1 as int] <= usize::MAX ==> (slot_request(args, registers) matches Ok(
            request,
        ) && (registers.0 is None ==> request.dirfd == -100) && (registers.0 is Some
            ==> request.dirfd == registers::int_register(args[registers.0->0 as int])) && (args[
        registers.1 as int] == 0 ==> request.path is None) && (args[registers.1 as int] > 0
            ==> request.path == Some(
            MemoryRead { base: args[registers.1 as int] as usize, len: 4096 },
        ))),
{
}

/// A denied change is told as what it is: a question about the very call where
/// the launcher can be asked, with what is made on approval, and otherwise a
/// record and a refusal.
pub proof fn law_denied_changes_are_asked_about_or_recorded<H>(
    denial: FilesystemDenial,
    grant: Option<Result<Option<Grant<H>>, BrokerError>>,
    query_enabled: bool,
    query_id: u64,
    next: u64,
    before: Seq<Denial>,
    after: Seq<Denial>,
    result: Handled<H>,
)
    requires
        denial_answered(
            denial,
            grant,
            query_enabled,
            query_id,
            next,
            before,
            after,
            result,
        ),
        query_enabled ==> grant is Some,
    ensures
        !query_enabled ==> result == Err::<NotificationResult<H>, _>(BrokerError::PolicyDenied)
            && next == query_id && denials::holds(after, Denial::Filesystem(denial)),
        query_enabled ==> next == query_id + 1 && after == before,
        query_enabled && grant->0 is Err ==> result == Err::<NotificationResult<H>, _>(
            grant->0->Err_0,
        ),
        query_enabled && grant->0 is Ok ==> result is Ok && result->Ok_0 is Query
            && result->Ok_0->Query_0.query_id == query_id && result->Ok_0->Query_0.grant
            == grant->0->Ok_0 && result->Ok_0->Query_0.trap is Filesystem
            && result->Ok_0->Query_0.trap->Filesystem_0.path@ == crate::text::shown(denial.path@)
            && result->Ok_0->Query_0.trap->Filesystem_0.operation == denial.operation,
{
    denials::law_repeated_denial_is_listed_once(before, Denial::Filesystem(denial));
}

/// A call is about a descriptor where it changes times without a path. It makes
/// a directory where its name says so, and a file that is created is emptied and
/// opened for writing.
pub proof fn law_special_calls_are_told_by_their_kind(
    kind: MutationSyscall,
    args: Seq<u64>,
    known: OpenFlags,
)
    ensures
        changes_descriptor_times(kind, args) <==> kind == MutationSyscall::Utimensat && args[1]
            == 0,
        makes_directory(kind) <==> kind == MutationSyscall::Mkdir || kind
            == MutationSyscall::Mkdirat,
        creat_flags(known) & known.create == known.create,
        creat_flags(known) & known.truncate == known.truncate,
        creat_flags(known) & sys::O_WRONLY == sys::O_WRONLY,
        pin_flags(known) & known.path == known.path,
        pin_flags(known) & known.close_on_exec == known.close_on_exec,
{
    let create = known.create;
    let truncate = known.truncate;
    let path = known.path;
    let no_follow = known.no_follow;
    let close = known.close_on_exec;
    assert((create | 1i32 | truncate) & create == create && (create | 1i32 | truncate) & truncate
        == truncate && (create | 1i32 | truncate) & 1i32 == 1i32 && (path | no_follow | close)
        & path == path && (path | no_follow | close) & close == close) by (bit_vector);
}

/// Each call is told by the name that the kernel has for it.
pub proof fn law_changes_are_told_by_their_names()
    ensures
        kind_text(MutationSyscall::Renameat2) == "renameat2"@,
        kind_text(MutationSyscall::Renameat) == "renameat"@,
        kind_text(MutationSyscall::Linkat) == "linkat"@,
        kind_text(MutationSyscall::Symlinkat) == "symlinkat"@,
        kind_text(MutationSyscall::Unlinkat) == "unlinkat"@,
        kind_text(MutationSyscall::Mkdirat) == "mkdirat"@,
        kind_text(MutationSyscall::Mknodat) == "mknodat"@,
        kind_text(MutationSyscall::Truncate) == "truncate"@,
        kind_text(MutationSyscall::Fchmodat) == "fchmodat"@,
        kind_text(MutationSyscall::Fchmodat2) == "fchmodat2"@,
        kind_text(MutationSyscall::Fchownat) == "fchownat"@,
        kind_text(MutationSyscall::Utimensat) == "utimensat"@,
        kind_text(MutationSyscall::Setxattr) == "setxattr"@,
        kind_text(MutationSyscall::Lsetxattr) == "lsetxattr"@,
        kind_text(MutationSyscall::Removexattr) == "removexattr"@,
        kind_text(MutationSyscall::Lremovexattr) == "lremovexattr"@,
        kind_text(MutationSyscall::Rename) == "rename"@,
        kind_text(MutationSyscall::Link) == "link"@,
        kind_text(MutationSyscall::Symlink) == "symlink"@,
        kind_text(MutationSyscall::Unlink) == "unlink"@,
        kind_text(MutationSyscall::Rmdir) == "rmdir"@,
        kind_text(MutationSyscall::Mkdir) == "mkdir"@,
        kind_text(MutationSyscall::Mknod) == "mknod"@,
        kind_text(MutationSyscall::Creat) == "creat"@,
        kind_text(MutationSyscall::Chmod) == "chmod"@,
        kind_text(MutationSyscall::Chown) == "chown"@,
        kind_text(MutationSyscall::Lchown) == "lchown"@,
{
}

/// A path that is not given lifts no denial: a file that must not be read gets
/// no other name by a call that does not say which, and a path that is given is
/// looked at wherever it stands.
pub proof fn law_missing_paths_lift_no_denial(
    policy: AccessPolicy,
    kind: MutationSyscall,
    args: Seq<u64>,
    given: Slot,
    query_enabled: bool,
)
    requires
        policy::read_decision(policy, given.resolved@) is Some,
    ensures
        kind == MutationSyscall::Link || kind == MutationSyscall::Linkat || kind
            == MutationSyscall::Rename || kind == MutationSyscall::Renameat || kind
            == MutationSyscall::Renameat2 ==> call_verdict(
            policy,
            kind,
            args,
            seq![Some(given), None],
            query_enabled,
        ) is Denied,
        kind == MutationSyscall::Renameat2 && (args[4] % 0x1_0000_0000) as u32 & 2 != 0
            ==> call_verdict(policy, kind, args, seq![None, Some(given)], query_enabled) is Denied,
{
}

/// Where a call is denied because it would give a hidden file a readable name,
/// the hidden file is told, as a read, with the reason for which it is hidden.
pub proof fn law_the_hidden_file_is_told(
    policy: AccessPolicy,
    kind: MutationSyscall,
    args: Seq<u64>,
    first: Slot,
    second: Slot,
    query_enabled: bool,
    reason: DenialReason,
)
    requires
        policy::write_decision(policy, first.resolved@, first.lexical@, true) is None,
        policy::write_decision(policy, second.resolved@, second.lexical@, true) is None,
    ensures
        (kind == MutationSyscall::Link || kind == MutationSyscall::Linkat || kind
            == MutationSyscall::Rename || kind == MutationSyscall::Renameat || kind
            == MutationSyscall::Renameat2) && policy::read_decision(policy, first.resolved@)
            == Some(reason) && policy::read_decision(policy, second.resolved@) is None
            ==> call_verdict(
            policy,
            kind,
            args,
            seq![Some(first), Some(second)],
            query_enabled,
        ) == MutationVerdict::Denied(
            SlotDenial { index: 0, reason, operation: TrapOperation::Read },
        ),
        kind == MutationSyscall::Renameat2 && (args[4] % 0x1_0000_0000) as u32 & 2 != 0
            && policy::read_decision(policy, second.resolved@) == Some(reason)
            && policy::read_decision(policy, first.resolved@) is None ==> call_verdict(
            policy,
            kind,
            args,
            seq![Some(first), Some(second)],
            query_enabled,
        ) == MutationVerdict::Denied(
            SlotDenial { index: 1, reason, operation: TrapOperation::Read },
        ),
{
    let slots = seq![Some(first), Some(second)];
    let surface = query_enabled || !is_landlock_backed(kind);
    assert forall|i: int| 0 <= i < slots.len() implies slot_decision(
        policy,
        #[trigger] slots[i],
        surface,
    ) is None by {
        assert(slots[i] == Some(first) || slots[i] == Some(second));
    }
    lemma_nothing_denied(policy, slots, 0, surface);
}

} // verus!
