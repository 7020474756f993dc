use landstrip::broker::address::BrokerError;
use landstrip::broker::denials::Denials;
use landstrip::broker::grant::{
    Anchor, FileTimes, Grant, MutationGrant, MutationOp, NotificationResult, OpenGrant, OpenKind,
};
use landstrip::broker::machine::{
    CountWidth, ErrorNumbers, Machine, OpenFlags, SocketTypes, TimeLayout,
};
use landstrip::broker::memory::{MemoryRead, PATH_MAX};
use landstrip::broker::mutation::{
    check, check_mkdir, creat_open_flags, decide_mutation, deny_mutation, exchange_read_denial, fd_utimensat_request,
    handle_fd_utimensat, handle_mutation, is_fd_utimensat, mkdir_stat_flags, mutation_grant,
    mutation_kind, mutation_path, mutation_route, name_flags, next_anchor, pin_target, pinned,
    reparent_read_denial, run_mutation, setxattr_op, setxattr_value, times_read, ActsOn,
    AnchorStep, FdTimesRequest, MutationNumber, MutationSyscall, MutationRoute, MutationVerdict, NormalForm, OpNeed, Slot,
    SlotDenial, SlotRequest,
};
use landstrip::broker::open::{
    anchor_parts, broker_open, check_exists, create_bits, deny_open, grant_open, handle_openat,
    is_c_string, open_flag_names, open_request, reopen_bits, resolve_child_path, Open,
    OpenDenial, OpenHow, OpenPin, OpenVerdict, PathStart,
};
use landstrip::broker::registers::{words_len, ByteOrder};
use landstrip::broker::syscalls::NotificationSyscalls;
use landstrip::policy::{
    AccessPolicy, AppContainerMode, DenialReason, NetworkAccess, ReadAccess,
};
use landstrip::trap::{ProcessContext, Trap, TrapOperation};

/// A little-endian machine with the numbers of this one.
const MACHINE: Machine = Machine {
    order: ByteOrder::Little,
    counts: CountWidth::Word,
    times: TimeLayout::Words,
    open: OpenFlags {
        access_mode: libc::O_ACCMODE,
        create: libc::O_CREAT,
        exclusive: libc::O_EXCL,
        truncate: libc::O_TRUNC,
        append: libc::O_APPEND,
        close_on_exec: libc::O_CLOEXEC,
        path: libc::O_PATH,
        no_follow: libc::O_NOFOLLOW,
    },
    sockets: SocketTypes { stream: libc::SOCK_STREAM, datagram: libc::SOCK_DGRAM },
    errors: ErrorNumbers {
        eafnosupport: libc::EAFNOSUPPORT,
        emsgsize: libc::EMSGSIZE,
        enametoolong: libc::ENAMETOOLONG,
        enobufs: libc::ENOBUFS,
        enosys: libc::ENOSYS,
        enotconn: libc::ENOTCONN,
        eopnotsupp: libc::EOPNOTSUPP,
    },
};

fn roots(list: &[&str]) -> Vec<Vec<u8>> {
    list.iter().map(|text| text.as_bytes().to_vec()).collect()
}

fn policy() -> AccessPolicy {
    AccessPolicy {
        write_roots: roots(&["/work"]),
        write_denied_roots: roots(&["/work/no"]),
        write_denied_patterns: Vec::new(),
        write_denied_links: Vec::new(),
        read_access: ReadAccess::AllowRoots(roots(&["/work", "/usr"])),
        read_denied_roots: roots(&["/work/secret"]),
        read_reopened_roots: Vec::new(),
        read_symlinks: Vec::new(),
        network_access: NetworkAccess::Unrestricted,
        app_container_mode: AppContainerMode { name: "lpac".to_string() },
        allow_windows_loopback: false,
    }
}

fn plain_policy() -> AccessPolicy {
    let mut policy = policy();
    policy.write_denied_roots = Vec::new();
    policy.read_access = ReadAccess::Unrestricted;
    policy.read_denied_roots = Vec::new();
    policy
}

fn calls() -> NotificationSyscalls {
    NotificationSyscalls {
        bind: 49,
        connect: 42,
        socket: 41,
        io_uring_setup: 425,
        sendto: 44,
        sendmsg: 46,
        sendmmsg: 307,
        openat: 257,
        openat2: 437,
        open: Some(2),
        name_to_handle_at: 303,
        open_by_handle_at: 304,
    }
}

fn process() -> ProcessContext {
    ProcessContext { pid: 7, exe: None, cwd: None }
}

const AT_FDCWD: u64 = 0xffff_ff9c;

#[test]
fn an_open_is_read_from_its_registers() {
    let request = open_request(&calls(), 257, &[AT_FDCWD, 0x1000, 0x41, 0o644, 0, 0], 7).unwrap();
    assert_eq!(request.pid, 7);
    assert_eq!(request.dirfd, libc::AT_FDCWD);
    assert_eq!(request.how, OpenHow::Known(Open { flags: 0x41, mode: 0o644 }));
    assert_eq!(request.path, Some(MemoryRead { base: 0x1000, len: PATH_MAX }));
    assert_eq!(request.syscall, "openat");

    let request = open_request(&calls(), 2, &[0x1000, 1, 0o600, 0, 0, 0], 7).unwrap();
    assert_eq!(request.dirfd, libc::AT_FDCWD);
    assert_eq!(request.how, OpenHow::Known(Open { flags: 1, mode: 0o600 }));
    assert_eq!(request.syscall, "open");

    let request = open_request(&calls(), 437, &[5, 0, 0x2000, 64, 0, 0], 7).unwrap();
    assert_eq!(request.dirfd, 5);
    assert_eq!(request.how, OpenHow::Read(MemoryRead { base: 0x2000, len: 24 }));
    assert_eq!(request.path, None);
    assert_eq!(request.syscall, "openat2");

    assert!(matches!(
        open_request(&calls(), 437, &[5, 1, 0, 24, 0, 0], 7),
        Err(BrokerError::BadAddress)
    ));
    assert!(matches!(
        open_request(&calls(), 257, &[5, 1, 0x8000_0000, 0, 0, 0], 7),
        Err(BrokerError::InvalidAddress)
    ));
    assert!(matches!(
        open_request(&calls(), 257, &[5, 1, 0, 0, 0, 0], 0x8000_0000),
        Err(BrokerError::InvalidAddress)
    ));
}

#[test]
fn an_open_is_read_from_memory() {
    let mut how = Vec::new();
    how.extend_from_slice(&0x241u64.to_le_bytes());
    how.extend_from_slice(&0o600u64.to_le_bytes());
    assert_eq!(Open::from_how(ByteOrder::Little, &how), Ok(Open { flags: 0x241, mode: 0o600 }));
    assert_eq!(Open::from_how(ByteOrder::Little, &how[..15]), Err(BrokerError::BadAddress));
    how[4] = 1;
    assert_eq!(Open::from_how(ByteOrder::Little, &how), Err(BrokerError::InvalidAddress));
}

#[test]
fn a_path_starts_where_the_call_says() {
    match resolve_child_path(7, 5, b"/proc/self/fd/3") {
        PathStart::Known(path) => assert_eq!(path, b"/proc/7/fd/3"),
        _ => panic!("not known"),
    }
    match resolve_child_path(7, 5, b"/proc//self/fd//3/") {
        PathStart::Known(path) => assert_eq!(path, b"/proc/7/fd//3"),
        _ => panic!("not known"),
    }
    match resolve_child_path(7, 5, b"/proc/selfish") {
        PathStart::Known(path) => assert_eq!(path, b"/proc/selfish"),
        _ => panic!("not known"),
    }
    assert!(matches!(resolve_child_path(7, libc::AT_FDCWD, b"x"), PathStart::WorkingDirectory));
    assert!(matches!(resolve_child_path(7, 5, b"x"), PathStart::Descriptor(5)));
}

#[test]
fn opens_are_checked_for_writing_and_reading() {
    let verdict = |flags, path: &[u8]| handle_openat(&policy(), &MACHINE.open, flags, path, path);
    assert_eq!(verdict(libc::O_RDONLY, b"/work/a"), OpenVerdict::Open);
    assert_eq!(verdict(libc::O_WRONLY | libc::O_CREAT, b"/work/a"), OpenVerdict::Open);
    assert_eq!(verdict(libc::O_PATH, b"/work/a"), OpenVerdict::Continue);
    assert_eq!(
        verdict(libc::O_WRONLY, b"/work/no/a"),
        OpenVerdict::Denied {
            operation: TrapOperation::Write,
            reason: DenialReason::DenyMatch,
            report: false,
            must_exist: true,
        }
    );
    assert_eq!(
        verdict(libc::O_WRONLY | libc::O_CREAT, b"/etc/a"),
        OpenVerdict::Denied {
            operation: TrapOperation::Write,
            reason: DenialReason::AllowMiss,
            report: true,
            must_exist: false,
        }
    );
    assert_eq!(
        verdict(libc::O_RDWR, b"/work/secret/a"),
        OpenVerdict::Denied {
            operation: TrapOperation::Read,
            reason: DenialReason::DenyMatch,
            report: true,
            must_exist: true,
        }
    );
    assert_eq!(verdict(libc::O_WRONLY, b"/work/secret/a"), OpenVerdict::Open);
    assert_eq!(
        verdict(libc::O_PATH, b"/etc/a"),
        OpenVerdict::Denied {
            operation: TrapOperation::Read,
            reason: DenialReason::AllowMiss,
            report: true,
            must_exist: true,
        }
    );
    assert_eq!(check_exists(true, Ok(false)), Err(BrokerError::SystemCall { errno: libc::ENOENT }));
    assert_eq!(check_exists(true, Ok(true)), Ok(()));
    assert_eq!(check_exists(false, Ok(false)), Ok(()));
    assert_eq!(check_exists(true, Err(BrokerError::BadAddress)), Err(BrokerError::BadAddress));
}

#[test]
fn open_flags_are_named_and_kept() {
    assert_eq!(open_flag_names(&MACHINE.open, 0), vec!["O_RDONLY"]);
    assert_eq!(
        open_flag_names(&MACHINE.open, libc::O_RDWR | libc::O_CREAT | libc::O_TRUNC | libc::O_APPEND),
        vec!["O_RDWR", "O_CREAT", "O_TRUNC", "O_APPEND"]
    );
    assert_eq!(open_flag_names(&MACHINE.open, libc::O_WRONLY), vec!["O_WRONLY"]);
    let all = libc::O_CREAT | libc::O_EXCL | libc::O_NOFOLLOW | libc::O_TRUNC | libc::O_WRONLY;
    assert_eq!(
        reopen_bits(&MACHINE.open, all),
        libc::O_TRUNC | libc::O_WRONLY | libc::O_CLOEXEC
    );
    assert_eq!(
        create_bits(&MACHINE.open, libc::O_CREAT),
        libc::O_CREAT | libc::O_NOFOLLOW | libc::O_CLOEXEC
    );
}

#[test]
fn an_open_is_pinned_before_it_is_made() {
    let ready = match OpenGrant::pin(libc::O_CREAT, Ok(3)) {
        OpenPin::Ready(grant) => grant,
        _ => panic!("not ready"),
    };
    assert!(matches!(ready.kind, OpenKind::Reopen(3)));
    assert_eq!(broker_open(&MACHINE.open, &ready), libc::O_CLOEXEC);
    assert_eq!(grant_open(&MACHINE.open, &ready), 0);
    assert!(matches!(OpenGrant::<i32>::pin(0, Err(libc::ENOENT)), OpenPin::NeedsAnchor));
    assert!(matches!(OpenGrant::<i32>::pin(0, Err(libc::EACCES)), OpenPin::Failed(libc::EACCES)));
    let made = OpenGrant::create(
        libc::O_CREAT | libc::O_CLOEXEC,
        Anchor { dir: 4, name: b"x".to_vec() },
        0o600,
    );
    assert_eq!(
        broker_open(&MACHINE.open, &made),
        libc::O_CREAT | libc::O_CLOEXEC | libc::O_NOFOLLOW
    );
    assert_eq!(grant_open(&MACHINE.open, &made), u32::try_from(libc::O_CLOEXEC).unwrap());
    assert_eq!(anchor_parts(b"/work/x"), Ok((b"/work".to_vec(), b"x".to_vec())));
    assert_eq!(anchor_parts(b"/work//a//x"), Ok((b"/work//a".to_vec(), b"x".to_vec())));
    assert_eq!(anchor_parts(b"/"), Err(libc::EINVAL));
    assert_eq!(anchor_parts(b"/work/x\0y"), Err(libc::EINVAL));
    assert!(is_c_string(b"x"));
    assert!(!is_c_string(b"x\0"));
}

fn denial(report: bool) -> OpenDenial {
    OpenDenial {
        operation: TrapOperation::Write,
        path: b"/etc/a".to_vec(),
        requested_path: b"a".to_vec(),
        syscall: "openat",
        flags: libc::O_WRONLY | libc::O_CREAT,
        reason: DenialReason::AllowMiss,
        report,
    }
}

#[test]
fn a_denied_open_is_asked_about_listed_or_silent() {
    let mut denials = Denials::new();
    let mut next: u64 = 1;
    let grant = || -> Option<Result<OpenGrant<i32>, i32>> {
        match OpenGrant::pin(0, Ok(3)) {
            OpenPin::Ready(grant) => Some(Ok(grant)),
            _ => None,
        }
    };
    let silent = deny_open::<i32>(&MACHINE.open, denial(false), process(), None, &mut denials, true, &mut next);
    assert!(matches!(silent, Err(BrokerError::PolicyDenied)));
    assert_eq!((next, denials.pending.len()), (1, 0));

    match deny_open(&MACHINE.open, denial(true), process(), grant(), &mut denials, true, &mut next) {
        Ok(NotificationResult::Query(decision)) => {
            assert_eq!(decision.query_id, 1);
            assert!(matches!(decision.grant, Some(Grant::Open(_))));
            match decision.trap {
                Trap::Filesystem(record) => {
                    assert_eq!(record.flags, vec!["O_WRONLY", "O_CREAT"]);
                    assert_eq!(record.requested_path, "a");
                    assert_eq!(record.query_id, "1");
                }
                _ => panic!("not a filesystem record"),
            }
        }
        _ => panic!("not asked about"),
    }
    assert_eq!(next, 2);

    let failed: Option<Result<OpenGrant<i32>, i32>> = Some(Err(libc::ELOOP));
    let result = deny_open(&MACHINE.open, denial(true), process(), failed, &mut denials, true, &mut next);
    assert!(matches!(result, Err(BrokerError::SystemCall { errno: libc::ELOOP })));
    assert_eq!(next, 3);

    let listed = deny_open::<i32>(&MACHINE.open, denial(true), process(), None, &mut denials, false, &mut next);
    assert!(matches!(listed, Err(BrokerError::PolicyDenied)));
    assert_eq!((next, denials.pending.len()), (3, 1));
}

#[test]
fn changing_calls_are_known_by_number() {
    let numbers = [
        MutationNumber { nr: 82, kind: MutationSyscall::Rename },
        MutationNumber { nr: 83, kind: MutationSyscall::Mkdir },
    ];
    assert_eq!(mutation_kind(&numbers, 83), Some(MutationSyscall::Mkdir));
    assert_eq!(mutation_kind(&numbers, 84), None);
    assert_eq!(MutationSyscall::Renameat2.name(), "renameat2");
    assert_eq!(MutationSyscall::Lremovexattr.name(), "lremovexattr");
    assert_eq!(MutationSyscall::Fchmodat2.name(), "fchmodat2");
    assert_eq!(MutationSyscall::Renameat.paths(), vec![(Some(0), 1), (Some(2), 3)]);
    assert_eq!(MutationSyscall::Symlinkat.paths(), vec![(Some(1), 2)]);
    assert_eq!(MutationSyscall::Symlink.paths(), vec![(None, 1)]);
    assert_eq!(MutationSyscall::Link.paths(), vec![(None, 0), (None, 1)]);
    assert!(MutationSyscall::Truncate.landlock_backed());
    assert!(!MutationSyscall::Chmod.landlock_backed());
    assert!(MutationSyscall::Mkdirat.is_mkdir());
    assert!(MutationSyscall::Linkat.is_reparent());
    assert!(!MutationSyscall::Unlinkat.is_reparent());
}

#[test]
fn links_are_followed_as_the_call_says() {
    let flag = |at: usize, bits: i32| {
        let mut args = [0u64; 6];
        args[at] = u64::try_from(bits).unwrap();
        args
    };
    assert!(MutationSyscall::Unlink.no_follow(&[0; 6]));
    assert!(MutationSyscall::Link.no_follow(&[0; 6]));
    assert!(!MutationSyscall::Chown.no_follow(&[0; 6]));
    assert!(!MutationSyscall::Fchownat.no_follow(&[0; 6]));
    assert!(MutationSyscall::Fchownat.no_follow(&flag(4, libc::AT_SYMLINK_NOFOLLOW)));
    assert!(MutationSyscall::Utimensat.no_follow(&flag(3, libc::AT_SYMLINK_NOFOLLOW)));
    assert!(MutationSyscall::Linkat.no_follow(&[0; 6]));
    assert!(!MutationSyscall::Linkat.no_follow(&flag(4, libc::AT_SYMLINK_FOLLOW)));
}

#[test]
fn path_arguments_are_read_from_registers() {
    assert_eq!(
        mutation_path(&[AT_FDCWD, 0x1000, 0, 0, 0, 0], (Some(0), 1)),
        Ok(SlotRequest {
            dirfd: libc::AT_FDCWD,
            path: Some(MemoryRead { base: 0x1000, len: PATH_MAX }),
        })
    );
    assert_eq!(
        mutation_path(&[0, 0, 0, 0, 0, 0], (None, 1)),
        Ok(SlotRequest { dirfd: libc::AT_FDCWD, path: None })
    );
    assert_eq!(mkdir_stat_flags(b"/a/"), 0);
    assert_eq!(mkdir_stat_flags(b"/a"), libc::AT_SYMLINK_NOFOLLOW);
    assert_eq!(
        check_mkdir(MutationSyscall::Mkdir, true),
        Err(BrokerError::SystemCall { errno: libc::EEXIST })
    );
    assert_eq!(check_mkdir(MutationSyscall::Mkdir, false), Ok(()));
    assert_eq!(check_mkdir(MutationSyscall::Unlink, true), Ok(()));
}

fn slot(path: &str) -> Option<Slot> {
    let bytes = path.as_bytes().to_vec();
    Some(Slot { resolved: bytes.clone(), lexical: bytes.clone(), path: bytes })
}

#[test]
fn changes_are_checked_at_every_path() {
    let verdict = |policy: &AccessPolicy, kind, slots: Vec<Option<Slot>>, query| {
        handle_mutation(policy, kind, &slots, query)
    };
    let rename = MutationSyscall::Rename;
    assert_eq!(
        verdict(&policy(), rename, vec![slot("/work/a"), slot("/work/no/b")], false),
        MutationVerdict::Denied(SlotDenial {
            index: 1,
            reason: DenialReason::DenyMatch,
            operation: TrapOperation::Write,
        })
    );
    assert_eq!(
        verdict(&policy(), rename, vec![slot("/etc/a"), slot("/work/b")], false),
        MutationVerdict::Denied(SlotDenial {
            index: 0,
            reason: DenialReason::AllowMiss,
            operation: TrapOperation::Read,
        })
    );
    assert_eq!(
        verdict(&policy(), MutationSyscall::Unlink, vec![slot("/work/a")], false),
        MutationVerdict::Pin
    );
    assert_eq!(
        verdict(&plain_policy(), MutationSyscall::Unlink, vec![slot("/etc/a")], false),
        MutationVerdict::Continue
    );
    assert_eq!(
        verdict(&plain_policy(), MutationSyscall::Unlink, vec![slot("/etc/a")], true),
        MutationVerdict::Denied(SlotDenial {
            index: 0,
            reason: DenialReason::AllowMiss,
            operation: TrapOperation::Write,
        })
    );
    assert_eq!(
        verdict(&plain_policy(), MutationSyscall::Chmod, vec![slot("/etc/a")], false),
        MutationVerdict::Denied(SlotDenial {
            index: 0,
            reason: DenialReason::AllowMiss,
            operation: TrapOperation::Write,
        })
    );
    assert_eq!(
        verdict(&plain_policy(), MutationSyscall::Chmod, vec![slot("/work/a")], false),
        MutationVerdict::Pin
    );
    assert_eq!(
        verdict(&plain_policy(), rename, vec![slot("/work/a"), slot("/work/b")], false),
        MutationVerdict::Continue
    );
    let mut reading = plain_policy();
    reading.read_access = ReadAccess::AllowRoots(roots(&["/work"]));
    assert_eq!(
        verdict(&reading, rename, vec![slot("/work/a"), slot("/work/b")], false),
        MutationVerdict::Pin
    );
}

#[test]
fn a_hidden_file_gets_no_readable_name() {
    let denied = |kind, slots: Vec<Option<Slot>>| reparent_read_denial(&policy(), kind, &slots);
    let link = MutationSyscall::Link;
    assert!(denied(link, vec![slot("/work/secret/a"), slot("/work/b")]).is_some());
    assert!(denied(link, vec![slot("/work/secret/a"), slot("/work/secret/b")]).is_none());
    assert!(denied(link, vec![slot("/work/a"), slot("/work/b")]).is_none());
    assert!(denied(link, vec![slot("/work/secret/a"), None]).is_some());
    assert!(denied(link, vec![None, slot("/work/b")]).is_none());
    assert!(denied(MutationSyscall::Chmod, vec![slot("/work/secret/a")]).is_none());
}

#[test]
fn an_exchange_gives_no_readable_name_either() {
    let pair = || vec![slot("/work/a"), slot("/work/secret/b")];
    let exchange = [0, 1, 2, 3, 2, 0];
    let denial = MutationVerdict::Denied(SlotDenial {
        index: 1,
        reason: DenialReason::DenyMatch,
        operation: TrapOperation::Read,
    });
    let kind = MutationSyscall::Renameat2;
    assert_eq!(decide_mutation(&policy(), kind, &exchange, &pair(), true), denial);
    assert!(exchange_read_denial(&policy(), kind, &exchange, &pair()).is_some());
    assert_eq!(
        decide_mutation(&policy(), kind, &[0, 1, 2, 3, 0, 0], &pair(), true),
        MutationVerdict::Pin
    );
    assert_eq!(
        decide_mutation(&policy(), MutationSyscall::Renameat, &exchange, &pair(), true),
        MutationVerdict::Pin
    );
    let both = vec![slot("/work/secret/a"), slot("/work/secret/b")];
    assert_eq!(decide_mutation(&policy(), kind, &exchange, &both, true), MutationVerdict::Pin);
}

#[test]
fn a_call_is_taken_up_by_its_registers() {
    let numbers = [
        MutationNumber { nr: 280, kind: MutationSyscall::Utimensat },
        MutationNumber { nr: 83, kind: MutationSyscall::Mkdir },
        MutationNumber { nr: 87, kind: MutationSyscall::Unlink },
    ];
    assert!(matches!(mutation_route(&numbers, 1, &[0; 6]), MutationRoute::Continue));
    assert!(matches!(mutation_route(&numbers, 280, &[0; 6]), MutationRoute::DescriptorTimes));
    match mutation_route(&numbers, 280, &[0, 9, 0, 0x100, 0, 0]) {
        MutationRoute::Paths { kind, registers, form, makes_directory } => {
            assert_eq!(kind, MutationSyscall::Utimensat);
            assert_eq!(registers, vec![(Some(0), 1)]);
            assert_eq!(form, NormalForm::LinkItself);
            assert!(!makes_directory);
        }
        _ => panic!("no paths"),
    }
    assert!(matches!(
        mutation_route(&numbers, 83, &[0; 6]),
        MutationRoute::Paths { form: NormalForm::Followed, makes_directory: true, .. }
    ));
    assert!(matches!(
        mutation_route(&numbers, 87, &[0; 6]),
        MutationRoute::Paths { form: NormalForm::LinkItself, makes_directory: false, .. }
    ));
}

#[test]
fn a_change_is_rebuilt_from_its_registers() {
    let args = [1, 0x2000, 3, 4, 5, 6];
    let need = |kind| Grant::<i32>::mutation(MACHINE.times, kind, &args).unwrap();
    assert!(matches!(need(MutationSyscall::Creat), OpNeed::Create { mode: 0x2000 }));
    assert!(matches!(need(MutationSyscall::Mkdirat), OpNeed::Ready(MutationOp::Mkdir { mode: 3 })));
    assert!(matches!(need(MutationSyscall::Mknodat), OpNeed::Ready(MutationOp::Mknod { mode: 3, dev: 4 })));
    assert!(matches!(need(MutationSyscall::Mknod), OpNeed::Ready(MutationOp::Mknod { mode: 0x2000, dev: 3 })));
    assert!(matches!(need(MutationSyscall::Unlinkat), OpNeed::Ready(MutationOp::Unlink { flags: 3 })));
    assert!(matches!(need(MutationSyscall::Unlink), OpNeed::Ready(MutationOp::Unlink { flags: 0 })));
    assert!(matches!(
        need(MutationSyscall::Rmdir),
        OpNeed::Ready(MutationOp::Unlink { flags: libc::AT_REMOVEDIR })
    ));
    assert!(matches!(need(MutationSyscall::Renameat2), OpNeed::Ready(MutationOp::Rename { flags: 5 })));
    assert!(matches!(need(MutationSyscall::Renameat), OpNeed::Ready(MutationOp::Rename { flags: 0 })));
    assert!(matches!(need(MutationSyscall::Linkat), OpNeed::Ready(MutationOp::Link { flags: 5 })));
    assert!(matches!(need(MutationSyscall::Link), OpNeed::Ready(MutationOp::Link { flags: 0 })));
    assert!(matches!(
        need(MutationSyscall::Symlink),
        OpNeed::Target(Some(MemoryRead { base: 1, len: PATH_MAX }))
    ));
    assert!(matches!(
        need(MutationSyscall::Truncate),
        OpNeed::Ready(MutationOp::Truncate { length: 0x2000 })
    ));
    assert!(matches!(need(MutationSyscall::Fchmodat), OpNeed::Ready(MutationOp::Chmod { mode: 3 })));
    assert!(matches!(need(MutationSyscall::Chmod), OpNeed::Ready(MutationOp::Chmod { mode: 0x2000 })));
    assert!(matches!(
        need(MutationSyscall::Fchownat),
        OpNeed::Ready(MutationOp::Chown { uid: 3, gid: 4 })
    ));
    assert!(matches!(
        need(MutationSyscall::Lchown),
        OpNeed::Ready(MutationOp::Chown { uid: 0x2000, gid: 3 })
    ));
    assert!(matches!(
        need(MutationSyscall::Utimensat),
        OpNeed::Times(MemoryRead { base: 3, len }) if len == words_len(4)
    ));
    let now = Grant::<i32>::mutation(MACHINE.times, MutationSyscall::Utimensat, &[1, 2, 0, 0, 0, 0]).unwrap();
    assert!(matches!(now, OpNeed::Ready(MutationOp::Utimes { times: None })));
    assert!(matches!(
        need(MutationSyscall::Setxattr),
        OpNeed::SetName(Some(MemoryRead { base: 0x2000, len: PATH_MAX }))
    ));
    assert!(matches!(
        need(MutationSyscall::Lremovexattr),
        OpNeed::RemoveName(Some(MemoryRead { base: 0x2000, len: PATH_MAX }))
    ));
    assert_eq!(creat_open_flags(&MACHINE.open), libc::O_CREAT | libc::O_WRONLY | libc::O_TRUNC);
    assert_eq!(times_read(MACHINE.times, 0), Ok(None));
    let len = std::mem::size_of::<[libc::timespec; 2]>();
    assert_eq!(times_read(MACHINE.times, 8), Ok(Some(MemoryRead { base: 8, len })));
    assert_eq!(setxattr_value(&[0, 0, 9, 4, 0, 0]), Ok(Some(MemoryRead { base: 9, len: 4 })));
    assert_eq!(setxattr_value(&[0, 0, 9, 0, 0, 0]), Ok(None));
    match setxattr_op::<i32>(b"user.x".to_vec(), b"v".to_vec(), &args) {
        MutationOp::SetXattr { name, value, flags } => {
            assert_eq!(name, b"user.x");
            assert_eq!(value, b"v");
            assert_eq!(flags, 5);
        }
        _ => panic!("not an attribute"),
    }
}

#[test]
fn each_path_is_anchored_in_turn() {
    let slots = vec![slot("/work/a"), slot("/work/b")];
    match next_anchor(&slots, 0) {
        AnchorStep::Hold(path) => assert_eq!(path, b"/work/a"),
        _ => panic!("nothing to hold"),
    }
    match next_anchor(&slots, 1) {
        AnchorStep::Hold(path) => assert_eq!(path, b"/work/b"),
        _ => panic!("nothing to hold"),
    }
    assert!(matches!(next_anchor(&slots, 2), AnchorStep::Done));
    assert!(matches!(next_anchor(&vec![None], 0), AnchorStep::Missing));
}

fn change(op: MutationOp<i32>, count: usize, no_follow: bool) -> MutationGrant<i32> {
    let mut anchors = Vec::new();
    for at in 0..count {
        anchors.push(Anchor { dir: i32::try_from(at).unwrap(), name: b"x".to_vec() });
    }
    MutationGrant { op, anchors, no_follow }
}

#[test]
fn a_change_acts_on_what_is_held() {
    let on = |grant: MutationGrant<i32>| run_mutation(&grant);
    assert_eq!(on(change(MutationOp::Mkdir { mode: 0 }, 1, false)), Ok(ActsOn::Name));
    assert_eq!(on(change(MutationOp::Rename { flags: 0 }, 2, false)), Ok(ActsOn::TwoNames));
    assert_eq!(on(change(MutationOp::Rename { flags: 0 }, 1, false)), Err(libc::EINVAL));
    assert_eq!(on(change(MutationOp::Mkdir { mode: 0 }, 0, false)), Err(libc::EINVAL));
    assert_eq!(on(change(MutationOp::Chmod { mode: 0 }, 1, true)), Ok(ActsOn::Held));
    assert_eq!(on(change(MutationOp::Chown { uid: 0, gid: 0 }, 1, true)), Ok(ActsOn::Link));
    assert_eq!(on(change(MutationOp::Chown { uid: 0, gid: 0 }, 1, false)), Ok(ActsOn::Held));
    assert_eq!(on(change(MutationOp::Utimes { times: None }, 1, true)), Ok(ActsOn::Link));
    assert_eq!(
        on(change(MutationOp::UtimesFd { target: 3, times: None }, 0, false)),
        Ok(ActsOn::Descriptor)
    );
    assert_eq!(name_flags(ActsOn::Link), libc::AT_SYMLINK_NOFOLLOW);
    assert_eq!(name_flags(ActsOn::Held), 0);
    assert_eq!(
        pin_target(&MACHINE.open),
        libc::O_PATH | libc::O_NOFOLLOW | libc::O_CLOEXEC
    );
    assert_eq!(check(-1, libc::EPERM), Err(libc::EPERM));
    assert_eq!(check(0, libc::EPERM), Ok(()));
}

#[test]
fn an_allowed_change_is_made_by_the_broker() {
    let grant = mutation_grant(
        MutationSyscall::Unlink,
        &[0; 6],
        MutationOp::Unlink { flags: 0 },
        vec![Anchor { dir: 1, name: b"x".to_vec() }],
    );
    assert!(grant.no_follow);
    assert!(matches!(
        pinned(Ok(Some(Grant::Mutation(grant)))),
        Ok(NotificationResult::Mutation(_))
    ));
    assert!(matches!(
        pinned::<i32>(Ok(None)),
        Err(BrokerError::SystemCall { errno: libc::EIO })
    ));
    assert!(matches!(pinned::<i32>(Err(BrokerError::BadAddress)), Err(BrokerError::BadAddress)));
}

#[test]
fn a_denied_change_is_asked_about_or_listed() {
    let mut denials = Denials::new();
    let mut next: u64 = 1;
    let at = slot("/work/no/a").unwrap();
    let listed = deny_mutation::<i32>(
        MutationSyscall::Unlink,
        &at,
        TrapOperation::Write,
        DenialReason::DenyMatch,
        process(),
        None,
        &mut denials,
        false,
        &mut next,
    );
    assert!(matches!(listed, Err(BrokerError::PolicyDenied)));
    assert_eq!((next, denials.pending.len()), (1, 1));
    let asked = deny_mutation::<i32>(
        MutationSyscall::Unlink,
        &at,
        TrapOperation::Write,
        DenialReason::DenyMatch,
        process(),
        Some(Ok(None)),
        &mut denials,
        true,
        &mut next,
    );
    match asked {
        Ok(NotificationResult::Query(decision)) => {
            assert!(decision.grant.is_none());
            match decision.trap {
                Trap::Filesystem(record) => {
                    assert_eq!(record.syscall, "unlink");
                    assert!(record.flags.is_empty());
                    assert_eq!(record.path, "/work/no/a");
                }
                _ => panic!("not a filesystem record"),
            }
        }
        _ => panic!("not asked about"),
    }
    assert_eq!(next, 2);
}

#[test]
fn times_of_an_open_file_are_checked() {
    assert!(is_fd_utimensat(MutationSyscall::Utimensat, &[3, 0, 0, 0, 0, 0]));
    assert!(!is_fd_utimensat(MutationSyscall::Utimensat, &[3, 1, 0, 0, 0, 0]));
    assert!(!is_fd_utimensat(MutationSyscall::Chmod, &[3, 0, 0, 0, 0, 0]));
    assert_eq!(
        fd_utimensat_request(&[3, 0, 0, 0, 0, 0], 7),
        Ok(FdTimesRequest { pid: 7, fd: 3 })
    );
    assert_eq!(
        fd_utimensat_request(&[3, 0, 0, 1, 0, 0], 7),
        Err(BrokerError::SystemCall { errno: libc::EINVAL })
    );
    assert_eq!(
        fd_utimensat_request(&[0xffff_ffff, 0, 0, 0, 0, 0], 7),
        Err(BrokerError::BadFileDescriptor)
    );
    let mut denials = Denials::new();
    let mut next: u64 = 1;
    let times = Some(FileTimes {
        access_seconds: 1,
        access_nanoseconds: 2,
        change_seconds: 3,
        change_nanoseconds: 4,
    });
    let mut set = |path: &str, query: bool| {
        handle_fd_utimensat(
            &policy(),
            3,
            times,
            path.as_bytes().to_vec(),
            path.as_bytes().to_vec(),
            process(),
            &mut denials,
            query,
            &mut next,
        )
    };
    match set("/work/a", false) {
        Ok(NotificationResult::Mutation(grant)) => {
            assert!(grant.anchors.is_empty());
            assert!(matches!(grant.op, MutationOp::UtimesFd { target: 3, .. }));
        }
        _ => panic!("not made"),
    }
    assert!(matches!(set("/etc/a", false), Err(BrokerError::PolicyDenied)));
    assert!(matches!(set("/etc/a", true), Ok(NotificationResult::Query(_))));
}

/// The flags of an open on MIPS with musl.
const OTHER_FLAGS: OpenFlags = OpenFlags {
    access_mode: 0x20_0003,
    create: 0x100,
    exclusive: 0x400,
    truncate: 0x200,
    append: 0x8,
    close_on_exec: 0x8_0000,
    path: 0x20_0000,
    no_follow: 0x2_0000,
};

#[test]
fn open_flags_are_those_of_the_machine() {
    assert_eq!(open_flag_names(&OTHER_FLAGS, 0x40), vec!["O_RDONLY"]);
    assert_eq!(open_flag_names(&OTHER_FLAGS, 0x309), vec!["O_WRONLY", "O_CREAT", "O_TRUNC", "O_APPEND"]);
    assert_eq!(open_flag_names(&OTHER_FLAGS, 0x20_0001), vec!["O_RDONLY"]);
    assert_eq!(reopen_bits(&OTHER_FLAGS, 0x2_0502), 0x8_0002);
    assert_eq!(create_bits(&OTHER_FLAGS, 0x100), 0xa_0100);
    assert_eq!(pin_target(&OTHER_FLAGS), 0x2a_0000);
    assert_eq!(creat_open_flags(&OTHER_FLAGS), 0x301);
    assert_eq!(handle_openat(&policy(), &OTHER_FLAGS, 0x40, b"/work/no/a", b"/work/no/a"), OpenVerdict::Open);
    assert_eq!(
        handle_openat(&policy(), &OTHER_FLAGS, 0x100, b"/work/no/a", b"/work/no/a"),
        OpenVerdict::Denied {
            operation: TrapOperation::Write,
            reason: DenialReason::DenyMatch,
            report: true,
            must_exist: false,
        }
    );
}

#[test]
fn two_times_are_as_long_as_the_machine_has_them() {
    for times in [TimeLayout::Long, TimeLayout::Padded] {
        assert_eq!(times_read(times, 8), Ok(Some(MemoryRead { base: 8, len: 32 })));
    }
}
