use landstrip::broker::address::BrokerError;
use landstrip::broker::control::{
    parse_query_id, take_lines, Answer, ControlAction, ControlResponse, PendingQueries,
    PendingQuery, CONTROL_BUFFER_MAX,
};
use landstrip::broker::denials::ExitStatus;
use landstrip::broker::grant::{Grant, MutationGrant, MutationOp, NotificationResult, OpenGrant, OpenKind};
use landstrip::broker::machine::{
    CountWidth, ErrorNumbers, Machine, OpenFlags, SocketTypes, TimeLayout,
};
use landstrip::broker::memory::{
    descriptor, process_number, read_child_bytes, read_child_exact, read_child_path,
    read_child_string, read_child_target, read_child_times, read_child_values,
    read_optional_target_addr, read_whole, target_socket, usize_register, MemoryRead,
    SocketArguments, PATH_MAX, XATTR_MAX,
};
use landstrip::broker::mutation::{MutationNumber, MutationSyscall};
use landstrip::broker::notify::{
    brokered_response, decide_route, handle_notification, notification_continue, notification_error,
    notification_value, route_notification, HandleResult, NamespaceId, Response, Route,
    USER_NOTIF_FLAG_CONTINUE,
};
use landstrip::broker::process::{
    duplicate_target_fd, thread_group_leader, PidfdAttempt, PidfdStep,
};
use landstrip::broker::registers::{
    cast_signed, read_u16, read_u32, read_u64, syscall_i32, syscall_i64, syscall_u32, words_len,
    ByteOrder,
};
use landstrip::broker::startup::{
    accept_trap, get_notify_fd, parse_trap, run_broker, send_trap, trap_length, ChildAction,
    ChildState, StartupStep, MARKER_READY, MARKER_TRAP, TRAP_MAX,
};
use landstrip::broker::supervise::{
    after_final_wait, after_wait, ControlRead, ControlStep, PollStep, Readiness, Supervisor,
    WaitEvent, WaitStep,
};
use landstrip::broker::syscalls::{NotificationSyscalls, SendSyscall};
use landstrip::error::Error;
use landstrip::policy::{
    AccessPolicy, AppContainerMode, IpBindAccess, NetworkAccess, ReadAccess, UnixSocketAccess,
};
use landstrip::trap::Trap;

/// A little-endian machine with the numbers of this one.
const MACHINE: Machine = Machine {
    order: ByteOrder::Little,
    counts: CountWidth::Word,
    times: TimeLayout::Words,
    open: OpenFlags {
        access_mode: libc::O_ACCMODE,
        create: libc::O_CREAT,
        exclusive: libc::O_EXCL,
        truncate: libc::O_TRUNC,
        append: libc::O_APPEND,
        close_on_exec: libc::O_CLOEXEC,
        path: libc::O_PATH,
        no_follow: libc::O_NOFOLLOW,
    },
    sockets: SocketTypes { stream: libc::SOCK_STREAM, datagram: libc::SOCK_DGRAM },
    errors: ErrorNumbers {
        eafnosupport: libc::EAFNOSUPPORT,
        emsgsize: libc::EMSGSIZE,
        enametoolong: libc::ENAMETOOLONG,
        enobufs: libc::ENOBUFS,
        enosys: libc::ENOSYS,
        enotconn: libc::ENOTCONN,
        eopnotsupp: libc::EOPNOTSUPP,
    },
};

fn calls() -> NotificationSyscalls {
    NotificationSyscalls {
        bind: 49,
        connect: 42,
        socket: 41,
        io_uring_setup: 425,
        sendto: 44,
        sendmsg: 46,
        sendmmsg: 307,
        openat: 257,
        openat2: 437,
        open: Some(2),
        name_to_handle_at: 303,
        open_by_handle_at: 304,
    }
}

#[test]
fn registers_hold_numbers_of_other_widths() {
    assert_eq!(syscall_u32(0x1234_5678_9abc_def0), 0x9abc_def0);
    assert_eq!(syscall_i32(0xffff_ff9c), -100);
    assert_eq!(syscall_i32(0xffff_ffff_ffff_ff9c), -100);
    assert_eq!(cast_signed(0x8000_0000), i32::MIN);
    assert_eq!(syscall_i64(u64::MAX), -1);
    let little = ByteOrder::Little;
    assert_eq!(read_u16(little, &[0x34, 0x12]), 0x1234);
    assert_eq!(read_u32(little, &[0x78, 0x56, 0x34, 0x12, 9]), 0x1234_5678);
    assert_eq!(read_u64(little, &[1, 0, 0, 0, 0, 0, 0, 0x80]), 0x8000_0000_0000_0001);
    let big = ByteOrder::Big;
    assert_eq!(read_u16(big, &[0x12, 0x34]), 0x1234);
    assert_eq!(read_u32(big, &[0x12, 0x34, 0x56, 0x78, 9]), 0x1234_5678);
    assert_eq!(read_u64(big, &[0x80, 0, 0, 0, 0, 0, 0, 1]), 0x8000_0000_0000_0001);
    assert_eq!(words_len(1), std::mem::size_of::<usize>());
    assert_eq!(usize_register(7), Some(7));
}

#[test]
fn process_and_descriptor_numbers_are_checked() {
    assert_eq!(process_number(7), Ok(7));
    assert_eq!(process_number(0x8000_0000), Err(BrokerError::InvalidAddress));
    assert_eq!(descriptor(3), Ok(3));
    assert_eq!(descriptor(0xffff_ffff), Err(BrokerError::BadFileDescriptor));
    assert_eq!(
        target_socket(&[3, 0x1000, 16, 0, 0, 0], 7),
        Ok(SocketArguments { pid: 7, fd: 3, addr: MemoryRead { base: 0x1000, len: 16 } })
    );
    assert_eq!(
        target_socket(&[3, 0x1000, 129, 0, 0, 0], 7),
        Err(BrokerError::InvalidAddress)
    );
    assert_eq!(target_socket(&[3, 0x1000, 1, 0, 0, 0], 7), Err(BrokerError::InvalidAddress));
    assert_eq!(
        target_socket(&[u64::MAX, 0x1000, 16, 0, 0, 0], 7),
        Err(BrokerError::BadFileDescriptor)
    );
}

#[test]
fn reads_of_another_process_are_bounded() {
    assert_eq!(read_optional_target_addr(0x1000, 0), Ok(None));
    assert_eq!(
        read_optional_target_addr(0x1000, 16),
        Ok(Some(MemoryRead { base: 0x1000, len: 16 }))
    );
    assert_eq!(read_optional_target_addr(0, 16), Err(BrokerError::BadAddress));
    assert_eq!(read_optional_target_addr(0x1000, 129), Err(BrokerError::InvalidAddress));
    assert_eq!(read_child_exact(0, 0), Ok(None));
    assert_eq!(read_child_exact(0, 1), Err(BrokerError::BadAddress));
    assert_eq!(
        read_child_values(8, 3, 16),
        Ok(Some(MemoryRead { base: 8, len: 48 }))
    );
    assert_eq!(read_child_values(8, 0, 16), Ok(None));
    assert_eq!(read_child_values(8, usize::MAX, 16), Err(BrokerError::BadAddress));
    assert_eq!(read_child_bytes(8, 0), Ok(None));
    assert_eq!(
        read_child_bytes(8, XATTR_MAX as u64),
        Ok(Some(MemoryRead { base: 8, len: XATTR_MAX }))
    );
    assert_eq!(
        read_child_bytes(8, 65537),
        Err(BrokerError::SystemCall { errno: libc::E2BIG })
    );
    assert_eq!(read_child_bytes(0, 1), Err(BrokerError::BadAddress));
    assert_eq!(read_child_target(0), Ok(None));
    assert_eq!(read_child_target(8), Ok(Some(MemoryRead { base: 8, len: PATH_MAX })));
}

#[test]
fn strings_of_another_process_end_at_a_zero() {
    assert_eq!(read_child_string(b"abc\0def"), Ok(b"abc".to_vec()));
    assert_eq!(read_child_string(b"abc"), Err(BrokerError::NameTooLong));
    assert_eq!(read_child_string(b""), Err(BrokerError::BadAddress));
    assert_eq!(read_child_path(b"abc\0"), Ok(Some(b"abc".to_vec())));
    assert_eq!(read_child_path(b"\0"), Ok(None));
    assert_eq!(read_whole(b"abc".to_vec(), 3), Ok(b"abc".to_vec()));
    assert_eq!(read_whole(b"ab".to_vec(), 3), Err(BrokerError::BadAddress));
    let mut times = Vec::new();
    for number in [1i64, 2, -3, 4] {
        times.extend_from_slice(&number.to_le_bytes());
    }
    let read = read_child_times(&MACHINE, &times).unwrap();
    assert_eq!((read.access_seconds, read.access_nanoseconds), (1, 2));
    assert_eq!((read.change_seconds, read.change_nanoseconds), (-3, 4));
    assert_eq!(read_child_times(&MACHINE, &times[..31]), Err(BrokerError::BadAddress));
}

#[test]
fn calls_are_known_by_number() {
    let calls = calls();
    assert_eq!(calls.datagram_send_syscalls(), [44, 46, 307]);
    assert!(calls.is_datagram_send(46));
    assert!(!calls.is_datagram_send(42));
    assert_eq!(calls.datagram_send(307), Some(SendSyscall::SendMmsg));
    assert_eq!(calls.datagram_send(1), None);
    assert!(calls.is_open(2));
    assert!(calls.is_open(437));
    assert!(calls.is_handle_syscall(304));
    assert_eq!(calls.filesystem_syscalls(), vec![257, 437, 303, 304, 2]);
    let newer = NotificationSyscalls { open: None, ..calls };
    assert!(!newer.is_open(2));
    assert_eq!(newer.filesystem_syscalls(), vec![257, 437, 303, 304]);
}

#[test]
fn each_call_that_reaches_files_is_listed_once() {
    let mut list = calls().filesystem_syscalls();
    let count = list.len();
    list.sort_unstable();
    list.dedup();
    assert_eq!(list.len(), count);
    for other in [49, 42, 44, 46, 307] {
        assert!(!list.contains(&other));
    }
}

#[test]
fn some_routes_decide_by_themselves() {
    assert!(matches!(decide_route::<i32>(Route::Refuse), Some(Err(BrokerError::PolicyDenied))));
    assert!(matches!(
        decide_route::<i32>(Route::Continue),
        Some(Ok(NotificationResult::Continue))
    ));
    assert!(decide_route::<i32>(Route::Open).is_none());
}

#[test]
fn stopped_calls_are_routed() {
    let route = |files, syscall| route_notification(&calls(), files, syscall);
    assert_eq!(route(false, 49), Route::Bind);
    assert_eq!(route(true, 42), Route::Connect);
    assert_eq!(route(true, 44), Route::DatagramSend);
    assert_eq!(route(true, 257), Route::Open);
    assert_eq!(route(true, 303), Route::Refuse);
    assert_eq!(route(true, 83), Route::Mutation);
    assert_eq!(route(false, 257), Route::Continue);
    assert_eq!(route(false, 303), Route::Continue);
}

#[test]
fn replies_are_those_of_the_kernel() {
    assert_eq!(notification_value(5, 7), Response { id: 5, val: 7, error: 0, flags: 0 });
    assert_eq!(
        notification_continue(5),
        Response { id: 5, val: 0, error: 0, flags: USER_NOTIF_FLAG_CONTINUE }
    );
    assert_eq!(notification_error(5, 13), Response { id: 5, val: 0, error: -13, flags: 0 });
    assert_eq!(brokered_response(&MACHINE.errors, 5, Ok(3)), notification_value(5, 3));
    assert_eq!(
        brokered_response(&MACHINE.errors, 5, Err(BrokerError::PolicyDenied)),
        notification_error(5, libc::EACCES)
    );
}

fn open_grant() -> OpenGrant<i32> {
    OpenGrant { flags: 0, kind: OpenKind::Reopen(3) }
}

#[test]
fn decisions_become_what_is_done() {
    assert!(matches!(
        handle_notification::<i32>(&MACHINE.errors, 5, Ok(NotificationResult::Continue)),
        HandleResult::Respond(Response { id: 5, flags: 1, .. })
    ));
    assert!(matches!(
        handle_notification(&MACHINE.errors, 5, Ok(NotificationResult::Open(open_grant()))),
        HandleResult::AddFd(_)
    ));
    assert!(matches!(
        handle_notification::<i32>(&MACHINE.errors, 5, Err(BrokerError::NameTooLong)),
        HandleResult::Respond(Response { error: -36, .. })
    ));
    let trap = Trap::internal("odd".to_string());
    match handle_notification(&MACHINE.errors, 5, Ok(NotificationResult::<i32>::query(9, trap, None))) {
        HandleResult::Pending { query_id, grant, .. } => {
            assert_eq!(query_id, 9);
            assert!(grant.is_none());
        }
        _ => panic!("not pending"),
    }
    let change = MutationGrant { op: MutationOp::<i32>::Mkdir { mode: 0 }, anchors: Vec::new(), no_follow: false };
    assert!(matches!(
        handle_notification(&MACHINE.errors, 5, Ok(NotificationResult::Mutation(change))),
        HandleResult::RunMutation(_)
    ));
}

#[test]
fn another_mount_namespace_is_refused() {
    let here = NamespaceId { device: 4, inode: 9 };
    assert_eq!(here.verify(Ok(here)), Ok(()));
    assert_eq!(
        here.verify(Ok(NamespaceId { device: 4, inode: 8 })),
        Err(BrokerError::PolicyDenied)
    );
    assert_eq!(here.verify(Err(Some(2))), Err(BrokerError::SystemCall { errno: 2 }));
    assert_eq!(here.verify(Err(None)), Err(BrokerError::SystemCall { errno: libc::EIO }));
}

#[test]
fn lines_are_taken_as_they_are_complete() {
    let mut buffer = Vec::new();
    assert!(take_lines(&mut buffer, b"ab").is_empty());
    assert_eq!(take_lines(&mut buffer, b"c\n\nde\nf"), vec![b"abc".to_vec(), b"de".to_vec()]);
    assert_eq!(buffer, b"f");
    let long = vec![b'x'; CONTROL_BUFFER_MAX];
    assert!(take_lines(&mut buffer, &long).is_empty());
    assert!(buffer.is_empty());
    let mut late = long.clone();
    late.extend_from_slice(b"\nrest");
    assert!(take_lines(&mut buffer, b"f").is_empty());
    let lines = take_lines(&mut buffer, &late);
    assert_eq!(lines.len(), 1);
    assert_eq!(lines[0].len(), CONTROL_BUFFER_MAX + 1);
    assert_eq!(buffer, b"rest");
    assert_eq!(take_lines(&mut buffer, &[b"\n".to_vec(), long].concat()), vec![b"rest".to_vec()]);
    assert_eq!(buffer.len(), CONTROL_BUFFER_MAX);
}

#[test]
fn pieces_say_what_the_whole_says() {
    let whole = b"one\ntwo\nthree\nfo";
    let mut buffer = Vec::new();
    let all = take_lines(&mut buffer, whole);
    for cut in 0..whole.len() {
        let mut pieces = Vec::new();
        let mut lines = take_lines(&mut pieces, &whole[..cut]);
        lines.extend(take_lines(&mut pieces, &whole[cut..]));
        assert_eq!(lines, all);
        assert_eq!(pieces, buffer);
    }
}

#[test]
fn query_numbers_are_read() {
    assert_eq!(parse_query_id("17"), Some(17));
    assert_eq!(parse_query_id("+17"), Some(17));
    assert_eq!(parse_query_id("007"), Some(7));
    assert_eq!(parse_query_id("18446744073709551615"), Some(u64::MAX));
    for text in ["", "+", "-1", "1x", " 1", "18446744073709551616", "\u{661}"] {
        assert_eq!(parse_query_id(text), None);
        assert!(text.parse::<u64>().is_err());
    }
    assert_eq!(parse_query_id(&landstrip::text::decimal_text(902)), Some(902));
}

fn answer(id: &str, action: ControlAction) -> ControlResponse {
    ControlResponse { query_id: id.to_string(), action }
}

#[test]
fn answers_find_their_calls() {
    let mut queries: PendingQueries<i32> = PendingQueries::new();
    queries.insert(1, PendingQuery { id: 100, grant: None });
    queries.insert(2, PendingQuery { id: 200, grant: Some(Grant::Open(open_grant())) });
    queries.insert(3, PendingQuery { id: 300, grant: None });
    assert!(queries.answer(&answer("9", ControlAction::Allow)).is_none());
    assert!(queries.answer(&answer("x", ControlAction::Allow)).is_none());
    assert!(matches!(
        queries.answer(&answer("2", ControlAction::Allow)),
        Some((200, Answer::Open(_)))
    ));
    assert!(queries.answer(&answer("2", ControlAction::Allow)).is_none());
    assert!(matches!(
        queries.answer(&answer("1", ControlAction::Allow)),
        Some((100, Answer::Continue))
    ));
    queries.insert(4, PendingQuery { id: 400, grant: None });
    assert!(matches!(
        queries.answer(&answer("4", ControlAction::Deny)),
        Some((400, Answer::Deny))
    ));
    queries.insert(5, PendingQuery { id: 500, grant: None });
    let mut ids = queries.deny_all_pending();
    ids.sort_unstable();
    assert_eq!(ids, vec![300, 500]);
    assert!(queries.deny_all_pending().is_empty());
}

#[test]
fn waits_are_followed() {
    let exited = ExitStatus::Exited { code: 0 };
    assert_eq!(after_wait(WaitEvent::StillAlive), WaitStep::GoOn);
    assert_eq!(after_wait(WaitEvent::Ended(exited)), WaitStep::Finish(exited));
    assert_eq!(after_wait(WaitEvent::Interrupted), WaitStep::Again);
    assert_eq!(after_wait(WaitEvent::Failed { errno: 10 }), WaitStep::Fail { errno: 10 });
    assert_eq!(after_final_wait(WaitEvent::Ended(exited)), WaitStep::Finish(exited));
    assert_eq!(after_final_wait(WaitEvent::Interrupted), WaitStep::Again);
}

const QUIET: Readiness = Readiness { readable: false, broken: false, other: false };
const READY: Readiness = Readiness { readable: true, broken: false, other: false };
const BROKEN: Readiness = Readiness { readable: true, broken: true, other: false };

#[test]
fn descriptors_are_served_in_turn() {
    let open: Supervisor<i32> = Supervisor::new(true);
    assert_eq!(open.after_poll(QUIET, QUIET), PollStep::Idle);
    assert_eq!(open.after_poll(BROKEN, READY), PollStep::AwaitEnd);
    assert_eq!(
        open.after_poll(READY, READY),
        PollStep::Serve { control: ControlStep::Read, receive: true }
    );
    assert_eq!(
        open.after_poll(QUIET, BROKEN),
        PollStep::Serve { control: ControlStep::Close, receive: false }
    );
    let closed: Supervisor<i32> = Supervisor::new(false);
    assert_eq!(
        closed.after_poll(READY, QUIET),
        PollStep::Serve { control: ControlStep::Skip, receive: true }
    );
}

#[test]
fn nothing_waits_for_a_gone_launcher() {
    let mut supervisor: Supervisor<i32> = Supervisor::new(true);
    supervisor.next_query_id = 3;
    supervisor.await_answer(1, 100, None);
    supervisor.await_answer(2, 200, None);
    let lines = supervisor
        .process_control_responses(ControlRead::Piece(b"{}\nhalf".to_vec()))
        .unwrap();
    assert_eq!(lines, vec![b"{}".to_vec()]);
    assert!(supervisor.process_control_responses(ControlRead::Failed).unwrap().is_empty());
    assert!(matches!(
        supervisor.answer(&answer("1", ControlAction::Deny)),
        Some((100, Answer::Deny))
    ));
    assert!(supervisor.process_control_responses(ControlRead::Closed).is_none());
    assert_eq!(supervisor.close_control(), vec![200]);
    assert!(!supervisor.query_enabled);
    assert_eq!(
        supervisor.after_poll(READY, BROKEN),
        PollStep::Serve { control: ControlStep::Skip, receive: true }
    );
}

fn policy(network_access: NetworkAccess) -> AccessPolicy {
    AccessPolicy {
        write_roots: Vec::new(),
        write_denied_roots: Vec::new(),
        write_denied_patterns: Vec::new(),
        write_denied_links: Vec::new(),
        read_access: ReadAccess::Unrestricted,
        read_denied_roots: Vec::new(),
        read_reopened_roots: Vec::new(),
        read_symlinks: Vec::new(),
        network_access,
        app_container_mode: AppContainerMode { name: "lpac".to_string() },
        allow_windows_loopback: false,
    }
}

#[test]
fn a_plan_lists_what_is_stopped() {
    let numbers = [MutationNumber { nr: 83, kind: MutationSyscall::Mkdir }];
    let open = policy(NetworkAccess::Unrestricted);
    let plan = run_broker(&open, false, false, &calls(), &numbers);
    assert_eq!(plan.notify_syscalls, vec![42]);
    assert!(!plan.notify_bind && plan.notify_connect && !plan.notify_filesystem);
    let local = policy(NetworkAccess::Restricted {
        connect_tcp_ports: Vec::new(),
        bind: IpBindAccess::Localhost,
        unix_socket_access: UnixSocketAccess::Denied,
    });
    let plan = run_broker(&local, true, true, &calls(), &numbers);
    assert_eq!(
        plan.notify_syscalls,
        vec![49, 42, 44, 46, 307, 257, 437, 303, 304, 2, 83]
    );
    assert!(plan.allow_local_binding && plan.notify_filesystem);
    let bare = policy(NetworkAccess::Restricted {
        connect_tcp_ports: Vec::new(),
        bind: IpBindAccess::Deny,
        unix_socket_access: UnixSocketAccess::Unrestricted,
    });
    assert_eq!(run_broker(&bare, true, false, &calls(), &numbers).notify_syscalls, vec![42]);
}

#[test]
fn a_program_runs_only_confined() {
    let mut state = ChildState::new();
    let mut actions = Vec::new();
    while state.action() != ChildAction::Exec {
        actions.push(state.action());
        state.advance(true);
    }
    assert_eq!(
        actions,
        vec![
            ChildAction::EnforcePolicy,
            ChildAction::LoadFilters,
            ChildAction::HandOffListener,
            ChildAction::CloseDescriptors,
        ]
    );
    state.advance(false);
    assert_eq!(state.action(), ChildAction::Report { to_parent: false });
    let mut early = ChildState::new();
    early.advance(true);
    early.advance(false);
    assert_eq!(early.action(), ChildAction::Report { to_parent: true });
}

fn told(error: Error) -> String {
    match error {
        Error::SuperviseFailed { source } => source.message,
        _ => panic!("not a failure to supervise"),
    }
}

#[test]
fn a_startup_byte_says_what_follows() {
    assert_eq!(get_notify_fd(Some(MARKER_READY), true).unwrap(), StartupStep::Ready);
    assert_eq!(get_notify_fd(Some(MARKER_TRAP), false).unwrap(), StartupStep::ReadLength);
    assert_eq!(told(get_notify_fd(None, true).unwrap_err()), "notify: unexpected eof");
    assert_eq!(told(get_notify_fd(Some(0), false).unwrap_err()), "notify: missing descriptor");
    assert_eq!(told(get_notify_fd(Some(2), true).unwrap_err()), "notify: invalid marker");
    assert_eq!(trap_length(&[0, 0, 1, 2]).unwrap(), 258);
    assert_eq!(trap_length(&[0, 0x10, 0, 0]).unwrap(), TRAP_MAX);
    assert_eq!(told(trap_length(&[0, 0x10, 0, 1]).unwrap_err()), "notify: trap is too large");
}

#[test]
fn a_sent_record_is_read_back() {
    let text = "{\"kind\":\"usage\"}";
    let frame = send_trap(text.as_bytes()).unwrap();
    assert_eq!(get_notify_fd(Some(frame[0]), false).unwrap(), StartupStep::ReadLength);
    let length = trap_length(&[frame[1], frame[2], frame[3], frame[4]]).unwrap();
    assert_eq!(length, text.len());
    assert_eq!(frame.len(), 5 + length);
    assert_eq!(parse_trap(frame[5..].to_vec()).unwrap(), text);
}

#[test]
fn only_json_records_are_taken() {
    assert_eq!(parse_trap(b"[1, null]".to_vec()).unwrap(), "[1, null]");
    assert_eq!(told(parse_trap(b"{\"a\":".to_vec()).unwrap_err()), "notify: invalid trap");
    assert_eq!(
        told(parse_trap(b"\"a\xff\"".to_vec()).unwrap_err()),
        "notify: invalid trap: invalid utf-8 sequence of 1 bytes from index 2"
    );
    assert_eq!(accept_trap(true, "x".to_string()).unwrap(), "x");
    assert_eq!(told(accept_trap(false, "x".to_string()).unwrap_err()), "notify: invalid trap");
}

#[test]
fn processes_are_held_as_the_kernel_can() {
    assert_eq!(
        duplicate_target_fd(&MACHINE.errors, PidfdAttempt::Thread, libc::EINVAL),
        PidfdStep::Try(PidfdAttempt::Plain)
    );
    assert_eq!(
        duplicate_target_fd(&MACHINE.errors, PidfdAttempt::Thread, libc::ENOSYS),
        PidfdStep::Try(PidfdAttempt::Plain)
    );
    assert_eq!(
        duplicate_target_fd(&MACHINE.errors, PidfdAttempt::Plain, libc::EINVAL),
        PidfdStep::Try(PidfdAttempt::Leader)
    );
    assert_eq!(
        duplicate_target_fd(&MACHINE.errors, PidfdAttempt::Plain, libc::ENOSYS),
        PidfdStep::Fail(BrokerError::SystemCall { errno: libc::ENOSYS })
    );
    assert_eq!(
        duplicate_target_fd(&MACHINE.errors, PidfdAttempt::Leader, libc::EINVAL),
        PidfdStep::Fail(BrokerError::SystemCall { errno: libc::EINVAL })
    );
    assert_eq!(
        duplicate_target_fd(&MACHINE.errors, PidfdAttempt::Thread, libc::EPERM),
        PidfdStep::Fail(BrokerError::SystemCall { errno: libc::EPERM })
    );
}

#[test]
fn the_leader_is_read_from_the_status() {
    assert_eq!(thread_group_leader("Name:\tx\nTgid:\t41\nPid:\t42\n"), Ok(41));
    assert_eq!(thread_group_leader("Tgid: +7 \r\n"), Ok(7));
    for text in ["", "Tgid:\n", "Tgid:\t0\n", "Tgid:\t-3\n", "Tgid:\tx\n", " Tgid:\t1\n", "Tgid:\t99999999999\n"] {
        assert_eq!(thread_group_leader(text), Err(BrokerError::InvalidAddress), "{text}");
    }
}

#[test]
fn times_are_laid_out_as_on_the_machine() {
    let padded = Machine { times: TimeLayout::Padded, ..MACHINE };
    let mut bytes = Vec::new();
    for (seconds, nanoseconds) in [(5i64, 6i32), (-7, -8)] {
        bytes.extend_from_slice(&seconds.to_le_bytes());
        bytes.extend_from_slice(&nanoseconds.to_le_bytes());
        bytes.extend_from_slice(&[0xaa; 4]);
    }
    let read = read_child_times(&padded, &bytes).unwrap();
    assert_eq!((read.access_seconds, read.access_nanoseconds), (5, 6));
    assert_eq!((read.change_seconds, read.change_nanoseconds), (-7, -8));

    let padded_big = Machine { order: ByteOrder::Big, ..padded };
    let mut bytes = Vec::new();
    for (seconds, nanoseconds) in [(5i64, 6i32), (-7, -8)] {
        bytes.extend_from_slice(&seconds.to_be_bytes());
        bytes.extend_from_slice(&[0xaa; 4]);
        bytes.extend_from_slice(&nanoseconds.to_be_bytes());
    }
    let read = read_child_times(&padded_big, &bytes).unwrap();
    assert_eq!((read.access_seconds, read.access_nanoseconds), (5, 6));
    assert_eq!((read.change_seconds, read.change_nanoseconds), (-7, -8));

    let long = Machine { times: TimeLayout::Long, ..MACHINE };
    let mut bytes = Vec::new();
    for number in [1i64, 1 << 40, -3, -(1 << 40)] {
        bytes.extend_from_slice(&number.to_le_bytes());
    }
    let read = read_child_times(&long, &bytes).unwrap();
    assert_eq!((read.access_seconds, read.access_nanoseconds), (1, 1 << 40));
    assert_eq!((read.change_seconds, read.change_nanoseconds), (-3, -(1 << 40)));
    assert_eq!(read_child_times(&long, &bytes[..31]), Err(BrokerError::BadAddress));
}

#[test]
fn refusals_have_the_numbers_of_the_machine() {
    let errors = ErrorNumbers { enametoolong: 78, enosys: 89, ..MACHINE.errors };
    assert_eq!(
        brokered_response(&errors, 5, Err(BrokerError::NameTooLong)),
        notification_error(5, 78)
    );
    assert_eq!(
        duplicate_target_fd(&errors, PidfdAttempt::Thread, 89),
        PidfdStep::Try(PidfdAttempt::Plain)
    );
    assert_eq!(
        duplicate_target_fd(&errors, PidfdAttempt::Thread, 38),
        PidfdStep::Fail(BrokerError::SystemCall { errno: 38 })
    );
}
