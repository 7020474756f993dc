use landstrip::broker::denials::{exit_code, Denial, Denials, ExitStatus};
use landstrip::error::{Cause, Error, Mechanism};
use landstrip::policy::DenialReason;
use landstrip::trap::{
    FilesystemDenial, NetworkOperation, ProcessContext, Trap, TrapOperation, TrapState,
    INTERNAL_ERROR,
};

fn process() -> ProcessContext {
    ProcessContext { pid: 7, exe: Some("/bin/tool".to_string()), cwd: None }
}

fn denial(path: &str, operation: TrapOperation, reason: DenialReason) -> FilesystemDenial {
    FilesystemDenial {
        operation,
        path: path.as_bytes().to_vec(),
        requested_path: b"asked".to_vec(),
        syscall: "openat",
        flags: vec!["O_WRONLY"],
        reason,
        process: process(),
    }
}

fn cause(errno: Option<i32>) -> Cause {
    Cause { errno, message: "why".to_string(), below: vec!["deeper".to_string()] }
}

#[test]
fn a_query_number_tells_the_state() {
    assert_eq!(TrapState::from_query_id(Some(12)), (TrapState::Query, "12".to_string()));
    assert_eq!(TrapState::from_query_id(None), (TrapState::Info, "0".to_string()));
    let one = TrapState::from_query_id(Some(1)).1;
    let other = TrapState::from_query_id(Some(10)).1;
    assert_ne!(one, other);
}

#[test]
fn a_filesystem_record_suggests_what_would_help() {
    let read = Trap::filesystem(denial("/etc/\u{e9}", TrapOperation::Read, DenialReason::DenyMatch), Some(3));
    match read {
        Trap::Filesystem(record) => {
            assert_eq!(record.code, "FILESYSTEM_DENIED");
            assert_eq!(record.state, TrapState::Query);
            assert_eq!(record.query_id, "3");
            assert_eq!(record.errno, "EACCES");
            assert_eq!(record.mechanism, Mechanism::Seccomp);
            assert_eq!(record.flags, vec!["O_WRONLY"]);
            assert_eq!(record.requested_path, "asked");
            assert_eq!(record.suggested_grant.allow_read, Some(record.path));
            assert_eq!(record.suggested_grant.allow_write, None);
            assert_eq!(record.process.pid, 7);
        }
        _ => panic!("not a filesystem record"),
    }
    let mut raw = denial("/w", TrapOperation::Write, DenialReason::AllowMiss);
    raw.path = b"/w/\xff".to_vec();
    match Trap::filesystem(raw, None) {
        Trap::Filesystem(record) => {
            assert_eq!(record.path, "/w/\u{fffd}");
            assert_eq!(record.suggested_grant.allow_read, None);
            assert_eq!(record.suggested_grant.allow_write, Some("/w/\u{fffd}".to_string()));
            assert_eq!(record.state, TrapState::Info);
            assert_eq!(record.reason, DenialReason::AllowMiss);
        }
        _ => panic!("not a filesystem record"),
    }
}

#[test]
fn a_network_record_names_its_target() {
    let trap = Trap::network(
        NetworkOperation::Connect,
        "192.0.2.1:80".to_string(),
        "connect",
        process(),
        None,
    );
    match trap {
        Trap::Network(record) => {
            assert_eq!(record.code, "NETWORK_DENIED");
            assert_eq!(record.query_id, "0");
            assert_eq!(record.target, "192.0.2.1:80");
            assert_eq!(record.errno, "EACCES");
            assert_eq!(record.operation, NetworkOperation::Connect);
        }
        _ => panic!("not a network record"),
    }
}

#[test]
fn an_error_becomes_the_record_of_its_kind() {
    match Trap::from_error(&Error::Usage { message: "bad".to_string() }) {
        Trap::Usage(record) => {
            assert_eq!(record.code, "USAGE_ERROR");
            assert_eq!(record.message, "bad");
        }
        _ => panic!("not a usage record"),
    }
    match Trap::from_error(&Error::launch(b"t\xff".to_vec(), cause(Some(libc::ENOENT)))) {
        Trap::Launch(record) => {
            assert_eq!(record.program, "t\u{fffd}");
            assert_eq!(record.errno, Some("ENOENT"));
            assert_eq!(record.message, "why");
        }
        _ => panic!("not a launch record"),
    }
    match Trap::from_error(&Error::sandbox_setup(Mechanism::Landlock, cause(None))) {
        Trap::Internal(record) => {
            assert_eq!(record.mechanism, Some(Mechanism::Landlock));
            assert_eq!(record.message, "why: deeper");
        }
        _ => panic!("not an internal record"),
    }
    match Trap::from_error(&Error::PolicyEmptyPath) {
        Trap::Internal(record) => {
            assert_eq!(record.code, "POLICY_EMPTY_PATH");
            assert_eq!(record.mechanism, None);
            assert_eq!(record.message, "POLICY_EMPTY_PATH");
        }
        _ => panic!("not an internal record"),
    }
    match Trap::internal("odd".to_string()) {
        Trap::Internal(record) => {
            assert_eq!(record.code, INTERNAL_ERROR);
            assert_eq!(record.message, "odd");
        }
        _ => panic!("not an internal record"),
    }
}

#[test]
fn contexts_and_denials_are_compared_by_value() {
    assert!(process().is_same(&process().copy()));
    let other = ProcessContext { pid: 7, exe: None, cwd: None };
    assert!(!process().is_same(&other));
    let first = denial("/a", TrapOperation::Read, DenialReason::DenyMatch);
    assert!(first.is_same(&denial("/a", TrapOperation::Read, DenialReason::DenyMatch)));
    assert!(!first.is_same(&denial("/b", TrapOperation::Read, DenialReason::DenyMatch)));
    assert!(!first.is_same(&denial("/a", TrapOperation::Write, DenialReason::DenyMatch)));
    assert!(!first.is_same(&denial("/a", TrapOperation::Read, DenialReason::AllowMiss)));
}

#[test]
fn exit_codes_follow_the_shell() {
    assert_eq!(exit_code(ExitStatus::Exited { code: 3 }), 3);
    assert_eq!(exit_code(ExitStatus::Signaled { signal: 9 }), 137);
    assert_eq!(exit_code(ExitStatus::Other), 1);
}

fn network(target: &str) -> Denial {
    Denial::Network {
        operation: NetworkOperation::Connect,
        target: target.to_string(),
        syscall: "connect",
        process: process(),
    }
}

#[test]
fn a_repeated_denial_is_listed_once() {
    let mut denials = Denials::new();
    denials.record(network("a"));
    denials.record(network("b"));
    denials.record(network("a"));
    assert_eq!(denials.pending.len(), 2);
    assert!(denials.pending[0].is_same(&network("a")));
    assert!(denials.pending[1].is_same(&network("b")));
}

#[test]
fn a_failing_tool_is_told_of_every_denial() {
    let mut denials = Denials::new();
    denials.record(network("a"));
    denials.record(Denial::Filesystem(denial("/r", TrapOperation::Read, DenialReason::DenyMatch)));
    denials.record(Denial::Filesystem(denial("/w", TrapOperation::Write, DenialReason::DenyMatch)));
    let (code, told) = denials.emit(ExitStatus::Exited { code: 4 });
    assert_eq!(code, 4);
    assert_eq!(told.len(), 3);
    assert!(matches!(told[0], Trap::Network(_)));
    assert!(matches!(told[1], Trap::Filesystem(_)));
}

#[test]
fn a_succeeding_tool_is_told_of_writes_and_the_network() {
    let mut denials = Denials::new();
    denials.record(Denial::Filesystem(denial("/r", TrapOperation::Read, DenialReason::DenyMatch)));
    denials.record(Denial::Filesystem(denial("/w", TrapOperation::Write, DenialReason::DenyMatch)));
    denials.record(network("a"));
    let (code, told) = denials.emit(ExitStatus::Exited { code: 0 });
    assert_eq!(code, 0);
    assert_eq!(told.len(), 2);
    match &told[0] {
        Trap::Filesystem(record) => assert_eq!(record.path, "/w"),
        _ => panic!("not a filesystem record"),
    }
}
