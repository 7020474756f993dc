use landstrip::error::{Cause, Error, Mechanism};
use landstrip::linux::{doctor, execute, DoctorFailure, ExecuteMode};
use landstrip::policy::{
    AccessPolicy, AppContainerMode, IpBindAccess, NetworkAccess, ReadAccess, UnixSocketAccess,
};
use landstrip::windows::{
    is_installed, network_mode, validate, validate_restricted_network, Installation, NetworkMode,
    RunAction, RunState,
};

fn cause(message: &str) -> Cause {
    Cause { errno: None, message: message.to_string(), below: Vec::new() }
}

fn policy(network_access: NetworkAccess) -> AccessPolicy {
    AccessPolicy {
        write_roots: Vec::new(),
        write_denied_roots: Vec::new(),
        write_denied_patterns: Vec::new(),
        write_denied_links: Vec::new(),
        read_access: ReadAccess::Unrestricted,
        read_denied_roots: Vec::new(),
        read_reopened_roots: Vec::new(),
        read_symlinks: Vec::new(),
        network_access,
        app_container_mode: AppContainerMode { name: "lpac".to_string() },
        allow_windows_loopback: false,
    }
}

fn restricted(ports: &[u16], bind: IpBindAccess, unix_socket_access: UnixSocketAccess) -> NetworkAccess {
    NetworkAccess::Restricted { connect_tcp_ports: ports.to_vec(), bind, unix_socket_access }
}

const INSTALLED: Installation =
    Installation { complete: true, proxy_port_low: 1000, proxy_port_high: 2000 };

#[test]
fn every_tool_gets_a_broker() {
    let open = policy(NetworkAccess::Unrestricted);
    assert_eq!(
        execute(&open, false, false),
        ExecuteMode::Broker { network_restricted: false, needs_filesystem: false }
    );
    assert_eq!(
        execute(&open, false, true),
        ExecuteMode::Broker { network_restricted: false, needs_filesystem: true }
    );
    let closed = policy(restricted(&[], IpBindAccess::Deny, UnixSocketAccess::Denied));
    assert_eq!(
        execute(&closed, true, false),
        ExecuteMode::Broker { network_restricted: true, needs_filesystem: true }
    );
    let bare = policy(restricted(&[], IpBindAccess::Deny, UnixSocketAccess::Unrestricted));
    assert_eq!(
        execute(&bare, false, false),
        ExecuteMode::Broker { network_restricted: true, needs_filesystem: false }
    );
    let mut part = policy(NetworkAccess::Unrestricted);
    part.read_reopened_roots = vec![b"/a/b".to_vec()];
    assert_eq!(
        execute(&part, false, false),
        ExecuteMode::Broker { network_restricted: false, needs_filesystem: true }
    );
}

#[test]
fn a_doctor_tells_the_first_failure() {
    assert!(doctor(Ok(()), Ok(()), Ok(())).is_ok());
    let first = doctor(Err(cause("a")), Err(cause("b")), Ok(())).unwrap_err();
    assert_eq!(first.context(), Some("Landlock execute access is unavailable"));
    let second = doctor(Ok(()), Err(cause("b")), Err(Error::IntegerTooLarge)).unwrap_err();
    assert_eq!(second.context(), Some("create a Landlock ruleset"));
    let third = doctor(Ok(()), Ok(()), Err(Error::IntegerTooLarge)).unwrap_err();
    assert_eq!(third.context(), None);
    assert!(matches!(third, DoctorFailure::Notification(Error::IntegerTooLarge)));
}

fn told(result: Result<(), Error>) -> String {
    match result {
        Err(Error::SandboxSetupFailed { mechanism, source }) => {
            assert_eq!(mechanism, Mechanism::Windowsuser);
            source.message
        }
        _ => panic!("the policy was taken"),
    }
}

#[test]
fn an_installation_is_looked_for() {
    assert_eq!(is_installed::<i32>(Ok(None)), Ok(false));
    assert_eq!(is_installed::<i32>(Ok(Some(INSTALLED))), Ok(true));
    assert_eq!(is_installed::<i32>(Err(5)), Err(5));
}

#[test]
fn restricted_networks_are_checked() {
    let network = || restricted(&[1000, 2000], IpBindAccess::Deny, UnixSocketAccess::Denied);
    assert!(validate_restricted_network(&policy(network()), &INSTALLED).is_ok());
    let mut loopback = policy(network());
    loopback.allow_windows_loopback = true;
    assert_eq!(
        told(validate_restricted_network(&loopback, &INSTALLED)),
        "windows.allowLoopback is not supported by restricted-user isolation"
    );
    let binding = policy(restricted(&[], IpBindAccess::Localhost, UnixSocketAccess::Denied));
    assert_eq!(
        told(validate_restricted_network(&binding, &INSTALLED)),
        "allowLocalBinding is not supported by restricted-user isolation"
    );
    for port in [999u16, 2001] {
        let outside = policy(restricted(&[1500, port], IpBindAccess::Deny, UnixSocketAccess::Denied));
        assert_eq!(
            told(validate_restricted_network(&outside, &INSTALLED)),
            "restricted-user proxy port is outside the installed WFP allow range"
        );
    }
}

#[test]
fn an_installation_must_be_whole() {
    let open = policy(NetworkAccess::Unrestricted);
    assert!(validate(&open, Ok(INSTALLED)).is_ok());
    assert_eq!(told(validate(&open, Err(cause("unreadable")))), "unreadable");
    let partial = Installation { complete: false, ..INSTALLED };
    assert_eq!(
        told(validate(&open, Ok(partial))),
        "restricted-user installation is incomplete"
    );
    let outside = policy(restricted(&[1], IpBindAccess::Deny, UnixSocketAccess::Denied));
    assert!(validate(&outside, Ok(INSTALLED)).is_err());
    assert!(matches!(network_mode(&open, Ok(INSTALLED)), Ok(NetworkMode::Unrestricted)));
    let inside = policy(restricted(&[1500], IpBindAccess::Deny, UnixSocketAccess::Denied));
    assert!(matches!(network_mode(&inside, Ok(INSTALLED)), Ok(NetworkMode::Restricted)));
    assert!(network_mode(&outside, Ok(INSTALLED)).is_err());
    assert!(network_mode(&open, Ok(partial)).is_err());
}

/// The actions of a run in which the chosen ones fail, and what it ends with.
fn run(failing: &[RunAction]) -> (Vec<RunAction>, Result<i32, String>) {
    let mut state: RunState<String> = RunState::new();
    let mut actions = Vec::new();
    while state.action != RunAction::Finish {
        actions.push(state.action);
        let outcome = if failing.contains(&state.action) {
            Err(format!("{:?}", state.action))
        } else if state.action == RunAction::Launch {
            Ok(4_294_967_295u32)
        } else {
            Ok(0)
        };
        state = state.execute(outcome);
    }
    (actions, state.result().unwrap())
}

#[test]
fn a_run_takes_back_what_it_gave() {
    let (actions, result) = run(&[]);
    assert_eq!(
        actions,
        vec![
            RunAction::WriteRequest,
            RunAction::JournalPlanned,
            RunAction::Apply,
            RunAction::JournalApplied,
            RunAction::Launch,
            RunAction::Revoke { planned: false },
            RunAction::ClearJournal,
            RunAction::RemoveRequest,
        ]
    );
    assert_eq!(result, Ok(-1));
}

#[test]
fn a_failed_run_tells_what_stopped_it() {
    let (actions, result) = run(&[RunAction::WriteRequest]);
    assert_eq!(actions, vec![RunAction::WriteRequest]);
    assert_eq!(result, Err("WriteRequest".to_string()));

    let (actions, result) = run(&[RunAction::JournalPlanned]);
    assert_eq!(actions.last(), Some(&RunAction::RemoveRequest));
    assert_eq!(result, Err("JournalPlanned".to_string()));

    let (actions, result) = run(&[RunAction::Apply, RunAction::Revoke { planned: true }]);
    assert!(actions.contains(&RunAction::Revoke { planned: true }));
    assert!(!actions.contains(&RunAction::ClearJournal));
    assert_eq!(result, Err("Apply".to_string()));

    let (actions, result) = run(&[RunAction::JournalApplied]);
    assert!(!actions.contains(&RunAction::Launch));
    assert!(actions.contains(&RunAction::ClearJournal));
    assert_eq!(result, Err("JournalApplied".to_string()));

    let (_, result) = run(&[RunAction::Revoke { planned: false }]);
    assert_eq!(result, Err("Revoke { planned: false }".to_string()));
    let (_, result) = run(&[RunAction::ClearJournal]);
    assert_eq!(result, Err("ClearJournal".to_string()));
    let (_, result) = run(&[RunAction::Launch, RunAction::Revoke { planned: false }]);
    assert_eq!(result, Err("Launch".to_string()));
}

#[test]
fn an_unfinished_run_has_no_result() {
    assert!(RunState::<String>::new().result().is_none());
}
