use landstrip::broker::registers::ByteOrder;
use landstrip::broker::address::{BrokerError, Domain};
use landstrip::broker::denials::{deny_network, Denials};
use landstrip::broker::grant::{
    Grant, NotificationResult, SocketCall, SocketGrant, SocketOperation,
};
use landstrip::broker::machine::{ErrorNumbers, SocketTypes};
use landstrip::broker::socket::{
    absolute_unix_path, is_relative_unix_path,
    authorize_unix_path, connect_udp_source, create_parent, create_path,
    ensure_udp_loopback_source, finish_unix_call, handle_bind, handle_connect,
    is_supervisor_socket, rewrite_unix_path, same_socket_inode, socket_peer_endpoint,
    supervisor_sockets, udp_source_state, unix_path_target, AddressStep, SocketInfo, SocketKind,
    SourceStep, TargetSocket, UdpSourceState,
};
use landstrip::policy::{
    AccessPolicy, AppContainerMode, IpBindAccess, NetworkAccess, ReadAccess, UnixSocketAccess,
};
use landstrip::trap::{NetworkOperation, ProcessContext, Trap};

const TYPES: SocketTypes = SocketTypes { stream: libc::SOCK_STREAM, datagram: libc::SOCK_DGRAM };

const ERRORS: ErrorNumbers = ErrorNumbers {
    eafnosupport: libc::EAFNOSUPPORT,
    emsgsize: libc::EMSGSIZE,
    enametoolong: libc::ENAMETOOLONG,
    enobufs: libc::ENOBUFS,
    enosys: libc::ENOSYS,
    enotconn: libc::ENOTCONN,
    eopnotsupp: libc::EOPNOTSUPP,
};

fn roots(list: &[&str]) -> Vec<Vec<u8>> {
    list.iter().map(|text| text.as_bytes().to_vec()).collect()
}

fn domain() -> Domain {
    Domain { number: libc::AF_INET, order: ByteOrder::Little }
}

fn policy(network_access: NetworkAccess) -> AccessPolicy {
    AccessPolicy {
        write_roots: roots(&["/work"]),
        write_denied_roots: Vec::new(),
        write_denied_patterns: Vec::new(),
        write_denied_links: Vec::new(),
        read_access: ReadAccess::Unrestricted,
        read_denied_roots: Vec::new(),
        read_reopened_roots: Vec::new(),
        read_symlinks: Vec::new(),
        network_access,
        app_container_mode: AppContainerMode { name: "lpac".to_string() },
        allow_windows_loopback: false,
    }
}

fn restricted(ports: &[u16], bind: IpBindAccess, unix_socket_access: UnixSocketAccess) -> AccessPolicy {
    policy(NetworkAccess::Restricted { connect_tcp_ports: ports.to_vec(), bind, unix_socket_access })
}

fn inet(octets: [u8; 4], port: u16) -> Vec<u8> {
    let mut bytes = vec![2, 0];
    bytes.extend_from_slice(&port.to_be_bytes());
    bytes.extend_from_slice(&octets);
    bytes.extend_from_slice(&[0; 8]);
    bytes
}

fn unix(path: &[u8]) -> Vec<u8> {
    let mut bytes = vec![1, 0];
    bytes.extend_from_slice(path);
    bytes
}

const TCP: SocketInfo =
    SocketInfo { domain: libc::AF_INET, ty: libc::SOCK_STREAM, proto: libc::IPPROTO_TCP, order: ByteOrder::Little, types: TYPES };
const UDP: SocketInfo =
    SocketInfo { domain: libc::AF_INET, ty: libc::SOCK_DGRAM, proto: libc::IPPROTO_UDP, order: ByteOrder::Little, types: TYPES };
const UNIX: SocketInfo = SocketInfo { domain: libc::AF_UNIX, ty: libc::SOCK_STREAM, proto: 0, order: ByteOrder::Little, types: TYPES };
const RAW: SocketInfo = SocketInfo { domain: libc::AF_INET, ty: libc::SOCK_RAW, proto: 1, order: ByteOrder::Little, types: TYPES };

fn target(info: SocketInfo, addr: Vec<u8>) -> TargetSocket<i32> {
    TargetSocket { sock: 9, addr, info }
}

fn bound(step: AddressStep<i32>) -> Option<Vec<u8>> {
    match step {
        AddressStep::Run(grant) => match grant.operation {
            SocketOperation::Address { bind_addr, .. } => bind_addr,
            _ => panic!("not an address call"),
        },
        _ => panic!("not run"),
    }
}

#[test]
fn sockets_are_told_apart() {
    assert_eq!(TCP.kind(), SocketKind::Tcp);
    assert_eq!(UDP.kind(), SocketKind::Udp);
    assert_eq!(SocketInfo { domain: libc::AF_INET6, ..UDP }.kind(), SocketKind::Udp);
    assert_eq!(UNIX.kind(), SocketKind::Unix);
    assert_eq!(RAW.kind(), SocketKind::NotSupported);
    assert_eq!(SocketInfo { domain: libc::AF_NETLINK, ..RAW }.kind(), SocketKind::NotSupported);
    assert_eq!(SocketInfo { domain: libc::AF_PACKET, ..RAW }.kind(), SocketKind::NotSupported);
    assert_eq!(SocketInfo { domain: libc::AF_VSOCK, ..RAW }.kind(), SocketKind::Other);
}

#[test]
fn binding_needs_local_binding_and_a_local_address() {
    let local = restricted(&[], IpBindAccess::Localhost, UnixSocketAccess::Denied);
    let closed = restricted(&[], IpBindAccess::Deny, UnixSocketAccess::Denied);
    assert_eq!(bound(handle_bind(&local, target(TCP, inet([127, 0, 0, 1], 80)))), None);
    match handle_bind(&closed, target(TCP, inet([127, 0, 0, 1], 80))) {
        AddressStep::Deny { operation, syscall, grant, .. } => {
            assert_eq!(operation, NetworkOperation::Bind);
            assert_eq!(syscall, "bind");
            assert!(matches!(
                grant.operation,
                SocketOperation::Address { call: SocketCall::Bind, bind_addr: None, .. }
            ));
        }
        _ => panic!("not denied"),
    }
    assert!(matches!(
        handle_bind(&local, target(UDP, inet([0, 0, 0, 0], 80))),
        AddressStep::Deny { .. }
    ));
    assert!(matches!(
        handle_bind(&local, target(TCP, vec![2])),
        AddressStep::Refuse(BrokerError::InvalidAddress)
    ));
    assert!(matches!(
        handle_bind(&local, target(RAW, inet([127, 0, 0, 1], 80))),
        AddressStep::Refuse(BrokerError::AddressFamilyNotSupported)
    ));
    let vsock = SocketInfo { domain: libc::AF_VSOCK, ty: 1, proto: 0, order: ByteOrder::Little, types: TYPES };
    assert!(matches!(handle_bind(&local, target(vsock, Vec::new())), AddressStep::Continue));
}

#[test]
fn connecting_is_held_to_the_machine() {
    let open = policy(NetworkAccess::Unrestricted);
    let ports = restricted(&[8080], IpBindAccess::Deny, UnixSocketAccess::Denied);
    let local = restricted(&[], IpBindAccess::Localhost, UnixSocketAccess::Denied);
    let away = || target(TCP, inet([192, 0, 2, 1], 8080));
    assert!(matches!(handle_connect(&open, away()), AddressStep::Continue));
    assert!(matches!(handle_connect(&ports, away()), AddressStep::Deny { .. }));
    assert!(matches!(handle_connect(&local, away()), AddressStep::Deny { .. }));
    let near = |port| target(TCP, inet([127, 0, 0, 1], port));
    assert_eq!(bound(handle_connect(&ports, near(8080))), None);
    assert!(matches!(handle_connect(&ports, near(8081)), AddressStep::Deny { .. }));
    assert_eq!(bound(handle_connect(&local, near(1))), None);
    assert!(matches!(handle_connect(&open, target(RAW, Vec::new())), AddressStep::Continue));
    assert!(matches!(
        handle_connect(&local, target(RAW, Vec::new())),
        AddressStep::Refuse(BrokerError::AddressFamilyNotSupported)
    ));
}

#[test]
fn udp_connects_get_a_local_source() {
    let local = restricted(&[], IpBindAccess::Localhost, UnixSocketAccess::Denied);
    let closed = restricted(&[9], IpBindAccess::Deny, UnixSocketAccess::Denied);
    let mut nowhere = vec![0u8; 16];
    nowhere[0] = 0;
    assert_eq!(bound(handle_connect(&closed, target(UDP, nowhere))), None);
    assert!(matches!(
        handle_connect(&closed, target(UDP, inet([127, 0, 0, 1], 9))),
        AddressStep::Deny { .. }
    ));
    for (state, denied) in [
        (UdpSourceState::Unbound, false),
        (UdpSourceState::Loopback, false),
        (UdpSourceState::Other, true),
    ] {
        match handle_connect(&local, target(UDP, inet([127, 0, 0, 1], 9))) {
            AddressStep::AskSource { socket, endpoint } => {
                let step = connect_udp_source(socket, endpoint, Ok(state));
                if denied {
                    assert!(matches!(step, AddressStep::Deny { .. }));
                } else {
                    assert_eq!(bound(step), Some(inet([127, 0, 0, 1], 0)));
                }
            }
            _ => panic!("the source was not asked for"),
        }
    }
    match handle_connect(&local, target(UDP, inet([127, 0, 0, 1], 9))) {
        AddressStep::AskSource { socket, endpoint } => assert!(matches!(
            connect_udp_source(socket, endpoint, Err(BrokerError::BadFileDescriptor)),
            AddressStep::Refuse(BrokerError::BadFileDescriptor)
        )),
        _ => panic!("the source was not asked for"),
    }
}

#[test]
fn a_source_is_local_unbound_or_neither() {
    let of = |octets, port| udp_source_state(&inet(octets, port), domain());
    assert_eq!(of([127, 0, 0, 1], 5), Ok(UdpSourceState::Loopback));
    assert_eq!(of([0, 0, 0, 0], 0), Ok(UdpSourceState::Unbound));
    assert_eq!(of([0, 0, 0, 0], 5), Ok(UdpSourceState::Other));
    assert_eq!(of([10, 0, 0, 1], 0), Ok(UdpSourceState::Other));
    assert_eq!(udp_source_state(&[2], domain()), Err(BrokerError::InvalidAddress));
    assert_eq!(ensure_udp_loopback_source(UdpSourceState::Loopback), SourceStep::Send);
    assert_eq!(ensure_udp_loopback_source(UdpSourceState::Unbound), SourceStep::BindFirst);
    assert_eq!(ensure_udp_loopback_source(UdpSourceState::Other), SourceStep::Refuse);
}

#[test]
fn an_unconnected_socket_has_no_peer() {
    let none = socket_peer_endpoint(
        &ERRORS,
        Err(BrokerError::SystemCall { errno: libc::ENOTCONN }),
        domain(),
    );
    assert!(matches!(none, Ok(None)));
    assert!(matches!(
        socket_peer_endpoint(&ERRORS, Err(BrokerError::BadFileDescriptor), domain()),
        Err(BrokerError::BadFileDescriptor)
    ));
    match socket_peer_endpoint(&ERRORS, Ok(inet([127, 0, 0, 1], 7)), domain()) {
        Ok(Some(peer)) => assert_eq!(peer.port, 7),
        _ => panic!("no peer"),
    }
}

#[test]
fn unix_addresses_have_a_path_or_none() {
    assert_eq!(unix_path_target(&unix(b"/run/x\0junk")), Some(b"/run/x".to_vec()));
    assert_eq!(unix_path_target(&unix(b"rel")), Some(b"rel".to_vec()));
    assert_eq!(unix_path_target(&unix(b"")), None);
    assert_eq!(unix_path_target(&unix(b"\0abstract")), None);
    assert_eq!(create_parent(b"/run/x"), b"/run");
    assert_eq!(create_parent(b"x"), b"/");
    assert_eq!(create_path(b"/run/x", b"/private/run"), b"/private/run/x");
    assert_eq!(create_path(b"/run/..", b"/private/run"), b"/private/run");
}

#[test]
fn unix_calls_without_a_path_are_refused_unless_open() {
    let open = policy(NetworkAccess::Unrestricted);
    let closed = restricted(&[], IpBindAccess::Deny, UnixSocketAccess::Denied);
    let hidden = || target(UNIX, unix(b"\0abstract"));
    assert!(matches!(handle_connect(&open, hidden()), AddressStep::Continue));
    assert!(matches!(
        handle_connect(&closed, hidden()),
        AddressStep::Refuse(BrokerError::PolicyDenied)
    ));
    assert!(matches!(
        handle_bind(&open, hidden()),
        AddressStep::Refuse(BrokerError::PolicyDenied)
    ));
    match handle_connect(&closed, target(UNIX, unix(b"/run/x"))) {
        AddressStep::AskPath { call, path, .. } => {
            assert_eq!(call, SocketCall::Connect);
            assert_eq!(path, b"/run/x");
        }
        _ => panic!("the path was not asked for"),
    }
}

#[test]
fn sockets_of_service_managers_stay_closed() {
    assert_eq!(
        supervisor_sockets(Some(b"/rt"), 1000),
        roots(&["/rt/bus", "/run/user/1000/bus", "/run/dbus/system_bus_socket"])
    );
    assert_eq!(
        supervisor_sockets(None, 0),
        roots(&["/run/user/0/bus", "/run/user/0/bus", "/run/dbus/system_bus_socket"])
    );
    let none = [false, false, false];
    let is = |path: &[u8]| is_supervisor_socket(path, Some(b"/rt"), 1000, &none);
    assert!(is(b"/rt/bus"));
    assert!(is(b"/run/user/1000/bus"));
    assert!(is(b"/run/dbus/system_bus_socket"));
    assert!(is(b"/run/systemd/private"));
    assert!(is(b"/rt/systemd/private"));
    assert!(is(b"/run/user/1000/systemd/x"));
    assert!(!is(b"/run/user/1001/bus"));
    assert!(!is(b"/run/x"));
    assert!(is_supervisor_socket(b"/run/x", None, 1000, &[false, true, false]));
    assert!(same_socket_inode(Some((1, 2)), Some((1, 2))));
    assert!(!same_socket_inode(Some((1, 2)), Some((1, 3))));
    assert!(!same_socket_inode(None, None));
}

#[test]
fn unix_paths_are_authorized() {
    let open = policy(NetworkAccess::Unrestricted);
    let closed = restricted(&[], IpBindAccess::Deny, UnixSocketAccess::Denied);
    let listed =
        restricted(&[], IpBindAccess::Deny, UnixSocketAccess::AllowPaths(roots(&["/run/x"])));
    assert_eq!(authorize_unix_path(&open, b"/any", false), Ok(()));
    assert_eq!(authorize_unix_path(&open, b"/any", true), Err(BrokerError::PolicyDenied));
    assert_eq!(authorize_unix_path(&closed, b"/any", false), Err(BrokerError::PolicyDenied));
    assert_eq!(authorize_unix_path(&listed, b"/run/x/y", false), Ok(()));
    assert_eq!(authorize_unix_path(&listed, b"/run/y", false), Err(BrokerError::PolicyDenied));
}

#[test]
fn a_relative_unix_path_is_rewritten() {
    let mut addr = unix(b"x");
    assert_eq!(rewrite_unix_path(&mut addr, b"/work/x"), Ok(()));
    assert_eq!(addr, unix(b"/work/x\0"));
    assert_eq!(unix_path_target(&addr), Some(b"/work/x".to_vec()));
    let fits = vec![b'a'; 107];
    assert_eq!(rewrite_unix_path(&mut addr, &fits), Ok(()));
    let long = vec![b'a'; 108];
    assert_eq!(rewrite_unix_path(&mut addr, &long), Err(BrokerError::NameTooLong));
}

#[test]
fn unix_calls_are_finished_on_the_resolved_path() {
    let listed =
        restricted(&[], IpBindAccess::Deny, UnixSocketAccess::AllowPaths(roots(&["/work", "/run"])));
    let call = |call, path: &[u8], relative, supervisor| {
        finish_unix_call(&listed, target(UNIX, unix(b"x")), call, path, relative, supervisor)
    };
    match call(SocketCall::Bind, b"/work/x", true, false) {
        AddressStep::Run(grant) => match grant.operation {
            SocketOperation::Address { addr, call, bind_addr } => {
                assert_eq!(addr, unix(b"/work/x\0"));
                assert_eq!(call, SocketCall::Bind);
                assert_eq!(bind_addr, None);
            }
            _ => panic!("not an address call"),
        },
        _ => panic!("not run"),
    }
    assert!(matches!(
        call(SocketCall::Bind, b"/run/x", false, false),
        AddressStep::Refuse(BrokerError::PolicyDenied)
    ));
    assert!(matches!(call(SocketCall::Connect, b"/run/x", false, false), AddressStep::Run(_)));
    assert!(matches!(
        call(SocketCall::Connect, b"/run/x", false, true),
        AddressStep::Refuse(BrokerError::PolicyDenied)
    ));
}

fn process() -> ProcessContext {
    ProcessContext { pid: 7, exe: None, cwd: None }
}

#[test]
fn a_denied_call_is_asked_about_or_listed() {
    let grant = || SocketGrant::address(9, inet([192, 0, 2, 1], 80), SocketCall::Connect, None);
    let mut denials = Denials::new();
    let mut next: u64 = 4;
    let asked = deny_network(
        NetworkOperation::Connect,
        "192.0.2.1:80".to_string(),
        "connect",
        process(),
        grant(),
        &mut denials,
        true,
        &mut next,
    );
    match asked {
        Ok(NotificationResult::Query(decision)) => {
            assert_eq!(decision.query_id, 4);
            assert!(matches!(decision.grant, Some(Grant::Socket(_))));
            match decision.trap {
                Trap::Network(record) => assert_eq!(record.query_id, "4"),
                _ => panic!("not a network record"),
            }
        }
        _ => panic!("not asked about"),
    }
    assert_eq!(next, 5);
    assert!(denials.pending.is_empty());
    let refused = deny_network(
        NetworkOperation::Connect,
        "192.0.2.1:80".to_string(),
        "connect",
        process(),
        grant(),
        &mut denials,
        false,
        &mut next,
    );
    assert!(matches!(refused, Err(BrokerError::PolicyDenied)));
    assert_eq!(next, 5);
    assert_eq!(denials.pending.len(), 1);
}

#[test]
fn a_relative_socket_path_starts_at_the_working_directory() {
    assert!(is_relative_unix_path(b"run/s"));
    assert!(is_relative_unix_path(b""));
    assert!(!is_relative_unix_path(b"/run/s"));
    assert_eq!(absolute_unix_path(b"run/s", b"/home/me"), b"/home/me/run/s");
    assert_eq!(absolute_unix_path(b"/run/s", b"/home/me"), b"/run/s");
}

#[test]
fn socket_types_are_those_of_the_machine() {
    let types = SocketTypes { stream: 2, datagram: 1 };
    assert_eq!(SocketInfo { ty: 2, types, ..TCP }.kind(), SocketKind::Tcp);
    assert_eq!(SocketInfo { ty: 1, types, ..UDP }.kind(), SocketKind::Udp);
    assert_eq!(SocketInfo { ty: 1, types, ..TCP }.kind(), SocketKind::NotSupported);
    let errors = ErrorNumbers { enotconn: 134, ..ERRORS };
    let failed = |errno| socket_peer_endpoint(&errors, Err(BrokerError::SystemCall { errno }), domain());
    assert!(matches!(failed(134), Ok(None)));
    assert!(matches!(failed(107), Err(BrokerError::SystemCall { errno: 107 })));
}
