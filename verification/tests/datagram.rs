use landstrip::broker::registers::{words_len, ByteOrder};
use landstrip::broker::address::{
    ip_endpoint, loopback_bind_addr, sockaddr_family, BrokerError, Domain, IpEndpoint,
    SocketAddress,
};
use landstrip::broker::datagram::{
    datagram_ready, handle_datagram_send, has_addressed_message, sends_unmediated, sent_length,
    write_mmsg_length, DatagramPolicyAnalysis, MmsgProgress,
};
use landstrip::broker::datagram_copy::{
    copy_datagram_request, datagram_send_flags, validate_datagram_control, DatagramCopyStep,
    IOVEC_WORDS, MMSGHDR_WORDS, MSGHDR_WORDS,
};
use landstrip::broker::grant::{
    DatagramCall, DatagramMessage, MmsgOutput, SocketOperation,
};
use landstrip::broker::machine::{
    CountWidth, ErrorNumbers, Machine, OpenFlags, SocketTypes, TimeLayout,
};
use landstrip::broker::memory::MemoryRead;
use landstrip::broker::socket::{AddressStep, SocketInfo, UdpSourceState};
use landstrip::broker::syscalls::{NotificationSyscalls, SendSyscall};
use landstrip::policy::{
    AccessPolicy, AppContainerMode, IpBindAccess, NetworkAccess, ReadAccess, UnixSocketAccess,
};

/// A little-endian machine with the numbers of this one.
const MACHINE: Machine = Machine {
    order: ByteOrder::Little,
    counts: CountWidth::Word,
    times: TimeLayout::Words,
    open: OpenFlags {
        access_mode: libc::O_ACCMODE,
        create: libc::O_CREAT,
        exclusive: libc::O_EXCL,
        truncate: libc::O_TRUNC,
        append: libc::O_APPEND,
        close_on_exec: libc::O_CLOEXEC,
        path: libc::O_PATH,
        no_follow: libc::O_NOFOLLOW,
    },
    sockets: SocketTypes { stream: libc::SOCK_STREAM, datagram: libc::SOCK_DGRAM },
    errors: ErrorNumbers {
        eafnosupport: libc::EAFNOSUPPORT,
        emsgsize: libc::EMSGSIZE,
        enametoolong: libc::ENAMETOOLONG,
        enobufs: libc::ENOBUFS,
        enosys: libc::ENOSYS,
        enotconn: libc::ENOTCONN,
        eopnotsupp: libc::EOPNOTSUPP,
    },
};

fn machine() -> Machine {
    Machine { order: native(), ..MACHINE }
}

fn native() -> ByteOrder {
    if u16::from_ne_bytes([1, 0]) == 1 {
        ByteOrder::Little
    } else {
        ByteOrder::Big
    }
}

fn domain(number: i32) -> Domain {
    Domain { number, order: native() }
}

fn endpoint(addr: SocketAddress, loopback: bool) -> IpEndpoint {
    let port = match addr {
        SocketAddress::V4 { port, .. } => port,
        SocketAddress::V6 { port, .. } => port,
    };
    IpEndpoint { addr, port, loopback, order: native() }
}

fn v4(octets: [u8; 4], port: u16) -> SocketAddress {
    SocketAddress::V4 { octets, port }
}

fn analyze(
    endpoints: &[IpEndpoint],
    allows_local_binding: bool,
    source_state: UdpSourceState,
) -> DatagramPolicyAnalysis {
    let mut analysis = DatagramPolicyAnalysis::new(endpoints.len());
    for (index, endpoint) in endpoints.iter().copied().enumerate() {
        if !analysis.classify(index, Some(endpoint), allows_local_binding, source_state) {
            break;
        }
    }
    analysis
}

fn denies(analysis: &DatagramPolicyAnalysis, target: SocketAddress) -> bool {
    analysis.denied_target.as_ref().is_some_and(|denied| denied.is_same(&target))
}

#[test]
fn ip_endpoint_preserves_ipv6_socket_address_fields() {
    let ip: [u8; 16] = [0xfe, 0x80, 0, 0, 0, 0, 0, 0, 0, 0, 0, 0, 0, 0, 0, 1];
    let port = 40_001_u16;
    let flowinfo = 0x0012_3456_u32;
    let scope_id = 7_u32;
    let mut serialized = Vec::new();
    serialized.extend_from_slice(&u16::try_from(libc::AF_INET6).unwrap().to_ne_bytes());
    serialized.extend_from_slice(&port.to_be_bytes());
    serialized.extend_from_slice(&flowinfo.to_be_bytes());
    serialized.extend_from_slice(&ip);
    serialized.extend_from_slice(&scope_id.to_ne_bytes());
    assert_eq!(serialized.len(), std::mem::size_of::<libc::sockaddr_in6>());

    let endpoint = ip_endpoint(&serialized, domain(libc::AF_INET6)).unwrap();

    assert!(endpoint.addr.is_same(&SocketAddress::V6 { octets: ip, port, flowinfo, scope_id }));
    assert_eq!(endpoint.port, port);
}

#[test]
fn sendmmsg_grant_stops_before_a_different_denied_target() {
    let target_a = v4([192, 0, 2, 1], 4001);
    let target_b = v4([192, 0, 2, 1], 4002);
    let analysis = analyze(
        &[endpoint(target_a, false), endpoint(target_b, false)],
        true,
        UdpSourceState::Unbound,
    );

    assert!(denies(&analysis, target_a));
    assert_eq!(analysis.safe_message_count, 1);
}

#[test]
fn sendmmsg_grant_stops_before_same_ipv6_target_on_a_different_scope() {
    let octets: [u8; 16] = [0xfe, 0x80, 0, 0, 0, 0, 0, 0, 0, 0, 0, 0, 0, 0, 0, 1];
    let target_a = SocketAddress::V6 { octets, port: 4001, flowinfo: 0, scope_id: 2 };
    let target_b = SocketAddress::V6 { octets, port: 4001, flowinfo: 0, scope_id: 3 };
    let analysis = analyze(
        &[endpoint(target_a, false), endpoint(target_b, false)],
        true,
        UdpSourceState::Unbound,
    );

    assert!(denies(&analysis, target_a));
    assert_eq!(analysis.safe_message_count, 1);
}

#[test]
fn sendmmsg_grant_keeps_allowed_messages_around_denied_target() {
    let loopback_a = v4([127, 0, 0, 1], 3001);
    let target = v4([192, 0, 2, 1], 4001);
    let loopback_b = v4([127, 0, 0, 1], 3002);
    let analysis = analyze(
        &[endpoint(loopback_a, true), endpoint(target, false), endpoint(loopback_b, true)],
        true,
        UdpSourceState::Unbound,
    );

    assert!(denies(&analysis, target));
    assert_eq!(analysis.safe_message_count, 3);
}

#[test]
fn sendmmsg_grant_keeps_repeated_denied_target() {
    let target = v4([192, 0, 2, 1], 4001);
    let analysis = analyze(
        &[endpoint(target, false), endpoint(target, false)],
        true,
        UdpSourceState::Unbound,
    );

    assert!(denies(&analysis, target));
    assert_eq!(analysis.safe_message_count, 2);
}

#[test]
fn sendmmsg_source_denial_is_split_by_destination() {
    let target_a = v4([127, 0, 0, 1], 3001);
    let target_b = v4([127, 0, 0, 1], 3002);
    let analysis = analyze(
        &[endpoint(target_a, true), endpoint(target_b, true)],
        true,
        UdpSourceState::Other,
    );

    assert!(denies(&analysis, target_a));
    assert_eq!(analysis.safe_message_count, 1);
    assert_eq!(analysis.loopback_bind_addr, None);
}

#[test]
fn a_local_message_asks_for_a_local_source() {
    let target = v4([127, 0, 0, 1], 3001);
    let analysis = analyze(&[endpoint(target, true)], true, UdpSourceState::Unbound);
    assert!(analysis.denied_target.is_none());
    assert_eq!(analysis.loopback_bind_addr, Some(loopback_bind_addr(target, native())));
    let silent = analyze(&[endpoint(target, true)], false, UdpSourceState::Unbound);
    assert!(denies(&silent, target));
    let mut nowhere = DatagramPolicyAnalysis::new(1);
    assert!(nowhere.classify(0, None, false, UdpSourceState::Other));
    assert!(nowhere.denied_target.is_none());
}

fn inet(octets: [u8; 4], port: u16) -> Vec<u8> {
    let mut bytes = vec![2, 0];
    bytes.extend_from_slice(&port.to_be_bytes());
    bytes.extend_from_slice(&octets);
    bytes.extend_from_slice(&[0; 8]);
    bytes
}

#[test]
fn addresses_are_decoded_by_their_family() {
    assert_eq!(sockaddr_family(ByteOrder::Little, &[10, 0]), Ok(10));
    assert_eq!(sockaddr_family(ByteOrder::Big, &[0, 10]), Ok(10));
    assert_eq!(sockaddr_family(ByteOrder::Little, &[10]), Err(BrokerError::InvalidAddress));
    let local = ip_endpoint(&inet([127, 9, 9, 9], 80), domain(libc::AF_INET)).unwrap();
    assert!(local.loopback && local.addr.is_loopback());
    assert_eq!(local.port, 80);
    assert!(!local.addr.is_unspecified());
    assert!(!ip_endpoint(&inet([128, 0, 0, 1], 80), domain(libc::AF_INET)).unwrap().loopback);
    assert!(ip_endpoint(&inet([0, 0, 0, 0], 0), domain(libc::AF_INET)).unwrap().addr.is_unspecified());
    assert!(matches!(
        ip_endpoint(&inet([127, 0, 0, 1], 80), domain(libc::AF_INET6)),
        Err(BrokerError::AddressFamilyNotSupported)
    ));
    assert!(matches!(
        ip_endpoint(&inet([127, 0, 0, 1], 80)[..15], domain(libc::AF_INET)),
        Err(BrokerError::InvalidAddress)
    ));
    let mut mapped = vec![10u8, 0, 0, 80, 0, 0, 0, 0];
    mapped.extend_from_slice(&[0, 0, 0, 0, 0, 0, 0, 0, 0, 0, 0xff, 0xff, 127, 0, 0, 5]);
    mapped.extend_from_slice(&[0; 4]);
    let mapped = ip_endpoint(&mapped, domain(libc::AF_INET6)).unwrap();
    assert!(mapped.loopback);
    let source = loopback_bind_addr(mapped.addr, native());
    assert_eq!(source.len(), 28);
    assert_eq!(&source[..4], &[10, 0, 0, 0]);
    assert_eq!(&source[20..24], &[127, 0, 0, 5]);
    assert!(ip_endpoint(&source, domain(libc::AF_INET6)).unwrap().loopback);
    let plain = loopback_bind_addr(v4([10, 0, 0, 1], 7), native());
    assert_eq!(plain, inet([127, 0, 0, 1], 0));
}

#[test]
fn broker_errors_have_errnos() {
    assert_eq!(BrokerError::PolicyDenied.errno(&MACHINE.errors), libc::EACCES);
    assert_eq!(BrokerError::AddressFamilyNotSupported.errno(&MACHINE.errors), libc::EAFNOSUPPORT);
    assert_eq!(BrokerError::InvalidAddress.errno(&MACHINE.errors), libc::EINVAL);
    assert_eq!(BrokerError::BadFileDescriptor.errno(&MACHINE.errors), libc::EBADF);
    assert_eq!(BrokerError::BadAddress.errno(&MACHINE.errors), libc::EFAULT);
    assert_eq!(BrokerError::NameTooLong.errno(&MACHINE.errors), libc::ENAMETOOLONG);
    assert_eq!(BrokerError::SystemCall { errno: 99 }.errno(&MACHINE.errors), 99);
}

#[test]
fn zero_copy_sends_are_refused() {
    assert_eq!(datagram_send_flags(machine(), 0x40), Ok(0x40));
    assert_eq!(
        datagram_send_flags(machine(), 0x400_0000),
        Err(BrokerError::SystemCall { errno: libc::EOPNOTSUPP })
    );
    assert_eq!(datagram_send_flags(machine(), 0xffff_ffff_0000_0001), Ok(1));
}

fn control(len: u64, level: i32, kind: i32, data: &[u8]) -> Vec<u8> {
    let mut bytes = Vec::new();
    bytes.extend_from_slice(&len.to_le_bytes());
    bytes.extend_from_slice(&level.to_le_bytes());
    bytes.extend_from_slice(&kind.to_le_bytes());
    bytes.extend_from_slice(data);
    bytes
}

#[test]
fn only_harmless_controls_are_passed_on() {
    let refused = Err(BrokerError::SystemCall { errno: libc::EINVAL });
    assert_eq!(validate_datagram_control(machine(), &[]), Ok(()));
    let ttl = control(20, libc::IPPROTO_IP, libc::IP_TTL, &[9, 0, 0, 0]);
    assert_eq!(validate_datagram_control(machine(), &ttl), Ok(()));
    let mut two = control(20, libc::IPPROTO_IPV6, libc::IPV6_TCLASS, &[9, 0, 0, 0, 0, 0, 0, 0]);
    two.extend_from_slice(&control(18, libc::SOL_UDP, 103, &[0, 4]));
    assert_eq!(validate_datagram_control(machine(), &two), Ok(()));
    let pktinfo = control(28, libc::IPPROTO_IP, 8, &[0; 12]);
    assert_eq!(validate_datagram_control(machine(), &pktinfo), refused);
    assert_eq!(validate_datagram_control(machine(), &[0; 15]), refused);
    assert_eq!(validate_datagram_control(machine(), &control(15, 0, 2, &[0; 4])), refused);
    assert_eq!(validate_datagram_control(machine(), &control(21, 0, 2, &[0; 4])), refused);
    let mut hidden = control(20, libc::IPPROTO_IP, libc::IP_TOS, &[9, 0, 0, 0, 0, 0, 0, 0]);
    hidden.extend_from_slice(&pktinfo);
    assert_eq!(validate_datagram_control(machine(), &hidden), refused);
}

#[test]
fn header_layouts_are_those_of_the_platform() {
    assert_eq!(words_len(IOVEC_WORDS), std::mem::size_of::<libc::iovec>());
    assert_eq!(words_len(MSGHDR_WORDS), std::mem::size_of::<libc::msghdr>());
    assert_eq!(words_len(MMSGHDR_WORDS), std::mem::size_of::<libc::mmsghdr>());
}

/// The memory of a process, as ranges with their bytes.
struct Store {
    ranges: Vec<(usize, Vec<u8>)>,
}

impl Store {
    fn read(&self, wanted: MemoryRead) -> Vec<u8> {
        for (base, bytes) in &self.ranges {
            if *base <= wanted.base && wanted.base + wanted.len <= base + bytes.len() {
                return bytes[wanted.base - base..wanted.base - base + wanted.len].to_vec();
            }
        }
        panic!("no such memory")
    }
}

fn calls() -> NotificationSyscalls {
    NotificationSyscalls {
        bind: 49,
        connect: 42,
        socket: 41,
        io_uring_setup: 425,
        sendto: 44,
        sendmsg: 46,
        sendmmsg: 307,
        openat: 257,
        openat2: 437,
        open: Some(2),
        name_to_handle_at: 303,
        open_by_handle_at: 304,
    }
}

#[test]
fn what_sends_nothing_is_refused_unread() {
    let refused = |number, args| match copy_datagram_request(machine(), &calls(), number, args, 1) {
        DatagramCopyStep::Done(Err(error)) => error,
        _ => panic!("memory is read"),
    };
    assert_eq!(refused(44, [3, 0x1000, 65536, 0, 0, 0]), BrokerError::SystemCall { errno: libc::EMSGSIZE });
    assert_eq!(refused(307, [3, 0x1000, 1025, 0, 0, 0]), BrokerError::SystemCall { errno: libc::EINVAL });
    assert_eq!(refused(39, [0; 6]), BrokerError::SystemCall { errno: libc::ENOSYS });
}

fn copy(
    store: &Store,
    call: SendSyscall,
    args: [u64; 6],
) -> Result<(DatagramCall, Vec<DatagramMessage>), BrokerError> {
    copy_on(machine(), store, call, args)
}

fn copy_on(
    machine: Machine,
    store: &Store,
    call: SendSyscall,
    args: [u64; 6],
) -> Result<(DatagramCall, Vec<DatagramMessage>), BrokerError> {
    let number = match call {
        SendSyscall::SendTo => 44,
        SendSyscall::SendMsg => 46,
        SendSyscall::SendMmsg => 307,
    };
    let mut step = copy_datagram_request(machine, &calls(), number, args, 5);
    loop {
        match step {
            DatagramCopyStep::Read(request) => {
                let reply = store.read(request.wanted());
                step = request.advance(reply);
            }
            DatagramCopyStep::Done(result) => return result,
        }
    }
}

fn header(name: u64, name_len: u32, iov: u64, count: u64, control: u64, control_len: u64) -> Vec<u8> {
    let mut bytes = Vec::new();
    bytes.extend_from_slice(&name.to_le_bytes());
    bytes.extend_from_slice(&name_len.to_le_bytes());
    bytes.extend_from_slice(&[0; 4]);
    bytes.extend_from_slice(&iov.to_le_bytes());
    bytes.extend_from_slice(&count.to_le_bytes());
    bytes.extend_from_slice(&control.to_le_bytes());
    bytes.extend_from_slice(&control_len.to_le_bytes());
    bytes.extend_from_slice(&[0; 8]);
    bytes
}

#[test]
fn a_sendto_is_copied() {
    let store = Store {
        ranges: vec![(0x1000, b"hello".to_vec()), (0x2000, inet([127, 0, 0, 1], 53))],
    };
    let (call, messages) = copy(&store, SendSyscall::SendTo, [3, 0x1000, 5, 0x40, 0x2000, 16]).unwrap();
    assert_eq!(call, DatagramCall::SendTo { flags: 0x40 });
    assert_eq!(messages.len(), 1);
    assert_eq!(messages[0].addr, Some(inet([127, 0, 0, 1], 53)));
    assert_eq!(messages[0].payload, vec![b"hello".to_vec()]);
    assert!(messages[0].control.is_empty());

    let (_, silent) = copy(&store, SendSyscall::SendTo, [3, 0, 0, 0, 0, 0]).unwrap();
    assert_eq!(silent[0].addr, None);
    assert_eq!(silent[0].payload, vec![Vec::<u8>::new()]);

    let long = copy(&store, SendSyscall::SendTo, [3, 0x1000, 65536, 0, 0, 0]);
    assert!(matches!(long, Err(BrokerError::SystemCall { errno: libc::EMSGSIZE })));
    let null = copy(&store, SendSyscall::SendTo, [3, 0, 5, 0, 0, 0]);
    assert!(matches!(null, Err(BrokerError::BadAddress)));
    let wide = copy(&store, SendSyscall::SendTo, [3, 0x1000, 5, 0, 0x2000, 129]);
    assert!(matches!(wide, Err(BrokerError::InvalidAddress)));
    let short = copy(&store, SendSyscall::SendTo, [3, 0x1000, 5, 0, 0x2000, 1]);
    assert!(matches!(short, Err(BrokerError::InvalidAddress)));
    let zero_copy = copy(&store, SendSyscall::SendTo, [3, 0x1000, 5, 0x400_0000, 0, 0]);
    assert!(matches!(zero_copy, Err(BrokerError::SystemCall { errno: libc::EOPNOTSUPP })));
}

fn iovecs(list: &[(u64, u64)]) -> Vec<u8> {
    let mut bytes = Vec::new();
    for (base, len) in list {
        bytes.extend_from_slice(&base.to_le_bytes());
        bytes.extend_from_slice(&len.to_le_bytes());
    }
    bytes
}

#[test]
fn a_sendmsg_is_copied() {
    let ttl = control(20, libc::IPPROTO_IP, libc::IP_TTL, &[9, 0, 0, 0]);
    let store = Store {
        ranges: vec![
            (0x1000, b"helloworld".to_vec()),
            (0x2000, inet([127, 0, 0, 1], 53)),
            (0x3000, header(0x2000, 16, 0x4000, 2, 0x5000, 20)),
            (0x4000, iovecs(&[(0x1005, 5), (0x1000, 5)])),
            (0x5000, ttl.clone()),
        ],
    };
    let (call, messages) = copy(&store, SendSyscall::SendMsg, [3, 0x3000, 0, 0, 0, 0]).unwrap();
    assert_eq!(call, DatagramCall::SendMsg { flags: 0 });
    assert_eq!(messages[0].payload, vec![b"world".to_vec(), b"hello".to_vec()]);
    assert_eq!(messages[0].control, ttl);
    assert_eq!(messages[0].addr, Some(inet([127, 0, 0, 1], 53)));

    let bad = |bytes: Vec<u8>| {
        let store = Store {
            ranges: vec![(0x3000, bytes), (0x4000, iovecs(&[(0x1000, 65536), (0x1000, u64::MAX)]))],
        };
        copy(&store, SendSyscall::SendMsg, [3, 0x3000, 0, 0, 0, 0])
    };
    assert!(matches!(
        bad(header(0, 0, 0x4000, 1025, 0, 0)),
        Err(BrokerError::SystemCall { errno: libc::EMSGSIZE })
    ));
    assert!(matches!(
        bad(header(0, 0, 0x4000, 2, 0, 0)),
        Err(BrokerError::SystemCall { errno: libc::EMSGSIZE })
    ));
    assert!(matches!(
        bad(header(0, 0, 0, 0, 0x5000, 65536)),
        Err(BrokerError::SystemCall { errno: libc::ENOBUFS })
    ));
    assert!(matches!(bad(header(0, 16, 0, 0, 0, 0)), Err(BrokerError::BadAddress)));
}

#[test]
fn a_sendmmsg_is_copied() {
    let mut headers = header(0, 0, 0x4000, 1, 0, 0);
    headers.extend_from_slice(&[0; 8]);
    headers.extend_from_slice(&header(0x2000, 16, 0x4010, 1, 0, 0));
    headers.extend_from_slice(&[0; 8]);
    let store = Store {
        ranges: vec![
            (0x1000, b"helloworld".to_vec()),
            (0x2000, inet([127, 0, 0, 1], 53)),
            (0x3000, headers),
            (0x4000, iovecs(&[(0x1000, 5), (0x1005, 5)])),
        ],
    };
    let (call, messages) = copy(&store, SendSyscall::SendMmsg, [3, 0x3000, 2, 1, 0, 0]).unwrap();
    assert_eq!(
        call,
        DatagramCall::SendMmsg { flags: 1, output: MmsgOutput { pid: 5, base: 0x3000 } }
    );
    assert_eq!(messages.len(), 2);
    assert_eq!(messages[0].payload, vec![b"hello".to_vec()]);
    assert_eq!(messages[0].addr, None);
    assert_eq!(messages[1].payload, vec![b"world".to_vec()]);
    assert_eq!(messages[1].addr, Some(inet([127, 0, 0, 1], 53)));

    let (_, none) = copy(&store, SendSyscall::SendMmsg, [3, 0, 0, 0, 0, 0]).unwrap();
    assert!(none.is_empty());
    assert!(matches!(
        copy(&store, SendSyscall::SendMmsg, [3, 0x3000, 1025, 0, 0, 0]),
        Err(BrokerError::SystemCall { errno: libc::EINVAL })
    ));
}

fn policy(network_access: NetworkAccess) -> AccessPolicy {
    AccessPolicy {
        write_roots: Vec::new(),
        write_denied_roots: Vec::new(),
        write_denied_patterns: Vec::new(),
        write_denied_links: Vec::new(),
        read_access: ReadAccess::Unrestricted,
        read_denied_roots: Vec::new(),
        read_reopened_roots: Vec::new(),
        read_symlinks: Vec::new(),
        network_access,
        app_container_mode: AppContainerMode { name: "lpac".to_string() },
        allow_windows_loopback: false,
    }
}

fn local_only() -> AccessPolicy {
    policy(NetworkAccess::Restricted {
        connect_tcp_ports: Vec::new(),
        bind: IpBindAccess::Localhost,
        unix_socket_access: UnixSocketAccess::Denied,
    })
}

fn message(addr: Option<Vec<u8>>) -> DatagramMessage {
    DatagramMessage { addr, payload: vec![b"x".to_vec()], control: Vec::new() }
}

const UDP: SocketInfo =
    SocketInfo { domain: libc::AF_INET, ty: libc::SOCK_DGRAM, proto: libc::IPPROTO_UDP, order: ByteOrder::Little, types: MACHINE.sockets };

#[test]
fn only_restricted_udp_sends_are_decided_on() {
    assert!(sends_unmediated(&policy(NetworkAccess::Unrestricted), UDP));
    assert!(!sends_unmediated(&local_only(), UDP));
    let stream = SocketInfo { ty: libc::SOCK_STREAM, proto: libc::IPPROTO_TCP, ..UDP };
    assert!(sends_unmediated(&local_only(), stream));
    assert!(has_addressed_message(&None, &vec![message(None), message(Some(Vec::new()))]));
    assert!(!has_addressed_message(&None, &vec![message(None)]));
    let peer = Some(endpoint(v4([127, 0, 0, 1], 1), true));
    assert!(has_addressed_message(&peer, &vec![message(None)]));
}

#[test]
fn a_local_datagram_is_sent_by_the_broker() {
    let step = handle_datagram_send(
        &local_only(),
        9,
        domain(libc::AF_INET),
        DatagramCall::SendMsg { flags: 0 },
        vec![message(Some(inet([127, 0, 0, 1], 53)))],
        None,
        UdpSourceState::Unbound,
    );
    match step {
        AddressStep::Run(grant) => {
            assert_eq!(grant.sock, 9);
            match grant.operation {
                SocketOperation::Datagram { messages, bind_addr, .. } => {
                    assert_eq!(messages.len(), 1);
                    assert_eq!(bind_addr, Some(inet([127, 0, 0, 1], 0)));
                }
                _ => panic!("not a datagram"),
            }
        }
        _ => panic!("not sent"),
    }
}

#[test]
fn a_denied_datagram_is_asked_about_with_its_kind_only() {
    let output = MmsgOutput { pid: 5, base: 0x3000 };
    let step = handle_datagram_send(
        &local_only(),
        9,
        domain(libc::AF_INET),
        DatagramCall::SendMmsg { flags: 0, output },
        vec![
            message(Some(inet([127, 0, 0, 1], 53))),
            message(Some(inet([192, 0, 2, 1], 53))),
            message(Some(inet([192, 0, 2, 2], 53))),
        ],
        None,
        UdpSourceState::Unbound,
    );
    match step {
        AddressStep::Deny { target, syscall, grant, .. } => {
            assert!(target.is_same(&v4([192, 0, 2, 1], 53)));
            assert_eq!(syscall, "sendmmsg");
            match grant.operation {
                SocketOperation::Datagram { messages, bind_addr, .. } => {
                    assert_eq!(messages.len(), 2);
                    assert_eq!(bind_addr, None);
                }
                _ => panic!("not a datagram"),
            }
        }
        _ => panic!("not denied"),
    }
    let step = handle_datagram_send(
        &local_only(),
        9,
        domain(libc::AF_INET),
        DatagramCall::SendMsg { flags: 0 },
        vec![message(Some(vec![10, 0]))],
        None,
        UdpSourceState::Unbound,
    );
    assert!(matches!(step, AddressStep::Refuse(BrokerError::AddressFamilyNotSupported)));
}

#[test]
fn an_empty_send_is_refused() {
    let call = DatagramCall::SendTo { flags: 0 };
    assert_eq!(datagram_ready(&call, &vec![message(None)]), Ok(()));
    assert_eq!(datagram_ready(&call, &Vec::new()), Err(BrokerError::InvalidAddress));
    let bare = DatagramMessage { addr: None, payload: Vec::new(), control: Vec::new() };
    assert_eq!(datagram_ready(&call, &vec![bare]), Err(BrokerError::InvalidAddress));
    let bare = DatagramMessage { addr: None, payload: Vec::new(), control: Vec::new() };
    assert_eq!(datagram_ready(&DatagramCall::SendMsg { flags: 0 }, &vec![bare]), Ok(()));
    let output = MmsgOutput { pid: 1, base: 1 };
    assert_eq!(datagram_ready(&DatagramCall::SendMmsg { flags: 0, output }, &Vec::new()), Ok(()));
}

#[test]
fn a_batch_counts_what_was_sent() {
    let mut progress = MmsgProgress::new(2);
    assert_eq!(progress.result(), None);
    assert_eq!(progress.record(Ok(())), None);
    assert_eq!(progress.record(Ok(())), Some(Ok(2)));
    let mut progress = MmsgProgress::new(3);
    assert_eq!(progress.record(Ok(())), None);
    assert_eq!(progress.record(Err(BrokerError::BadAddress)), Some(Ok(1)));
    let mut progress = MmsgProgress::new(3);
    assert_eq!(
        progress.record(Err(BrokerError::BadAddress)),
        Some(Err(BrokerError::BadAddress))
    );
    assert_eq!(MmsgProgress::new(0).result(), Some(Ok(0)));
}

#[test]
fn sent_lengths_are_written_back() {
    assert_eq!(sent_length(&MACHINE.errors, 7), Ok(7));
    assert_eq!(sent_length(&MACHINE.errors, -1), Err(BrokerError::SystemCall { errno: libc::EMSGSIZE }));
    assert_eq!(
        sent_length(&MACHINE.errors, 4_294_967_296),
        Err(BrokerError::SystemCall { errno: libc::EMSGSIZE })
    );
    let output = MmsgOutput { pid: 5, base: 0x3000 };
    assert_eq!(
        write_mmsg_length(&output, 2),
        Ok(MemoryRead { base: 0x3000 + 2 * 64 + 56, len: 4 })
    );
    assert_eq!(write_mmsg_length(&output, usize::MAX), Err(BrokerError::BadAddress));
    let high = MmsgOutput { pid: 5, base: usize::MAX };
    assert_eq!(write_mmsg_length(&high, 0), Err(BrokerError::BadAddress));
}

#[test]
fn narrow_counts_leave_the_padding_alone() {
    let garbage = 0xdead_beef_0000_0000_u64;
    let ttl = control(garbage + 20, libc::IPPROTO_IP, libc::IP_TTL, &[9, 0, 0, 0]);
    let store = Store {
        ranges: vec![
            (0x1000, b"hello".to_vec()),
            (0x3000, header(0, 0, 0x4000, garbage + 1, 0x5000, garbage + 20)),
            (0x4000, iovecs(&[(0x1000, 5)])),
            (0x5000, ttl.clone()),
            (0x6000, header(0, 0, 0x4000, 0xffff_ffff, 0, 0)),
        ],
    };
    let narrow = Machine { counts: CountWidth::Narrow, ..machine() };
    let args = [3, 0x3000, 0, 0, 0, 0];
    let (_, messages) = copy_on(narrow, &store, SendSyscall::SendMsg, args).unwrap();
    assert_eq!(messages[0].payload, vec![b"hello".to_vec()]);
    assert_eq!(messages[0].control, ttl);
    assert!(matches!(
        copy_on(machine(), &store, SendSyscall::SendMsg, args),
        Err(BrokerError::SystemCall { errno: libc::EMSGSIZE })
    ));
    assert!(matches!(
        copy_on(narrow, &store, SendSyscall::SendMsg, [3, 0x6000, 0, 0, 0, 0]),
        Err(BrokerError::SystemCall { errno: libc::EMSGSIZE })
    ));
    assert_eq!(validate_datagram_control(narrow, &ttl), Ok(()));
    let refused = Err(BrokerError::SystemCall { errno: libc::EINVAL });
    assert_eq!(validate_datagram_control(machine(), &ttl), refused);
}

#[test]
fn datagrams_are_refused_with_the_numbers_of_the_machine() {
    let other = Machine {
        errors: ErrorNumbers { emsgsize: 97, enobufs: 132, enosys: 89, eopnotsupp: 122, ..MACHINE.errors },
        ..machine()
    };
    let refused = |number, args| match copy_datagram_request(other, &calls(), number, args, 1) {
        DatagramCopyStep::Done(Err(BrokerError::SystemCall { errno })) => errno,
        _ => panic!("not refused"),
    };
    assert_eq!(refused(44, [3, 0x1000, 65536, 0, 0, 0]), 97);
    assert_eq!(refused(39, [0; 6]), 89);
    assert_eq!(
        datagram_send_flags(other, 0x400_0000),
        Err(BrokerError::SystemCall { errno: 122 })
    );
    let store = Store { ranges: vec![(0x3000, header(0, 0, 0, 0, 0x5000, 65536))] };
    assert!(matches!(
        copy_on(other, &store, SendSyscall::SendMsg, [3, 0x3000, 0, 0, 0, 0]),
        Err(BrokerError::SystemCall { errno: 132 })
    ));
}

#[test]
fn a_whole_call_is_summed_up() {
    let local = v4([127, 0, 0, 1], 1);
    let first = v4([192, 0, 2, 1], 1);
    let second = v4([192, 0, 2, 2], 1);
    let run = |list: &[Option<IpEndpoint>]| {
        let mut analysis = DatagramPolicyAnalysis::new(list.len());
        for (index, next) in list.iter().copied().enumerate() {
            if !analysis.classify(index, next, true, UdpSourceState::Unbound) {
                break;
            }
        }
        analysis
    };
    let near = Some(endpoint(local, true));
    let far = Some(endpoint(first, false));
    let farther = Some(endpoint(second, false));

    let mixed = run(&[None, near, far, near, far, None, farther, far]);
    assert!(denies(&mixed, first));
    assert_eq!(mixed.safe_message_count, 6);
    assert_eq!(mixed.loopback_bind_addr, None);

    let one_target = run(&[far, near, far]);
    assert!(denies(&one_target, first));
    assert_eq!(one_target.safe_message_count, 3);

    let allowed = run(&[None, near, Some(endpoint(v4([127, 9, 9, 9], 2), true))]);
    assert!(allowed.denied_target.is_none());
    assert_eq!(allowed.safe_message_count, 3);
    assert_eq!(allowed.loopback_bind_addr, Some(loopback_bind_addr(local, native())));

    let nowhere = run(&[None, None]);
    assert!(nowhere.denied_target.is_none());
    assert_eq!(nowhere.loopback_bind_addr, None);
}
