//! What a process may do with a socket: which addresses it may bind and
//! connect to.

use crate::broker::address;
use crate::broker::address::{ip_endpoint, loopback_bind_addr, sockaddr_family};
use crate::broker::address::{BrokerError, Domain, IpEndpoint, SocketAddress};
use crate::broker::grant;
use crate::broker::grant::{SocketCall, SocketGrant};
use crate::broker::machine::{ErrorNumbers, SocketTypes};
use crate::broker::registers::ByteOrder;
use crate::bytes;
use crate::paths;
use crate::policy;
use crate::policy::{AccessPolicy, NetworkAccess, UnixSocketAccess};
use crate::sys;
use crate::text;
use crate::trap::NetworkOperation;
use vstd::prelude::*;

verus! {

/// What a socket was made as.
#[derive(Clone, Copy, Debug, PartialEq, Eq, Structural)]
pub struct SocketInfo {
    pub domain: i32,
    pub ty: i32,
    pub proto: i32,
    /// The byte order of the machine.
    pub order: ByteOrder,
    /// The socket types of the machine.
    pub types: SocketTypes,
}

/// The domain of a socket.
pub open spec fn domain_of(info: SocketInfo) -> Domain {
    Domain { number: info.domain, order: info.order }
}

/// The sockets that the policy tells apart.
#[derive(Clone, Copy, Debug, PartialEq, Eq, Structural)]
pub enum SocketKind {
    Tcp,
    Udp,
    Unix,
    NotSupported,
    Other,
}

/// A duplicate of a process's socket and the address it was given.
#[derive(Debug)]
pub struct TargetSocket<H> {
    pub sock: H,
    pub addr: Vec<u8>,
    pub info: SocketInfo,
}

/// Whether a socket speaks IP.
pub open spec fn is_ip(info: SocketInfo) -> bool {
    info.domain == sys::AF_INET || info.domain == sys::AF_INET6
}

/// Which socket it is.
pub open spec fn kind_of(info: SocketInfo) -> SocketKind {
    if is_ip(info) && info.ty == info.types.stream && info.proto == sys::IPPROTO_TCP {
        SocketKind::Tcp
    } else if is_ip(info) && info.ty == info.types.datagram && info.proto == sys::IPPROTO_UDP {
        SocketKind::Udp
    } else if info.domain == sys::AF_UNIX {
        SocketKind::Unix
    } else if is_ip(info) || info.domain == sys::AF_PACKET || info.domain == sys::AF_NETLINK {
        SocketKind::NotSupported
    } else {
        SocketKind::Other
    }
}

impl SocketInfo {
    /// The domain of the socket.
    pub fn address_domain(&self) -> (domain: Domain)
        ensures
            domain == domain_of(*self),
    {
        Domain { number: self.domain, order: self.order }
    }

    /// Which socket it is.
    pub fn kind(&self) -> (kind: SocketKind)
        ensures
            kind == kind_of(*self),
    {
        let ip = self.domain == sys::AF_INET || self.domain == sys::AF_INET6;
        if ip && self.ty == self.types.stream && self.proto == sys::IPPROTO_TCP {
            SocketKind::Tcp
        } else if ip && self.ty == self.types.datagram && self.proto == sys::IPPROTO_UDP {
            SocketKind::Udp
        } else if self.domain == sys::AF_UNIX {
            SocketKind::Unix
        } else if ip || self.domain == sys::AF_PACKET || self.domain == sys::AF_NETLINK {
            SocketKind::NotSupported
        } else {
            SocketKind::Other
        }
    }
}

/// What becomes of a call that takes an address, or what has to be looked up
/// first.
pub enum AddressStep<H> {
    /// The process makes the call itself.
    Continue,
    /// The broker makes the call.
    Run(SocketGrant<H>),
    /// The policy denies it. On approval the broker makes the call.
    Deny {
        operation: NetworkOperation,
        target: SocketAddress,
        syscall: &'static str,
        grant: SocketGrant<H>,
    },
    /// It fails.
    Refuse(BrokerError),
    /// Look up what the socket is bound to, and go on with
    /// [`connect_udp_source`].
    AskSource { socket: TargetSocket<H>, endpoint: IpEndpoint },
    /// Look up where the path of the socket leads, and go on with
    /// [`finish_unix_call`].
    AskPath { socket: TargetSocket<H>, call: SocketCall, path: Vec<u8> },
}

/// What a UDP socket sends from.
#[derive(Clone, Copy, Debug, PartialEq, Eq, Structural)]
pub enum UdpSourceState {
    Unbound,
    Loopback,
    Other,
}

/// What a socket bound to an address sends from.
pub open spec fn source_of(local: address::AddressView) -> UdpSourceState {
    if address::is_loopback(local) {
        UdpSourceState::Loopback
    } else if address::port_of(local) == 0 && address::is_unspecified(local) {
        UdpSourceState::Unbound
    } else {
        UdpSourceState::Other
    }
}

/// What a UDP socket sends from, given the address it is bound to.
pub fn udp_source_state(
    local: &[u8],
    domain: Domain,
) -> (state: Result<UdpSourceState, BrokerError>)
    ensures
        state == (match address::decoded(local@, domain) {
            Ok(found) => Ok::<UdpSourceState, BrokerError>(source_of(found)),
            Err(error) => Err(error),
        }),
{
    match ip_endpoint(local, domain) {
        Ok(endpoint) => if endpoint.loopback {
            Ok(UdpSourceState::Loopback)
        } else if endpoint.port == 0 && endpoint.addr.is_unspecified() {
            Ok(UdpSourceState::Unbound)
        } else {
            Ok(UdpSourceState::Other)
        },
        Err(error) => Err(error),
    }
}

/// What has to happen to a socket before it sends to a loopback address.
#[derive(Clone, Copy, Debug, PartialEq, Eq, Structural)]
pub enum SourceStep {
    Send,
    BindFirst,
    Refuse,
}

/// What has to happen to a socket before it sends to a loopback address: one
/// that is bound elsewhere does not send.
pub fn ensure_udp_loopback_source(state: UdpSourceState) -> (step: SourceStep)
    ensures
        step == SourceStep::Send <==> state == UdpSourceState::Loopback,
        step == SourceStep::BindFirst <==> state == UdpSourceState::Unbound,
        step == SourceStep::Refuse <==> state == UdpSourceState::Other,
{
    match state {
        UdpSourceState::Loopback => SourceStep::Send,
        UdpSourceState::Unbound => SourceStep::BindFirst,
        UdpSourceState::Other => SourceStep::Refuse,
    }
}

/// The peer of a socket, or `None` where it has none.
pub fn socket_peer_endpoint(
    errors: &ErrorNumbers,
    peer: Result<Vec<u8>, BrokerError>,
    domain: Domain,
) -> (endpoint: Result<Option<IpEndpoint>, BrokerError>)
    ensures
        match peer {
            Ok(addr) => match address::decoded(addr@, domain) {
                Ok(found) => endpoint matches Ok(Some(read)) && address::is_endpoint(
                    read,
                    found,
                    domain.order,
                ),
                Err(error) => endpoint == Err::<Option<IpEndpoint>, _>(error),
            },
            Err(error) => if error == (BrokerError::SystemCall { errno: errors.enotconn }) {
                endpoint == Ok::<Option<IpEndpoint>, BrokerError>(None)
            } else {
                endpoint == Err::<Option<IpEndpoint>, _>(error)
            },
        },
{
    match peer {
        Ok(addr) => match ip_endpoint(addr.as_slice(), domain) {
            Ok(endpoint) => Ok(Some(endpoint)),
            Err(error) => Err(error),
        },
        Err(error) => match error {
            BrokerError::SystemCall { errno } => if errno == errors.enotconn {
                Ok(None)
            } else {
                Err(error)
            },
            _ => Err(error),
        },
    }
}

/// Whether a step has the broker make the call, bound first where `bound` says
/// so.
pub open spec fn runs<H>(
    step: AddressStep<H>,
    socket: TargetSocket<H>,
    call: SocketCall,
    bound: Option<Seq<u8>>,
) -> bool {
    step matches AddressStep::Run(made) && grant::grants_address(
        made,
        socket.sock,
        socket.addr@,
        call,
        bound,
    )
}

/// The operation of a call.
pub open spec fn operation_of(call: SocketCall) -> NetworkOperation {
    match call {
        SocketCall::Bind => NetworkOperation::Bind,
        SocketCall::Connect => NetworkOperation::Connect,
    }
}

/// The name of a call.
pub open spec fn call_name(call: SocketCall) -> Seq<char> {
    match call {
        SocketCall::Bind => "bind"@,
        SocketCall::Connect => "connect"@,
    }
}

/// Whether a step denies the call to an address.
pub open spec fn denies<H>(
    step: AddressStep<H>,
    socket: TargetSocket<H>,
    call: SocketCall,
    addr: address::AddressView,
) -> bool {
    &&& step matches AddressStep::Deny { operation, target, syscall, grant: made }
    &&& operation == operation_of(call)
    &&& target@ == addr
    &&& syscall@ == call_name(call)
    &&& grant::grants_address(made, socket.sock, socket.addr@, call, None)
}

/// Whether a TCP connection to an address is allowed under a restriction: to
/// the machine itself, and to any port where local addresses may be bound, or
/// else to an allowed one.
pub open spec fn tcp_allowed(access: NetworkAccess, addr: address::AddressView) -> bool {
    address::is_loopback(addr) && (policy::binds_locally(access) || policy::ports_of(
        access,
    ).contains(address::port_of(addr)))
}

/// Whether an address may be bound, or UDP sent to it, under a restriction.
pub open spec fn local_allowed(access: NetworkAccess, addr: address::AddressView) -> bool {
    policy::binds_locally(access) && address::is_loopback(addr)
}

/// Whether a step is right for a call on a Unix socket, before its path is
/// looked up.
pub open spec fn unix_started<H>(
    policy: AccessPolicy,
    socket: TargetSocket<H>,
    call: SocketCall,
    step: AddressStep<H>,
) -> bool {
    match unix_path(socket.addr@) {
        Some(path) => step matches AddressStep::AskPath { socket: asked, call: made, path: name }
            && asked == socket && made == call && name@ == path,
        None => if call == SocketCall::Connect && policy::sockets_of(
            policy.network_access,
        ) is Unrestricted {
            step is Continue
        } else {
            step == AddressStep::<H>::Refuse(BrokerError::PolicyDenied)
        },
    }
}

/// Whether a step is right for a bind.
pub open spec fn bind_decided<H>(
    policy: AccessPolicy,
    socket: TargetSocket<H>,
    step: AddressStep<H>,
) -> bool {
    match kind_of(socket.info) {
        SocketKind::Tcp | SocketKind::Udp => match address::decoded(socket.addr@, domain_of(socket.info)) {
            Ok(addr) => if local_allowed(policy.network_access, addr) {
                runs(step, socket, SocketCall::Bind, None)
            } else {
                denies(step, socket, SocketCall::Bind, addr)
            },
            Err(error) => step == AddressStep::<H>::Refuse(error),
        },
        SocketKind::Unix => unix_started(policy, socket, SocketCall::Bind, step),
        SocketKind::NotSupported => step == AddressStep::<H>::Refuse(
            BrokerError::AddressFamilyNotSupported,
        ),
        SocketKind::Other => step is Continue,
    }
}

/// Whether a step is right for a connect.
pub open spec fn connect_decided<H>(
    policy: AccessPolicy,
    socket: TargetSocket<H>,
    step: AddressStep<H>,
) -> bool {
    let access = policy.network_access;
    match kind_of(socket.info) {
        SocketKind::Tcp => if access is Unrestricted {
            step is Continue
        } else {
            match address::decoded(socket.addr@, domain_of(socket.info)) {
                Ok(addr) => if tcp_allowed(access, addr) {
                    runs(step, socket, SocketCall::Connect, None)
                } else {
                    denies(step, socket, SocketCall::Connect, addr)
                },
                Err(error) => step == AddressStep::<H>::Refuse(error),
            }
        },
        SocketKind::Udp => if access is Unrestricted {
            step is Continue
        } else if address::family_of(socket.info.order, socket.addr@) == Some(sys::AF_UNSPEC as int) {
            runs(step, socket, SocketCall::Connect, None)
        } else {
            match address::decoded(socket.addr@, domain_of(socket.info)) {
                Ok(addr) => if local_allowed(access, addr) {
                    step matches AddressStep::AskSource { socket: asked, endpoint } && asked
                        == socket && address::is_endpoint(endpoint, addr, socket.info.order)
                } else {
                    denies(step, socket, SocketCall::Connect, addr)
                },
                Err(error) => step == AddressStep::<H>::Refuse(error),
            }
        },
        SocketKind::Unix => unix_started(policy, socket, SocketCall::Connect, step),
        SocketKind::Other => step is Continue,
        SocketKind::NotSupported => if access is Unrestricted {
            step is Continue
        } else {
            step == AddressStep::<H>::Refuse(BrokerError::AddressFamilyNotSupported)
        },
    }
}

fn deny_address<H>(
    socket: TargetSocket<H>,
    call: SocketCall,
    target: SocketAddress,
) -> (step: AddressStep<H>)
    ensures
        denies(step, socket, call, target@),
{
    let grant = SocketGrant::address(socket.sock, socket.addr, call, None);
    match call {
        SocketCall::Bind => AddressStep::Deny {
            operation: NetworkOperation::Bind,
            target,
            syscall: "bind",
            grant,
        },
        SocketCall::Connect => AddressStep::Deny {
            operation: NetworkOperation::Connect,
            target,
            syscall: "connect",
            grant,
        },
    }
}

/// What becomes of a bind.
pub fn handle_bind<H>(policy: &AccessPolicy, socket: TargetSocket<H>) -> (step: AddressStep<H>)
    ensures
        bind_decided(*policy, socket, step),
{
    match socket.info.kind() {
        SocketKind::Tcp | SocketKind::Udp => match ip_endpoint(socket.addr.as_slice(), socket.info.address_domain()) {
            Ok(endpoint) => {
                if !policy.network_access.allows_local_binding() || !endpoint.loopback {
                    return deny_address(socket, SocketCall::Bind, endpoint.addr);
                }
                AddressStep::Run(
                    SocketGrant::address(socket.sock, socket.addr, SocketCall::Bind, None),
                )
            },
            Err(error) => AddressStep::Refuse(error),
        },
        SocketKind::Unix => start_unix_call(policy, socket, SocketCall::Bind),
        SocketKind::NotSupported => AddressStep::Refuse(BrokerError::AddressFamilyNotSupported),
        SocketKind::Other => AddressStep::Continue,
    }
}

fn contains_port(ports: &[u16], port: u16) -> (found: bool)
    ensures
        found == ports@.contains(port),
{
    let mut at: usize = 0;
    while at < ports.len()
        invariant
            at <= ports@.len(),
            forall|i: int| 0 <= i < at ==> ports@[i] != port,
        decreases ports.len() - at,
    {
        if ports[at] == port {
            return true;
        }
        at += 1;
    }
    false
}

/// What becomes of a connect.
pub fn handle_connect<H>(policy: &AccessPolicy, socket: TargetSocket<H>) -> (step: AddressStep<H>)
    ensures
        connect_decided(*policy, socket, step),
{
    match socket.info.kind() {
        SocketKind::Tcp => {
            if policy.network_access.is_unrestricted() {
                return AddressStep::Continue;
            }
            match ip_endpoint(socket.addr.as_slice(), socket.info.address_domain()) {
                Ok(endpoint) => {
                    if !endpoint.loopback || (!policy.network_access.allows_local_binding()
                        && !contains_port(
                        policy.network_access.connect_tcp_ports(),
                        endpoint.port,
                    )) {
                        return deny_address(socket, SocketCall::Connect, endpoint.addr);
                    }
                    AddressStep::Run(
                        SocketGrant::address(socket.sock, socket.addr, SocketCall::Connect, None),
                    )
                },
                Err(error) => AddressStep::Refuse(error),
            }
        },
        SocketKind::Udp => {
            if policy.network_access.is_unrestricted() {
                return AddressStep::Continue;
            }
            match sockaddr_family(socket.info.order, socket.addr.as_slice()) {
                Ok(family) => if family == sys::AF_UNSPEC {
                    return AddressStep::Run(
                        SocketGrant::address(socket.sock, socket.addr, SocketCall::Connect, None),
                    );
                },
                Err(error) => return AddressStep::Refuse(error),
            }
            match ip_endpoint(socket.addr.as_slice(), socket.info.address_domain()) {
                Ok(endpoint) => {
                    if !policy.network_access.allows_local_binding() || !endpoint.loopback {
                        return deny_address(socket, SocketCall::Connect, endpoint.addr);
                    }
                    AddressStep::AskSource { socket, endpoint }
                },
                Err(error) => AddressStep::Refuse(error),
            }
        },
        SocketKind::Unix => start_unix_call(policy, socket, SocketCall::Connect),
        SocketKind::Other => AddressStep::Continue,
        SocketKind::NotSupported => if policy.network_access.is_unrestricted() {
            AddressStep::Continue
        } else {
            AddressStep::Refuse(BrokerError::AddressFamilyNotSupported)
        },
    }
}

/// What becomes of a UDP connect to a loopback address once it is known what
/// the socket sends from: one that sends from elsewhere is denied, and any
/// other is bound to a loopback address first.
pub fn connect_udp_source<H>(
    socket: TargetSocket<H>,
    endpoint: IpEndpoint,
    source: Result<UdpSourceState, BrokerError>,
) -> (step: AddressStep<H>)
    ensures
        match source {
            Err(error) => step == AddressStep::<H>::Refuse(error),
            Ok(UdpSourceState::Other) => denies(
                step,
                socket,
                SocketCall::Connect,
                endpoint.addr@,
            ),
            Ok(_) => runs(
                step,
                socket,
                SocketCall::Connect,
                Some(address::bind_bytes(endpoint.addr@, endpoint.order)),
            ),
        },
{
    match source {
        Err(error) => AddressStep::Refuse(error),
        Ok(state) => if state == UdpSourceState::Other {
            deny_address(socket, SocketCall::Connect, endpoint.addr)
        } else {
            AddressStep::Run(
                SocketGrant::address(
                    socket.sock,
                    socket.addr,
                    SocketCall::Connect,
                    Some(loopback_bind_addr(endpoint.addr, endpoint.order)),
                ),
            )
        },
    }
}

/// The path in the address of a Unix socket. An abstract or unnamed one has
/// none.
pub open spec fn unix_path(addr: Seq<u8>) -> Option<Seq<u8>> {
    if addr.len() <= 2 || addr[2] == 0 {
        None
    } else {
        Some(addr.subrange(2, bytes::index_from(addr, 0, 2)))
    }
}

/// The path in the address of a Unix socket.
pub fn unix_path_target(addr: &[u8]) -> (path: Option<Vec<u8>>)
    ensures
        path is Some <==> unix_path(addr@) is Some,
        path matches Some(found) ==> found@ == unix_path(addr@)->0 && found@.len() > 0,
{
    if addr.len() <= 2 || addr[2] == 0 {
        return None;
    }
    let end = bytes::find_byte(addr, 0, 2);
    proof {
        bytes::lemma_index_from_unique(addr@, 0, 2, end as int);
    }
    let path = vstd::slice::slice_subrange(addr, 2, end);
    Some(bytes::copy_bytes(path))
}

fn start_unix_call<H>(
    policy: &AccessPolicy,
    socket: TargetSocket<H>,
    call: SocketCall,
) -> (step: AddressStep<H>)
    ensures
        unix_started(*policy, socket, call, step),
{
    match unix_path_target(socket.addr.as_slice()) {
        Some(path) => AddressStep::AskPath { socket, call, path },
        None => {
            if call == SocketCall::Connect && policy.network_access.leaves_unix_sockets_open() {
                AddressStep::Continue
            } else {
                AddressStep::Refuse(BrokerError::PolicyDenied)
            }
        },
    }
}

/// Whether the path of a socket starts at the working directory of the process.
pub fn is_relative_unix_path(path: &[u8]) -> (relative: bool)
    ensures
        relative == !paths::is_rooted(path@),
{
    path.len() == 0 || path[0] != paths::SLASH
}

/// The path of a socket from the root on, given the working directory of the
/// process where the path starts there.
pub fn absolute_unix_path(path: &[u8], working_directory: &[u8]) -> (whole: Vec<u8>)
    ensures
        whole@ == (if paths::is_rooted(path@) {
            path@
        } else {
            paths::joined(working_directory@, path@)
        }),
{
    if is_relative_unix_path(path) {
        paths::join(working_directory, path)
    } else {
        bytes::copy_bytes(path)
    }
}

/// The directory in which a path is created: its parent, or the root.
pub open spec fn parent_of(path: Seq<u8>) -> Seq<u8> {
    if paths::has_parent(path) && paths::parent_text(path).len() > 0 {
        paths::parent_text(path)
    } else {
        seq![paths::SLASH]
    }
}

/// The directory in which a path is created. It has to be resolved before the
/// path is.
pub fn create_parent(path: &[u8]) -> (dir: Vec<u8>)
    ensures
        dir@ == parent_of(path@),
{
    match paths::parent(path) {
        Some(dir) => if dir.len() == 0 {
            vec![paths::SLASH]
        } else {
            dir
        },
        None => vec![paths::SLASH],
    }
}

/// Where a path leads, its last name left unresolved, given where its
/// directory leads.
pub open spec fn created(path: Seq<u8>, parent: Seq<u8>) -> Seq<u8> {
    if paths::has_file_name(path) {
        paths::joined(parent, paths::components(path).last())
    } else {
        parent
    }
}

/// Where a path leads, its last name left unresolved, given where its
/// directory leads.
pub fn create_path(path: &[u8], parent: &[u8]) -> (target: Vec<u8>)
    ensures
        target@ == created(path@, parent@),
{
    match paths::file_name(path) {
        Some(name) => paths::join(parent, name.as_slice()),
        None => bytes::copy_bytes(parent),
    }
}

/// The runtime directory of a user.
pub open spec fn user_runtime(uid: u32) -> Seq<u8> {
    paths::joined(
        vstd::utf8::encode_utf8("/run/user"@),
        vstd::utf8::encode_utf8(text::decimal(uid as nat)),
    )
}

/// The runtime directory in use: the one that is set, or the user's own.
pub open spec fn runtime_in_use(runtime: Option<Seq<u8>>, uid: u32) -> Seq<u8> {
    match runtime {
        Some(dir) => dir,
        None => user_runtime(uid),
    }
}

/// The sockets that start processes for whoever asks.
pub open spec fn bus_sockets(runtime: Option<Seq<u8>>, uid: u32) -> Seq<Seq<u8>> {
    seq![
        paths::joined(runtime_in_use(runtime, uid), vstd::utf8::encode_utf8("bus"@)),
        paths::joined(user_runtime(uid), vstd::utf8::encode_utf8("bus"@)),
        vstd::utf8::encode_utf8("/run/dbus/system_bus_socket"@),
    ]
}

/// The directories whose sockets start processes for whoever asks.
pub open spec fn service_directories(runtime: Option<Seq<u8>>, uid: u32) -> Seq<Seq<u8>> {
    seq![
        vstd::utf8::encode_utf8("/run/systemd"@),
        paths::joined(runtime_in_use(runtime, uid), vstd::utf8::encode_utf8("systemd"@)),
        paths::joined(user_runtime(uid), vstd::utf8::encode_utf8("systemd"@)),
    ]
}

fn user_runtime_dir(uid: u32) -> (dir: Vec<u8>)
    ensures
        dir@ == user_runtime(uid),
{
    paths::join("/run/user".as_bytes(), text::decimal_text(uid as u64).as_str().as_bytes())
}

fn runtime_dir(runtime: Option<&[u8]>, uid: u32) -> (dir: Vec<u8>)
    ensures
        dir@ == runtime_in_use(
            match runtime {
                Some(dir) => Some(dir@),
                None => None,
            },
            uid,
        ),
{
    match runtime {
        Some(dir) => bytes::copy_bytes(dir),
        None => user_runtime_dir(uid),
    }
}

/// The sockets that a socket must not be, so that each can be looked up.
pub fn supervisor_sockets(runtime: Option<&[u8]>, uid: u32) -> (sockets: Vec<Vec<u8>>)
    ensures
        bytes::texts(sockets@) == bus_sockets(
            match runtime {
                Some(dir) => Some(dir@),
                None => None,
            },
            uid,
        ),
{
    let mut sockets: Vec<Vec<u8>> = Vec::new();
    sockets.push(paths::join(runtime_dir(runtime, uid).as_slice(), "bus".as_bytes()));
    sockets.push(paths::join(user_runtime_dir(uid).as_slice(), "bus".as_bytes()));
    sockets.push(bytes::copy_bytes("/run/dbus/system_bus_socket".as_bytes()));
    assert(bytes::texts(sockets@) =~= bus_sockets(
        match runtime {
            Some(dir) => Some(dir@),
            None => None,
        },
        uid,
    ));
    sockets
}

/// Whether a socket asks a service manager to start processes: by its path, by
/// being the same file as one that does, or by its directory.
pub open spec fn is_supervisor(
    target: Seq<u8>,
    runtime: Option<Seq<u8>>,
    uid: u32,
    same_file: Seq<bool>,
) -> bool {
    ||| paths::names_path(bus_sockets(runtime, uid), target)
    ||| same_file.contains(true)
    ||| paths::under_any(target, service_directories(runtime, uid))
}

/// Whether a socket asks a service manager to start processes that would run
/// outside the sandbox. `same_file` says of each of [`supervisor_sockets`]
/// whether the target is that file.
pub fn is_supervisor_socket(
    target: &[u8],
    runtime: Option<&[u8]>,
    uid: u32,
    same_file: &[bool],
) -> (yes: bool)
    ensures
        yes == is_supervisor(
            target@,
            match runtime {
                Some(dir) => Some(dir@),
                None => None,
            },
            uid,
            same_file@,
        ),
{
    if paths::contains_path(supervisor_sockets(runtime, uid).as_slice(), target) {
        return true;
    }
    let mut at: usize = 0;
    while at < same_file.len()
        invariant
            at <= same_file@.len(),
            forall|i: int| 0 <= i < at ==> !same_file@[i],
        decreases same_file.len() - at,
    {
        if same_file[at] {
            return true;
        }
        at += 1;
    }
    let mut directories: Vec<Vec<u8>> = Vec::new();
    directories.push(bytes::copy_bytes("/run/systemd".as_bytes()));
    directories.push(paths::join(runtime_dir(runtime, uid).as_slice(), "systemd".as_bytes()));
    directories.push(paths::join(user_runtime_dir(uid).as_slice(), "systemd".as_bytes()));
    assert(bytes::texts(directories@) =~= service_directories(
        match runtime {
            Some(dir) => Some(dir@),
            None => None,
        },
        uid,
    ));
    paths::is_under_any(target, directories.as_slice())
}

/// Whether two files are one, by their device and number. A file that cannot
/// be looked up is none.
pub fn same_socket_inode(left: Option<(u64, u64)>, right: Option<(u64, u64)>) -> (same: bool)
    ensures
        same == (left is Some && left == right),
{
    match (left, right) {
        (Some(left), Some(right)) => left.0 == right.0 && left.1 == right.1,
        _ => false,
    }
}

/// Whether a pathname socket may be used.
pub open spec fn path_allowed(policy: AccessPolicy, target: Seq<u8>, supervisor: bool) -> bool {
    !supervisor && match policy::sockets_of(policy.network_access) {
        UnixSocketAccess::Unrestricted => true,
        UnixSocketAccess::AllowPaths(allowed) => paths::under_any(
            target,
            bytes::texts(allowed@),
        ),
        UnixSocketAccess::Denied => false,
    }
}

/// Whether a pathname socket may be used. One that asks a service manager to
/// start processes may not, whatever the policy says.
pub fn authorize_unix_path(
    policy: &AccessPolicy,
    target: &[u8],
    supervisor: bool,
) -> (allowed: Result<(), BrokerError>)
    ensures
        allowed == (if path_allowed(*policy, target@, supervisor) {
            Ok::<(), BrokerError>(())
        } else {
            Err(BrokerError::PolicyDenied)
        }),
{
    if supervisor {
        return Err(BrokerError::PolicyDenied);
    }
    match &policy.network_access {
        NetworkAccess::Unrestricted => Ok(()),
        NetworkAccess::Restricted { unix_socket_access, .. } => match unix_socket_access {
            UnixSocketAccess::Unrestricted => Ok(()),
            UnixSocketAccess::AllowPaths(allowed) => if paths::is_under_any(
                target,
                allowed.as_slice(),
            ) {
                Ok(())
            } else {
                Err(BrokerError::PolicyDenied)
            },
            UnixSocketAccess::Denied => Err(BrokerError::PolicyDenied),
        },
    }
}

/// The address with a path in place of the one it held.
pub open spec fn rewritten(addr: Seq<u8>, target: Seq<u8>) -> Seq<u8> {
    addr.take(2) + target + seq![0u8]
}

/// Whether a path fits into an address.
pub open spec fn path_fits(target: Seq<u8>) -> bool {
    target.len() + 1 <= sys::SOCKADDR_UN_LEN - 2
}

/// Puts a path into the address of a Unix socket.
pub fn rewrite_unix_path(addr: &mut Vec<u8>, target: &[u8]) -> (result: Result<(), BrokerError>)
    requires
        old(addr)@.len() >= 2,
    ensures
        path_fits(target@) ==> result == Ok::<(), BrokerError>(()) && final(addr)@ == rewritten(
            old(addr)@,
            target@,
        ),
        !path_fits(target@) ==> result == Err::<(), _>(BrokerError::NameTooLong) && final(addr)@
            == old(addr)@,
{
    if target.len() >= sys::SOCKADDR_UN_LEN - 2 {
        return Err(BrokerError::NameTooLong);
    }
    addr.truncate(2);
    bytes::append_bytes(addr, target);
    addr.push(0);
    assert(addr@ =~= rewritten(old(addr)@, target@));
    Ok(())
}

/// Whether a step is right for a call on a pathname socket.
pub open spec fn unix_finished<H>(
    policy: AccessPolicy,
    socket: TargetSocket<H>,
    call: SocketCall,
    target: Seq<u8>,
    relative: bool,
    supervisor: bool,
    step: AddressStep<H>,
) -> bool {
    if !path_allowed(policy, target, supervisor) || (call == SocketCall::Bind && !paths::under_any(
        target,
        bytes::texts(policy.write_roots@),
    )) {
        step == AddressStep::<H>::Refuse(BrokerError::PolicyDenied)
    } else if relative && !path_fits(target) {
        step == AddressStep::<H>::Refuse(BrokerError::NameTooLong)
    } else {
        step matches AddressStep::Run(made) && grant::grants_address(
            made,
            socket.sock,
            if relative {
                rewritten(socket.addr@, target)
            } else {
                socket.addr@
            },
            call,
            None,
        )
    }
}

/// What becomes of a call on a pathname socket once it is known where the path
/// leads. The path of a bind also has to lie below a write root. A path that
/// was relative to the process is replaced by where it led.
pub fn finish_unix_call<H>(
    policy: &AccessPolicy,
    socket: TargetSocket<H>,
    call: SocketCall,
    target: &[u8],
    relative: bool,
    supervisor: bool,
) -> (step: AddressStep<H>)
    requires
        socket.addr@.len() >= 2,
    ensures
        unix_finished(*policy, socket, call, target@, relative, supervisor, step),
{
    if let Err(error) = authorize_unix_path(policy, target, supervisor) {
        return AddressStep::Refuse(error);
    }
    if call == SocketCall::Bind && !paths::is_under_any(target, policy.write_roots.as_slice()) {
        return AddressStep::Refuse(BrokerError::PolicyDenied);
    }
    let mut addr = socket.addr;
    if relative {
        if let Err(error) = rewrite_unix_path(&mut addr, target) {
            return AddressStep::Refuse(error);
        }
    }
    AddressStep::Run(SocketGrant::address(socket.sock, addr, call, None))
}

/// Under a restriction nothing beyond the machine is connected to or bound
/// without a question.
pub proof fn law_restricted_calls_stay_on_the_machine<H>(
    policy: AccessPolicy,
    socket: TargetSocket<H>,
    addr: address::AddressView,
    bind: AddressStep<H>,
    connect: AddressStep<H>,
)
    requires
        policy.network_access is Restricted,
        is_ip(socket.info),
        address::decoded(socket.addr@, domain_of(socket.info)) == Ok::<_, BrokerError>(addr),
        !address::is_loopback(addr),
        bind_decided(policy, socket, bind),
        connect_decided(policy, socket, connect),
    ensures
        bind is Deny || bind is Refuse,
        connect is Deny || connect is Refuse,
{
}

/// By default, with no port allowed and no local address to bind, every TCP
/// and UDP address is denied.
pub proof fn law_network_is_denied_by_default<H>(
    policy: AccessPolicy,
    socket: TargetSocket<H>,
    addr: address::AddressView,
    bind: AddressStep<H>,
    connect: AddressStep<H>,
)
    requires
        policy.network_access is Restricted,
        !policy::binds_locally(policy.network_access),
        policy::ports_of(policy.network_access).len() == 0,
        kind_of(socket.info) == SocketKind::Tcp || kind_of(socket.info) == SocketKind::Udp,
        address::decoded(socket.addr@, domain_of(socket.info)) == Ok::<_, BrokerError>(addr),
        bind_decided(policy, socket, bind),
        connect_decided(policy, socket, connect),
    ensures
        denies(bind, socket, SocketCall::Bind, addr),
        denies(connect, socket, SocketCall::Connect, addr),
{
}

/// The sockets of service managers stay closed under every policy.
pub proof fn law_supervisor_sockets_stay_closed<H>(
    policy: AccessPolicy,
    socket: TargetSocket<H>,
    call: SocketCall,
    target: Seq<u8>,
    relative: bool,
    step: AddressStep<H>,
)
    requires
        unix_finished(policy, socket, call, target, relative, true, step),
    ensures
        step == AddressStep::<H>::Refuse(BrokerError::PolicyDenied),
{
}

/// A rewritten address names the path that was looked up.
pub proof fn law_rewritten_address_names_the_target(addr: Seq<u8>, target: Seq<u8>)
    requires
        addr.len() >= 2,
        target.len() > 0,
        !target.contains(0),
    ensures
        unix_path(rewritten(addr, target)) == Some(target),
{
    let whole = rewritten(addr, target);
    let end = 2 + target.len() as int;
    assert(whole[end] == 0);
    assert forall|i: int| 2 <= i < end implies whole[i] != 0 by {
        assert(whole[i] == target[i - 2]);
        assert(target.contains(target[i - 2]));
    }
    bytes::lemma_index_from_unique(whole, 0, 2, end);
    assert(whole.subrange(2, end) =~= target);
}

/// IP sockets other than TCP and UDP, packet sockets and netlink sockets are
/// blocked under a restriction.
pub proof fn law_other_sockets_are_blocked<H>(
    policy: AccessPolicy,
    socket: TargetSocket<H>,
    bind: AddressStep<H>,
    connect: AddressStep<H>,
)
    requires
        policy.network_access is Restricted,
        is_ip(socket.info) || socket.info.domain == sys::AF_PACKET || socket.info.domain
            == sys::AF_NETLINK,
        kind_of(socket.info) != SocketKind::Tcp,
        kind_of(socket.info) != SocketKind::Udp,
        bind_decided(policy, socket, bind),
        connect_decided(policy, socket, connect),
    ensures
        bind == AddressStep::<H>::Refuse(BrokerError::AddressFamilyNotSupported),
        connect == AddressStep::<H>::Refuse(BrokerError::AddressFamilyNotSupported),
{
}

/// Where Unix sockets are denied, none is connected to or bound, whether it has
/// a path or not.
pub proof fn law_denied_unix_sockets_stay_closed<H>(
    policy: AccessPolicy,
    socket: TargetSocket<H>,
    call: SocketCall,
    target: Seq<u8>,
    relative: bool,
    supervisor: bool,
    started: AddressStep<H>,
    finished: AddressStep<H>,
)
    requires
        policy::sockets_of(policy.network_access) is Denied,
        unix_started(policy, socket, call, started),
        unix_finished(policy, socket, call, target, relative, supervisor, finished),
    ensures
        started is AskPath || started == AddressStep::<H>::Refuse(BrokerError::PolicyDenied),
        finished == AddressStep::<H>::Refuse(BrokerError::PolicyDenied),
{
}

/// A local address is bound only where local binding is allowed.
pub proof fn law_binding_needs_local_binding<H>(
    policy: AccessPolicy,
    socket: TargetSocket<H>,
    bind: AddressStep<H>,
)
    requires
        kind_of(socket.info) == SocketKind::Tcp || kind_of(socket.info) == SocketKind::Udp,
        bind_decided(policy, socket, bind),
        bind is Run,
    ensures
        policy::binds_locally(policy.network_access),
        address::decoded(socket.addr@, domain_of(socket.info)) matches Ok(addr)
            && address::is_loopback(addr),
{
}

/// A socket is TCP or UDP by its domain, its type and its protocol together, and
/// a Unix socket by its domain. Other IP sockets, packet sockets and netlink
/// sockets are not supported, and the rest is left alone.
pub proof fn law_sockets_are_told_by_how_they_were_made(info: SocketInfo)
    ensures
        ({
            let ip = info.domain == 2 || info.domain == 10;
            let tcp = ip && info.ty == info.types.stream && info.proto == 6;
            let udp = ip && info.ty == info.types.datagram && info.proto == 17;
            &&& tcp ==> kind_of(info) == SocketKind::Tcp
            &&& udp && !tcp ==> kind_of(info) == SocketKind::Udp
            &&& info.domain == 1 ==> kind_of(info) == SocketKind::Unix
            &&& ip && !tcp && !udp ==> kind_of(info) == SocketKind::NotSupported
            &&& info.domain == 16 || info.domain == 17 ==> kind_of(info) == SocketKind::NotSupported
            &&& !ip && info.domain != 1 && info.domain != 16 && info.domain != 17 ==> kind_of(info)
                == SocketKind::Other
        }),
{
}

/// Under a restriction a TCP socket reaches each allowed port of the machine, and
/// every port of it where local addresses may be bound. Everything else is
/// denied. The broker connects the very socket to the very address.
pub proof fn law_tcp_reaches_each_allowed_port<H>(
    policy: AccessPolicy,
    socket: TargetSocket<H>,
    addr: address::AddressView,
    step: AddressStep<H>,
    at: int,
)
    requires
        policy.network_access is Restricted,
        socket.info.domain == 2 || socket.info.domain == 10,
        socket.info.ty == socket.info.types.stream,
        socket.info.proto == 6,
        address::decoded(
            socket.addr@,
            Domain { number: socket.info.domain, order: socket.info.order },
        ) == Ok::<_, BrokerError>(addr),
        connect_decided(policy, socket, step),
    ensures
        ({
            let ports = policy.network_access->connect_tcp_ports@;
            let local = address::is_loopback(addr);
            let anywhere = policy.network_access->bind == policy::IpBindAccess::Localhost;
            &&& local && (anywhere || 0 <= at < ports.len() && ports[at] == address::port_of(addr))
                ==> (step matches AddressStep::Run(made) && made.sock == socket.sock
                && made.operation is Address && made.operation->addr@ == socket.addr@
                && made.operation->Address_call == SocketCall::Connect
                && made.operation->Address_bind_addr is None)
            &&& !local || (!anywhere && forall|i: int|
                0 <= i < ports.len() ==> #[trigger] ports[i] != address::port_of(addr)) ==> (
            step matches AddressStep::Deny { operation, target, syscall, grant: made }
                && operation == NetworkOperation::Connect && target@ == addr && syscall@
                == "connect"@ && made.sock == socket.sock && made.operation is Address
                && made.operation->addr@ == socket.addr@ && made.operation->Address_call
                == SocketCall::Connect && made.operation->Address_bind_addr is None)
        }),
{
    let ports = policy.network_access->connect_tcp_ports@;
    if 0 <= at < ports.len() && ports[at] == address::port_of(addr) {
        assert(ports.contains(address::port_of(addr)));
    }
}

/// Under a restriction a UDP socket is connected to the machine itself where
/// local addresses may be bound, once it is known what it sends from, and to
/// nothing else. Taking its connection back is always allowed.
pub proof fn law_udp_connects_to_the_machine_only<H>(
    policy: AccessPolicy,
    socket: TargetSocket<H>,
    addr: address::AddressView,
    step: AddressStep<H>,
)
    requires
        policy.network_access is Restricted,
        socket.info.domain == 2 || socket.info.domain == 10,
        socket.info.ty == socket.info.types.datagram,
        socket.info.ty != socket.info.types.stream,
        socket.info.proto == 17,
        connect_decided(policy, socket, step),
    ensures
        socket.addr@.len() >= 2 && socket.addr@[0] == 0 && socket.addr@[1] == 0 ==> (
        step matches AddressStep::Run(made) && made.sock == socket.sock && made.operation is Address
            && made.operation->addr@ == socket.addr@ && made.operation->Address_call
            == SocketCall::Connect && made.operation->Address_bind_addr is None),
        address::decoded(
            socket.addr@,
            Domain { number: socket.info.domain, order: socket.info.order },
        ) == Ok::<_, BrokerError>(addr) ==> ({
            let allowed = policy.network_access->bind == policy::IpBindAccess::Localhost
                && address::is_loopback(addr);
            &&& allowed ==> (step matches AddressStep::AskSource { socket: asked, endpoint }
                && asked == socket && endpoint.addr@ == addr)
            &&& !allowed ==> (step matches AddressStep::Deny { operation, target, syscall, .. }
                && operation == NetworkOperation::Connect && target@ == addr && syscall@
                == "connect"@)
        }),
{
    let bytes = socket.addr@;
    let domain = Domain { number: socket.info.domain, order: socket.info.order };
    address::law_addresses_are_read_by_their_layout(bytes, domain);
    if bytes.len() >= 2 {
        assert(bytes.take(2) =~= seq![bytes[0], bytes[1]]);
        crate::broker::registers::law_integers_are_their_bytes(bytes[0], bytes[1], 0, 0);
    }
}

/// A TCP or UDP socket is bound to an address of the machine where local
/// addresses may be bound, and denied every other.
pub proof fn law_binds_stay_on_the_machine<H>(
    policy: AccessPolicy,
    socket: TargetSocket<H>,
    addr: address::AddressView,
    step: AddressStep<H>,
)
    requires
        socket.info.domain == 2 || socket.info.domain == 10,
        (socket.info.ty == socket.info.types.stream && socket.info.proto == 6) || (socket.info.ty
            == socket.info.types.datagram && socket.info.proto == 17),
        address::decoded(
            socket.addr@,
            Domain { number: socket.info.domain, order: socket.info.order },
        ) == Ok::<_, BrokerError>(addr),
        bind_decided(policy, socket, step),
    ensures
        ({
            let allowed = policy.network_access is Restricted && policy.network_access->bind
                == policy::IpBindAccess::Localhost && address::is_loopback(addr);
            &&& allowed ==> (step matches AddressStep::Run(made) && made.sock == socket.sock
                && made.operation is Address && made.operation->addr@ == socket.addr@
                && made.operation->Address_call == SocketCall::Bind
                && made.operation->Address_bind_addr is None)
            &&& !allowed ==> (step matches AddressStep::Deny {
                operation,
                target,
                syscall,
                grant: made,
            } && operation == NetworkOperation::Bind && target@ == addr && syscall@ == "bind"@
                && made.sock == socket.sock && made.operation is Address && made.operation->addr@
                == socket.addr@ && made.operation->Address_call == SocketCall::Bind)
        }),
{
}

/// An address that cannot be read refuses the call on an IP socket with what is
/// wrong with it. Without a restriction connects are left to the process.
pub proof fn law_unreadable_addresses_are_refused<H>(
    policy: AccessPolicy,
    socket: TargetSocket<H>,
    error: BrokerError,
    bind: AddressStep<H>,
    connect: AddressStep<H>,
)
    requires
        socket.info.domain == 2 || socket.info.domain == 10,
        socket.info.ty == socket.info.types.stream && socket.info.proto == 6,
        bind_decided(policy, socket, bind),
        connect_decided(policy, socket, connect),
    ensures
        policy.network_access is Unrestricted ==> connect is Continue,
        address::decoded(
            socket.addr@,
            Domain { number: socket.info.domain, order: socket.info.order },
        ) == Err::<address::AddressView, _>(error) ==> bind == AddressStep::<H>::Refuse(error) && (
        policy.network_access is Restricted ==> connect == AddressStep::<H>::Refuse(error)),
{
}

/// The path of a Unix socket stands behind its family, up to the first zero
/// byte or the end, and is looked up before anything is decided. Without a
/// path, a connect passes where every Unix socket may be used, and everything
/// else is refused.
pub proof fn law_unix_sockets_are_decided_by_their_path<H>(
    policy: AccessPolicy,
    socket: TargetSocket<H>,
    bind: AddressStep<H>,
    connect: AddressStep<H>,
    end: int,
)
    requires
        socket.info.domain == 1,
        bind_decided(policy, socket, bind),
        connect_decided(policy, socket, connect),
    ensures
        2 < end <= socket.addr@.len() && (forall|i: int| 2 <= i < end ==> socket.addr@[i] != 0) && (
        end < socket.addr@.len() ==> socket.addr@[end] == 0) ==> (
        bind matches AddressStep::AskPath { socket: asked, call, path } && asked == socket && call
            == SocketCall::Bind && path@ == socket.addr@.subrange(2, end)) && (
        connect matches AddressStep::AskPath { socket: asked, call, path } && asked == socket
            && call == SocketCall::Connect && path@ == socket.addr@.subrange(2, end)),
        socket.addr@.len() <= 2 || socket.addr@[2] == 0 ==> bind == AddressStep::<H>::Refuse(
            BrokerError::PolicyDenied,
        ) && (if policy.network_access is Unrestricted || policy.network_access is Restricted
            && policy.network_access->unix_socket_access is Unrestricted {
            connect is Continue
        } else {
            connect == AddressStep::<H>::Refuse(BrokerError::PolicyDenied)
        }),
{
    if 2 < end <= socket.addr@.len() && (forall|i: int| 2 <= i < end ==> socket.addr@[i] != 0) && (
    end < socket.addr@.len() ==> socket.addr@[end] == 0) {
        bytes::lemma_index_from_unique(socket.addr@, 0, 2, end);
    }
}

/// A path of a Unix socket that no service manager answers may be used where
/// every socket may, or below each allowed path. A bind needs a write root
/// above it too. A path that was relative to the process is replaced.
pub proof fn law_each_allowed_unix_path_counts<H>(
    policy: AccessPolicy,
    socket: TargetSocket<H>,
    call: SocketCall,
    target: Seq<u8>,
    relative: bool,
    step: AddressStep<H>,
    at: int,
    root: int,
)
    requires
        socket.addr@.len() >= 2,
        unix_finished(policy, socket, call, target, relative, false, step),
    ensures
        ({
            let restricted = policy.network_access is Restricted;
            let access = policy.network_access->unix_socket_access;
            let open = !restricted || access is Unrestricted;
            let listed = restricted && access is AllowPaths && 0 <= at
                < access->AllowPaths_0@.len() && paths::under(
                target,
                access->AllowPaths_0@[at]@,
            );
            let rooted = 0 <= root < policy.write_roots@.len() && paths::under(
                target,
                policy.write_roots@[root]@,
            );
            let fits = target.len() < 108;
            &&& (open || listed) && (call == SocketCall::Connect || rooted) && (!relative || fits)
                ==> (step matches AddressStep::Run(made) && made.sock == socket.sock
                && made.operation is Address && made.operation->Address_call == call
                && made.operation->Address_bind_addr is None && made.operation->addr@ == (
            if relative {
                seq![socket.addr@[0], socket.addr@[1]] + target + seq![0u8]
            } else {
                socket.addr@
            }))
            &&& (open || listed) && (call == SocketCall::Connect || rooted) && relative && !fits
                ==> step == AddressStep::<H>::Refuse(BrokerError::NameTooLong)
            &&& restricted && (access is Denied || access is AllowPaths && forall|i: int|
                0 <= i < access->AllowPaths_0@.len() ==> !paths::under(
                    target,
                    (#[trigger] access->AllowPaths_0@[i])@,
                )) ==> step == AddressStep::<H>::Refuse(BrokerError::PolicyDenied)
            &&& call == SocketCall::Bind && (forall|i: int|
                0 <= i < policy.write_roots@.len() ==> !paths::under(
                    target,
                    (#[trigger] policy.write_roots@[i])@,
                )) ==> step == AddressStep::<H>::Refuse(BrokerError::PolicyDenied)
        }),
{
    let roots = bytes::texts(policy.write_roots@);
    assert(forall|i: int| 0 <= i < roots.len() ==> #[trigger] roots[i] == policy.write_roots@[i]@);
    if 0 <= root < roots.len() && paths::under(target, roots[root]) {
        assert(paths::under_any(target, roots));
    }
    if policy.network_access is Restricted {
        let access = policy.network_access->unix_socket_access;
        if access is AllowPaths {
            let allowed = bytes::texts(access->AllowPaths_0@);
            assert(forall|i: int|
                0 <= i < allowed.len() ==> #[trigger] allowed[i] == access->AllowPaths_0@[i]@);
            if 0 <= at < allowed.len() && paths::under(target, allowed[at]) {
                assert(paths::under_any(target, allowed));
            }
        }
    }
    assert(socket.addr@.take(2) =~= seq![socket.addr@[0], socket.addr@[1]]);
}

/// The sockets that start processes are the bus of the user in either runtime
/// directory, the bus of the system, whatever is one of these files, and all
/// that lies below the directories of the service manager. No other is one.
pub proof fn law_service_managers_are_known_by_their_sockets(
    target: Seq<u8>,
    runtime: Option<Seq<u8>>,
    uid: u32,
    same_file: Seq<bool>,
    at: int,
)
    ensures
        ({
            let own = paths::joined(
                vstd::utf8::encode_utf8("/run/user"@),
                vstd::utf8::encode_utf8(text::decimal(uid as nat)),
            );
            let used = match runtime {
                Some(dir) => dir,
                None => own,
            };
            let bus = vstd::utf8::encode_utf8("bus"@);
            let services = vstd::utf8::encode_utf8("systemd"@);
            let known = paths::same_path(target, paths::joined(used, bus)) || paths::same_path(
                target,
                paths::joined(own, bus),
            ) || paths::same_path(
                target,
                vstd::utf8::encode_utf8("/run/dbus/system_bus_socket"@),
            ) || paths::under(target, vstd::utf8::encode_utf8("/run/systemd"@)) || paths::under(
                target,
                paths::joined(used, services),
            ) || paths::under(target, paths::joined(own, services));
            &&& known || 0 <= at < same_file.len() && same_file[at] ==> is_supervisor(
                target,
                runtime,
                uid,
                same_file,
            )
            &&& !known && (forall|i: int| 0 <= i < same_file.len() ==> !#[trigger] same_file[i])
                ==> !is_supervisor(target, runtime, uid, same_file)
        }),
{
    let buses = bus_sockets(runtime, uid);
    let directories = service_directories(runtime, uid);
    assert(buses[0] == paths::joined(
        runtime_in_use(runtime, uid),
        vstd::utf8::encode_utf8("bus"@),
    ));
    assert forall|i: int| 0 <= i < buses.len() implies #[trigger] paths::same_path(buses[i], target)
        == paths::same_path(target, buses[i]) by {}
    assert(buses.len() == 3 && directories.len() == 3);
    assert(paths::names_path(buses, target) == (paths::same_path(buses[0], target)
        || paths::same_path(buses[1], target) || paths::same_path(buses[2], target)));
    assert(paths::under_any(target, directories) == (paths::under(target, directories[0])
        || paths::under(target, directories[1]) || paths::under(target, directories[2])));
    if 0 <= at < same_file.len() && same_file[at] {
        assert(same_file.contains(true));
    }
}

/// A socket sends from the machine where it is bound to an address of it, from
/// nowhere yet where it is bound to no host and no port, and otherwise from
/// elsewhere.
pub proof fn law_sources_are_told_by_their_address(local: address::AddressView)
    ensures
        address::is_loopback(local) ==> source_of(local) == UdpSourceState::Loopback,
        !address::is_loopback(local) && address::is_unspecified(local) && address::port_of(local)
            == 0 ==> source_of(local) == UdpSourceState::Unbound,
        !address::is_loopback(local) && (!address::is_unspecified(local) || address::port_of(local)
            != 0) ==> source_of(local) == UdpSourceState::Other,
{
}

/// A socket that is created lies in its directory under its name. A path of one
/// name lies at the root.
pub proof fn law_created_sockets_lie_in_their_directory(
    directory: Seq<u8>,
    name: Seq<u8>,
    target: Seq<u8>,
)
    requires
        directory.len() > 0,
        name.len() > 0,
        forall|i: int| 0 <= i < name.len() ==> name[i] != 0x2f,
        name != seq![0x2eu8],
        name != seq![0x2eu8, 0x2eu8],
    ensures
        paths::same_path(parent_of(directory + seq![0x2fu8] + name), directory),
        parent_of(name) == seq![0x2fu8],
        parent_of(seq![0x2fu8]) == seq![0x2fu8],
        created(directory + seq![0x2fu8] + name, target) == paths::joined(target, name),
        created(seq![0x2fu8], target) == target,
{
    let whole = directory + seq![0x2fu8] + name;
    let slash = seq![paths::SLASH];
    paths::law_a_name_is_one_more_component(directory, name);
    let all = paths::components(directory);
    assert(paths::components(whole).last() == name);
    assert(slash[0] == paths::SLASH && seq![paths::DOT][0] == paths::DOT);
    assert(seq![slash].last() == slash);
    paths::lemma_front_text(whole, all.len());
    assert(all.push(name).take(all.len() as int) =~= all);
    assert(paths::components(name).last() == name);
    paths::lemma_front_text(name, 0);
    if paths::parent_text(whole).len() == 0 {
        assert(paths::parent_text(whole) =~= Seq::<u8>::empty());
        assert(all.len() == 0);
        lemma_has_components(directory);
    }
}

proof fn lemma_has_components(path: Seq<u8>)
    requires
        path.len() > 0,
    ensures
        paths::components(path).len() > 0,
{
    bytes::lemma_index_from(path, paths::SLASH, 0);
    let segment = path.take(paths::segment_len(path));
    if !paths::is_rooted(path) && !paths::starts_at_dot(path) {
        assert(segment.len() > 0) by {
            if paths::segment_len(path) == 0 {
                assert(path[0] == paths::SLASH);
            }
        }
        assert(paths::is_name(segment));
        assert(paths::names(path)[0] == segment);
    }
}

} // verus!
