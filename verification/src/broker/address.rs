//! Socket addresses as the kernel lays them out.

use crate::broker::machine::ErrorNumbers;
use crate::broker::registers;
use crate::broker::registers::ByteOrder;
use crate::bytes;
use crate::sys;
use vstd::prelude::*;

verus! {

/// Why a brokered call is refused.
#[derive(Clone, Copy, Debug, PartialEq, Eq, Structural)]
pub enum BrokerError {
    AddressFamilyNotSupported,
    BadAddress,
    BadFileDescriptor,
    InvalidAddress,
    NameTooLong,
    PolicyDenied,
    SystemCall { errno: i32 },
}

/// The error number a refused call fails with.
pub open spec fn errno_of(errors: ErrorNumbers, error: BrokerError) -> i32 {
    match error {
        BrokerError::PolicyDenied => crate::error::DENIAL_ERRNO,
        BrokerError::AddressFamilyNotSupported => errors.eafnosupport,
        BrokerError::InvalidAddress => sys::EINVAL,
        BrokerError::BadFileDescriptor => sys::EBADF,
        BrokerError::BadAddress => sys::EFAULT,
        BrokerError::NameTooLong => errors.enametoolong,
        BrokerError::SystemCall { errno } => errno,
    }
}

impl BrokerError {
    /// The error number the refused call fails with.
    pub fn errno(&self, errors: &ErrorNumbers) -> (errno: i32)
        ensures
            errno == errno_of(*errors, *self),
    {
        match self {
            BrokerError::PolicyDenied => crate::error::DENIAL_ERRNO,
            BrokerError::AddressFamilyNotSupported => errors.eafnosupport,
            BrokerError::InvalidAddress => sys::EINVAL,
            BrokerError::BadFileDescriptor => sys::EBADF,
            BrokerError::BadAddress => sys::EFAULT,
            BrokerError::NameTooLong => errors.enametoolong,
            BrokerError::SystemCall { errno } => *errno,
        }
    }
}

/// An address to connect to or to bind.
#[allow(inconsistent_fields)]
#[derive(Clone, Copy, Debug)]
pub enum SocketAddress {
    V4 { octets: [u8; 4], port: u16 },
    V6 { octets: [u8; 16], port: u16, flowinfo: u32, scope_id: u32 },
}

/// An address and what the policy asks of it.
#[derive(Clone, Copy, Debug)]
pub struct IpEndpoint {
    pub addr: SocketAddress,
    pub port: u16,
    pub loopback: bool,
    /// The byte order of the machine on which it was read.
    pub order: ByteOrder,
}

/// What an address says.
pub enum AddressView {
    V4 { octets: Seq<u8>, port: u16 },
    V6 { octets: Seq<u8>, port: u16, flowinfo: u32, scope_id: u32 },
}

impl View for SocketAddress {
    type V = AddressView;

    open spec fn view(&self) -> AddressView {
        match *self {
            SocketAddress::V4 { octets, port } => AddressView::V4 { octets: octets@, port },
            SocketAddress::V6 { octets, port, flowinfo, scope_id } => AddressView::V6 {
                octets: octets@,
                port,
                flowinfo,
                scope_id,
            },
        }
    }
}

/// Whether every byte is zero.
pub open spec fn all_zero(bytes: Seq<u8>) -> bool {
    forall|i: int| 0 <= i < bytes.len() ==> bytes[i] == 0
}

/// Whether an IPv6 address stands for an IPv4 one.
pub open spec fn is_mapped(octets: Seq<u8>) -> bool {
    all_zero(octets.take(10)) && octets[10] == 0xff && octets[11] == 0xff
}

/// Whether an IPv6 address stands for an IPv4 loopback address.
pub open spec fn is_mapped_loopback(octets: Seq<u8>) -> bool {
    is_mapped(octets) && octets[12] == 127
}

/// Whether an address is the IPv6 loopback address.
pub open spec fn is_loopback_v6(octets: Seq<u8>) -> bool {
    all_zero(octets.take(15)) && octets[15] == 1
}

/// Whether an address never leaves the machine.
pub open spec fn is_loopback(addr: AddressView) -> bool {
    match addr {
        AddressView::V4 { octets, .. } => octets[0] == 127,
        AddressView::V6 { octets, .. } => is_loopback_v6(octets) || is_mapped_loopback(octets),
    }
}

/// Whether an address names no host.
pub open spec fn is_unspecified(addr: AddressView) -> bool {
    match addr {
        AddressView::V4 { octets, .. } => all_zero(octets),
        AddressView::V6 { octets, .. } => all_zero(octets),
    }
}

/// The port of an address.
pub open spec fn port_of(addr: AddressView) -> u16 {
    match addr {
        AddressView::V4 { port, .. } => port,
        AddressView::V6 { port, .. } => port,
    }
}

/// The domain of a socket, on a machine of a byte order.
#[derive(Clone, Copy, Debug, PartialEq, Eq, Structural)]
pub struct Domain {
    pub number: i32,
    pub order: ByteOrder,
}

/// The family an address starts with, or `None` where it is too short.
pub open spec fn family_of(order: ByteOrder, addr: Seq<u8>) -> Option<int> {
    if addr.len() < 2 {
        None
    } else {
        Some(registers::native(order, addr.take(2)) as int)
    }
}

/// The value of a network integer of 16 bits.
pub open spec fn network_u16(bytes: Seq<u8>) -> int {
    256 * bytes[0] + bytes[1]
}

/// The value of a network integer of 32 bits.
pub open spec fn network_u32(bytes: Seq<u8>) -> int {
    0x1_0000 * network_u16(bytes.take(2)) + network_u16(bytes.skip(2))
}

/// What the bytes of an address say to a socket of a domain. Bytes beyond the
/// address say nothing.
pub open spec fn decoded(
    bytes: Seq<u8>,
    domain: Domain,
) -> Result<AddressView, BrokerError> {
    if bytes.len() < 2 {
        Err(BrokerError::InvalidAddress)
    } else if domain.number == sys::AF_INET && family_of(domain.order, bytes) == Some(domain.number as int) {
        if bytes.len() < sys::SOCKADDR_IN_LEN {
            Err(BrokerError::InvalidAddress)
        } else {
            Ok(
                AddressView::V4 {
                    octets: bytes.subrange(4, 8),
                    port: network_u16(bytes.subrange(2, 4)) as u16,
                },
            )
        }
    } else if domain.number == sys::AF_INET6 && family_of(domain.order, bytes) == Some(domain.number as int) {
        if bytes.len() < sys::SOCKADDR_IN6_LEN {
            Err(BrokerError::InvalidAddress)
        } else {
            Ok(
                AddressView::V6 {
                    octets: bytes.subrange(8, 24),
                    port: network_u16(bytes.subrange(2, 4)) as u16,
                    flowinfo: network_u32(bytes.subrange(4, 8)) as u32,
                    scope_id: registers::native(domain.order, bytes.subrange(24, 28)) as u32,
                },
            )
        }
    } else {
        Err(BrokerError::AddressFamilyNotSupported)
    }
}

/// Whether an endpoint is an address with its port and its reach.
pub open spec fn is_endpoint(endpoint: IpEndpoint, addr: AddressView, order: ByteOrder) -> bool {
    endpoint.addr@ == addr && endpoint.port == port_of(addr) && endpoint.loopback == is_loopback(
        addr,
    ) && endpoint.order == order
}

/// The family an address starts with.
pub fn sockaddr_family(order: ByteOrder, addr: &[u8]) -> (family: Result<i32, BrokerError>)
    ensures
        family_of(order, addr@) is Some ==> family == Ok::<i32, BrokerError>(family_of(order, addr@)->0 as i32)
            && 0 <= family_of(order, addr@)->0 < 0x1_0000,
        family_of(order, addr@) is None ==> family == Err::<i32, _>(BrokerError::InvalidAddress),
{
    if addr.len() < 2 {
        return Err(BrokerError::InvalidAddress);
    }
    Ok(registers::read_u16(order, addr) as i32)
}

fn is_all_zero(bytes: &[u8]) -> (yes: bool)
    ensures
        yes == all_zero(bytes@),
{
    let mut at: usize = 0;
    while at < bytes.len()
        invariant
            at <= bytes@.len(),
            forall|i: int| 0 <= i < at ==> bytes@[i] == 0,
        decreases bytes.len() - at,
    {
        if bytes[at] != 0 {
            return false;
        }
        at += 1;
    }
    true
}

fn read_network_u16(bytes: &[u8], at: usize) -> (value: u16)
    requires
        at + 2 <= bytes.len(),
    ensures
        value == network_u16(bytes@.subrange(at as int, at + 2)),
{
    assert(bytes@.subrange(at as int, at + 2)[0] == bytes@[at as int]);
    assert(bytes@.subrange(at as int, at + 2)[1] == bytes@[at + 1]);
    256 * (bytes[at] as u16) + bytes[at + 1] as u16
}

fn read_network_u32(bytes: &[u8], at: usize) -> (value: u32)
    requires
        at + 4 <= bytes.len(),
    ensures
        value == network_u32(bytes@.subrange(at as int, at + 4)),
{
    let high = read_network_u16(bytes, at);
    let low = read_network_u16(bytes, at + 2);
    proof {
        let whole = bytes@.subrange(at as int, at + 4);
        assert(whole.take(2) =~= bytes@.subrange(at as int, at + 2));
        assert(whole.skip(2) =~= bytes@.subrange(at + 2, at + 4));
    }
    0x1_0000 * (high as u32) + low as u32
}

impl SocketAddress {
    /// Whether both addresses are the same in every part.
    pub fn is_same(&self, other: &SocketAddress) -> (same: bool)
        ensures
            same == (self@ == other@),
    {
        match (self, other) {
            (
                SocketAddress::V4 { octets, port },
                SocketAddress::V4 { octets: other, port: other_port },
            ) => *port == *other_port && bytes::bytes_equal(octets, other),
            (
                SocketAddress::V6 { octets, port, flowinfo, scope_id },
                SocketAddress::V6 {
                    octets: other,
                    port: other_port,
                    flowinfo: other_flow,
                    scope_id: other_scope,
                },
            ) => *port == *other_port && *flowinfo == *other_flow && *scope_id == *other_scope
                && bytes::bytes_equal(octets, other),
            _ => false,
        }
    }

    /// Whether the address never leaves the machine.
    pub fn is_loopback(&self) -> (yes: bool)
        ensures
            yes == is_loopback(self@),
    {
        match self {
            SocketAddress::V4 { octets, .. } => octets[0] == 127,
            SocketAddress::V6 { octets, .. } => octets_loopback_v6(octets)
                || octets_mapped_loopback(octets),
        }
    }

    /// Whether the address names no host.
    pub fn is_unspecified(&self) -> (yes: bool)
        ensures
            yes == is_unspecified(self@),
    {
        match self {
            SocketAddress::V4 { octets, .. } => is_all_zero(octets),
            SocketAddress::V6 { octets, .. } => is_all_zero(octets),
        }
    }
}

fn octets_loopback_v6(octets: &[u8]) -> (yes: bool)
    requires
        octets@.len() == 16,
    ensures
        yes == is_loopback_v6(octets@),
{
    let front = vstd::slice::slice_subrange(octets, 0, 15);
    assert(front@ =~= octets@.take(15));
    is_all_zero(front) && octets[15] == 1
}

fn octets_mapped_loopback(octets: &[u8]) -> (yes: bool)
    requires
        octets@.len() == 16,
    ensures
        yes == is_mapped_loopback(octets@),
{
    let front = vstd::slice::slice_subrange(octets, 0, 10);
    assert(front@ =~= octets@.take(10));
    is_all_zero(front) && octets[10] == 0xff && octets[11] == 0xff && octets[12] == 127
}

/// Reads the address of a socket of `domain`.
pub fn ip_endpoint(addr: &[u8], domain: Domain) -> (result: Result<IpEndpoint, BrokerError>)
    ensures
        decoded(addr@, domain) matches Err(error) ==> result == Err::<IpEndpoint, _>(error),
        decoded(addr@, domain) matches Ok(found) ==> (result matches Ok(endpoint) && is_endpoint(
            endpoint,
            found,
            domain.order,
        )),
{
    let family = match sockaddr_family(domain.order, addr) {
        Ok(family) => family,
        Err(error) => return Err(error),
    };
    if domain.number == sys::AF_INET && family == sys::AF_INET {
        if addr.len() < sys::SOCKADDR_IN_LEN {
            return Err(BrokerError::InvalidAddress);
        }
        let port = read_network_u16(addr, 2);
        let octets = [addr[4], addr[5], addr[6], addr[7]];
        assert(octets@ =~= addr@.subrange(4, 8));
        let found = SocketAddress::V4 { octets, port };
        Ok(IpEndpoint {
            addr: found,
            port,
            loopback: found.is_loopback(),
            order: domain.order,
        })
    } else if domain.number == sys::AF_INET6 && family == sys::AF_INET6 {
        if addr.len() < sys::SOCKADDR_IN6_LEN {
            return Err(BrokerError::InvalidAddress);
        }
        let port = read_network_u16(addr, 2);
        let flowinfo = read_network_u32(addr, 4);
        let octets = [
            addr[8],
            addr[9],
            addr[10],
            addr[11],
            addr[12],
            addr[13],
            addr[14],
            addr[15],
            addr[16],
            addr[17],
            addr[18],
            addr[19],
            addr[20],
            addr[21],
            addr[22],
            addr[23],
        ];
        assert(octets@ =~= addr@.subrange(8, 24));
        let tail = vstd::slice::slice_subrange(addr, 24, 28);
        assert(tail@.take(4) =~= addr@.subrange(24, 28));
        let scope_id = registers::read_u32(domain.order, tail);
        let found = SocketAddress::V6 { octets, port, flowinfo, scope_id };
        Ok(IpEndpoint {
            addr: found,
            port,
            loopback: found.is_loopback(),
            order: domain.order,
        })
    } else {
        Err(BrokerError::AddressFamilyNotSupported)
    }
}

/// A family that is less than a byte, as an address starts with it.
pub open spec fn family_bytes(family: u8, order: ByteOrder) -> Seq<u8> {
    match order {
        ByteOrder::Little => seq![family, 0],
        ByteOrder::Big => seq![0, family],
    }
}

fn start_address(family: u8, order: ByteOrder) -> (addr: Vec<u8>)
    ensures
        addr@ == family_bytes(family, order),
{
    let addr = match order {
        ByteOrder::Little => vec![family, 0u8],
        ByteOrder::Big => vec![0u8, family],
    };
    assert(addr@ =~= family_bytes(family, order));
    addr
}

/// The address of the family of `destination` that a socket is bound to before
/// it sends: any port of the loopback host, or of the destination's own host
/// where that is a mapped loopback address.
pub open spec fn bind_bytes(destination: AddressView, order: ByteOrder) -> Seq<u8> {
    match destination {
        AddressView::V4 { .. } => family_bytes(2, order) + seq![
            0u8,
            0,
            127,
            0,
            0,
            1,
            0,
            0,
            0,
            0,
            0,
            0,
            0,
            0,
        ],
        AddressView::V6 { octets, .. } => family_bytes(10, order) + seq![0u8, 0, 0, 0, 0, 0] + (
        if is_mapped_loopback(octets) {
            octets
        } else {
            seq![0u8, 0, 0, 0, 0, 0, 0, 0, 0, 0, 0, 0, 0, 0, 0, 1]
        }) + seq![0u8, 0, 0, 0],
    }
}

/// The address a socket is bound to before it sends to `destination`.
pub fn loopback_bind_addr(destination: SocketAddress, order: ByteOrder) -> (addr: Vec<u8>)
    ensures
        addr@ == bind_bytes(destination@, order),
{
    match destination {
        SocketAddress::V4 { .. } => {
            let mut addr = start_address(2, order);
            bytes::append_bytes(&mut addr, &[0u8, 0, 127, 0, 0, 1, 0, 0, 0, 0, 0, 0, 0, 0]);
            assert(addr@ =~= bind_bytes(destination@, order));
            addr
        },
        SocketAddress::V6 { octets, .. } => {
            let mut addr = start_address(10, order);
            bytes::append_bytes(&mut addr, &[0u8, 0, 0, 0, 0, 0]);
            if octets_mapped_loopback(&octets) {
                bytes::append_bytes(&mut addr, &octets);
            } else {
                bytes::append_bytes(
                    &mut addr,
                    &[0u8, 0, 0, 0, 0, 0, 0, 0, 0, 0, 0, 0, 0, 0, 0, 1],
                );
            }
            bytes::append_bytes(&mut addr, &[0u8, 0, 0, 0]);
            assert(addr@ =~= bind_bytes(destination@, order));
            addr
        },
    }
}

/// What a socket is bound to before it sends is a loopback address of the
/// destination's family, on any port.
pub proof fn law_bound_source_is_loopback(destination: AddressView, order: ByteOrder)
    requires
        destination is V4 ==> destination->V4_octets.len() == 4,
        destination is V6 ==> destination->V6_octets.len() == 16,
    ensures
        decoded(
            bind_bytes(destination, order),
            Domain {
                number: if destination is V4 {
                    sys::AF_INET
                } else {
                    sys::AF_INET6
                },
                order,
            },
        ) matches Ok(source) && is_loopback(source) && port_of(source) == 0 && (source is V4
            <==> destination is V4),
{
    let layout = bind_bytes(destination, order);
    reveal_with_fuel(registers::little_endian, 3);
    assert(layout.take(2).skip(1).skip(1).len() == 0);
    assert(layout.take(2).reverse().skip(1).skip(1).len() == 0);
    assert(layout.subrange(2, 4)[0] == 0 && layout.subrange(2, 4)[1] == 0);
    match destination {
        AddressView::V4 { .. } => {
            assert(layout.subrange(4, 8)[0] == 127);
        },
        AddressView::V6 { octets, .. } => {
            let inner = layout.subrange(8, 24);
            if is_mapped_loopback(octets) {
                assert(inner =~= octets);
            } else {
                assert(inner =~= seq![0u8, 0, 0, 0, 0, 0, 0, 0, 0, 0, 0, 0, 0, 0, 0, 1]);
                assert(is_loopback_v6(inner));
            }
        },
    }
}

/// An IPv4 address is local where it starts with 127. An IPv6 address is local
/// where it is one and no more, or stands for such an IPv4 address.
pub proof fn law_local_addresses_are_told_by_their_bytes(addr: AddressView)
    requires
        addr is V4 ==> addr->V4_octets.len() == 4,
        addr is V6 ==> addr->V6_octets.len() == 16,
    ensures
        addr is V4 ==> is_loopback(addr) == (addr->V4_octets[0] == 127),
        addr is V4 ==> is_unspecified(addr) == (addr->V4_octets == seq![0u8, 0, 0, 0]),
        addr is V4 ==> port_of(addr) == addr->V4_port,
        addr is V6 ==> is_loopback(addr) == ((forall|i: int|
            0 <= i < 15 ==> addr->V6_octets[i] == 0) && addr->V6_octets[15] == 1 || (forall|i: int|
            0 <= i < 10 ==> addr->V6_octets[i] == 0) && addr->V6_octets[10] == 0xff
            && addr->V6_octets[11] == 0xff && addr->V6_octets[12] == 127),
        addr is V6 ==> is_unspecified(addr) == (forall|i: int|
            0 <= i < 16 ==> addr->V6_octets[i] == 0),
        addr is V6 ==> port_of(addr) == addr->V6_port,
{
    if addr is V4 {
        let octets = addr->V4_octets;
        if all_zero(octets) {
            assert(octets =~= seq![0u8, 0, 0, 0]);
        }
        if octets == seq![0u8, 0, 0, 0] {
            assert(all_zero(octets));
        }
    } else {
        let octets = addr->V6_octets;
        assert forall|i: int| all_zero(octets.take(15)) && 0 <= i < 15 implies octets[i] == 0 by {
            assert(octets[i] == octets.take(15)[i]);
        }
        assert forall|i: int| all_zero(octets.take(10)) && 0 <= i < 10 implies octets[i] == 0 by {
            assert(octets[i] == octets.take(10)[i]);
        }
    }
}

/// An address is read where it is laid out: its family in the machine's byte
/// order, its port with the high byte first, and its octets after them. A
/// shorter one is invalid, and one of another family than the socket's, or of a
/// family that is neither, is not supported.
pub proof fn law_addresses_are_read_by_their_layout(bytes: Seq<u8>, domain: Domain)
    ensures
        bytes.len() < 2 ==> decoded(bytes, domain) == Err::<AddressView, _>(
            BrokerError::InvalidAddress,
        ),
        bytes.len() >= 2 ==> ({
            let family = if domain.order == ByteOrder::Little {
                bytes[0] + 256 * bytes[1]
            } else {
                256 * bytes[0] + bytes[1]
            };
            let port = (256 * bytes[2] + bytes[3]) as u16;
            &&& domain.number == 2 && family == 2 && bytes.len() < 16 ==> decoded(bytes, domain)
                == Err::<AddressView, _>(BrokerError::InvalidAddress)
            &&& domain.number == 2 && family == 2 && bytes.len() >= 16 ==> decoded(bytes, domain)
                == Ok::<_, BrokerError>(
                AddressView::V4 {
                    octets: seq![bytes[4], bytes[5], bytes[6], bytes[7]],
                    port,
                },
            )
            &&& domain.number == 10 && family == 10 && bytes.len() < 28 ==> decoded(bytes, domain)
                == Err::<AddressView, _>(BrokerError::InvalidAddress)
            &&& domain.number == 10 && family == 10 && bytes.len() >= 28 ==> (decoded(
                bytes,
                domain,
            ) matches Ok(addr) && addr is V6 && addr->V6_port == port && addr->V6_octets.len() == 16
                && (forall|i: int| 0 <= i < 16 ==> addr->V6_octets[i] == bytes[8 + i])
                && addr->V6_flowinfo == 0x100_0000 * bytes[4] + 0x1_0000 * bytes[5] + 256 * bytes[6]
                + bytes[7] && addr->V6_scope_id == (if domain.order == ByteOrder::Little {
                bytes[24] + 256 * bytes[25] + 0x1_0000 * bytes[26] + 0x100_0000 * bytes[27]
            } else {
                0x100_0000 * bytes[24] + 0x1_0000 * bytes[25] + 256 * bytes[26] + bytes[27]
            }))
            &&& (domain.number != 2 && domain.number != 10) || family != domain.number ==> decoded(
                bytes,
                domain,
            ) == Err::<AddressView, _>(BrokerError::AddressFamilyNotSupported)
        }),
{
    if bytes.len() >= 2 {
        assert(bytes.take(2) =~= seq![bytes[0], bytes[1]]);
        registers::law_integers_are_their_bytes(bytes[0], bytes[1], 0, 0);
    }
    if bytes.len() >= 16 {
        assert(bytes.subrange(4, 8) =~= seq![bytes[4], bytes[5], bytes[6], bytes[7]]);
        assert(bytes.subrange(2, 4)[0] == bytes[2] && bytes.subrange(2, 4)[1] == bytes[3]);
    }
    if bytes.len() >= 28 {
        let flow = bytes.subrange(4, 8);
        assert(flow.take(2)[0] == bytes[4] && flow.take(2)[1] == bytes[5]);
        assert(flow.skip(2)[0] == bytes[6] && flow.skip(2)[1] == bytes[7]);
        assert(bytes.subrange(24, 28) =~= seq![bytes[24], bytes[25], bytes[26], bytes[27]]);
        registers::law_integers_are_their_bytes(bytes[24], bytes[25], bytes[26], bytes[27]);
    }
}

/// What a socket is bound to before it sends to an IPv6 address that stands for
/// a local IPv4 one is that very address, on any port.
pub proof fn law_mapped_source_is_the_destination(destination: AddressView, order: ByteOrder)
    requires
        destination is V6,
        destination->V6_octets.len() == 16,
        forall|i: int| 0 <= i < 10 ==> destination->V6_octets[i] == 0,
        destination->V6_octets[10] == 0xff,
        destination->V6_octets[11] == 0xff,
        destination->V6_octets[12] == 127,
    ensures
        bind_bytes(destination, order).len() == 28,
        bind_bytes(destination, order).subrange(8, 24) == destination->V6_octets,
{
    let octets = destination->V6_octets;
    assert(all_zero(octets.take(10)));
    assert(bind_bytes(destination, order).subrange(8, 24) =~= octets);
}

/// A refused call fails with the number of what is wrong with it.
pub proof fn law_refusals_have_their_numbers(errors: ErrorNumbers, errno: i32)
    ensures
        errno_of(errors, BrokerError::PolicyDenied) == 13,
        errno_of(errors, BrokerError::InvalidAddress) == 22,
        errno_of(errors, BrokerError::BadFileDescriptor) == 9,
        errno_of(errors, BrokerError::BadAddress) == 14,
        errno_of(errors, BrokerError::AddressFamilyNotSupported) == errors.eafnosupport,
        errno_of(errors, BrokerError::NameTooLong) == errors.enametoolong,
        errno_of(errors, BrokerError::SystemCall { errno }) == errno,
{
}

/// What a socket is bound to before it sends is the first loopback address of
/// the destination's family, on any port, unless the destination is mapped.
pub proof fn law_sources_are_the_first_loopback_address(
    destination: AddressView,
    order: ByteOrder,
)
    ensures
        destination is V4 ==> bind_bytes(destination, order).len() == 16 && bind_bytes(
            destination,
            order,
        ).subrange(2, 8) == seq![0u8, 0, 127, 0, 0, 1],
        destination is V6 && destination->V6_octets.len() == 16 && destination->V6_octets[12] != 127
            ==> bind_bytes(destination, order).len() == 28 && (forall|i: int|
            2 <= i < 23 ==> bind_bytes(destination, order)[i] == 0) && bind_bytes(
            destination,
            order,
        )[23] == 1,
{
    let layout = bind_bytes(destination, order);
    if destination is V4 {
        assert(layout.subrange(2, 8) =~= seq![0u8, 0, 127, 0, 0, 1]);
    }
}

} // verus!
