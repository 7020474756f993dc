//! Which of the datagrams of a call may be sent, and sending them.

use crate::broker::address;
use crate::broker::address::{ip_endpoint, loopback_bind_addr, Domain};
use crate::broker::address::{BrokerError, IpEndpoint, SocketAddress};
use crate::broker::datagram_copy;
use crate::broker::datagram_copy::{MMSGHDR_WORDS, MSGHDR_WORDS};
use crate::broker::registers;
use crate::broker::registers::{words_len, ByteOrder};
use crate::broker::grant;
use crate::broker::grant::{DatagramCall, DatagramMessage, MmsgOutput, SocketGrant};
use crate::broker::machine::ErrorNumbers;
use crate::broker::memory::MemoryRead;
use crate::broker::socket;
use crate::broker::socket::{AddressStep, SocketInfo, SocketKind, UdpSourceState};
use crate::policy;
use crate::policy::AccessPolicy;
use crate::trap::NetworkOperation;
use vstd::prelude::*;

verus! {

/// What the policy asks of where a datagram goes.
pub struct EndpointView {
    pub addr: address::AddressView,
    pub port: u16,
    pub loopback: bool,
    pub order: ByteOrder,
}

impl View for IpEndpoint {
    type V = EndpointView;

    open spec fn view(&self) -> EndpointView {
        EndpointView {
            addr: self.addr@,
            port: self.port,
            loopback: self.loopback,
            order: self.order,
        }
    }
}

/// Where an optional datagram goes.
pub open spec fn endpoint_view(endpoint: Option<IpEndpoint>) -> Option<EndpointView> {
    match endpoint {
        Some(endpoint) => Some(endpoint@),
        None => None,
    }
}

/// How far the datagrams of a call may be sent: on approval up to `count` of
/// them, to one denied target beside the allowed ones, and without approval
/// from the loopback address in `bind`.
pub struct AnalysisView {
    pub denied: Option<address::AddressView>,
    pub bind: Option<Seq<u8>>,
    pub count: int,
}

/// Which datagrams of one call may be sent together.
#[derive(Debug)]
pub struct DatagramPolicyAnalysis {
    pub denied_target: Option<SocketAddress>,
    pub loopback_bind_addr: Option<Vec<u8>>,
    pub safe_message_count: usize,
}

impl View for DatagramPolicyAnalysis {
    type V = AnalysisView;

    open spec fn view(&self) -> AnalysisView {
        AnalysisView {
            denied: match self.denied_target {
                Some(target) => Some(target@),
                None => None,
            },
            bind: grant::option_bytes(self.loopback_bind_addr),
            count: self.safe_message_count as int,
        }
    }
}

/// Whether a datagram to an endpoint is denied: from a source that is not the
/// machine's own, without local binding, or to anywhere else.
pub open spec fn send_denied(
    endpoint: EndpointView,
    allows_local_binding: bool,
    source: UdpSourceState,
) -> bool {
    source == UdpSourceState::Other || !allows_local_binding || !endpoint.loopback
}

/// An analysis after the datagram at `index`, and whether it goes on.
pub open spec fn classified(
    analysis: AnalysisView,
    index: int,
    endpoint: Option<EndpointView>,
    allows_local_binding: bool,
    source: UdpSourceState,
) -> (AnalysisView, bool) {
    match endpoint {
        None => (analysis, true),
        Some(endpoint) => if !send_denied(endpoint, allows_local_binding, source) {
            if analysis.denied is None && analysis.bind is None {
                (
                    AnalysisView {
                        bind: Some(address::bind_bytes(endpoint.addr, endpoint.order)),
                        ..analysis
                    },
                    true,
                )
            } else {
                (analysis, true)
            }
        } else if analysis.denied is None {
            (AnalysisView { denied: Some(endpoint.addr), bind: None, ..analysis }, true)
        } else if analysis.denied == Some(endpoint.addr) {
            (AnalysisView { bind: None, ..analysis }, true)
        } else {
            (AnalysisView { bind: None, count: index, ..analysis }, false)
        },
    }
}

impl DatagramPolicyAnalysis {
    /// Nothing looked at yet.
    pub fn new(message_count: usize) -> (analysis: Self)
        ensures
            analysis@ == (AnalysisView { denied: None, bind: None, count: message_count as int }),
            analysis.denied_target is None,
            analysis.loopback_bind_addr is None,
    {
        DatagramPolicyAnalysis {
            denied_target: None,
            loopback_bind_addr: None,
            safe_message_count: message_count,
        }
    }

    /// Looks at the next datagram. Returns whether to go on with the one after
    /// it.
    pub fn classify(
        &mut self,
        index: usize,
        endpoint: Option<IpEndpoint>,
        allows_local_binding: bool,
        source_state: UdpSourceState,
    ) -> (more: bool)
        ensures
            (final(self)@, more) == classified(
                old(self)@,
                index as int,
                endpoint_view(endpoint),
                allows_local_binding,
                source_state,
            ),
    {
        let endpoint = match endpoint {
            Some(endpoint) => endpoint,
            None => return true,
        };
        let denied = source_state == UdpSourceState::Other || !allows_local_binding
            || !endpoint.loopback;
        if !denied {
            if self.denied_target.is_none() && self.loopback_bind_addr.is_none() {
                self.loopback_bind_addr = Some(loopback_bind_addr(endpoint.addr, endpoint.order));
            }
            return true;
        }
        self.loopback_bind_addr = None;
        if let Some(denied_target) = self.denied_target {
            if !endpoint.addr.is_same(&denied_target) {
                self.safe_message_count = index;
                return false;
            }
        } else {
            self.denied_target = Some(endpoint.addr);
        }
        true
    }
}

/// Where a datagram goes: to its own address, or to the peer of the socket.
pub open spec fn endpoint_for(
    message: datagram_copy::MessageView,
    peer: Option<EndpointView>,
    domain: Domain,
) -> Result<Option<EndpointView>, BrokerError> {
    match message.addr {
        Some(addr) => match address::decoded(addr, domain) {
            Ok(found) => Ok(
                Some(
                    EndpointView {
                        addr: found,
                        port: address::port_of(found),
                        loopback: address::is_loopback(found),
                        order: domain.order,
                    },
                ),
            ),
            Err(error) => Err(error),
        },
        None => Ok(peer),
    }
}

/// The analysis of the datagrams from `at` on.
pub open spec fn analyzed(
    analysis: AnalysisView,
    messages: Seq<datagram_copy::MessageView>,
    at: nat,
    peer: Option<EndpointView>,
    domain: Domain,
    allows_local_binding: bool,
    source: UdpSourceState,
) -> Result<AnalysisView, BrokerError>
    decreases messages.len() - at,
{
    if at >= messages.len() {
        Ok(analysis)
    } else {
        match endpoint_for(messages[at as int], peer, domain) {
            Ok(endpoint) => {
                let (next, more) = classified(
                    analysis,
                    at as int,
                    endpoint,
                    allows_local_binding,
                    source,
                );
                if more {
                    analyzed(next, messages, at + 1, peer, domain, allows_local_binding, source)
                } else {
                    Ok(next)
                }
            },
            Err(error) => Err(error),
        }
    }
}

/// The analysis of all datagrams of a call.
pub open spec fn analysis_of(
    messages: Seq<datagram_copy::MessageView>,
    peer: Option<EndpointView>,
    domain: Domain,
    allows_local_binding: bool,
    source: UdpSourceState,
) -> Result<AnalysisView, BrokerError> {
    analyzed(
        AnalysisView { denied: None, bind: None, count: messages.len() as int },
        messages,
        0,
        peer,
        domain,
        allows_local_binding,
        source,
    )
}

/// Whether the process sends by itself: on anything but a restricted UDP
/// socket.
pub fn sends_unmediated(policy: &AccessPolicy, info: SocketInfo) -> (yes: bool)
    ensures
        yes == (socket::kind_of(info) != SocketKind::Udp || policy.network_access is Unrestricted),
{
    info.kind() != SocketKind::Udp || policy.network_access.is_unrestricted()
}

/// Whether any datagram goes anywhere.
pub open spec fn any_addressed(peer: Option<EndpointView>, messages: Seq<datagram_copy::MessageView>) -> bool {
    peer is Some || exists|i: int| 0 <= i < messages.len() && (#[trigger] messages[i]).addr is Some
}

/// Whether any datagram goes anywhere, so that it has to be looked up what the
/// socket sends from.
pub fn has_addressed_message(
    peer: &Option<IpEndpoint>,
    messages: &Vec<DatagramMessage>,
) -> (yes: bool)
    ensures
        yes == any_addressed(endpoint_view(*peer), datagram_copy::message_views(messages@)),
{
    if peer.is_some() {
        return true;
    }
    let ghost views = datagram_copy::message_views(messages@);
    let mut at: usize = 0;
    while at < messages.len()
        invariant
            at <= messages.len(),
            views == datagram_copy::message_views(messages@),
            forall|i: int| 0 <= i < at ==> (#[trigger] views[i]).addr is None,
        decreases messages.len() - at,
    {
        assert(views[at as int] == messages@[at as int]@);
        if messages[at].addr.is_some() {
            return true;
        }
        at += 1;
    }
    false
}

fn analyze_messages(
    messages: &Vec<DatagramMessage>,
    peer: Option<IpEndpoint>,
    domain: Domain,
    allows_local_binding: bool,
    source: UdpSourceState,
) -> (result: Result<DatagramPolicyAnalysis, BrokerError>)
    ensures
        match analysis_of(
            datagram_copy::message_views(messages@),
            endpoint_view(peer),
            domain,
            allows_local_binding,
            source,
        ) {
            Ok(found) => result matches Ok(analysis) && analysis@ == found,
            Err(error) => result == Err::<DatagramPolicyAnalysis, _>(error),
        },
{
    let ghost views = datagram_copy::message_views(messages@);
    let ghost seen = endpoint_view(peer);
    let mut analysis = DatagramPolicyAnalysis::new(messages.len());
    let mut at: usize = 0;
    while at < messages.len()
        invariant
            at <= messages.len(),
            views == datagram_copy::message_views(messages@),
            seen == endpoint_view(peer),
            analysis_of(views, seen, domain, allows_local_binding, source) == analyzed(
                analysis@,
                views,
                at as nat,
                seen,
                domain,
                allows_local_binding,
                source,
            ),
        decreases messages.len() - at,
    {
        assert(views[at as int] == messages@[at as int]@);
        let endpoint = match &messages[at].addr {
            Some(addr) => match ip_endpoint(addr.as_slice(), domain) {
                Ok(endpoint) => Some(endpoint),
                Err(error) => return Err(error),
            },
            None => peer,
        };
        assert(endpoint_for(views[at as int], seen, domain) == Ok::<_, BrokerError>(
            endpoint_view(endpoint),
        ));
        if !analysis.classify(at, endpoint, allows_local_binding, source) {
            return Ok(analysis);
        }
        at += 1;
    }
    Ok(analysis)
}

/// Whether a grant sends datagrams on a socket, bound first where `bound` says
/// so.
pub open spec fn grants_datagrams<H>(
    made: SocketGrant<H>,
    sock: H,
    call: DatagramCall,
    messages: Seq<datagram_copy::MessageView>,
    bound: Option<Seq<u8>>,
) -> bool {
    &&& made.sock == sock
    &&& made.operation matches grant::SocketOperation::Datagram {
        call: sent,
        messages: copies,
        bind_addr,
    }
    &&& sent == call
    &&& datagram_copy::message_views(copies@) == messages
    &&& grant::option_bytes(bind_addr) == bound
}

/// The datagrams that are sent on approval.
pub open spec fn approved_messages(
    call: DatagramCall,
    messages: Seq<datagram_copy::MessageView>,
    count: int,
) -> Seq<datagram_copy::MessageView> {
    if call is SendMmsg && count < messages.len() {
        messages.take(count)
    } else {
        messages
    }
}

/// Whether a step is right for a call that sends datagrams.
pub open spec fn send_decided<H>(
    policy: AccessPolicy,
    sock: H,
    domain: Domain,
    call: DatagramCall,
    messages: Seq<datagram_copy::MessageView>,
    peer: Option<EndpointView>,
    source: UdpSourceState,
    step: AddressStep<H>,
) -> bool {
    match analysis_of(
        messages,
        peer,
        domain,
        policy::binds_locally(policy.network_access),
        source,
    ) {
        Err(error) => step == AddressStep::<H>::Refuse(error),
        Ok(analysis) => match analysis.denied {
            Some(denied) => step matches AddressStep::Deny {
                operation,
                target,
                syscall,
                grant: made,
            } && operation == NetworkOperation::Connect && target@ == denied && syscall@
                == grant::call_text(call) && grants_datagrams(
                made,
                sock,
                call,
                approved_messages(call, messages, analysis.count),
                None,
            ),
            None => step matches AddressStep::Run(made) && grants_datagrams(
                made,
                sock,
                call,
                messages,
                analysis.bind,
            ),
        },
    }
}

/// What becomes of a call that sends datagrams on a restricted UDP socket,
/// given the socket's peer and what it sends from.
pub fn handle_datagram_send<H>(
    policy: &AccessPolicy,
    sock: H,
    domain: Domain,
    call: DatagramCall,
    messages: Vec<DatagramMessage>,
    peer: Option<IpEndpoint>,
    source: UdpSourceState,
) -> (step: AddressStep<H>)
    ensures
        send_decided(
            *policy,
            sock,
            domain,
            call,
            datagram_copy::message_views(messages@),
            endpoint_view(peer),
            source,
            step,
        ),
{
    let ghost views = datagram_copy::message_views(messages@);
    let analysis = match analyze_messages(
        &messages,
        peer,
        domain,
        policy.network_access.allows_local_binding(),
        source,
    ) {
        Ok(analysis) => analysis,
        Err(error) => return AddressStep::Refuse(error),
    };
    let mut messages = messages;
    if let Some(target) = analysis.denied_target {
        if let DatagramCall::SendMmsg { .. } = call {
            messages.truncate(analysis.safe_message_count);
        }
        assert(datagram_copy::message_views(messages@) =~= approved_messages(call, views, analysis@.count));
        let syscall = call.syscall();
        let grant = SocketGrant::datagram(sock, call, messages, None);
        return AddressStep::Deny { operation: NetworkOperation::Connect, target, syscall, grant };
    }
    AddressStep::Run(SocketGrant::datagram(sock, call, messages, analysis.loopback_bind_addr))
}

/// Whether a call has what it sends: one datagram, and for `sendto` one part.
pub fn datagram_ready(
    call: &DatagramCall,
    messages: &Vec<DatagramMessage>,
) -> (ready: Result<(), BrokerError>)
    ensures
        ready == (if *call is SendMmsg || (messages@.len() > 0 && (*call is SendTo ==> messages@[
            0
        ].payload@.len() > 0)) {
            Ok::<(), BrokerError>(())
        } else {
            Err(BrokerError::InvalidAddress)
        }),
{
    match call {
        DatagramCall::SendTo { .. } => if messages.len() > 0 && messages[0].payload.len() > 0 {
            Ok(())
        } else {
            Err(BrokerError::InvalidAddress)
        },
        DatagramCall::SendMsg { .. } => if messages.len() > 0 {
            Ok(())
        } else {
            Err(BrokerError::InvalidAddress)
        },
        DatagramCall::SendMmsg { .. } => Ok(()),
    }
}

/// How far a `sendmmsg` has come.
#[derive(Clone, Copy, Debug, PartialEq, Eq, Structural)]
pub struct MmsgProgress {
    pub completed: usize,
    pub total: usize,
}

/// What the whole call returns, or `None` where the next datagram is due. A
/// failure ends the call: it is returned if nothing was sent, and otherwise
/// what was sent is counted.
pub open spec fn mmsg_result(
    progress: MmsgProgress,
    failure: Option<BrokerError>,
) -> Option<Result<i64, BrokerError>> {
    match failure {
        Some(error) => if progress.completed == 0 {
            Some(Err(error))
        } else {
            Some(Ok(progress.completed as i64))
        },
        None => if progress.completed >= progress.total {
            Some(Ok(progress.completed as i64))
        } else {
            None
        },
    }
}

impl MmsgProgress {
    /// Nothing sent yet.
    pub fn new(total: usize) -> (progress: Self)
        ensures
            progress == (MmsgProgress { completed: 0, total }),
    {
        MmsgProgress { completed: 0, total }
    }

    /// What the call returns before the next datagram is sent, if it is done.
    pub fn result(&self) -> (result: Option<Result<i64, BrokerError>>)
        requires
            self.completed <= i64::MAX,
        ensures
            result == mmsg_result(*self, None),
    {
        if self.completed >= self.total {
            Some(Ok(self.completed as i64))
        } else {
            None
        }
    }

    /// Takes in what came of the next datagram, and returns what the call
    /// returns, if it is done.
    pub fn record(
        &mut self,
        outcome: Result<(), BrokerError>,
    ) -> (result: Option<Result<i64, BrokerError>>)
        requires
            old(self).completed < old(self).total <= i64::MAX,
        ensures
            outcome is Ok ==> *final(self) == (MmsgProgress {
                completed: (old(self).completed + 1) as usize,
                total: old(self).total,
            }) && result == mmsg_result(*final(self), None),
            outcome matches Err(error) ==> *final(self) == *old(self) && result == mmsg_result(
                *old(self),
                Some(error),
            ),
    {
        match outcome {
            Ok(()) => {
                self.completed += 1;
                self.result()
            },
            Err(error) => if self.completed == 0 {
                Some(Err(error))
            } else {
                Some(Ok(self.completed as i64))
            },
        }
    }
}

/// The length of a sent datagram as the process is told it.
pub fn sent_length(errors: &ErrorNumbers, length: i64) -> (told: Result<u32, BrokerError>)
    ensures
        told == (if 0 <= length <= u32::MAX {
            Ok::<u32, BrokerError>(length as u32)
        } else {
            Err(BrokerError::SystemCall { errno: errors.emsgsize })
        }),
{
    if length < 0 || length > u32::MAX as i64 {
        return Err(BrokerError::SystemCall { errno: errors.emsgsize });
    }
    Ok(length as u32)
}

/// Where the length of the datagram at `index` is written.
pub fn write_mmsg_length(
    output: &MmsgOutput,
    index: usize,
) -> (range: Result<MemoryRead, BrokerError>)
    ensures
        ({
            let place = output.base + index * registers::words(MMSGHDR_WORDS as int)
                + registers::words(MSGHDR_WORDS as int);
            range == (if place <= usize::MAX {
                Ok::<MemoryRead, BrokerError>(MemoryRead { base: place as usize, len: 4 })
            } else {
                Err(BrokerError::BadAddress)
            })
        }),
{
    let skipped = match index.checked_mul(words_len(MMSGHDR_WORDS)) {
        Some(skipped) => skipped,
        None => return Err(BrokerError::BadAddress),
    };
    let header = match output.base.checked_add(skipped) {
        Some(header) => header,
        None => return Err(BrokerError::BadAddress),
    };
    match header.checked_add(words_len(MSGHDR_WORDS)) {
        Some(base) => Ok(MemoryRead { base, len: 4 }),
        None => Err(BrokerError::BadAddress),
    }
}

/// Whether an analysis lets a datagram be sent: it goes nowhere, is allowed, or
/// goes to the denied target that approval is asked for. Without a denied
/// target the source is bound first.
pub open spec fn covered_by(
    analysis: AnalysisView,
    message: datagram_copy::MessageView,
    peer: Option<EndpointView>,
    domain: Domain,
    allows_local_binding: bool,
    source: UdpSourceState,
) -> bool {
    match endpoint_for(message, peer, domain) {
        Ok(Some(endpoint)) => {
            &&& !send_denied(endpoint, allows_local_binding, source) || analysis.denied == Some(
                endpoint.addr,
            )
            &&& analysis.denied is None ==> analysis.bind is Some
        },
        Ok(None) => true,
        Err(_) => false,
    }
}

proof fn lemma_analysis(
    start: AnalysisView,
    messages: Seq<datagram_copy::MessageView>,
    at: nat,
    peer: Option<EndpointView>,
    domain: Domain,
    allows_local_binding: bool,
    source: UdpSourceState,
)
    requires
        at <= messages.len(),
        start.count == messages.len(),
        start.denied is Some ==> start.bind is None,
        forall|i: int|
            0 <= i < at ==> covered_by(start, #[trigger] messages[i], peer, domain, allows_local_binding, source),
    ensures
        analyzed(start, messages, at, peer, domain, allows_local_binding, source) matches Ok(
            result,
        ) ==> {
            &&& 0 <= result.count <= messages.len()
            &&& result.denied is None ==> result.count == messages.len()
            &&& result.denied is Some ==> result.bind is None
            &&& forall|i: int|
                0 <= i < result.count ==> covered_by(result, #[trigger] messages[i], peer, domain, allows_local_binding, source)
        },
    decreases messages.len() - at,
{
    if at < messages.len() {
        match endpoint_for(messages[at as int], peer, domain) {
            Ok(endpoint) => {
                let (next, more) = classified(
                    start,
                    at as int,
                    endpoint,
                    allows_local_binding,
                    source,
                );
                if more {
                    lemma_analysis(
                        next,
                        messages,
                        at + 1,
                        peer,
                        domain,
                        allows_local_binding,
                        source,
                    );
                }
            },
            Err(_) => {},
        }
    }
}

/// What is sent on one approval goes to one denied target, beside what is
/// allowed anyway: the grant ends before the first datagram to another. What
/// is sent without approval is allowed, and its source is bound first.
pub proof fn law_approval_covers_one_denied_target(
    messages: Seq<datagram_copy::MessageView>,
    peer: Option<EndpointView>,
    domain: Domain,
    allows_local_binding: bool,
    source: UdpSourceState,
    result: AnalysisView,
)
    requires
        analysis_of(messages, peer, domain, allows_local_binding, source) == Ok::<_, BrokerError>(
            result,
        ),
    ensures
        0 <= result.count <= messages.len(),
        result.denied is None ==> result.count == messages.len(),
        forall|i: int|
            0 <= i < result.count ==> covered_by(result, #[trigger] messages[i], peer, domain, allows_local_binding, source),
{
    lemma_analysis(
        AnalysisView { denied: None, bind: None, count: messages.len() as int },
        messages,
        0,
        peer,
        domain,
        allows_local_binding,
        source,
    );
}

/// The first of `len` places from `at` on for which something holds, or `len`.
pub open spec fn first_place(holds: spec_fn(int) -> bool, at: int, len: int) -> int
    decreases len - at,
{
    if at >= len || holds(at) {
        at
    } else {
        first_place(holds, at + 1, len)
    }
}

proof fn lemma_first_place(holds: spec_fn(int) -> bool, at: int, len: int, first: int)
    requires
        at <= first <= len,
        forall|i: int| at <= i < first ==> !#[trigger] holds(i),
        first < len ==> holds(first),
    ensures
        first_place(holds, at, len) == first,
    decreases len - at,
{
    if at < first {
        lemma_first_place(holds, at + 1, len, first);
    }
}

/// An analysis after the datagrams from `at` on, looked at in turn until one
/// ends it.
pub open spec fn classified_all(
    analysis: AnalysisView,
    endpoints: Seq<Option<EndpointView>>,
    at: nat,
    allows_local_binding: bool,
    source: UdpSourceState,
) -> AnalysisView
    decreases endpoints.len() - at,
{
    if at >= endpoints.len() {
        analysis
    } else {
        let (next, more) = classified(
            analysis,
            at as int,
            endpoints[at as int],
            allows_local_binding,
            source,
        );
        if more {
            classified_all(next, endpoints, at + 1, allows_local_binding, source)
        } else {
            next
        }
    }
}

/// The address of a denied datagram, or `None` where it is allowed or goes
/// nowhere.
pub open spec fn denied_addr(
    endpoint: Option<EndpointView>,
    allows_local_binding: bool,
    source: UdpSourceState,
) -> Option<address::AddressView> {
    match endpoint {
        Some(endpoint) => if send_denied(endpoint, allows_local_binding, source) {
            Some(endpoint.addr)
        } else {
            None
        },
        None => None,
    }
}

/// The first denied datagram, or how many there are.
pub open spec fn first_denied(
    endpoints: Seq<Option<EndpointView>>,
    allows_local_binding: bool,
    source: UdpSourceState,
) -> int {
    first_place(
        |i: int| denied_addr(endpoints[i], allows_local_binding, source) is Some,
        0,
        endpoints.len() as int,
    )
}

/// The first denied datagram that goes elsewhere than `target`, or how many
/// there are.
pub open spec fn first_denied_beside(
    endpoints: Seq<Option<EndpointView>>,
    target: Option<address::AddressView>,
    allows_local_binding: bool,
    source: UdpSourceState,
) -> int {
    first_place(
        |i: int|
            {
                &&& denied_addr(endpoints[i], allows_local_binding, source) is Some
                &&& denied_addr(endpoints[i], allows_local_binding, source) != target
            },
        0,
        endpoints.len() as int,
    )
}

/// The first datagram that goes anywhere, or how many there are.
pub open spec fn first_addressed(endpoints: Seq<Option<EndpointView>>) -> int {
    first_place(|i: int| endpoints[i] is Some, 0, endpoints.len() as int)
}

/// Whether an analysis holds what the datagrams of a whole call come to: the
/// address of the first denied one, how many go before the first denied one to
/// another address, and, where none is denied, the source to bind for the first
/// that goes anywhere.
pub open spec fn sums_up(
    analysis: AnalysisView,
    endpoints: Seq<Option<EndpointView>>,
    allows_local_binding: bool,
    source: UdpSourceState,
) -> bool {
    let denied = first_denied(endpoints, allows_local_binding, source);
    let addressed = first_addressed(endpoints);
    &&& analysis.denied == (if denied < endpoints.len() {
        denied_addr(endpoints[denied], allows_local_binding, source)
    } else {
        None
    })
    &&& analysis.count == first_denied_beside(
        endpoints,
        analysis.denied,
        allows_local_binding,
        source,
    )
    &&& analysis.bind == (if denied == endpoints.len() && addressed < endpoints.len() {
        Some(
            address::bind_bytes(
                endpoints[addressed]->0.addr,
                endpoints[addressed]->0.order,
            ),
        )
    } else {
        None
    })
}

/// Goes on with an analysis of the datagrams before `at`, of which `denied` is
/// the first denied one and `addressed` the first that goes anywhere.
proof fn lemma_classified_all(
    start: AnalysisView,
    endpoints: Seq<Option<EndpointView>>,
    at: nat,
    denied: int,
    addressed: int,
    allows_local_binding: bool,
    source: UdpSourceState,
)
    requires
        0 <= denied <= at <= endpoints.len(),
        0 <= addressed <= at,
        start.count == endpoints.len(),
        start.denied == (if denied < at {
            denied_addr(endpoints[denied], allows_local_binding, source)
        } else {
            None
        }),
        denied < at ==> start.denied is Some,
        forall|i: int|
            0 <= i < denied ==> denied_addr(
                #[trigger] endpoints[i],
                allows_local_binding,
                source,
            ) is None,
        forall|i: int|
            0 <= i < at ==> denied_addr(#[trigger] endpoints[i], allows_local_binding, source)
                is None || denied_addr(endpoints[i], allows_local_binding, source) == start.denied,
        forall|i: int| 0 <= i < addressed ==> (#[trigger] endpoints[i]) is None,
        addressed < at ==> endpoints[addressed] is Some,
        start.bind == (if denied == at && addressed < at {
            Some(
                address::bind_bytes(
                    endpoints[addressed]->0.addr,
                    endpoints[addressed]->0.order,
                ),
            )
        } else {
            None
        }),
    ensures
        sums_up(
            classified_all(start, endpoints, at, allows_local_binding, source),
            endpoints,
            allows_local_binding,
            source,
        ),
    decreases endpoints.len() - at,
{
    let len = endpoints.len() as int;
    let is_denied = |i: int| denied_addr(endpoints[i], allows_local_binding, source) is Some;
    let is_beside = |i: int|
        {
            &&& denied_addr(endpoints[i], allows_local_binding, source) is Some
            &&& denied_addr(endpoints[i], allows_local_binding, source) != start.denied
        };
    let is_addressed = |i: int| endpoints[i] is Some;
    if at >= endpoints.len() {
        lemma_first_place(is_denied, 0, len, denied);
        lemma_first_place(is_beside, 0, len, len);
        lemma_first_place(is_addressed, 0, len, addressed);
    } else {
        let (next, more) = classified(
            start,
            at as int,
            endpoints[at as int],
            allows_local_binding,
            source,
        );
        if more {
            let here = denied_addr(endpoints[at as int], allows_local_binding, source);
            lemma_classified_all(
                next,
                endpoints,
                at + 1,
                if denied == at && here is None {
                    at as int + 1
                } else {
                    denied
                },
                if addressed == at && endpoints[at as int] is None {
                    at as int + 1
                } else {
                    addressed
                },
                allows_local_binding,
                source,
            );
        } else {
            lemma_first_place(is_denied, 0, len, denied);
            lemma_first_place(is_beside, 0, len, at as int);
        }
    }
}

/// Looking at the datagrams of a call in turn, from none on until one ends it,
/// finds the first denied target, how many go before the first datagram to
/// another denied target, and the source to bind where none is denied.
pub proof fn law_classifying_all_sums_up(
    endpoints: Seq<Option<EndpointView>>,
    allows_local_binding: bool,
    source: UdpSourceState,
)
    ensures
        sums_up(
            classified_all(
                AnalysisView { denied: None, bind: None, count: endpoints.len() as int },
                endpoints,
                0,
                allows_local_binding,
                source,
            ),
            endpoints,
            allows_local_binding,
            source,
        ),
{
    lemma_classified_all(
        AnalysisView { denied: None, bind: None, count: endpoints.len() as int },
        endpoints,
        0,
        0,
        0,
        allows_local_binding,
        source,
    );
}

/// Where the datagrams of a call go, as far as it can be told.
pub open spec fn endpoints_of(
    messages: Seq<datagram_copy::MessageView>,
    peer: Option<EndpointView>,
    domain: Domain,
) -> Seq<Option<EndpointView>> {
    messages.map_values(
        |message: datagram_copy::MessageView|
            match endpoint_for(message, peer, domain) {
                Ok(endpoint) => endpoint,
                Err(_) => None,
            },
    )
}

proof fn lemma_analyzed(
    start: AnalysisView,
    messages: Seq<datagram_copy::MessageView>,
    at: nat,
    peer: Option<EndpointView>,
    domain: Domain,
    allows_local_binding: bool,
    source: UdpSourceState,
)
    ensures
        analyzed(start, messages, at, peer, domain, allows_local_binding, source) matches Ok(
            result,
        ) ==> result == classified_all(
            start,
            endpoints_of(messages, peer, domain),
            at,
            allows_local_binding,
            source,
        ),
    decreases messages.len() - at,
{
    if at < messages.len() {
        if let Ok(endpoint) = endpoint_for(messages[at as int], peer, domain) {
            let (next, more) = classified(
                start,
                at as int,
                endpoint,
                allows_local_binding,
                source,
            );
            if more {
                lemma_analyzed(
                    next,
                    messages,
                    at + 1,
                    peer,
                    domain,
                    allows_local_binding,
                    source,
                );
            }
        }
    }
}

/// The analysis of a call names the first denied target. It counts the
/// datagrams before the first one to another denied target, or all of them. It
/// binds the source for the first datagram that goes anywhere if none is
/// denied, and otherwise binds nothing.
pub proof fn law_analysis_sums_up_the_call(
    messages: Seq<datagram_copy::MessageView>,
    peer: Option<EndpointView>,
    domain: Domain,
    allows_local_binding: bool,
    source: UdpSourceState,
    result: AnalysisView,
)
    requires
        analysis_of(messages, peer, domain, allows_local_binding, source) == Ok::<_, BrokerError>(
            result,
        ),
    ensures
        sums_up(result, endpoints_of(messages, peer, domain), allows_local_binding, source),
{
    lemma_analyzed(
        AnalysisView { denied: None, bind: None, count: messages.len() as int },
        messages,
        0,
        peer,
        domain,
        allows_local_binding,
        source,
    );
    law_classifying_all_sums_up(
        endpoints_of(messages, peer, domain),
        allows_local_binding,
        source,
    );
}

/// A datagram is denied that is sent from elsewhere than the machine, without
/// local binding, or to anywhere but the machine. It goes to its own address, or
/// else to the peer.
pub proof fn law_datagrams_stay_on_the_machine(
    message: datagram_copy::MessageView,
    peer: Option<EndpointView>,
    domain: Domain,
    endpoint: EndpointView,
    allows_local_binding: bool,
    source: UdpSourceState,
)
    ensures
        send_denied(endpoint, allows_local_binding, source) <==> source == UdpSourceState::Other
            || !allows_local_binding || !endpoint.loopback,
        message.addr is None ==> endpoint_for(message, peer, domain) == Ok::<_, BrokerError>(peer),
        message.addr is Some ==> match address::decoded(message.addr->0, domain) {
            Ok(addr) => endpoint_for(message, peer, domain) matches Ok(Some(found)) && found.addr
                == addr && found.port == address::port_of(addr) && found.loopback
                == address::is_loopback(addr) && found.order == domain.order,
            Err(error) => endpoint_for(message, peer, domain) == Err::<Option<EndpointView>, _>(
                error,
            ),
        },
{
}

/// Where no datagram of a call is denied, the broker sends them all.
pub proof fn law_allowed_datagrams_are_all_sent<H>(
    policy: AccessPolicy,
    sock: H,
    domain: Domain,
    call: DatagramCall,
    messages: Seq<datagram_copy::MessageView>,
    peer: Option<EndpointView>,
    source: UdpSourceState,
    step: AddressStep<H>,
)
    requires
        send_decided(policy, sock, domain, call, messages, peer, source, step),
        policy.network_access is Restricted,
        policy.network_access->bind == policy::IpBindAccess::Localhost,
        source != UdpSourceState::Other,
        forall|i: int|
            0 <= i < messages.len() ==> (endpoint_for(
                #[trigger] messages[i],
                peer,
                domain,
            ) matches Ok(found) && (found matches Some(endpoint) ==> endpoint.loopback)),
    ensures
        step matches AddressStep::Run(made) && made.sock == sock && made.operation is Datagram
            && made.operation->Datagram_call == call && datagram_copy::message_views(
            made.operation->messages@,
        ) == messages,
{
    let allows = policy::binds_locally(policy.network_access);
    let endpoints = endpoints_of(messages, peer, domain);
    let len = messages.len() as int;
    lemma_analysis_is_ok(
        AnalysisView { denied: None, bind: None, count: len },
        messages,
        0,
        peer,
        domain,
        allows,
        source,
    );
    let result = analysis_of(messages, peer, domain, allows, source)->Ok_0;
    law_analysis_sums_up_the_call(messages, peer, domain, allows, source, result);
    let is_denied = |i: int| denied_addr(endpoints[i], allows, source) is Some;
    assert forall|i: int| 0 <= i < len implies !#[trigger] is_denied(i) by {
        assert(endpoint_for(messages[i], peer, domain) is Ok);
    }
    lemma_first_place(is_denied, 0, len, len);
}

/// Where a datagram of a call is denied, the launcher is asked about where the
/// first such goes, and on approval what is sent ends before the first denied
/// one that goes elsewhere, as far as the call can be cut short.
pub proof fn law_sends_follow_the_first_denied_target<H>(
    policy: AccessPolicy,
    sock: H,
    domain: Domain,
    call: DatagramCall,
    messages: Seq<datagram_copy::MessageView>,
    peer: Option<EndpointView>,
    source: UdpSourceState,
    step: AddressStep<H>,
    at: int,
    end: int,
    first: EndpointView,
    local: bool,
)
    requires
        send_decided(policy, sock, domain, call, messages, peer, source, step),
        local == (policy.network_access is Restricted && policy.network_access->bind
            == policy::IpBindAccess::Localhost),
        0 <= at < end <= messages.len(),
        forall|i: int|
            0 <= i < messages.len() ==> endpoint_for(#[trigger] messages[i], peer, domain) is Ok,
        endpoint_for(messages[at], peer, domain) == Ok::<_, BrokerError>(Some(first)),
        source == UdpSourceState::Other || !local || !first.loopback,
        forall|i: int|
            0 <= i < at ==> (endpoint_for(#[trigger] messages[i], peer, domain) matches Ok(
                Some(endpoint),
            ) ==> source != UdpSourceState::Other && local && endpoint.loopback),
        forall|i: int|
            at <= i < end ==> (endpoint_for(#[trigger] messages[i], peer, domain) matches Ok(
                Some(endpoint),
            ) ==> (source != UdpSourceState::Other && local && endpoint.loopback) || endpoint.addr
                == first.addr),
        end < messages.len() ==> (endpoint_for(messages[end], peer, domain) matches Ok(
            Some(endpoint),
        ) && (source == UdpSourceState::Other || !local || !endpoint.loopback) && endpoint.addr
            != first.addr),
    ensures
        step matches AddressStep::Deny { operation, target, grant: made, .. } && operation
            == NetworkOperation::Connect && target@ == first.addr && made.sock == sock
            && made.operation is Datagram && made.operation->Datagram_call == call
            && made.operation->Datagram_bind_addr is None && datagram_copy::message_views(
            made.operation->messages@,
        ) == (if call is SendMmsg {
            messages.take(end)
        } else {
            messages
        }),
{
    let allows = policy::binds_locally(policy.network_access);
    assert(allows == local);
    let endpoints = endpoints_of(messages, peer, domain);
    let len = messages.len() as int;
    lemma_analysis_is_ok(
        AnalysisView { denied: None, bind: None, count: len },
        messages,
        0,
        peer,
        domain,
        allows,
        source,
    );
    let result = analysis_of(messages, peer, domain, allows, source)->Ok_0;
    law_analysis_sums_up_the_call(messages, peer, domain, allows, source, result);
    let is_denied = |i: int| denied_addr(endpoints[i], allows, source) is Some;
    assert forall|i: int| 0 <= i < at implies !#[trigger] is_denied(i) by {
        assert(endpoint_for(messages[i], peer, domain) is Ok);
    }
    assert(is_denied(at));
    lemma_first_place(is_denied, 0, len, at);
    assert(result.denied == Some(first.addr));
    let is_beside = |i: int|
        {
            &&& denied_addr(endpoints[i], allows, source) is Some
            &&& denied_addr(endpoints[i], allows, source) != result.denied
        };
    assert forall|i: int| 0 <= i < end implies !#[trigger] is_beside(i) by {
        assert(endpoint_for(messages[i], peer, domain) is Ok);
        if i < at {
            assert(!is_denied(i));
        }
    }
    if end < len {
        assert(is_beside(end));
    }
    lemma_first_place(is_beside, 0, len, end);
    assert(result.count == end);
    assert(end == len ==> messages.take(end) =~= messages);
}

proof fn lemma_analysis_is_ok(
    start: AnalysisView,
    messages: Seq<datagram_copy::MessageView>,
    at: nat,
    peer: Option<EndpointView>,
    domain: Domain,
    allows_local_binding: bool,
    source: UdpSourceState,
)
    requires
        forall|i: int| 0 <= i < messages.len() ==> endpoint_for(#[trigger] messages[i], peer, domain) is Ok,
    ensures
        analyzed(start, messages, at, peer, domain, allows_local_binding, source) is Ok,
    decreases messages.len() - at,
{
    if at < messages.len() {
        let endpoint = endpoint_for(messages[at as int], peer, domain)->Ok_0;
        let (next, more) = classified(start, at as int, endpoint, allows_local_binding, source);
        if more {
            lemma_analysis_is_ok(
                next,
                messages,
                at + 1,
                peer,
                domain,
                allows_local_binding,
                source,
            );
        }
    }
}

/// A call that sends many datagrams counts those that were sent. A failure is
/// told only where nothing was sent before it.
pub proof fn law_sent_datagrams_are_counted(progress: MmsgProgress, error: BrokerError)
    requires
        progress.completed <= i64::MAX,
    ensures
        progress.completed > 0 ==> mmsg_result(progress, Some(error)) == Some(
            Ok::<i64, BrokerError>(progress.completed as i64),
        ),
        progress.completed == 0 ==> mmsg_result(progress, Some(error)) == Some(
            Err::<i64, BrokerError>(error),
        ),
        progress.completed == progress.total ==> mmsg_result(progress, None) == Some(
            Ok::<i64, BrokerError>(progress.total as i64),
        ),
        progress.completed < progress.total ==> mmsg_result(progress, None) is None,
{
}

/// A call goes somewhere where the socket has a peer or one of its datagrams an
/// address.
pub proof fn law_calls_go_where_their_datagrams_go(
    peer: Option<EndpointView>,
    messages: Seq<datagram_copy::MessageView>,
    at: int,
)
    ensures
        peer is Some ==> any_addressed(peer, messages),
        0 <= at < messages.len() && messages[at].addr is Some ==> any_addressed(peer, messages),
        peer is None && (forall|i: int|
            0 <= i < messages.len() ==> (#[trigger] messages[i]).addr is None) ==> !any_addressed(
            peer,
            messages,
        ),
{
}

} // verus!
