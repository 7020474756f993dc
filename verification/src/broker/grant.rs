//! What the broker does in place of a stopped call: descriptors it holds and
//! copies of everything the call was given.
//!
//! `H` is an owned descriptor.

use crate::broker::address::BrokerError;
use crate::trap::Trap;
use vstd::prelude::*;

verus! {

/// A call on a socket that takes an address.
#[derive(Clone, Copy, Debug, PartialEq, Eq, Structural)]
pub enum SocketCall {
    Bind,
    Connect,
}

/// An operation on a duplicate of a process's socket, with its own copy of
/// everything it takes.
pub struct SocketGrant<H> {
    pub sock: H,
    pub operation: SocketOperation,
}

/// What is done with the socket.
#[allow(inconsistent_fields)]
pub enum SocketOperation {
    Address { addr: Vec<u8>, call: SocketCall, bind_addr: Option<Vec<u8>> },
    Datagram {
        call: DatagramCall,
        messages: Vec<DatagramMessage>,
        bind_addr: Option<Vec<u8>>,
    },
}

/// One datagram.
#[derive(Debug)]
pub struct DatagramMessage {
    pub addr: Option<Vec<u8>>,
    pub payload: Vec<Vec<u8>>,
    pub control: Vec<u8>,
}

/// The call that sends datagrams.
#[derive(Clone, Copy, Debug, PartialEq, Eq, Structural)]
pub enum DatagramCall {
    SendTo { flags: i32 },
    SendMsg { flags: i32 },
    SendMmsg { flags: i32, output: MmsgOutput },
}

/// Where the process is told how much of each datagram was sent.
#[derive(Clone, Copy, Debug, PartialEq, Eq, Structural)]
pub struct MmsgOutput {
    pub pid: i32,
    pub base: usize,
}

/// The name of the call that sends datagrams.
pub open spec fn call_text(call: DatagramCall) -> Seq<char> {
    match call {
        DatagramCall::SendTo { .. } => "sendto"@,
        DatagramCall::SendMsg { .. } => "sendmsg"@,
        DatagramCall::SendMmsg { .. } => "sendmmsg"@,
    }
}

impl DatagramCall {
    /// The name of the call.
    pub fn syscall(&self) -> (name: &'static str)
        ensures
            name@ == call_text(*self),
    {
        match self {
            DatagramCall::SendTo { .. } => "sendto",
            DatagramCall::SendMsg { .. } => "sendmsg",
            DatagramCall::SendMmsg { .. } => "sendmmsg",
        }
    }
}

/// A name in a directory that is held open.
#[derive(Debug)]
pub struct Anchor<H> {
    pub dir: H,
    pub name: Vec<u8>,
}

/// An open that the broker performs.
#[derive(Debug)]
pub struct OpenGrant<H> {
    pub flags: i32,
    pub kind: OpenKind<H>,
}

/// What is opened.
#[derive(Debug)]
pub enum OpenKind<H> {
    /// The file was there: this very file is opened again.
    Reopen(H),
    /// The file was not there: it is created in the directory held open.
    Create { anchor: Anchor<H>, mode: u32 },
}

/// Two times of a file.
#[derive(Clone, Copy, Debug, PartialEq, Eq, Structural)]
pub struct FileTimes {
    pub access_seconds: i64,
    pub access_nanoseconds: i64,
    pub change_seconds: i64,
    pub change_nanoseconds: i64,
}

/// A change to the filesystem that the broker performs.
#[derive(Debug)]
pub struct MutationGrant<H> {
    pub op: MutationOp<H>,
    /// One for each path of the call, in its order.
    pub anchors: Vec<Anchor<H>>,
    /// Whether the call is about a link itself, not what it leads to.
    pub no_follow: bool,
}

/// What is changed.
#[allow(inconsistent_fields)]
#[derive(Debug)]
pub enum MutationOp<H> {
    Mkdir { mode: u32 },
    Mknod { mode: u32, dev: u64 },
    Unlink { flags: i32 },
    Symlink { target: Vec<u8> },
    Truncate { length: i64 },
    Rename { flags: u32 },
    Link { flags: i32 },
    Chmod { mode: u32 },
    Chown { uid: u32, gid: u32 },
    Utimes { times: Option<FileTimes> },
    UtimesFd { target: H, times: Option<FileTimes> },
    SetXattr { name: Vec<u8>, value: Vec<u8>, flags: i32 },
    RemoveXattr { name: Vec<u8> },
}

/// Any operation that the broker performs.
pub enum Grant<H> {
    Open(OpenGrant<H>),
    Mutation(MutationGrant<H>),
    Socket(SocketGrant<H>),
}

/// A question to the launcher, and what is done on approval.
pub struct QueryDecision<H> {
    pub query_id: u64,
    pub trap: Trap,
    pub grant: Option<Grant<H>>,
}

/// What becomes of a stopped call that is not refused.
pub enum NotificationResult<H> {
    Socket(SocketGrant<H>),
    Continue,
    Query(QueryDecision<H>),
    Open(OpenGrant<H>),
    Mutation(MutationGrant<H>),
}

/// The bytes of an optional address.
pub open spec fn option_bytes(value: Option<Vec<u8>>) -> Option<Seq<u8>> {
    match value {
        Some(value) => Some(value@),
        None => None,
    }
}

/// Whether a grant makes a call with an address on a socket, bound first where
/// `bound` says so.
pub open spec fn grants_address<H>(
    grant: SocketGrant<H>,
    sock: H,
    addr: Seq<u8>,
    call: SocketCall,
    bound: Option<Seq<u8>>,
) -> bool {
    &&& grant.sock == sock
    &&& grant.operation matches SocketOperation::Address { addr: copy, call: made, bind_addr }
    &&& copy@ == addr
    &&& made == call
    &&& option_bytes(bind_addr) == bound
}

impl<H> SocketGrant<H> {
    /// A call with an address.
    pub fn address(
        sock: H,
        addr: Vec<u8>,
        call: SocketCall,
        bind_addr: Option<Vec<u8>>,
    ) -> (grant: Self)
        ensures
            grants_address(grant, sock, addr@, call, option_bytes(bind_addr)),
    {
        SocketGrant { sock, operation: SocketOperation::Address { addr, call, bind_addr } }
    }

    /// The sending of datagrams.
    pub fn datagram(
        sock: H,
        call: DatagramCall,
        messages: Vec<DatagramMessage>,
        bind_addr: Option<Vec<u8>>,
    ) -> (grant: Self)
        ensures
            grant.sock == sock,
            grant.operation == (SocketOperation::Datagram { call, messages, bind_addr }),
    {
        SocketGrant { sock, operation: SocketOperation::Datagram { call, messages, bind_addr } }
    }
}

impl<H> NotificationResult<H> {
    /// A question to the launcher.
    pub fn query(query_id: u64, trap: Trap, grant: Option<Grant<H>>) -> (result: Self)
        ensures
            result == NotificationResult::Query(QueryDecision { query_id, trap, grant }),
    {
        NotificationResult::Query(QueryDecision { query_id, trap, grant })
    }
}

/// What a handler decides: what becomes of the call, or why it is refused.
pub type Handled<H> = Result<NotificationResult<H>, BrokerError>;

/// Each call that sends is told by the name that the kernel has for it.
pub proof fn law_sends_are_told_by_their_names(call: DatagramCall)
    ensures
        call is SendTo ==> call_text(call) == "sendto"@,
        call is SendMsg ==> call_text(call) == "sendmsg"@,
        call is SendMmsg ==> call_text(call) == "sendmmsg"@,
{
}

} // verus!
