//! The answer to a stopped call: who decides on it, and what the kernel is
//! told.

use crate::broker::address;
use crate::broker::address::BrokerError;
use crate::broker::grant::{Grant, Handled, MutationGrant, NotificationResult, OpenGrant};
use crate::broker::grant::SocketGrant;
use crate::broker::machine::ErrorNumbers;
use crate::broker::syscalls;
use crate::broker::syscalls::NotificationSyscalls;
use crate::sys;
use crate::trap::Trap;
use vstd::prelude::*;

verus! {

/// Tells the kernel to let the process make the call.
pub const USER_NOTIF_FLAG_CONTINUE: u32 = 1;

/// What the kernel is told of a stopped call.
#[derive(Clone, Copy, Debug, PartialEq, Eq, Structural)]
pub struct Response {
    pub id: u64,
    pub val: i64,
    pub error: i32,
    pub flags: u32,
}

/// The call returned a value.
pub open spec fn value_response(id: u64, val: i64) -> Response {
    Response { id, val, error: 0, flags: 0 }
}

/// The process makes the call.
pub open spec fn continue_response(id: u64) -> Response {
    Response { id, val: 0, error: 0, flags: USER_NOTIF_FLAG_CONTINUE }
}

/// The call failed with an error number.
pub open spec fn error_response(id: u64, errno: i32) -> Response {
    Response {
        id,
        val: 0,
        error: if errno > 0 {
            (-errno) as i32
        } else {
            errno
        },
        flags: 0,
    }
}

/// The call returned `value`.
pub fn notification_value(id: u64, value: i64) -> (response: Response)
    ensures
        response == value_response(id, value),
{
    Response { id, val: value, error: 0, flags: 0 }
}

/// The process makes the call.
pub fn notification_continue(id: u64) -> (response: Response)
    ensures
        response == continue_response(id),
{
    Response { id, val: 0, error: 0, flags: USER_NOTIF_FLAG_CONTINUE }
}

/// The call failed with `errno`, which the kernel takes as a negative number.
pub fn notification_error(id: u64, errno: i32) -> (response: Response)
    ensures
        response == error_response(id, errno),
{
    let error: i32 = if errno > 0 {
        -errno
    } else {
        errno
    };
    Response { id, val: 0, error, flags: 0 }
}

/// Who decides on a stopped call.
#[derive(Clone, Copy, Debug, PartialEq, Eq, Structural)]
pub enum Route {
    Bind,
    Connect,
    DatagramSend,
    Open,
    Mutation,
    /// It is refused without asking.
    Refuse,
    /// The process makes it.
    Continue,
}

/// Who decides on a call with a number. Calls that reach files by handles get
/// past every path, so they are refused.
pub open spec fn route_of(
    calls: NotificationSyscalls,
    notify_filesystem: bool,
    syscall: i64,
) -> Route {
    if syscall == calls.bind {
        Route::Bind
    } else if syscall == calls.connect {
        Route::Connect
    } else if syscalls::sends(calls, syscall) {
        Route::DatagramSend
    } else if !notify_filesystem {
        Route::Continue
    } else if syscalls::opens(calls, syscall) {
        Route::Open
    } else if syscalls::takes_handles(calls, syscall) {
        Route::Refuse
    } else {
        Route::Mutation
    }
}

/// Who decides on a stopped call.
pub fn route_notification(
    calls: &NotificationSyscalls,
    notify_filesystem: bool,
    syscall: i64,
) -> (route: Route)
    ensures
        route == route_of(*calls, notify_filesystem, syscall),
{
    if syscall == calls.bind {
        Route::Bind
    } else if syscall == calls.connect {
        Route::Connect
    } else if calls.is_datagram_send(syscall) {
        Route::DatagramSend
    } else if notify_filesystem && calls.is_open(syscall) {
        Route::Open
    } else if notify_filesystem && calls.is_handle_syscall(syscall) {
        Route::Refuse
    } else if notify_filesystem {
        Route::Mutation
    } else {
        Route::Continue
    }
}

/// What is decided about a call by the route it takes alone: one that is refused
/// is denied, and one that nobody decides on is made by the process.
pub open spec fn route_decision<H>(route: Route) -> Option<Handled<H>> {
    match route {
        Route::Refuse => Some(Err(BrokerError::PolicyDenied)),
        Route::Continue => Some(Ok(NotificationResult::Continue)),
        _ => None,
    }
}

/// What is decided about a call by the route it takes alone, if anything is.
pub fn decide_route<H>(route: Route) -> (decision: Option<Handled<H>>)
    ensures
        decision == route_decision::<H>(route),
{
    match route {
        Route::Refuse => Some(Err(BrokerError::PolicyDenied)),
        Route::Continue => Some(Ok(NotificationResult::Continue)),
        _ => None,
    }
}

/// What the broker does about a stopped call.
pub enum HandleResult<H> {
    /// Tell the kernel.
    Respond(Response),
    /// Open the file and hand the descriptor over.
    AddFd(OpenGrant<H>),
    /// Change the filesystem, and tell the kernel what came of it.
    RunMutation(MutationGrant<H>),
    /// Use the socket, and tell the kernel what came of it.
    RunSocket(SocketGrant<H>),
    /// Ask the launcher, and wait for the answer.
    Pending { query_id: u64, trap: Trap, grant: Option<Grant<H>> },
}

/// What the broker does about a call that was decided on.
pub open spec fn handled<H>(errors: ErrorNumbers, id: u64, decision: Handled<H>) -> HandleResult<H> {
    match decision {
        Ok(NotificationResult::Socket(grant)) => HandleResult::RunSocket(grant),
        Ok(NotificationResult::Continue) => HandleResult::Respond(continue_response(id)),
        Ok(NotificationResult::Open(grant)) => HandleResult::AddFd(grant),
        Ok(NotificationResult::Mutation(grant)) => HandleResult::RunMutation(grant),
        Ok(NotificationResult::Query(query)) => HandleResult::Pending {
            query_id: query.query_id,
            trap: query.trap,
            grant: query.grant,
        },
        Err(error) => HandleResult::Respond(error_response(id, address::errno_of(errors, error))),
    }
}

/// What the broker does about a call that was decided on.
pub fn handle_notification<H>(
    errors: &ErrorNumbers,
    id: u64,
    decision: Handled<H>,
) -> (result: HandleResult<H>)
    ensures
        result == handled(*errors, id, decision),
{
    match decision {
        Ok(NotificationResult::Socket(grant)) => HandleResult::RunSocket(grant),
        Ok(NotificationResult::Continue) => HandleResult::Respond(notification_continue(id)),
        Ok(NotificationResult::Open(grant)) => HandleResult::AddFd(grant),
        Ok(NotificationResult::Mutation(grant)) => HandleResult::RunMutation(grant),
        Ok(NotificationResult::Query(query)) => HandleResult::Pending {
            query_id: query.query_id,
            trap: query.trap,
            grant: query.grant,
        },
        Err(error) => HandleResult::Respond(notification_error(id, error.errno(errors))),
    }
}

/// What the kernel is told of a call that the broker made.
pub fn brokered_response(
    errors: &ErrorNumbers,
    id: u64,
    outcome: Result<i64, BrokerError>,
) -> (response: Response)
    ensures
        response == (match outcome {
            Ok(value) => value_response(id, value),
            Err(error) => error_response(id, address::errno_of(*errors, error)),
        }),
{
    match outcome {
        Ok(value) => notification_value(id, value),
        Err(error) => notification_error(id, error.errno(errors)),
    }
}

/// A mount namespace.
#[derive(Clone, Copy, Debug, PartialEq, Eq, Structural)]
pub struct NamespaceId {
    pub device: u64,
    pub inode: u64,
}

impl NamespaceId {
    /// Whether a process is in this namespace, given the one it is in or the
    /// error number with which that could not be told. In another namespace its
    /// paths mean other files.
    pub fn verify(self, actual: Result<NamespaceId, Option<i32>>) -> (result: Result<
        (),
        BrokerError,
    >)
        ensures
            result == (match actual {
                Ok(found) => if found == self {
                    Ok::<(), BrokerError>(())
                } else {
                    Err(BrokerError::PolicyDenied)
                },
                Err(Some(errno)) => Err(BrokerError::SystemCall { errno }),
                Err(None) => Err(BrokerError::SystemCall { errno: sys::EIO }),
            }),
    {
        match actual {
            Ok(found) => if found.device == self.device && found.inode == self.inode {
                Ok(())
            } else {
                Err(BrokerError::PolicyDenied)
            },
            Err(Some(errno)) => Err(BrokerError::SystemCall { errno }),
            Err(None) => Err(BrokerError::SystemCall { errno: sys::EIO }),
        }
    }
}

/// Under a mediated filesystem no call that could reach a file is left to the
/// process without a decision, and none that goes by handles is decided
/// otherwise than by refusal.
pub proof fn law_mediated_files_are_always_decided_on(calls: NotificationSyscalls, syscall: i64)
    ensures
        route_of(calls, true, syscall) != Route::Continue,
        syscalls::takes_handles(calls, syscall) && syscall != calls.bind && syscall
            != calls.connect && !syscalls::sends(calls, syscall) && !syscalls::opens(
            calls,
            syscall,
        ) ==> route_of(calls, true, syscall) == Route::Refuse,
{
}

/// A refused call is never told to have succeeded or to go on.
pub proof fn law_refusal_reaches_the_kernel<H>(
    errors: ErrorNumbers,
    id: u64,
    error: BrokerError,
)
    requires
        address::errno_of(errors, error) != 0,
    ensures
        handled::<H>(errors, id, Err(error)) matches HandleResult::Respond(response) && response.id == id
            && response.error < 0 && response.flags == 0,
{
}

/// Each call goes to whoever decides on it: binds, connects and sends always,
/// and where files are mediated, opens by path are decided on, handles refused,
/// and everything else looked at as a change. Where they are not, the process
/// makes the rest itself.
pub proof fn law_each_call_goes_to_its_decision(
    calls: NotificationSyscalls,
    mediated: bool,
    syscall: i64,
)
    ensures
        route_of(calls, mediated, calls.bind) == Route::Bind,
        calls.connect != calls.bind ==> route_of(calls, mediated, calls.connect) == Route::Connect,
        syscall != calls.bind && syscall != calls.connect && (syscall == calls.sendto || syscall
            == calls.sendmsg || syscall == calls.sendmmsg) ==> route_of(calls, mediated, syscall)
            == Route::DatagramSend,
        syscall != calls.bind && syscall != calls.connect && syscall != calls.sendto && syscall
            != calls.sendmsg && syscall != calls.sendmmsg ==> ({
            &&& !mediated ==> route_of(calls, mediated, syscall) == Route::Continue
            &&& mediated && (syscall == calls.openat || syscall == calls.openat2 || calls.open
                == Some(syscall)) ==> route_of(calls, mediated, syscall) == Route::Open
            &&& mediated && syscall != calls.openat && syscall != calls.openat2 && calls.open
                != Some(syscall) && (syscall == calls.name_to_handle_at || syscall
                == calls.open_by_handle_at) ==> route_of(calls, mediated, syscall) == Route::Refuse
            &&& mediated && syscall != calls.openat && syscall != calls.openat2 && calls.open
                != Some(syscall) && syscall != calls.name_to_handle_at && syscall
                != calls.open_by_handle_at ==> route_of(calls, mediated, syscall)
                == Route::Mutation
        }),
{
}

/// The kernel is told a value, a failure as a negative number, or to let the
/// process go on. What is decided is done, and nothing else.
pub proof fn law_the_kernel_is_told_what_was_decided<H>(
    errors: ErrorNumbers,
    id: u64,
    value: i64,
    errno: i32,
    decision: Handled<H>,
)
    ensures
        value_response(id, value) == (Response { id, val: value, error: 0, flags: 0 }),
        errno > 0 ==> error_response(id, errno) == (Response {
            id,
            val: 0,
            error: (-errno) as i32,
            flags: 0,
        }),
        errno <= 0 ==> error_response(id, errno) == (Response { id, val: 0, error: errno, flags: 0 }),
        continue_response(id) == (Response { id, val: 0, error: 0, flags: 1 }),
        decision matches Ok(NotificationResult::Continue) ==> handled(errors, id, decision)
            == HandleResult::<H>::Respond(Response { id, val: 0, error: 0, flags: 1 }),
        decision matches Ok(NotificationResult::Open(grant)) ==> handled(errors, id, decision)
            == HandleResult::AddFd(grant),
        decision matches Ok(NotificationResult::Mutation(grant)) ==> handled(errors, id, decision)
            == HandleResult::RunMutation(grant),
        decision matches Ok(NotificationResult::Socket(grant)) ==> handled(errors, id, decision)
            == HandleResult::RunSocket(grant),
        decision matches Ok(NotificationResult::Query(query)) ==> handled(errors, id, decision) == (
        HandleResult::Pending { query_id: query.query_id, trap: query.trap, grant: query.grant }),
        decision matches Err(BrokerError::PolicyDenied) ==> handled(errors, id, decision)
            == HandleResult::<H>::Respond(Response { id, val: 0, error: -13i32, flags: 0 }),
{
}

} // verus!
