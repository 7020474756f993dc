//! How a tool is run on Linux, and whether it can be.

use crate::error::{Cause, Error};
use crate::policy;
use crate::policy::AccessPolicy;
use vstd::prelude::*;

verus! {

/// How a tool is run.
#[derive(Clone, Copy, Debug, PartialEq, Eq, Structural)]
pub enum ExecuteMode {
    /// A broker answers its calls.
    Broker { network_restricted: bool, needs_filesystem: bool },
    /// It runs in place of this process, behind a filter where the network is
    /// restricted.
    Direct { network_restricted: bool },
}

/// How a tool is run. A broker is needed for what neither a filter nor the
/// access policy can decide, as where a denied root lies within a read root and
/// holds another, for telling what was denied, and where Unix sockets are left
/// open: then it keeps the sockets of service managers closed.
pub open spec fn mode_of(
    policy: AccessPolicy,
    filesystem_needs_broker: bool,
    has_trap_fd: bool,
) -> ExecuteMode {
    let access = policy.network_access;
    let restricted = access is Restricted;
    let files = filesystem_needs_broker || has_trap_fd || policy.read_reopened_roots@.len() > 0;
    if files || policy::binds_locally(access) || policy::ports_of(access).len() > 0 || restricted
        && !(policy::sockets_of(access) is Unrestricted) || policy::sockets_of(
        access,
    ) is Unrestricted {
        ExecuteMode::Broker { network_restricted: restricted, needs_filesystem: files }
    } else {
        ExecuteMode::Direct { network_restricted: restricted }
    }
}

/// How a tool is run.
pub fn execute(
    policy: &AccessPolicy,
    filesystem_needs_broker: bool,
    has_trap_fd: bool,
) -> (mode: ExecuteMode)
    ensures
        mode == mode_of(*policy, filesystem_needs_broker, has_trap_fd),
{
    let needs_filesystem = filesystem_needs_broker || has_trap_fd
        || policy.read_reopened_roots.len() > 0;
    let network_restricted = !policy.network_access.is_unrestricted();
    if policy.network_access.needs_network_broker() || needs_filesystem
        || policy.network_access.leaves_unix_sockets_open() {
        return ExecuteMode::Broker { network_restricted, needs_filesystem };
    }
    ExecuteMode::Direct { network_restricted }
}

/// What keeps a tool from being run.
#[derive(Debug)]
pub enum DoctorFailure {
    /// The kernel cannot restrict what is executed.
    ExecuteAccess(Cause),
    /// A rule set cannot be made.
    Ruleset(Cause),
    /// Calls cannot be stopped.
    Notification(Error),
}

/// Whether a tool can be run, given what came of each trial, each made only
/// after those before it succeeded.
pub fn doctor(
    execute_access: Result<(), Cause>,
    ruleset: Result<(), Cause>,
    notification: Result<(), Error>,
) -> (result: Result<(), DoctorFailure>)
    ensures
        result == (match execute_access {
            Err(source) => Err::<(), _>(DoctorFailure::ExecuteAccess(source)),
            Ok(_) => match ruleset {
                Err(source) => Err(DoctorFailure::Ruleset(source)),
                Ok(_) => match notification {
                    Err(error) => Err(DoctorFailure::Notification(error)),
                    Ok(_) => Ok(()),
                },
            },
        }),
{
    if let Err(source) = execute_access {
        return Err(DoctorFailure::ExecuteAccess(source));
    }
    if let Err(source) = ruleset {
        return Err(DoctorFailure::Ruleset(source));
    }
    if let Err(error) = notification {
        return Err(DoctorFailure::Notification(error));
    }
    Ok(())
}

/// What a doctor says of a failure, before its cause.
pub open spec fn doctor_text(failure: DoctorFailure) -> Option<Seq<char>> {
    match failure {
        DoctorFailure::ExecuteAccess(_) => Some("Landlock execute access is unavailable"@),
        DoctorFailure::Ruleset(_) => Some("create a Landlock ruleset"@),
        DoctorFailure::Notification(_) => None,
    }
}

impl DoctorFailure {
    /// What is said of the failure, before its cause.
    pub fn context(&self) -> (context: Option<&'static str>)
        ensures
            context is Some <==> doctor_text(*self) is Some,
            context matches Some(said) ==> said@ == doctor_text(*self)->0,
    {
        match self {
            DoctorFailure::ExecuteAccess(_) => Some("Landlock execute access is unavailable"),
            DoctorFailure::Ruleset(_) => Some("create a Landlock ruleset"),
            DoctorFailure::Notification(_) => None,
        }
    }
}

/// Every tool runs under a broker: where Unix sockets are restricted it decides
/// on them, and where they are left open it keeps those of service managers
/// closed.
pub proof fn law_every_tool_runs_under_a_broker(
    policy: AccessPolicy,
    filesystem_needs_broker: bool,
    has_trap_fd: bool,
)
    ensures
        mode_of(policy, filesystem_needs_broker, has_trap_fd) == (ExecuteMode::Broker {
            network_restricted: policy.network_access is Restricted,
            needs_filesystem: filesystem_needs_broker || has_trap_fd
                || policy.read_reopened_roots@.len() > 0,
        }),
{
}

} // verus!
