//! The errors of this library, each with a stable code, and what is said of
//! them to people and to programs.

use crate::errnos;
use crate::errnos::System;
use crate::sys;
use crate::text;
use vstd::prelude::*;

verus! {

/// The errno a denied access surfaces inside the sandboxed child.
pub const DENIAL_ERRNO: i32 = sys::EACCES;

/// The layer of the operating system that enforces a policy.
#[derive(Clone, Copy, Debug, PartialEq, Eq, Hash, Structural)]
pub enum Mechanism {
    Landlock,
    Seccomp,
    Seatbelt,
    Appcontainer,
    Windowsuser,
}

/// The name of a mechanism in records.
pub open spec fn mechanism_text(mechanism: Mechanism) -> Seq<char> {
    match mechanism {
        Mechanism::Landlock => "landlock"@,
        Mechanism::Seccomp => "seccomp"@,
        Mechanism::Seatbelt => "seatbelt"@,
        Mechanism::Appcontainer => "appcontainer"@,
        Mechanism::Windowsuser => "windowsuser"@,
    }
}

impl Mechanism {
    /// The name of the mechanism in records.
    pub fn name(self) -> (name: &'static str)
        ensures
            name@ == mechanism_text(self),
    {
        match self {
            Mechanism::Landlock => "landlock",
            Mechanism::Seccomp => "seccomp",
            Mechanism::Seatbelt => "seatbelt",
            Mechanism::Appcontainer => "appcontainer",
            Mechanism::Windowsuser => "windowsuser",
        }
    }
}

/// What went wrong underneath an error.
#[derive(Debug)]
pub struct Cause {
    /// The error number, where the cause is an operating system error that has
    /// one. A Win32 status is none: it shares the numbers, not their meaning.
    pub errno: Option<i32>,
    /// What the cause says of itself.
    pub message: String,
    /// What each cause below it says, from the nearest down.
    pub below: Vec<String>,
}

/// The text of each cause, from the nearest down.
pub open spec fn cause_texts(cause: Cause) -> Seq<Seq<char>> {
    seq![cause.message@] + string_texts(cause.below@)
}

/// The text of each string.
pub open spec fn string_texts(list: Seq<String>) -> Seq<Seq<char>> {
    list.map_values(|item: String| item@)
}

/// An error, named after the stage that failed. The same stage of every
/// platform raises the same error.
#[derive(Debug)]
pub enum Error {
    /// A filesystem access the policy denies.
    FilesystemDenied,
    /// A network access the policy denies.
    NetworkDenied,
    /// Command line arguments that cannot be acted on.
    Usage { message: String },
    /// A policy document that is not well-formed.
    PolicyParseFailed { source: Cause },
    /// The filesystem refused a read that resolving the policy needs.
    PolicyIoFailed { source: Cause },
    /// A policy that leaves reads unrestricted, where no sandbox can.
    PolicyUnrestrictedRead,
    /// A policy that allows local binding, where no sandbox can.
    PolicyTcpBindUnsupported,
    /// A policy that allows Unix sockets, where no sandbox can.
    PolicyUnixSocketUnsupported,
    /// An allowed Unix socket path that is no socket.
    PolicyUnixSocketPath,
    /// A link on the way to a denied path that the policy lets be rewritten.
    PolicyDenyWriteSymlinkAncestor,
    /// A proxy port that is no port.
    PolicyInvalidPort,
    /// An empty policy path.
    PolicyEmptyPath,
    /// A policy path below a home directory that is not known.
    PolicyHomeUnavailable,
    /// A directory tree deeper than a policy may be resolved against.
    PolicyTraversalDepth,
    /// The sandbox could not be installed on the process.
    SandboxSetupFailed { mechanism: Mechanism, source: Cause },
    /// Supervising the sandboxed child failed.
    SuperviseFailed { source: Cause },
    /// The sandbox was installed but the tool did not start.
    LaunchFailed { tool: Vec<u8>, source: Cause },
    /// The host job rejected both nesting and breaking away.
    HostJobIncompatible { source: Cause },
    /// A value the kernel interface cannot represent.
    IntegerTooLarge,
    /// An operating system without a sandbox.
    PlatformUnsupported,
}

/// The stable code of an error.
pub open spec fn code_text(error: Error) -> Seq<char> {
    match error {
        Error::FilesystemDenied => "FILESYSTEM_DENIED"@,
        Error::NetworkDenied => "NETWORK_DENIED"@,
        Error::Usage { .. } => "USAGE_ERROR"@,
        Error::PolicyParseFailed { .. } => "POLICY_PARSE_FAILED"@,
        Error::PolicyIoFailed { .. } => "POLICY_IO_FAILED"@,
        Error::PolicyUnrestrictedRead => "POLICY_UNRESTRICTED_READ"@,
        Error::PolicyTcpBindUnsupported => "POLICY_TCP_BIND_UNSUPPORTED"@,
        Error::PolicyUnixSocketUnsupported => "POLICY_UNIX_SOCKET_UNSUPPORTED"@,
        Error::PolicyUnixSocketPath => "POLICY_UNIX_SOCKET_PATH"@,
        Error::PolicyDenyWriteSymlinkAncestor => "POLICY_DENY_WRITE_SYMLINK_ANCESTOR"@,
        Error::PolicyInvalidPort => "POLICY_INVALID_PORT"@,
        Error::PolicyEmptyPath => "POLICY_EMPTY_PATH"@,
        Error::PolicyHomeUnavailable => "POLICY_HOME_UNAVAILABLE"@,
        Error::PolicyTraversalDepth => "POLICY_TRAVERSAL_DEPTH"@,
        Error::SandboxSetupFailed { .. } => "SANDBOX_SETUP_FAILED"@,
        Error::SuperviseFailed { .. } => "SUPERVISE_FAILED"@,
        Error::LaunchFailed { .. } => "LAUNCH_FAILED"@,
        Error::HostJobIncompatible { .. } => "HOST_JOB_INCOMPATIBLE"@,
        Error::IntegerTooLarge => "INTEGER_TOO_LARGE"@,
        Error::PlatformUnsupported => "PLATFORM_UNSUPPORTED"@,
    }
}

/// What is said of a policy that is rejected, or `None` for an error that is
/// about something else.
pub open spec fn validation_text(error: Error) -> Option<Seq<char>> {
    match error {
        Error::PolicyParseFailed { .. } => Some("policy document is not valid JSON or YAML"@),
        Error::PolicyUnrestrictedRead => Some("unrestricted reads are unsupported by the active Windows sandbox"@),
        Error::PolicyTcpBindUnsupported => Some("selective local TCP and UDP binding is unsupported by the active Windows sandbox"@),
        Error::PolicyUnixSocketUnsupported => Some("Unix socket policy is unsupported by the active Windows sandbox"@),
        Error::PolicyUnixSocketPath => Some("an allowed Unix socket path exists but is not a socket"@),
        Error::PolicyDenyWriteSymlinkAncestor => Some("a denied write symlink ancestor is reachable through an allowed write root"@),
        Error::PolicyInvalidPort => Some("proxy ports must be between 1 and 65535"@),
        Error::PolicyEmptyPath => Some("policy paths must not be empty"@),
        Error::PolicyHomeUnavailable => Some("the home directory is unavailable for a tilde-prefixed policy path"@),
        Error::PolicyTraversalDepth => Some("policy path traversal exceeded its maximum depth"@),
        Error::PlatformUnsupported => Some("the current platform is unsupported"@),
        _ => None,
    }
}

/// What went wrong underneath an error, if anything is known of it.
pub open spec fn cause_of(error: Error) -> Option<Cause> {
    match error {
        Error::PolicyIoFailed { source } => Some(source),
        Error::PolicyParseFailed { source } => Some(source),
        Error::SandboxSetupFailed { source, .. } => Some(source),
        Error::SuperviseFailed { source } => Some(source),
        Error::LaunchFailed { source, .. } => Some(source),
        Error::HostJobIncompatible { source } => Some(source),
        _ => None,
    }
}

/// What tells an error from others with its code.
pub open spec fn detail_text(error: Error) -> Option<Seq<char>> {
    match error {
        Error::Usage { message } => Some(message@),
        Error::LaunchFailed { tool, .. } => Some(text::shown(tool@)),
        Error::HostJobIncompatible { .. } => Some(
            "Landstrip is running inside a Job Object that prevents creating the sandbox job; start Pi outside the debugger or configure it to permit child-process breakaway"@,
        ),
        _ => None,
    }
}

/// The code, and the detail where there is one.
pub open spec fn display_text(error: Error) -> Seq<char> {
    match detail_text(error) {
        Some(detail) => code_text(error) + ": "@ + detail,
        None => code_text(error),
    }
}

impl Error {
    /// A sandbox mechanism that could not be installed on the process.
    pub fn sandbox_setup(mechanism: Mechanism, source: Cause) -> (error: Self)
        ensures
            error == (Error::SandboxSetupFailed { mechanism, source }),
    {
        Error::SandboxSetupFailed { mechanism, source }
    }

    /// Supervising the sandboxed child failed.
    pub fn supervise(source: Cause) -> (error: Self)
        ensures
            error == (Error::SuperviseFailed { source }),
    {
        Error::SuperviseFailed { source }
    }

    /// The sandbox was installed but the tool did not start.
    pub fn launch(tool: Vec<u8>, source: Cause) -> (error: Self)
        ensures
            error == (Error::LaunchFailed { tool, source }),
    {
        Error::LaunchFailed { tool, source }
    }

    /// A filesystem error met while a policy is resolved.
    pub fn policy_io(source: Cause) -> (error: Self)
        ensures
            error == (Error::PolicyIoFailed { source }),
    {
        Error::PolicyIoFailed { source }
    }

    /// The stable code.
    pub fn code(&self) -> (code: &'static str)
        ensures
            code@ == code_text(*self),
    {
        match self {
            Error::FilesystemDenied => "FILESYSTEM_DENIED",
            Error::NetworkDenied => "NETWORK_DENIED",
            Error::Usage { .. } => "USAGE_ERROR",
            Error::PolicyParseFailed { .. } => "POLICY_PARSE_FAILED",
            Error::PolicyIoFailed { .. } => "POLICY_IO_FAILED",
            Error::PolicyUnrestrictedRead => "POLICY_UNRESTRICTED_READ",
            Error::PolicyTcpBindUnsupported => "POLICY_TCP_BIND_UNSUPPORTED",
            Error::PolicyUnixSocketUnsupported => "POLICY_UNIX_SOCKET_UNSUPPORTED",
            Error::PolicyUnixSocketPath => "POLICY_UNIX_SOCKET_PATH",
            Error::PolicyDenyWriteSymlinkAncestor => "POLICY_DENY_WRITE_SYMLINK_ANCESTOR",
            Error::PolicyInvalidPort => "POLICY_INVALID_PORT",
            Error::PolicyEmptyPath => "POLICY_EMPTY_PATH",
            Error::PolicyHomeUnavailable => "POLICY_HOME_UNAVAILABLE",
            Error::PolicyTraversalDepth => "POLICY_TRAVERSAL_DEPTH",
            Error::SandboxSetupFailed { .. } => "SANDBOX_SETUP_FAILED",
            Error::SuperviseFailed { .. } => "SUPERVISE_FAILED",
            Error::LaunchFailed { .. } => "LAUNCH_FAILED",
            Error::HostJobIncompatible { .. } => "HOST_JOB_INCOMPATIBLE",
            Error::IntegerTooLarge => "INTEGER_TOO_LARGE",
            Error::PlatformUnsupported => "PLATFORM_UNSUPPORTED",
        }
    }

    /// What is said of a policy that is rejected. `None` means that the error
    /// is about something else.
    pub fn policy_validation_message(&self) -> (message: Option<&'static str>)
        ensures
            message is Some <==> validation_text(*self) is Some,
            message matches Some(said) ==> said@ == validation_text(*self)->0,
    {
        match self {
            Error::PolicyParseFailed { .. } => Some("policy document is not valid JSON or YAML"),
            Error::PolicyUnrestrictedRead => Some("unrestricted reads are unsupported by the active Windows sandbox"),
            Error::PolicyTcpBindUnsupported => Some("selective local TCP and UDP binding is unsupported by the active Windows sandbox"),
            Error::PolicyUnixSocketUnsupported => Some("Unix socket policy is unsupported by the active Windows sandbox"),
            Error::PolicyUnixSocketPath => Some("an allowed Unix socket path exists but is not a socket"),
            Error::PolicyDenyWriteSymlinkAncestor => Some("a denied write symlink ancestor is reachable through an allowed write root"),
            Error::PolicyInvalidPort => Some("proxy ports must be between 1 and 65535"),
            Error::PolicyEmptyPath => Some("policy paths must not be empty"),
            Error::PolicyHomeUnavailable => Some("the home directory is unavailable for a tilde-prefixed policy path"),
            Error::PolicyTraversalDepth => Some("policy path traversal exceeded its maximum depth"),
            Error::PlatformUnsupported => Some("the current platform is unsupported"),
            _ => None,
        }
    }

    /// What went wrong underneath the error.
    pub fn source(&self) -> (cause: Option<&Cause>)
        ensures
            cause is Some <==> cause_of(*self) is Some,
            cause matches Some(source) ==> *source == cause_of(*self)->0,
    {
        match self {
            Error::PolicyIoFailed { source } => Some(source),
            Error::PolicyParseFailed { source } => Some(source),
            Error::SandboxSetupFailed { source, .. } => Some(source),
            Error::SuperviseFailed { source } => Some(source),
            Error::LaunchFailed { source, .. } => Some(source),
            Error::HostJobIncompatible { source } => Some(source),
            _ => None,
        }
    }

    /// The errno the cause carries, or `None` where it carries none.
    pub fn errno(&self) -> (errno: Option<i32>)
        ensures
            errno == (match cause_of(*self) {
                Some(source) => source.errno,
                None => None,
            }),
    {
        match self.source() {
            Some(source) => source.errno,
            None => None,
        }
    }

    /// What tells the error from others with its code, or `None` where the
    /// code says it all.
    pub fn detail(&self) -> (detail: Option<String>)
        ensures
            detail is Some <==> detail_text(*self) is Some,
            detail matches Some(told) ==> told@ == detail_text(*self)->0,
    {
        match self {
            Error::Usage { message } => Some(message.clone()),
            Error::LaunchFailed { tool, .. } => Some(text::show(tool.as_slice())),
            Error::HostJobIncompatible { .. } => Some(
                "Landstrip is running inside a Job Object that prevents creating the sandbox job; start Pi outside the debugger or configure it to permit child-process breakaway".to_owned(),
            ),
            _ => None,
        }
    }

    /// The code, and the detail where there is one.
    pub fn display(&self) -> (shown: String)
        ensures
            shown@ == display_text(*self),
    {
        let mut shown = self.code().to_owned();
        if let Some(detail) = self.detail() {
            shown.append(": ");
            shown.append(detail.as_str());
        }
        shown
    }
}

/// The POSIX name of an error number of Linux on most machines, or `None` where
/// it has none.
pub open spec fn errno_text(errno: i32) -> Option<Seq<char>> {
    errnos::errno_text_on(System::Linux, errno)
}

/// The symbolic name of `errno` on Linux, or `None` when it has no POSIX name (a
/// Win32 status, say). Other systems and the machines that number errors
/// differently have [`errnos::errno_name_on`].
pub fn errno_name(errno: i32) -> (name: Option<&'static str>)
    ensures
        name is Some <==> errno_text(errno) is Some,
        name matches Some(found) ==> found@ == errno_text(errno)->0,
{
    errnos::errno_name_on(System::Linux, errno)
}

/// What a failed filesystem call said, as far as resolving a policy asks.
#[derive(Clone, Copy, Debug, PartialEq, Eq, Structural)]
pub enum PathFailureKind {
    NotFound,
    PermissionDenied,
    NotConnected,
    Other,
}

/// A failed filesystem call.
#[derive(Clone, Copy, Debug, PartialEq, Eq, Structural)]
pub struct PathFailure {
    pub kind: PathFailureKind,
    pub errno: Option<i32>,
}

/// Whether what lies behind a path could not be reached.
pub open spec fn transport_failed(failure: PathFailure) -> bool {
    failure.kind == PathFailureKind::NotConnected || failure.errno == Some(sys::EIO)
}

/// Whether a path is absent, closed to this process or not reachable.
pub open spec fn opaque(failure: PathFailure) -> bool {
    failure.kind == PathFailureKind::NotFound || failure.kind == PathFailureKind::PermissionDenied
        || transport_failed(failure)
}

impl PathFailure {
    /// Whether what lies behind the path could not be reached.
    pub fn is_transport_failed(&self) -> (failed: bool)
        ensures
            failed == transport_failed(*self),
    {
        self.kind == PathFailureKind::NotConnected || match self.errno {
            Some(errno) => errno == sys::EIO,
            None => false,
        }
    }

    /// Whether the path is absent, closed to this process or not reachable.
    pub fn is_opaque(&self) -> (hidden: bool)
        ensures
            hidden == opaque(*self),
    {
        self.kind == PathFailureKind::NotFound || self.kind == PathFailureKind::PermissionDenied
            || self.is_transport_failed()
    }
}

/// Whether two errors are of one kind, whatever they carry.
pub open spec fn same_kind(left: Error, right: Error) -> bool {
    match left {
        Error::FilesystemDenied => right is FilesystemDenied,
        Error::NetworkDenied => right is NetworkDenied,
        Error::Usage { .. } => right is Usage,
        Error::PolicyParseFailed { .. } => right is PolicyParseFailed,
        Error::PolicyIoFailed { .. } => right is PolicyIoFailed,
        Error::PolicyUnrestrictedRead => right is PolicyUnrestrictedRead,
        Error::PolicyTcpBindUnsupported => right is PolicyTcpBindUnsupported,
        Error::PolicyUnixSocketUnsupported => right is PolicyUnixSocketUnsupported,
        Error::PolicyUnixSocketPath => right is PolicyUnixSocketPath,
        Error::PolicyDenyWriteSymlinkAncestor => right is PolicyDenyWriteSymlinkAncestor,
        Error::PolicyInvalidPort => right is PolicyInvalidPort,
        Error::PolicyEmptyPath => right is PolicyEmptyPath,
        Error::PolicyHomeUnavailable => right is PolicyHomeUnavailable,
        Error::PolicyTraversalDepth => right is PolicyTraversalDepth,
        Error::SandboxSetupFailed { .. } => right is SandboxSetupFailed,
        Error::SuperviseFailed { .. } => right is SuperviseFailed,
        Error::LaunchFailed { .. } => right is LaunchFailed,
        Error::HostJobIncompatible { .. } => right is HostJobIncompatible,
        Error::IntegerTooLarge => right is IntegerTooLarge,
        Error::PlatformUnsupported => right is PlatformUnsupported,
    }
}

/// A code tells what failed: errors of two kinds never share one.
pub proof fn law_codes_are_distinct(left: Error, right: Error)
    ensures
        code_text(left) == code_text(right) <==> same_kind(left, right),
{
    reveal_strlit("FILESYSTEM_DENIED");
    reveal_strlit("NETWORK_DENIED");
    reveal_strlit("USAGE_ERROR");
    reveal_strlit("POLICY_PARSE_FAILED");
    reveal_strlit("POLICY_IO_FAILED");
    reveal_strlit("POLICY_UNRESTRICTED_READ");
    reveal_strlit("POLICY_TCP_BIND_UNSUPPORTED");
    reveal_strlit("POLICY_UNIX_SOCKET_UNSUPPORTED");
    reveal_strlit("POLICY_UNIX_SOCKET_PATH");
    reveal_strlit("POLICY_DENY_WRITE_SYMLINK_ANCESTOR");
    reveal_strlit("POLICY_INVALID_PORT");
    reveal_strlit("POLICY_EMPTY_PATH");
    reveal_strlit("POLICY_HOME_UNAVAILABLE");
    reveal_strlit("POLICY_TRAVERSAL_DEPTH");
    reveal_strlit("SANDBOX_SETUP_FAILED");
    reveal_strlit("SUPERVISE_FAILED");
    reveal_strlit("LAUNCH_FAILED");
    reveal_strlit("HOST_JOB_INCOMPATIBLE");
    reveal_strlit("INTEGER_TOO_LARGE");
    reveal_strlit("PLATFORM_UNSUPPORTED");
    assert(code_text(left)[7] == code_text(left)[7]);
    if code_text(left) == code_text(right) {
        assert(code_text(left).len() == code_text(right).len());
        assert(code_text(left)[7] == code_text(right)[7]);
    }
}

/// A look fails quietly where the path is absent, closed to this process or not
/// reachable, and a path is not reachable where the connection is gone or the
/// device fails. Any other failure counts.
pub proof fn law_quiet_failures_are_told_by_their_kind(failure: PathFailure)
    ensures
        transport_failed(failure) <==> failure.kind == PathFailureKind::NotConnected
            || failure.errno == Some(5i32),
        opaque(failure) <==> failure.kind == PathFailureKind::NotFound || failure.kind
            == PathFailureKind::PermissionDenied || failure.kind == PathFailureKind::NotConnected
            || failure.errno == Some(5i32),
{
}

/// Each error has its code, by which it is known everywhere.
pub proof fn law_each_error_has_its_code(error: Error)
    ensures
        error is FilesystemDenied ==> code_text(error) == "FILESYSTEM_DENIED"@,
        error is NetworkDenied ==> code_text(error) == "NETWORK_DENIED"@,
        error is Usage ==> code_text(error) == "USAGE_ERROR"@,
        error is PolicyParseFailed ==> code_text(error) == "POLICY_PARSE_FAILED"@,
        error is PolicyIoFailed ==> code_text(error) == "POLICY_IO_FAILED"@,
        error is PolicyUnrestrictedRead ==> code_text(error) == "POLICY_UNRESTRICTED_READ"@,
        error is PolicyTcpBindUnsupported ==> code_text(error) == "POLICY_TCP_BIND_UNSUPPORTED"@,
        error is PolicyUnixSocketUnsupported ==> code_text(error)
            == "POLICY_UNIX_SOCKET_UNSUPPORTED"@,
        error is PolicyUnixSocketPath ==> code_text(error) == "POLICY_UNIX_SOCKET_PATH"@,
        error is PolicyDenyWriteSymlinkAncestor ==> code_text(error)
            == "POLICY_DENY_WRITE_SYMLINK_ANCESTOR"@,
        error is PolicyInvalidPort ==> code_text(error) == "POLICY_INVALID_PORT"@,
        error is PolicyEmptyPath ==> code_text(error) == "POLICY_EMPTY_PATH"@,
        error is PolicyHomeUnavailable ==> code_text(error) == "POLICY_HOME_UNAVAILABLE"@,
        error is PolicyTraversalDepth ==> code_text(error) == "POLICY_TRAVERSAL_DEPTH"@,
        error is SandboxSetupFailed ==> code_text(error) == "SANDBOX_SETUP_FAILED"@,
        error is SuperviseFailed ==> code_text(error) == "SUPERVISE_FAILED"@,
        error is LaunchFailed ==> code_text(error) == "LAUNCH_FAILED"@,
        error is HostJobIncompatible ==> code_text(error) == "HOST_JOB_INCOMPATIBLE"@,
        error is IntegerTooLarge ==> code_text(error) == "INTEGER_TOO_LARGE"@,
        error is PlatformUnsupported ==> code_text(error) == "PLATFORM_UNSUPPORTED"@,
{
}

/// An error carries what caused it, is told from others of its code by the
/// message or the tool it is about, and shows the two behind its code. A policy
/// that is rejected for what it says has a message, and no other error has.
pub proof fn law_errors_tell_what_they_are_about(error: Error)
    ensures
        error matches Error::PolicyIoFailed { source } ==> cause_of(error) == Some(source),
        error matches Error::PolicyParseFailed { source } ==> cause_of(error) == Some(source),
        error matches Error::SandboxSetupFailed { source, .. } ==> cause_of(error) == Some(source),
        error matches Error::SuperviseFailed { source } ==> cause_of(error) == Some(source),
        error matches Error::LaunchFailed { source, .. } ==> cause_of(error) == Some(source),
        error matches Error::HostJobIncompatible { source } ==> cause_of(error) == Some(source),
        cause_of(error) is Some ==> error is PolicyIoFailed || error is PolicyParseFailed
            || error is SandboxSetupFailed || error is SuperviseFailed || error is LaunchFailed
            || error is HostJobIncompatible,
        error matches Error::Usage { message } ==> detail_text(error) == Some(message@)
            && display_text(error) == "USAGE_ERROR"@ + ": "@ + message@,
        error matches Error::LaunchFailed { tool, .. } ==> detail_text(error) == Some(
            text::shown(tool@),
        ) && display_text(error) == "LAUNCH_FAILED"@ + ": "@ + text::shown(tool@),
        !(error is Usage) && !(error is LaunchFailed) && !(error is HostJobIncompatible)
            ==> detail_text(error) is None && display_text(error) == code_text(error),
        validation_text(error) is Some <==> error is PolicyParseFailed
            || error is PolicyUnrestrictedRead || error is PolicyTcpBindUnsupported
            || error is PolicyUnixSocketUnsupported || error is PolicyUnixSocketPath
            || error is PolicyDenyWriteSymlinkAncestor || error is PolicyInvalidPort
            || error is PolicyEmptyPath || error is PolicyHomeUnavailable
            || error is PolicyTraversalDepth || error is PlatformUnsupported,
{
}

} // verus!
