//! The trap record: one object per event, with the stable code of what it
//! reports.

use crate::errnos;
use crate::errnos::System;
use crate::error;
use crate::error::{Error, Mechanism};
use crate::paths;
use crate::policy::DenialReason;
use crate::text;
use vstd::prelude::*;

verus! {

/// The code of a failure that no error names.
pub const INTERNAL_ERROR: &'static str = "INTERNAL_ERROR";

/// Whether a trap waits for an answer.
#[derive(Clone, Copy, Debug, PartialEq, Eq, Hash, Structural)]
pub enum TrapState {
    Query,
    Info,
}

/// What a denied filesystem access would have done.
#[derive(Clone, Copy, Debug, PartialEq, Eq, Hash, Structural)]
pub enum TrapOperation {
    Read,
    Write,
}

/// What a denied network access would have done.
#[derive(Clone, Copy, Debug, PartialEq, Eq, Hash, Structural)]
pub enum NetworkOperation {
    Connect,
    Bind,
}

/// The policy entry that would allow an access.
#[derive(Debug)]
pub struct SuggestedGrant {
    pub allow_read: Option<String>,
    pub allow_write: Option<String>,
}

/// The process that made a call.
#[derive(Debug)]
pub struct ProcessContext {
    pub pid: u32,
    pub exe: Option<String>,
    pub cwd: Option<String>,
}

/// A denied filesystem access.
#[derive(Debug)]
pub struct FilesystemDenial {
    pub operation: TrapOperation,
    pub path: Vec<u8>,
    pub requested_path: Vec<u8>,
    pub syscall: &'static str,
    pub flags: Vec<&'static str>,
    pub reason: DenialReason,
    pub process: ProcessContext,
}

/// The record of a denied filesystem access.
#[derive(Debug)]
pub struct FilesystemTrap {
    pub code: &'static str,
    pub state: TrapState,
    pub query_id: String,
    pub operation: TrapOperation,
    pub path: String,
    pub requested_path: String,
    pub syscall: &'static str,
    pub errno: &'static str,
    pub flags: Vec<&'static str>,
    pub reason: DenialReason,
    pub suggested_grant: SuggestedGrant,
    pub process: ProcessContext,
    pub mechanism: Mechanism,
}

/// The record of a denied network access.
#[derive(Debug)]
pub struct NetworkTrap {
    pub code: &'static str,
    pub state: TrapState,
    pub query_id: String,
    pub operation: NetworkOperation,
    pub target: String,
    pub syscall: &'static str,
    pub errno: &'static str,
    pub mechanism: Mechanism,
    pub process: ProcessContext,
}

/// The record of a tool that did not start.
#[derive(Debug)]
pub struct LaunchTrap {
    pub code: &'static str,
    pub program: String,
    pub errno: Option<&'static str>,
    pub message: String,
}

/// The record of a rejected command line.
#[derive(Debug)]
pub struct UsageTrap {
    pub code: &'static str,
    pub message: String,
}

/// The record of anything else that fails before the tool runs.
#[derive(Debug)]
pub struct InternalTrap {
    pub code: &'static str,
    pub mechanism: Option<Mechanism>,
    pub message: String,
}

/// One record.
#[derive(Debug)]
pub enum Trap {
    Filesystem(FilesystemTrap),
    Network(NetworkTrap),
    Launch(LaunchTrap),
    Usage(UsageTrap),
    Internal(InternalTrap),
}

/// Whether a trap with this query number waits for an answer.
pub open spec fn state_of(query_id: Option<u64>) -> TrapState {
    if query_id is Some {
        TrapState::Query
    } else {
        TrapState::Info
    }
}

/// The number by which a trap is answered, `0` for one that is not.
pub open spec fn query_text(query_id: Option<u64>) -> Seq<char> {
    match query_id {
        Some(id) => text::decimal(id as nat),
        None => "0"@,
    }
}

impl TrapState {
    /// The state and the number of a trap.
    pub fn from_query_id(query_id: Option<u64>) -> (state: (Self, String))
        ensures
            state.0 == state_of(query_id),
            state.1@ == query_text(query_id),
    {
        match query_id {
            Some(id) => (TrapState::Query, text::decimal_text(id)),
            None => (TrapState::Info, "0".to_owned()),
        }
    }
}

/// The policy entry that would allow an operation on a path.
pub open spec fn suggests(grant: SuggestedGrant, operation: TrapOperation, path: Seq<char>) -> bool {
    match operation {
        TrapOperation::Read => grant.allow_read is Some && grant.allow_read->0@ == path
            && grant.allow_write is None,
        TrapOperation::Write => grant.allow_write is Some && grant.allow_write->0@ == path
            && grant.allow_read is None,
    }
}

/// Whether a record tells of a denied filesystem access.
pub open spec fn reports_denial(
    record: FilesystemTrap,
    denial: FilesystemDenial,
    query_id: Option<u64>,
) -> bool {
    &&& record.code@ == error::code_text(Error::FilesystemDenied)
    &&& record.state == state_of(query_id)
    &&& record.query_id@ == query_text(query_id)
    &&& record.operation == denial.operation
    &&& record.path@ == text::shown(denial.path@)
    &&& record.requested_path@ == text::shown(denial.requested_path@)
    &&& record.syscall == denial.syscall
    &&& record.errno@ == "EACCES"@
    &&& record.flags == denial.flags
    &&& record.reason == denial.reason
    &&& suggests(record.suggested_grant, denial.operation, text::shown(denial.path@))
    &&& record.process == denial.process
    &&& record.mechanism == Mechanism::Seccomp
}

/// Whether a record tells of a denied network access.
pub open spec fn reports_network(
    trap: Trap,
    operation: NetworkOperation,
    target: String,
    syscall: &'static str,
    process: ProcessContext,
    query_id: Option<u64>,
) -> bool {
    &&& trap matches Trap::Network(record)
    &&& record.code@ == error::code_text(Error::NetworkDenied)
    &&& record.state == state_of(query_id)
    &&& record.query_id@ == query_text(query_id)
    &&& record.operation == operation
    &&& record.target == target
    &&& record.syscall == syscall
    &&& record.errno@ == "EACCES"@
    &&& record.mechanism == Mechanism::Seccomp
    &&& record.process == process
}

/// The texts joined by `: `, empty ones adding nothing before the first text.
pub open spec fn joined_causes(start: Seq<char>, causes: Seq<Seq<char>>) -> Seq<char>
    decreases causes.len(),
{
    if causes.len() == 0 {
        start
    } else if start.len() == 0 {
        joined_causes(causes[0], causes.drop_first())
    } else {
        joined_causes(start + ": "@ + causes[0], causes.drop_first())
    }
}

/// The detail of an error and its causes as one line.
pub open spec fn causes_text(failure: Error) -> Seq<char> {
    joined_causes(
        match error::detail_text(failure) {
            Some(detail) => detail,
            None => Seq::empty(),
        },
        match error::cause_of(failure) {
            Some(cause) => error::cause_texts(cause),
            None => Seq::empty(),
        },
    )
}

/// The detail of an error and its causes as one line, or its code where
/// neither says anything.
pub open spec fn message_text(failure: Error) -> Seq<char> {
    if causes_text(failure).len() == 0 {
        error::code_text(failure)
    } else {
        causes_text(failure)
    }
}

/// The mechanism an error is attributed to.
pub open spec fn mechanism_of(failure: Error) -> Option<Mechanism> {
    match failure {
        Error::SandboxSetupFailed { mechanism, .. } => Some(mechanism),
        _ => None,
    }
}

/// The symbolic name of the errno an error carries.
pub open spec fn errno_text_of(system: System, failure: Error) -> Option<Seq<char>> {
    match error::cause_of(failure) {
        Some(cause) => match cause.errno {
            Some(errno) => errnos::errno_text_on(system, errno),
            None => None,
        },
        None => None,
    }
}

/// The text of an optional name.
pub open spec fn name_text(name: Option<&'static str>) -> Option<Seq<char>> {
    match name {
        Some(name) => Some(name@),
        None => None,
    }
}

/// Whether a record tells of an error: a rejected command line, a tool that
/// did not start, or anything else with its message. Error numbers are those
/// of the system.
pub open spec fn reports_error_on(system: System, trap: Trap, failure: Error) -> bool {
    match failure {
        Error::Usage { message } => trap matches Trap::Usage(record) && record.code@
            == error::code_text(failure) && record.message@ == message@,
        Error::LaunchFailed { tool, source } => trap matches Trap::Launch(record) && record.code@
            == error::code_text(failure) && record.program@ == text::shown(tool@)
            && record.message@ == source.message@ && name_text(record.errno) == errno_text_of(
            system,
            failure,
        ),
        _ => trap matches Trap::Internal(record) && record.code@ == error::code_text(failure)
            && record.mechanism == mechanism_of(failure) && record.message@ == message_text(
            failure,
        ),
    }
}

/// Whether a record tells of an error on Linux.
pub open spec fn reports_error(trap: Trap, failure: Error) -> bool {
    reports_error_on(System::Linux, trap, failure)
}

impl Trap {
    /// The record of a denied filesystem access, waiting for an answer where
    /// it has a number.
    pub fn filesystem(denial: FilesystemDenial, query_id: Option<u64>) -> (trap: Self)
        ensures
            trap matches Trap::Filesystem(record) && reports_denial(record, denial, query_id),
    {
        let path = text::show(denial.path.as_slice());
        let requested_path = text::show(denial.requested_path.as_slice());
        let suggested_grant = match denial.operation {
            TrapOperation::Read => SuggestedGrant {
                allow_read: Some(path.clone()),
                allow_write: None,
            },
            TrapOperation::Write => SuggestedGrant {
                allow_read: None,
                allow_write: Some(path.clone()),
            },
        };
        let (state, query_id) = TrapState::from_query_id(query_id);
        Trap::Filesystem(
            FilesystemTrap {
                code: Error::FilesystemDenied.code(),
                state,
                query_id,
                operation: denial.operation,
                path,
                requested_path,
                syscall: denial.syscall,
                errno: "EACCES",
                flags: denial.flags,
                reason: denial.reason,
                suggested_grant,
                process: denial.process,
                mechanism: Mechanism::Seccomp,
            },
        )
    }

    /// The record of a denied network access, waiting for an answer where it
    /// has a number.
    pub fn network(
        operation: NetworkOperation,
        target: String,
        syscall: &'static str,
        process: ProcessContext,
        query_id: Option<u64>,
    ) -> (trap: Self)
        ensures
            reports_network(trap, operation, target, syscall, process, query_id),
    {
        let (state, query_id) = TrapState::from_query_id(query_id);
        Trap::Network(
            NetworkTrap {
                code: Error::NetworkDenied.code(),
                state,
                query_id,
                operation,
                target,
                syscall,
                errno: "EACCES",
                mechanism: Mechanism::Seccomp,
                process,
            },
        )
    }

    /// The record of a failure that no error names.
    pub fn internal(message: String) -> (trap: Self)
        ensures
            trap matches Trap::Internal(record) && record.code@ == INTERNAL_ERROR@
                && record.mechanism is None && record.message == message,
    {
        Trap::Internal(InternalTrap { code: INTERNAL_ERROR, mechanism: None, message })
    }

    /// The record of an error on Linux.
    pub fn from_error(failure: &Error) -> (trap: Self)
        ensures
            reports_error(trap, *failure),
    {
        Trap::from_error_on(System::Linux, failure)
    }

    /// The record of an error, whose error number is one of the system.
    pub fn from_error_on(system: System, failure: &Error) -> (trap: Self)
        ensures
            reports_error_on(system, trap, *failure),
    {
        match failure {
            Error::Usage { message } => Trap::Usage(
                UsageTrap { code: failure.code(), message: message.clone() },
            ),
            Error::LaunchFailed { tool, source } => Trap::Launch(
                LaunchTrap {
                    code: failure.code(),
                    program: text::show(tool.as_slice()),
                    errno: match failure.errno() {
                        Some(errno) => errnos::errno_name_on(system, errno),
                        None => None,
                    },
                    message: source.message.clone(),
                },
            ),
            Error::SandboxSetupFailed { mechanism, .. } => Trap::Internal(
                InternalTrap {
                    code: failure.code(),
                    mechanism: Some(*mechanism),
                    message: message(failure),
                },
            ),
            _ => Trap::Internal(
                InternalTrap { code: failure.code(), mechanism: None, message: message(failure) },
            ),
        }
    }
}

fn add_cause(message: &mut String, cause: &str)
    ensures
        final(message)@ == (if old(message)@.len() == 0 {
            cause@
        } else {
            old(message)@ + ": "@ + cause@
        }),
{
    let ghost before = message@;
    if message.as_str().unicode_len() > 0 {
        message.append(": ");
    }
    message.append(cause);
    assert(before.len() == 0 ==> message@ =~= cause@);
}

/// The detail of an error and its causes as one line for a person to read, or
/// the code where neither says anything.
pub fn message(failure: &Error) -> (message: String)
    ensures
        message@ == message_text(*failure),
{
    let mut message = match failure.detail() {
        Some(detail) => detail,
        None => String::new(),
    };
    assert(error::detail_text(*failure) is None ==> message@ =~= Seq::empty());
    if let Some(cause) = failure.source() {
        let ghost causes = error::cause_texts(*cause);
        add_cause(&mut message, cause.message.as_str());
        assert(causes[0] == cause.message@);
        let mut at: usize = 0;
        while at < cause.below.len()
            invariant
                at <= cause.below.len(),
                causes == error::cause_texts(*cause),
                joined_causes(message@, causes.skip(at + 1)) == causes_text(*failure),
            decreases cause.below.len() - at,
        {
            let ghost rest = causes.skip(at + 1);
            assert(rest[0] == cause.below@[at as int]@);
            assert(rest.drop_first() =~= causes.skip(at + 2));
            add_cause(&mut message, cause.below[at].as_str());
            at += 1;
        }
        assert(causes.skip(at + 1).len() == 0);
    }
    if message.as_str().unicode_len() == 0 {
        return failure.code().to_owned();
    }
    message
}

/// Whether two optional texts are the same.
pub open spec fn option_text(value: Option<String>) -> Option<Seq<char>> {
    match value {
        Some(value) => Some(value@),
        None => None,
    }
}

/// Whether two contexts describe the same process.
pub open spec fn same_process(left: ProcessContext, right: ProcessContext) -> bool {
    left.pid == right.pid && option_text(left.exe) == option_text(right.exe) && option_text(
        left.cwd,
    ) == option_text(right.cwd)
}

/// The text of each name.
pub open spec fn str_texts(list: Seq<&'static str>) -> Seq<Seq<char>> {
    list.map_values(|item: &'static str| item@)
}

/// Whether two denials tell of the same access.
pub open spec fn same_denial(left: FilesystemDenial, right: FilesystemDenial) -> bool {
    &&& left.operation == right.operation
    &&& paths::same_path(left.path@, right.path@)
    &&& paths::same_path(left.requested_path@, right.requested_path@)
    &&& left.syscall@ == right.syscall@
    &&& str_texts(left.flags@) == str_texts(right.flags@)
    &&& left.reason == right.reason
    &&& same_process(left.process, right.process)
}

fn is_same_option(left: &Option<String>, right: &Option<String>) -> (same: bool)
    ensures
        same == (option_text(*left) == option_text(*right)),
{
    match (left, right) {
        (Some(left), Some(right)) => text::text_equal(left.as_str(), right.as_str()),
        (None, None) => true,
        _ => false,
    }
}

fn is_same_list(left: &Vec<&'static str>, right: &Vec<&'static str>) -> (same: bool)
    ensures
        same == (str_texts(left@) == str_texts(right@)),
{
    if left.len() != right.len() {
        assert(str_texts(left@).len() != str_texts(right@).len());
        return false;
    }
    let mut at: usize = 0;
    while at < left.len()
        invariant
            at <= left.len(),
            left.len() == right.len(),
            forall|i: int| 0 <= i < at ==> (#[trigger] left@[i])@ == right@[i]@,
        decreases left.len() - at,
    {
        if !text::text_equal(left[at], right[at]) {
            assert(str_texts(left@)[at as int] != str_texts(right@)[at as int]);
            return false;
        }
        at += 1;
    }
    assert(str_texts(left@) =~= str_texts(right@));
    true
}

impl ProcessContext {
    /// Whether both contexts describe the same process.
    pub fn is_same(&self, other: &ProcessContext) -> (same: bool)
        ensures
            same == same_process(*self, *other),
    {
        self.pid == other.pid && is_same_option(&self.exe, &other.exe) && is_same_option(
            &self.cwd,
            &other.cwd,
        )
    }

    /// The same context again.
    pub fn copy(&self) -> (copy: ProcessContext)
        ensures
            copy == *self,
    {
        ProcessContext {
            pid: self.pid,
            exe: copy_option(&self.exe),
            cwd: copy_option(&self.cwd),
        }
    }
}

fn copy_option(value: &Option<String>) -> (copy: Option<String>)
    ensures
        copy == *value,
{
    match value {
        Some(value) => Some(value.clone()),
        None => None,
    }
}

impl FilesystemDenial {
    /// Whether both denials tell of the same access.
    pub fn is_same(&self, other: &FilesystemDenial) -> (same: bool)
        ensures
            same == same_denial(*self, *other),
    {
        self.operation == other.operation && paths::is_same_path(
            self.path.as_slice(),
            other.path.as_slice(),
        ) && paths::is_same_path(self.requested_path.as_slice(), other.requested_path.as_slice())
            && text::text_equal(self.syscall, other.syscall) && is_same_list(
            &self.flags,
            &other.flags,
        ) && self.reason == other.reason && self.process.is_same(&other.process)
    }
}

/// A record never waits for an answer without a number to answer it by, and
/// no number is that of a record that does not wait, since numbers start
/// at one.
pub proof fn law_query_numbers_tell_records_apart(first: Option<u64>, second: Option<u64>)
    requires
        first != Some(0u64),
        second != Some(0u64),
    ensures
        query_text(first) == query_text(second) <==> first == second,
{
    reveal_strlit("0");
    assert("0"@ =~= text::decimal(0));
    let left = match first {
        Some(id) => id as nat,
        None => 0,
    };
    let right = match second {
        Some(id) => id as nat,
        None => 0,
    };
    text::lemma_decimal_is_injective(left, right);
}

/// The record of a denied file tells what was asked of which file, by which
/// call, with which flags, and why it is denied. It suggests the entry that would
/// allow it: for a read a readable path, and for a write a writable one.
pub proof fn law_records_tell_the_denied_access(
    record: FilesystemTrap,
    denial: FilesystemDenial,
    query_id: Option<u64>,
)
    requires
        reports_denial(record, denial, query_id),
    ensures
        record.code@ == "FILESYSTEM_DENIED"@,
        record.errno@ == "EACCES"@,
        record.mechanism == Mechanism::Seccomp,
        record.operation == denial.operation,
        record.path@ == text::shown(denial.path@),
        record.requested_path@ == text::shown(denial.requested_path@),
        record.syscall == denial.syscall,
        record.flags == denial.flags,
        record.reason == denial.reason,
        record.process == denial.process,
        query_id is Some ==> record.state == TrapState::Query && record.query_id@ == text::decimal(
            query_id->0 as nat,
        ),
        query_id is None ==> record.state == TrapState::Info && record.query_id@ == "0"@,
        denial.operation == TrapOperation::Read ==> (record.suggested_grant.allow_read matches Some(
            path,
        ) && path@ == record.path@) && record.suggested_grant.allow_write is None,
        denial.operation == TrapOperation::Write ==> (record.suggested_grant.allow_write matches Some(
            path,
        ) && path@ == record.path@) && record.suggested_grant.allow_read is None,
{
}

/// The record of a denied network access tells what was asked of which target,
/// by which call.
pub proof fn law_records_tell_the_denied_target(
    trap: Trap,
    operation: NetworkOperation,
    target: String,
    syscall: &'static str,
    process: ProcessContext,
    query_id: Option<u64>,
)
    requires
        reports_network(trap, operation, target, syscall, process, query_id),
    ensures
        trap matches Trap::Network(record) && record.code@ == "NETWORK_DENIED"@ && record.errno@
            == "EACCES"@ && record.mechanism == Mechanism::Seccomp && record.operation == operation
            && record.target == target && record.syscall == syscall && record.process == process
            && (query_id is Some ==> record.state == TrapState::Query && record.query_id@
            == text::decimal(query_id->0 as nat)) && (query_id is None ==> record.state
            == TrapState::Info && record.query_id@ == "0"@),
{
}

/// Two denials are one where they agree in all they tell: the same files,
/// however they are written, by the same call of the same process.
pub proof fn law_denials_are_one_where_they_tell_the_same(
    left: FilesystemDenial,
    right: FilesystemDenial,
)
    ensures
        same_denial(left, right) <==> left.operation == right.operation && paths::same_path(
            left.path@,
            right.path@,
        ) && paths::same_path(left.requested_path@, right.requested_path@) && left.syscall@
            == right.syscall@ && left.flags@.len() == right.flags@.len() && (forall|i: int|
            0 <= i < left.flags@.len() ==> (#[trigger] left.flags@[i])@ == right.flags@[i]@)
            && left.reason == right.reason && left.process.pid == right.process.pid && option_text(
            left.process.exe,
        ) == option_text(right.process.exe) && option_text(left.process.cwd) == option_text(
            right.process.cwd,
        ),
{
    let first = str_texts(left.flags@);
    let second = str_texts(right.flags@);
    if first == second {
        assert(first.len() == second.len());
        assert forall|i: int| 0 <= i < left.flags@.len() implies (#[trigger] left.flags@[i])@
            == right.flags@[i]@ by {
            assert(first[i] == second[i]);
        }
    }
    if left.flags@.len() == right.flags@.len() && (forall|i: int|
        0 <= i < left.flags@.len() ==> (#[trigger] left.flags@[i])@ == right.flags@[i]@) {
        assert(first =~= second);
    }
}

/// What an error says and what caused it stand in one line, the nearest first,
/// with a colon and a blank between two of them.
pub proof fn law_causes_follow_what_they_caused(
    start: Seq<char>,
    cause: Seq<char>,
    below: Seq<Seq<char>>,
)
    ensures
        joined_causes(start, Seq::empty()) == start,
        start.len() > 0 ==> joined_causes(start, seq![cause] + below) == joined_causes(
            start + ": "@ + cause,
            below,
        ),
        joined_causes(Seq::empty(), seq![cause] + below) == joined_causes(cause, below),
{
    let all = seq![cause] + below;
    assert(all[0] == cause);
    assert(all.drop_first() =~= below);
}

/// An error is reported as what failed: a rejected command line, a tool that did
/// not start, or else its own message and the mechanism it is about.
pub proof fn law_errors_are_reported_as_what_failed(system: System, trap: Trap, failure: Error)
    requires
        reports_error_on(system, trap, failure),
    ensures
        failure matches Error::Usage { message } ==> (trap matches Trap::Usage(record)
            && record.code@ == "USAGE_ERROR"@ && record.message@ == message@),
        failure matches Error::LaunchFailed { tool, source } ==> (trap matches Trap::Launch(record)
            && record.code@ == "LAUNCH_FAILED"@ && record.program@ == text::shown(tool@)
            && record.message@ == source.message@ && (source.errno is None
            ==> record.errno is None) && (source.errno is Some ==> name_text(record.errno)
            == errnos::errno_text_on(system, source.errno->0))),
        !(failure is Usage) && !(failure is LaunchFailed) ==> (trap matches Trap::Internal(record)
            && record.code@ == error::code_text(failure) && (record.mechanism is Some
            <==> failure is SandboxSetupFailed) && record.message@.len() > 0),
        failure matches Error::SandboxSetupFailed { mechanism, .. } ==> (
        trap matches Trap::Internal(record) && record.mechanism == Some(mechanism)),
{
    lemma_codes_say_something(failure);
}

proof fn lemma_codes_say_something(failure: Error)
    ensures
        error::code_text(failure).len() > 0,
{
    reveal_strlit("FILESYSTEM_DENIED");
    reveal_strlit("NETWORK_DENIED");
    reveal_strlit("USAGE_ERROR");
    reveal_strlit("POLICY_PARSE_FAILED");
    reveal_strlit("POLICY_IO_FAILED");
    reveal_strlit("POLICY_UNRESTRICTED_READ");
    reveal_strlit("POLICY_TCP_BIND_UNSUPPORTED");
    reveal_strlit("POLICY_UNIX_SOCKET_UNSUPPORTED");
    reveal_strlit("POLICY_UNIX_SOCKET_PATH");
    reveal_strlit("POLICY_DENY_WRITE_SYMLINK_ANCESTOR");
    reveal_strlit("POLICY_INVALID_PORT");
    reveal_strlit("POLICY_EMPTY_PATH");
    reveal_strlit("POLICY_HOME_UNAVAILABLE");
    reveal_strlit("POLICY_TRAVERSAL_DEPTH");
    reveal_strlit("SANDBOX_SETUP_FAILED");
    reveal_strlit("SUPERVISE_FAILED");
    reveal_strlit("LAUNCH_FAILED");
    reveal_strlit("HOST_JOB_INCOMPATIBLE");
    reveal_strlit("INTEGER_TOO_LARGE");
    reveal_strlit("PLATFORM_UNSUPPORTED");
}

/// The message of an error is what tells it from others and then all that caused
/// it, down to the last. Where neither says anything, it is the code.
pub proof fn law_messages_hold_every_cause(failure: Error, cause: error::Cause)
    requires
        error::cause_of(failure) == Some(cause),
    ensures
        error::detail_text(failure) is None ==> causes_text(failure) == joined_causes(
            cause.message@,
            error::string_texts(cause.below@),
        ),
        error::detail_text(failure) matches Some(detail) ==> causes_text(failure) == joined_causes(
            detail,
            seq![cause.message@] + error::string_texts(cause.below@),
        ),
        causes_text(failure).len() > 0 ==> message_text(failure) == causes_text(failure),
        causes_text(failure).len() == 0 ==> message_text(failure) == error::code_text(failure),
{
    let all = error::cause_texts(cause);
    let below = error::string_texts(cause.below@);
    assert(all =~= seq![cause.message@] + below);
    assert(all[0] == cause.message@);
    assert(all.drop_first() =~= below);
    if error::detail_text(failure) is None {
        assert(joined_causes(Seq::<char>::empty(), all) == joined_causes(cause.message@, below));
    }
}

} // verus!
