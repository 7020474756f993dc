//! The Windows sandbox of a restricted user: what it can enforce, and the
//! order in which access is given to it and taken back.

use crate::error::{Cause, Error, Mechanism};
use crate::policy;
use crate::policy::AccessPolicy;
use vstd::prelude::*;

verus! {

/// The installed restricted user.
#[derive(Clone, Copy, Debug, PartialEq, Eq, Structural)]
pub struct Installation {
    pub complete: bool,
    pub proxy_port_low: u16,
    pub proxy_port_high: u16,
}

/// Which network a user is leased for.
#[derive(Clone, Copy, Debug, PartialEq, Eq, Structural)]
pub enum NetworkMode {
    Unrestricted,
    Restricted,
}

/// A failure to set the sandbox up, in words.
pub open spec fn says(failure: Error, message: Seq<char>) -> bool {
    failure matches Error::SandboxSetupFailed { mechanism, source } && mechanism
        == Mechanism::Windowsuser && source.errno is None && source.message@ == message
        && source.below@.len() == 0
}

fn setup_message(message: &str) -> (failure: Error)
    ensures
        says(failure, message@),
{
    Error::sandbox_setup(
        Mechanism::Windowsuser,
        Cause { errno: None, message: message.to_owned(), below: Vec::new() },
    )
}

/// Whether a restricted user is installed, given what was loaded of it.
pub fn is_installed<E>(loaded: Result<Option<Installation>, E>) -> (installed: Result<bool, E>)
    ensures
        match loaded {
            Ok(found) => installed == Ok::<bool, E>(found is Some),
            Err(error) => installed == Err::<bool, E>(error),
        },
{
    match loaded {
        Ok(found) => Ok(found.is_some()),
        Err(error) => Err(error),
    }
}

/// Whether each port is within a range.
pub open spec fn within(ports: Seq<u16>, low: u16, high: u16) -> bool {
    forall|i: int| 0 <= i < ports.len() ==> low <= #[trigger] ports[i] <= high
}

/// Whether a restricted network can be enforced, or why it cannot.
pub open spec fn network_refusal(
    policy: AccessPolicy,
    installation: Installation,
) -> Option<Seq<char>> {
    if policy.allow_windows_loopback {
        Some("windows.allowLoopback is not supported by restricted-user isolation"@)
    } else if policy::binds_locally(policy.network_access) {
        Some("allowLocalBinding is not supported by restricted-user isolation"@)
    } else if !within(
        policy::ports_of(policy.network_access),
        installation.proxy_port_low,
        installation.proxy_port_high,
    ) {
        Some("restricted-user proxy port is outside the installed WFP allow range"@)
    } else {
        None
    }
}

/// Whether a result is an acceptance, or a refusal in these words.
pub open spec fn refuses(result: Result<(), Error>, refusal: Option<Seq<char>>) -> bool {
    match refusal {
        Some(message) => result matches Err(failure) && says(failure, message),
        None => result is Ok,
    }
}

/// Whether a restricted network can be enforced.
pub fn validate_restricted_network(
    policy: &AccessPolicy,
    installation: &Installation,
) -> (result: Result<(), Error>)
    ensures
        refuses(result, network_refusal(*policy, *installation)),
{
    if policy.allow_windows_loopback {
        return Err(
            setup_message("windows.allowLoopback is not supported by restricted-user isolation"),
        );
    }
    if policy.network_access.allows_local_binding() {
        return Err(
            setup_message("allowLocalBinding is not supported by restricted-user isolation"),
        );
    }
    let ports = policy.network_access.connect_tcp_ports();
    let mut at: usize = 0;
    while at < ports.len()
        invariant
            at <= ports@.len(),
            ports@ == policy::ports_of(policy.network_access),
            !policy.allow_windows_loopback,
            !policy::binds_locally(policy.network_access),
            forall|i: int|
                0 <= i < at ==> installation.proxy_port_low <= #[trigger] ports@[i]
                    <= installation.proxy_port_high,
        decreases ports.len() - at,
    {
        if ports[at] < installation.proxy_port_low || ports[at] > installation.proxy_port_high {
            assert(!within(
                ports@,
                installation.proxy_port_low,
                installation.proxy_port_high,
            ));
            return Err(
                setup_message(
                    "restricted-user proxy port is outside the installed WFP allow range",
                ),
            );
        }
        at += 1;
    }
    Ok(())
}

/// Why a policy cannot be enforced by an installation.
pub open spec fn policy_refusal(
    policy: AccessPolicy,
    installation: Installation,
) -> Option<Seq<char>> {
    if !installation.complete {
        Some("restricted-user installation is incomplete"@)
    } else if policy.network_access is Unrestricted {
        None
    } else {
        network_refusal(policy, installation)
    }
}

/// Whether a policy can be enforced, given what was loaded of the
/// installation.
pub fn validate(policy: &AccessPolicy, loaded: Result<Installation, Cause>) -> (result: Result<
    (),
    Error,
>)
    ensures
        match loaded {
            Ok(installation) => refuses(result, policy_refusal(*policy, installation)),
            Err(source) => result == Err::<(), _>(
                Error::SandboxSetupFailed { mechanism: Mechanism::Windowsuser, source },
            ),
        },
{
    let installation = match loaded {
        Ok(installation) => installation,
        Err(source) => return Err(Error::sandbox_setup(Mechanism::Windowsuser, source)),
    };
    if !installation.complete {
        return Err(setup_message("restricted-user installation is incomplete"));
    }
    if !policy.network_access.is_unrestricted() {
        return validate_restricted_network(policy, &installation);
    }
    Ok(())
}

/// Which network the user of a run is leased for, or why it cannot run.
pub fn network_mode(policy: &AccessPolicy, loaded: Result<Installation, Cause>) -> (mode: Result<
    NetworkMode,
    Error,
>)
    ensures
        match loaded {
            Ok(installation) => match policy_refusal(*policy, installation) {
                Some(message) => mode matches Err(failure) && says(failure, message),
                None => mode == Ok::<NetworkMode, Error>(
                    if policy.network_access is Unrestricted {
                        NetworkMode::Unrestricted
                    } else {
                        NetworkMode::Restricted
                    },
                ),
            },
            Err(source) => mode == Err::<NetworkMode, _>(
                Error::SandboxSetupFailed { mechanism: Mechanism::Windowsuser, source },
            ),
        },
{
    match validate(policy, loaded) {
        Ok(()) => if policy.network_access.is_unrestricted() {
            Ok(NetworkMode::Unrestricted)
        } else {
            Ok(NetworkMode::Restricted)
        },
        Err(failure) => Err(failure),
    }
}

/// What a run does next.
#[derive(Clone, Copy, Debug, PartialEq, Eq, Structural)]
pub enum RunAction {
    /// Write what the worker is asked to run.
    WriteRequest,
    /// Note every access that will be given, so that it can be taken back
    /// after a crash.
    JournalPlanned,
    /// Give the access.
    Apply,
    /// Note only the access that was given.
    JournalApplied,
    /// Start the worker and wait for it.
    Launch,
    /// Take back what was given, or all that was planned.
    Revoke { planned: bool },
    /// Forget the note.
    ClearJournal,
    /// Remove what the worker was asked to run.
    RemoveRequest,
    /// Nothing more.
    Finish,
}

/// What a run ends with, first come first told. `E` is a failure.
#[derive(Debug)]
pub struct RunState<E> {
    pub action: RunAction,
    /// What the worker ended with, where it ran.
    pub exit_code: Option<u32>,
    /// What stopped the run.
    pub failure: Option<E>,
    /// What kept the access from being taken back.
    pub revoke_failure: Option<E>,
    /// What kept the note from being forgotten.
    pub clear_failure: Option<E>,
    /// Whether all access that may have been given was taken back.
    pub revoked: bool,
}

/// A run that has done nothing yet.
pub open spec fn run_start<E>() -> RunState<E> {
    RunState {
        action: RunAction::WriteRequest,
        exit_code: None,
        failure: None,
        revoke_failure: None,
        clear_failure: None,
        revoked: false,
    }
}

/// A run after what came of an action. Access that may have been given is
/// taken back before the run ends: what was given, or all that was planned
/// where giving it failed half way. The note is forgotten only once that is
/// done.
pub open spec fn run_after<E>(state: RunState<E>, outcome: Result<u32, E>) -> RunState<E> {
    match state.action {
        RunAction::WriteRequest => match outcome {
            Ok(_) => RunState { action: RunAction::JournalPlanned, ..state },
            Err(error) => RunState { action: RunAction::Finish, failure: Some(error), ..state },
        },
        RunAction::JournalPlanned => match outcome {
            Ok(_) => RunState { action: RunAction::Apply, ..state },
            Err(error) => RunState {
                action: RunAction::RemoveRequest,
                failure: Some(error),
                ..state
            },
        },
        RunAction::Apply => match outcome {
            Ok(_) => RunState { action: RunAction::JournalApplied, ..state },
            Err(error) => RunState {
                action: RunAction::Revoke { planned: true },
                failure: Some(error),
                ..state
            },
        },
        RunAction::JournalApplied => match outcome {
            Ok(_) => RunState { action: RunAction::Launch, ..state },
            Err(error) => RunState {
                action: RunAction::Revoke { planned: false },
                failure: Some(error),
                ..state
            },
        },
        RunAction::Launch => match outcome {
            Ok(code) => RunState {
                action: RunAction::Revoke { planned: false },
                exit_code: Some(code),
                ..state
            },
            Err(error) => RunState {
                action: RunAction::Revoke { planned: false },
                failure: Some(error),
                ..state
            },
        },
        RunAction::Revoke { .. } => match outcome {
            Ok(_) => RunState { action: RunAction::ClearJournal, revoked: true, ..state },
            Err(error) => RunState {
                action: RunAction::RemoveRequest,
                revoke_failure: Some(error),
                ..state
            },
        },
        RunAction::ClearJournal => match outcome {
            Ok(_) => RunState { action: RunAction::RemoveRequest, ..state },
            Err(error) => RunState {
                action: RunAction::RemoveRequest,
                clear_failure: Some(error),
                ..state
            },
        },
        RunAction::RemoveRequest => RunState { action: RunAction::Finish, ..state },
        RunAction::Finish => state,
    }
}

/// What a run ends with: what stopped it, what kept access from being taken
/// back, what kept the note from being forgotten, or else what the worker
/// ended with, as a signed number.
pub open spec fn run_result<E>(state: RunState<E>) -> Option<Result<i32, E>> {
    match state.failure {
        Some(error) => Some(Err(error)),
        None => match state.revoke_failure {
            Some(error) => Some(Err(error)),
            None => match state.clear_failure {
                Some(error) => Some(Err(error)),
                None => match state.exit_code {
                    Some(code) => Some(
                        Ok(crate::broker::registers::signed(code as int) as i32),
                    ),
                    None => None,
                },
            },
        },
    }
}

impl<E> RunState<E> {
    /// A run that has done nothing yet.
    pub fn new() -> (state: Self)
        ensures
            state == run_start::<E>(),
    {
        RunState {
            action: RunAction::WriteRequest,
            exit_code: None,
            failure: None,
            revoke_failure: None,
            clear_failure: None,
            revoked: false,
        }
    }

    /// Takes in what came of the action. An action that gives no number is
    /// told by any.
    pub fn execute(self, outcome: Result<u32, E>) -> (next: Self)
        ensures
            next == run_after(self, outcome),
    {
        let mut state = self;
        match state.action {
            RunAction::WriteRequest => match outcome {
                Ok(_) => {
                    state.action = RunAction::JournalPlanned;
                },
                Err(error) => {
                    state.action = RunAction::Finish;
                    state.failure = Some(error);
                },
            },
            RunAction::JournalPlanned => match outcome {
                Ok(_) => {
                    state.action = RunAction::Apply;
                },
                Err(error) => {
                    state.action = RunAction::RemoveRequest;
                    state.failure = Some(error);
                },
            },
            RunAction::Apply => match outcome {
                Ok(_) => {
                    state.action = RunAction::JournalApplied;
                },
                Err(error) => {
                    state.action = RunAction::Revoke { planned: true };
                    state.failure = Some(error);
                },
            },
            RunAction::JournalApplied => match outcome {
                Ok(_) => {
                    state.action = RunAction::Launch;
                },
                Err(error) => {
                    state.action = RunAction::Revoke { planned: false };
                    state.failure = Some(error);
                },
            },
            RunAction::Launch => {
                state.action = RunAction::Revoke { planned: false };
                match outcome {
                    Ok(code) => {
                        state.exit_code = Some(code);
                    },
                    Err(error) => {
                        state.failure = Some(error);
                    },
                }
            },
            RunAction::Revoke { .. } => match outcome {
                Ok(_) => {
                    state.action = RunAction::ClearJournal;
                    state.revoked = true;
                },
                Err(error) => {
                    state.action = RunAction::RemoveRequest;
                    state.revoke_failure = Some(error);
                },
            },
            RunAction::ClearJournal => {
                state.action = RunAction::RemoveRequest;
                if let Err(error) = outcome {
                    state.clear_failure = Some(error);
                }
            },
            RunAction::RemoveRequest => {
                state.action = RunAction::Finish;
            },
            RunAction::Finish => {},
        }
        state
    }

    /// What a run that is finished ends with.
    pub fn result(self) -> (result: Option<Result<i32, E>>)
        ensures
            result == run_result(self),
    {
        match self.failure {
            Some(error) => Some(Err(error)),
            None => match self.revoke_failure {
                Some(error) => Some(Err(error)),
                None => match self.clear_failure {
                    Some(error) => Some(Err(error)),
                    None => match self.exit_code {
                        Some(code) => Some(Ok(crate::broker::registers::cast_signed(code))),
                        None => None,
                    },
                },
            },
        }
    }
}

/// A run after these outcomes.
pub open spec fn run_reached<E>(outcomes: Seq<Result<u32, E>>) -> RunState<E>
    decreases outcomes.len(),
{
    if outcomes.len() == 0 {
        run_start()
    } else {
        run_after(run_reached(outcomes.drop_last()), outcomes.last())
    }
}

/// The action that each of these outcomes is of.
pub open spec fn run_action<E>(outcomes: Seq<Result<u32, E>>, at: int) -> RunAction {
    run_reached(outcomes.take(at)).action
}

/// Whether the access was given, or may have been, by one of these outcomes.
pub open spec fn gave_access<E>(outcomes: Seq<Result<u32, E>>) -> bool {
    exists|i: int| 0 <= i < outcomes.len() && #[trigger] run_action(outcomes, i) == RunAction::Apply
}

/// Whether taking the access back was tried by one of these outcomes.
pub open spec fn tried_revoke<E>(outcomes: Seq<Result<u32, E>>) -> bool {
    exists|i: int| 0 <= i < outcomes.len() && #[trigger] run_action(outcomes, i) is Revoke
}

/// Whether taking the access back succeeded in one of these outcomes.
pub open spec fn did_revoke<E>(outcomes: Seq<Result<u32, E>>) -> bool {
    exists|i: int|
        0 <= i < outcomes.len() && #[trigger] run_action(outcomes, i) is Revoke && outcomes[i]
            is Ok
}

proof fn lemma_run_history<E>(outcomes: Seq<Result<u32, E>>)
    ensures
        ({
            let state = run_reached(outcomes);
            &&& gave_access(outcomes) && !tried_revoke(outcomes) ==> {
                ||| state.action == RunAction::JournalApplied
                ||| state.action == RunAction::Launch
                ||| state.action is Revoke
            }
            &&& (state.action == RunAction::JournalApplied || state.action == RunAction::Launch
                || state.action is Revoke) ==> gave_access(outcomes)
            &&& tried_revoke(outcomes) ==> {
                ||| state.action == RunAction::ClearJournal
                ||| state.action == RunAction::RemoveRequest
                ||| state.action == RunAction::Finish
            }
            &&& state.action == RunAction::ClearJournal ==> did_revoke(outcomes)
            &&& state.revoked == did_revoke(outcomes)
            &&& state.exit_code is Some ==> state.failure is None
            &&& tried_revoke(outcomes) ==> (state.revoke_failure is None <==> state.revoked)
            &&& (state.action == RunAction::JournalPlanned || state.action == RunAction::Apply
                || state.action == RunAction::JournalApplied || state.action == RunAction::Launch
                || state.action == RunAction::WriteRequest) ==> state.exit_code is None
                && state.failure is None && state.revoke_failure is None && state.clear_failure
                is None && !tried_revoke(outcomes)
            &&& state.action is Revoke ==> !tried_revoke(outcomes) && (state.exit_code is Some
                || state.failure is Some) && state.revoke_failure is None && state.clear_failure
                is None
            &&& (state.action == RunAction::ClearJournal || state.action
                == RunAction::RemoveRequest || state.action == RunAction::Finish) ==> (
            state.exit_code is Some || state.failure is Some)
            &&& state.exit_code is Some && !(state.action is Revoke) ==> tried_revoke(outcomes)
        }),
    decreases outcomes.len(),
{
    if outcomes.len() > 0 {
        let less = outcomes.drop_last();
        let last = outcomes.len() - 1;
        lemma_run_history(less);
        assert(outcomes.take(last) =~= less);
        assert forall|i: int| 0 <= i < less.len() implies run_action(outcomes, i) == run_action(
            less,
            i,
        ) by {
            assert(outcomes.take(i) =~= less.take(i));
        }
        assert(run_action(outcomes, last) == run_reached(less).action);
        if gave_access(less) {
            let i = choose|i: int|
                0 <= i < less.len() && #[trigger] run_action(less, i) == RunAction::Apply;
            assert(run_action(outcomes, i) == RunAction::Apply);
        }
        if tried_revoke(less) {
            let i = choose|i: int|
                0 <= i < less.len() && #[trigger] run_action(less, i) is Revoke;
            assert(run_action(outcomes, i) is Revoke);
        }
        if did_revoke(less) {
            let i = choose|i: int|
                0 <= i < less.len() && #[trigger] run_action(less, i) is Revoke && less[i] is Ok;
            assert(run_action(outcomes, i) is Revoke && outcomes[i] is Ok);
        }
        if gave_access(outcomes) && !gave_access(less) {
            let i = choose|i: int|
                0 <= i < outcomes.len() && #[trigger] run_action(outcomes, i) == RunAction::Apply;
            assert(i == last) by {
                if i < last {
                    assert(run_action(less, i) == RunAction::Apply);
                }
            }
        }
        if tried_revoke(outcomes) && !tried_revoke(less) {
            let i = choose|i: int|
                0 <= i < outcomes.len() && #[trigger] run_action(outcomes, i) is Revoke;
            assert(i == last) by {
                if i < last {
                    assert(run_action(less, i) is Revoke);
                }
            }
        }
        if did_revoke(outcomes) && !did_revoke(less) {
            let i = choose|i: int|
                0 <= i < outcomes.len() && #[trigger] run_action(outcomes, i) is Revoke
                    && outcomes[i] is Ok;
            assert(i == last) by {
                if i < last {
                    assert(run_action(less, i) is Revoke && less[i] is Ok);
                }
            }
        }
    }
}

/// No run ends with access left in place unless taking it back failed: where
/// access may have been given, taking it back was tried before the end. The
/// note of it is forgotten only after that succeeded.
pub proof fn law_given_access_is_taken_back<E>(outcomes: Seq<Result<u32, E>>)
    ensures
        run_reached(outcomes).action == RunAction::Finish && gave_access(outcomes)
            ==> tried_revoke(outcomes),
        run_reached(outcomes).action == RunAction::ClearJournal ==> did_revoke(outcomes),
{
    lemma_run_history(outcomes);
}

/// A run that ends with the worker's number took all access back and forgot
/// the note of it.
pub proof fn law_success_leaves_nothing_behind<E>(outcomes: Seq<Result<u32, E>>)
    requires
        run_reached(outcomes).action == RunAction::Finish,
        run_result(run_reached(outcomes)) is Some,
        run_result(run_reached(outcomes))->0 is Ok,
    ensures
        did_revoke(outcomes),
        run_reached(outcomes).clear_failure is None,
{
    lemma_run_history(outcomes);
}

/// A run that is finished always ends with something.
pub proof fn law_finished_run_has_a_result<E>(outcomes: Seq<Result<u32, E>>)
    requires
        run_reached(outcomes).action == RunAction::Finish,
    ensures
        run_result(run_reached(outcomes)) is Some,
{
    lemma_run_history(outcomes);
}

/// A policy can be enforced by a complete installation where the network is not
/// restricted, and under a restriction where nothing local is asked for and each
/// proxy's port lies within the installed range.
pub proof fn law_enforceable_policies_are_accepted(
    policy: AccessPolicy,
    installation: Installation,
    at: int,
)
    ensures
        !installation.complete ==> policy_refusal(policy, installation) is Some,
        installation.complete && policy.network_access is Unrestricted ==> policy_refusal(
            policy,
            installation,
        ) is None,
        installation.complete && policy.network_access is Restricted ==> ({
            let ports = policy.network_access->connect_tcp_ports@;
            &&& policy.allow_windows_loopback ==> policy_refusal(policy, installation) is Some
            &&& policy.network_access->bind == policy::IpBindAccess::Localhost ==> policy_refusal(
                policy,
                installation,
            ) is Some
            &&& 0 <= at < ports.len() && (ports[at] < installation.proxy_port_low || ports[at]
                > installation.proxy_port_high) ==> policy_refusal(policy, installation) is Some
            &&& !policy.allow_windows_loopback && policy.network_access->bind
                == policy::IpBindAccess::Deny && (forall|i: int|
                0 <= i < ports.len() ==> installation.proxy_port_low <= #[trigger] ports[i]
                    <= installation.proxy_port_high) ==> policy_refusal(policy, installation) is None
        }),
{
    if policy.network_access is Restricted {
        let ports = policy.network_access->connect_tcp_ports@;
        if 0 <= at < ports.len() && (ports[at] < installation.proxy_port_low || ports[at]
            > installation.proxy_port_high) {
            assert(!within(ports, installation.proxy_port_low, installation.proxy_port_high));
        }
    }
}

/// A run goes in order: it notes what it will give, gives it, notes what it gave,
/// runs the worker, takes everything back and forgets the note. What fails is
/// what it ends with, the first of it, and the rest is still cleared away.
pub proof fn law_a_run_goes_in_order<E>(state: RunState<E>, value: u32, error: E)
    ensures
        run_start::<E>().action == RunAction::WriteRequest,
        state.action == RunAction::WriteRequest ==> run_after(state, Ok(value)).action
            == RunAction::JournalPlanned && run_after(state, Err(error)).action
            == RunAction::Finish,
        state.action == RunAction::JournalPlanned ==> run_after(state, Ok(value)).action
            == RunAction::Apply && run_after(state, Err(error)).action == RunAction::RemoveRequest,
        state.action == RunAction::Apply ==> run_after(state, Ok(value)).action
            == RunAction::JournalApplied && run_after(state, Err(error)).action == (
        RunAction::Revoke { planned: true }),
        state.action == RunAction::JournalApplied ==> run_after(state, Ok(value)).action
            == RunAction::Launch && run_after(state, Err(error)).action == (RunAction::Revoke {
            planned: false,
        }),
        state.action == RunAction::Launch ==> run_after(state, Ok(value)).action == (
        RunAction::Revoke { planned: false }) && run_after(state, Err(error)).action == (
        RunAction::Revoke { planned: false }) && run_after(state, Ok(value)).exit_code == Some(
            value,
        ),
        state.action is Revoke ==> run_after(state, Ok(value)).action == RunAction::ClearJournal
            && run_after(state, Ok(value)).revoked && run_after(state, Err(error)).action
            == RunAction::RemoveRequest && run_after(state, Err(error)).revoke_failure == Some(
            error,
        ),
        state.action == RunAction::ClearJournal ==> run_after(state, Ok(value)).action
            == RunAction::RemoveRequest && run_after(state, Err(error)).action
            == RunAction::RemoveRequest && run_after(state, Err(error)).clear_failure == Some(
            error,
        ),
        state.action == RunAction::RemoveRequest ==> run_after(state, Ok(value)).action
            == RunAction::Finish && run_after(state, Err(error)).action == RunAction::Finish,
        state.action == RunAction::WriteRequest || state.action == RunAction::JournalPlanned
            || state.action == RunAction::Apply || state.action == RunAction::JournalApplied
            || state.action == RunAction::Launch ==> run_after(state, Err(error)).failure == Some(
            error,
        ),
        state.failure is Some ==> run_result(state) == Some(Err::<i32, E>(state.failure->0)),
        state.failure is None && state.revoke_failure is Some ==> run_result(state) == Some(
            Err::<i32, E>(state.revoke_failure->0),
        ),
        state.failure is None && state.revoke_failure is None && state.clear_failure is Some
            ==> run_result(state) == Some(Err::<i32, E>(state.clear_failure->0)),
        state.failure is None && state.revoke_failure is None && state.clear_failure is None
            && state.exit_code is Some ==> run_result(state) == Some(
            Ok::<i32, E>(
                (if state.exit_code->0 < 0x8000_0000 {
                    state.exit_code->0 as int
                } else {
                    state.exit_code->0 - 0x1_0000_0000
                }) as i32,
            ),
        ),
{
}

} // verus!
