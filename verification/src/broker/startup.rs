//! Starting a sandboxed process: which calls it is stopped at, in what order it
//! confines itself, and how it tells its parent how that went.

use crate::broker::mutation::MutationNumber;
use crate::broker::syscalls::NotificationSyscalls;
use crate::bytes;
use crate::error::{Cause, Error};
use crate::policy;
use crate::policy::AccessPolicy;
use vstd::prelude::*;

verus! {

/// What a process is stopped at.
#[derive(Debug)]
pub struct BrokerPlan {
    pub notify_bind: bool,
    pub notify_connect: bool,
    pub notify_filesystem: bool,
    pub allow_local_binding: bool,
    pub network_restricted: bool,
    /// The numbers of the calls it is stopped at. Where there are none, it is
    /// not stopped.
    pub notify_syscalls: Vec<i64>,
}

/// Whether binds are decided on by the broker.
pub open spec fn brokers_bind(policy: AccessPolicy, network_restricted: bool) -> bool {
    network_restricted && (policy::binds_locally(policy.network_access) || !(policy::sockets_of(
        policy.network_access,
    ) is Unrestricted))
}

/// Whether connects are decided on by the broker. Where Unix sockets are left
/// open they still are, since a service manager could be asked to start a
/// process outside the sandbox.
pub open spec fn brokers_connect(
    policy: AccessPolicy,
    network_restricted: bool,
    needs_filesystem: bool,
) -> bool {
    ||| network_restricted && (policy::binds_locally(policy.network_access) || policy::ports_of(
        policy.network_access,
    ).len() > 0 || !(policy::sockets_of(policy.network_access) is Unrestricted))
    ||| needs_filesystem
    ||| policy::sockets_of(policy.network_access) is Unrestricted
}

/// The numbers of the calls that change the filesystem.
pub open spec fn numbers_of(numbers: Seq<MutationNumber>) -> Seq<i64> {
    numbers.map_values(|number: MutationNumber| number.nr)
}

/// The calls that a process is stopped at.
pub open spec fn notified(
    policy: AccessPolicy,
    network_restricted: bool,
    needs_filesystem: bool,
    calls: NotificationSyscalls,
    numbers: Seq<MutationNumber>,
) -> Seq<i64> {
    (if brokers_bind(policy, network_restricted) {
        seq![calls.bind]
    } else {
        Seq::empty()
    }) + (if brokers_connect(policy, network_restricted, needs_filesystem) {
        seq![calls.connect]
    } else {
        Seq::empty()
    }) + (if network_restricted && policy::binds_locally(policy.network_access) {
        seq![calls.sendto, calls.sendmsg, calls.sendmmsg]
    } else {
        Seq::empty()
    }) + (if needs_filesystem {
        seq![
            calls.openat,
            calls.openat2,
            calls.name_to_handle_at,
            calls.open_by_handle_at,
        ] + (match calls.open {
            Some(open) => seq![open],
            None => Seq::empty(),
        }) + numbers_of(numbers)
    } else {
        Seq::empty()
    })
}

fn append_numbers(list: &mut Vec<i64>, more: &[i64])
    ensures
        final(list)@ == old(list)@ + more@,
{
    let mut at: usize = 0;
    while at < more.len()
        invariant
            at <= more@.len(),
            list@ == old(list)@ + more@.take(at as int),
        decreases more.len() - at,
    {
        list.push(more[at]);
        assert(more@.take(at + 1) =~= more@.take(at as int).push(more@[at as int]));
        at += 1;
    }
    assert(more@.take(at as int) =~= more@);
}

/// What a process under a policy is stopped at.
pub fn run_broker(
    policy: &AccessPolicy,
    network_restricted: bool,
    needs_filesystem: bool,
    calls: &NotificationSyscalls,
    numbers: &[MutationNumber],
) -> (plan: BrokerPlan)
    ensures
        plan.notify_bind == brokers_bind(*policy, network_restricted),
        plan.notify_connect == brokers_connect(*policy, network_restricted, needs_filesystem),
        plan.notify_filesystem == needs_filesystem,
        plan.allow_local_binding == policy::binds_locally(policy.network_access),
        plan.network_restricted == network_restricted,
        plan.notify_syscalls@ == notified(
            *policy,
            network_restricted,
            needs_filesystem,
            *calls,
            numbers@,
        ),
{
    let notify_bind = network_restricted && policy.network_access.needs_bind_broker();
    let notify_connect = (network_restricted && policy.network_access.needs_network_broker())
        || needs_filesystem || policy.network_access.leaves_unix_sockets_open();
    let allow_local_binding = policy.network_access.allows_local_binding();
    let mut list: Vec<i64> = Vec::new();
    if notify_bind {
        list.push(calls.bind);
    }
    if notify_connect {
        list.push(calls.connect);
    }
    if network_restricted && allow_local_binding {
        append_numbers(&mut list, &calls.datagram_send_syscalls());
    }
    if needs_filesystem {
        append_numbers(&mut list, calls.filesystem_syscalls().as_slice());
        let ghost before = list@;
        let mut at: usize = 0;
        while at < numbers.len()
            invariant
                at <= numbers@.len(),
                list@ == before + numbers_of(numbers@.take(at as int)),
            decreases numbers.len() - at,
        {
            let ghost so_far = list@;
            list.push(numbers[at].nr);
            assert(numbers@.take(at + 1) =~= numbers@.take(at as int).push(numbers@[at as int]));
            assert(list@ =~= before + numbers_of(numbers@.take(at + 1)));
            at += 1;
        }
        assert(numbers@.take(at as int) =~= numbers@);
    }
    assert(list@ =~= notified(*policy, network_restricted, needs_filesystem, *calls, numbers@));
    BrokerPlan {
        notify_bind,
        notify_connect,
        notify_filesystem: needs_filesystem,
        allow_local_binding,
        network_restricted,
        notify_syscalls: list,
    }
}

/// How far a new process has confined itself.
#[derive(Clone, Copy, Debug, PartialEq, Eq, Structural)]
pub struct ChildState {
    /// The access policy is enforced.
    pub enforced: bool,
    /// The filters are loaded.
    pub filtered: bool,
    /// The parent holds the descriptor that the calls arrive on.
    pub handed_off: bool,
    /// Inherited descriptors are closed.
    pub closed: bool,
    /// A step failed.
    pub failed: bool,
}

/// What a new process does next.
#[derive(Clone, Copy, Debug, PartialEq, Eq, Structural)]
pub enum ChildAction {
    EnforcePolicy,
    LoadFilters,
    HandOffListener,
    CloseDescriptors,
    Exec,
    /// Tell what failed, through the parent where it still listens.
    Report { to_parent: bool },
}

/// What a new process does next: every step only after those before it.
pub open spec fn child_action(state: ChildState) -> ChildAction {
    if state.failed {
        ChildAction::Report { to_parent: !state.handed_off }
    } else if !state.enforced {
        ChildAction::EnforcePolicy
    } else if !state.filtered {
        ChildAction::LoadFilters
    } else if !state.handed_off {
        ChildAction::HandOffListener
    } else if !state.closed {
        ChildAction::CloseDescriptors
    } else {
        ChildAction::Exec
    }
}

/// The state after a step, which `done` says to have succeeded. The program
/// taking over is the end of the process, so a return from it is a failure.
pub open spec fn child_after(state: ChildState, done: bool) -> ChildState {
    match child_action(state) {
        ChildAction::Report { .. } => state,
        ChildAction::EnforcePolicy if done => ChildState { enforced: true, ..state },
        ChildAction::LoadFilters if done => ChildState { filtered: true, ..state },
        ChildAction::HandOffListener if done => ChildState { handed_off: true, ..state },
        ChildAction::CloseDescriptors if done => ChildState { closed: true, ..state },
        _ => ChildState { failed: true, ..state },
    }
}

/// A process that has done nothing yet.
pub open spec fn child_start() -> ChildState {
    ChildState { enforced: false, filtered: false, handed_off: false, closed: false, failed: false }
}

impl ChildState {
    /// A process that has done nothing yet.
    pub fn new() -> (state: Self)
        ensures
            state == child_start(),
    {
        ChildState {
            enforced: false,
            filtered: false,
            handed_off: false,
            closed: false,
            failed: false,
        }
    }

    /// What the process does next.
    pub fn action(&self) -> (action: ChildAction)
        ensures
            action == child_action(*self),
    {
        if self.failed {
            ChildAction::Report { to_parent: !self.handed_off }
        } else if !self.enforced {
            ChildAction::EnforcePolicy
        } else if !self.filtered {
            ChildAction::LoadFilters
        } else if !self.handed_off {
            ChildAction::HandOffListener
        } else if !self.closed {
            ChildAction::CloseDescriptors
        } else {
            ChildAction::Exec
        }
    }

    /// Takes in what came of the step.
    pub fn advance(&mut self, done: bool)
        ensures
            *final(self) == child_after(*old(self), done),
    {
        match self.action() {
            ChildAction::Report { .. } => {},
            ChildAction::EnforcePolicy => if done {
                self.enforced = true;
            } else {
                self.failed = true;
            },
            ChildAction::LoadFilters => if done {
                self.filtered = true;
            } else {
                self.failed = true;
            },
            ChildAction::HandOffListener => if done {
                self.handed_off = true;
            } else {
                self.failed = true;
            },
            ChildAction::CloseDescriptors => if done {
                self.closed = true;
            } else {
                self.failed = true;
            },
            ChildAction::Exec => {
                self.failed = true;
            },
        }
    }
}

/// Where a process is after steps with these outcomes.
pub open spec fn child_reached(outcomes: Seq<bool>) -> ChildState
    decreases outcomes.len(),
{
    if outcomes.len() == 0 {
        child_start()
    } else {
        child_after(child_reached(outcomes.drop_last()), outcomes.last())
    }
}

/// No program runs unconfined: whatever came of the steps before, the process
/// takes a program only once the policy is enforced, the filters are loaded
/// and the parent answers its calls.
pub proof fn law_program_runs_only_confined(outcomes: Seq<bool>)
    ensures
        child_action(child_reached(outcomes)) == ChildAction::Exec ==> {
            &&& outcomes.len() == 4
            &&& forall|i: int| 0 <= i < 4 ==> #[trigger] outcomes[i]
            &&& child_reached(outcomes).enforced
            &&& child_reached(outcomes).filtered
            &&& child_reached(outcomes).handed_off
        },
        child_reached(outcomes).failed ==> child_action(child_reached(outcomes)) is Report,
{
    lemma_child_path(outcomes);
}

proof fn lemma_child_path(outcomes: Seq<bool>)
    ensures
        ({
            let state = child_reached(outcomes);
            !state.failed ==> {
                &&& outcomes.len() <= 4
                &&& forall|i: int| 0 <= i < outcomes.len() ==> #[trigger] outcomes[i]
                &&& state.enforced == (outcomes.len() >= 1)
                &&& state.filtered == (outcomes.len() >= 2)
                &&& state.handed_off == (outcomes.len() >= 3)
                &&& state.closed == (outcomes.len() >= 4)
            }
        }),
    decreases outcomes.len(),
{
    if outcomes.len() > 0 {
        let less = outcomes.drop_last();
        lemma_child_path(less);
        assert forall|i: int|
            0 <= i < outcomes.len() && !child_reached(outcomes).failed implies #[trigger] outcomes[i] by {
            if i < less.len() {
                assert(less[i] == outcomes[i]);
            }
        }
    }
}

/// The first byte of a message to the parent: a descriptor comes with it.
pub const MARKER_READY: u8 = 0;

/// The first byte of a message to the parent: a record follows.
pub const MARKER_TRAP: u8 = 1;

/// The longest record that is taken from a new process.
pub const TRAP_MAX: usize = 1048576;

/// A failure to supervise, in words.
pub open spec fn says(failure: Error, message: Seq<char>) -> bool {
    failure matches Error::SuperviseFailed { source } && source.errno is None && source.message@
        == message && source.below@.len() == 0
}

fn supervise_message(message: &str) -> (failure: Error)
    ensures
        says(failure, message@),
{
    Error::supervise(Cause { errno: None, message: message.to_owned(), below: Vec::new() })
}

/// The bytes of a length.
pub open spec fn length_bytes(length: nat) -> Seq<u8> {
    seq![
        (length / 0x100_0000) as u8,
        (length / 0x1_0000 % 0x100) as u8,
        (length / 0x100 % 0x100) as u8,
        (length % 0x100) as u8,
    ]
}

/// A record as it is sent to the parent: the marker, the length, the record.
pub open spec fn framed(payload: Seq<u8>) -> Seq<u8> {
    seq![MARKER_TRAP] + length_bytes(payload.len()) + payload
}

/// A record as it is sent to the parent.
pub fn send_trap(payload: &[u8]) -> (frame: Result<Vec<u8>, Error>)
    ensures
        payload@.len() <= u32::MAX ==> (frame matches Ok(bytes) && bytes@ == framed(payload@)),
        payload@.len() > u32::MAX ==> (frame matches Err(failure) && says(
            failure,
            "notify: trap is too large"@,
        )),
{
    let length: usize = payload.len();
    if length > u32::MAX as usize {
        return Err(supervise_message("notify: trap is too large"));
    }
    let mut frame: Vec<u8> = vec![
        MARKER_TRAP,
        (length / 0x100_0000) as u8,
        (length / 0x1_0000 % 0x100) as u8,
        (length / 0x100 % 0x100) as u8,
        (length % 0x100) as u8,
    ];
    assert(frame@ =~= seq![MARKER_TRAP] + length_bytes(payload@.len()));
    bytes::append_bytes(&mut frame, payload);
    Ok(frame)
}

/// What a new process says first.
#[derive(Clone, Copy, Debug, PartialEq, Eq, Structural)]
pub enum StartupStep {
    /// The descriptor that came with it is the one its calls arrive on.
    Ready,
    /// A record follows: read its length.
    ReadLength,
}

/// What a new process says first, given the byte that was read, if any, and
/// whether a descriptor came with it.
pub fn get_notify_fd(byte: Option<u8>, has_descriptor: bool) -> (step: Result<StartupStep, Error>)
    ensures
        match byte {
            None => step matches Err(failure) && says(failure, "notify: unexpected eof"@),
            Some(marker) => if marker == MARKER_READY {
                if has_descriptor {
                    step == Ok::<StartupStep, Error>(StartupStep::Ready)
                } else {
                    step matches Err(failure) && says(failure, "notify: missing descriptor"@)
                }
            } else if marker == MARKER_TRAP {
                step == Ok::<StartupStep, Error>(StartupStep::ReadLength)
            } else {
                step matches Err(failure) && says(failure, "notify: invalid marker"@)
            },
        },
{
    match byte {
        None => Err(supervise_message("notify: unexpected eof")),
        Some(marker) => if marker == MARKER_READY {
            if has_descriptor {
                Ok(StartupStep::Ready)
            } else {
                Err(supervise_message("notify: missing descriptor"))
            }
        } else if marker == MARKER_TRAP {
            Ok(StartupStep::ReadLength)
        } else {
            Err(supervise_message("notify: invalid marker"))
        },
    }
}

/// The length that four bytes write.
pub open spec fn length_of(bytes: Seq<u8>) -> int {
    0x100_0000 * bytes[0] + 0x1_0000 * bytes[1] + 0x100 * bytes[2] + bytes[3]
}

/// The length of the record that follows.
pub fn trap_length(bytes: &[u8; 4]) -> (length: Result<usize, Error>)
    ensures
        length_of(bytes@) <= TRAP_MAX ==> length == Ok::<usize, Error>(
            length_of(bytes@) as usize,
        ),
        length_of(bytes@) > TRAP_MAX ==> (length matches Err(failure) && says(
            failure,
            "notify: trap is too large"@,
        )),
{
    let length: u32 = 0x100_0000 * (bytes[0] as u32) + 0x1_0000 * (bytes[1] as u32) + 0x100 * (
    bytes[2] as u32) + bytes[3] as u32;
    if length > TRAP_MAX as u32 {
        return Err(supervise_message("notify: trap is too large"));
    }
    Ok(length as usize)
}

/// Whether [`serde_json::from_str`] takes a text for a JSON value.
pub uninterp spec fn json_valid(text: Seq<char>) -> bool;

/// Calls [`serde_json::from_str`]. Claimed of it: whether a text is a JSON
/// value depends on the text alone.
#[verifier::external_body]
fn is_json(text: &str) -> (valid: bool)
    ensures
        valid == json_valid(text@),
{
    serde_json::from_str::<serde_json::Value>(text).is_ok()
}

/// What [`String::from_utf8`] says of bytes that are not valid UTF-8.
pub uninterp spec fn utf8_error_text(bytes: Seq<u8>) -> Seq<char>;

/// Calls [`String::from_utf8`]. Claimed of it: valid UTF-8 is decoded, and
/// anything else is rejected with a text that depends on the bytes alone.
#[verifier::external_body]
fn string_from_utf8(bytes: Vec<u8>) -> (text: Result<String, String>)
    ensures
        text is Ok <==> vstd::utf8::valid_utf8(bytes@),
        text is Ok ==> text->Ok_0@ == vstd::utf8::decode_utf8(bytes@),
        text is Err ==> text->Err_0@ == utf8_error_text(bytes@),
{
    String::from_utf8(bytes).map_err(|error| error.to_string())
}

/// A record that was read, or why it is none.
pub fn parse_trap(payload: Vec<u8>) -> (record: Result<String, Error>)
    ensures
        !vstd::utf8::valid_utf8(payload@) ==> (record matches Err(failure) && says(
            failure,
            "notify: invalid trap: "@ + utf8_error_text(payload@),
        )),
        vstd::utf8::valid_utf8(payload@) ==> {
            let text = vstd::utf8::decode_utf8(payload@);
            if json_valid(text) {
                record matches Ok(found) && found@ == text
            } else {
                record matches Err(failure) && says(failure, "notify: invalid trap"@)
            }
        },
{
    match string_from_utf8(payload) {
        Ok(text) => accept_trap(is_json(text.as_str()), text),
        Err(error) => {
            let mut message = "notify: invalid trap: ".to_owned();
            message.append(error.as_str());
            Err(supervise_message(message.as_str()))
        },
    }
}

/// A record that was read, given whether it is a JSON value.
pub fn accept_trap(valid: bool, text: String) -> (record: Result<String, Error>)
    ensures
        valid ==> record == Ok::<String, Error>(text),
        !valid ==> (record matches Err(failure) && says(failure, "notify: invalid trap"@)),
{
    if valid {
        Ok(text)
    } else {
        Err(supervise_message("notify: invalid trap"))
    }
}

/// A record that was sent is read back: its marker, its length and itself.
pub proof fn law_sent_record_is_read_back(payload: Seq<u8>)
    requires
        payload.len() <= TRAP_MAX,
    ensures
        framed(payload)[0] == MARKER_TRAP,
        length_of(framed(payload).subrange(1, 5)) == payload.len(),
        framed(payload).skip(5) == payload,
{
    let frame = framed(payload);
    let length = payload.len();
    assert(frame.subrange(1, 5) =~= length_bytes(length));
    assert(frame.skip(5) =~= payload);
}

/// The calls that are stopped for a mediated filesystem include all that open
/// files and all that change them.
pub proof fn law_mediated_filesystem_stops_every_file_call(
    policy: AccessPolicy,
    network_restricted: bool,
    calls: NotificationSyscalls,
    numbers: Seq<MutationNumber>,
    syscall: i64,
)
    requires
        crate::broker::syscalls::opens(calls, syscall) || crate::broker::syscalls::takes_handles(
            calls,
            syscall,
        ) || numbers_of(numbers).contains(syscall),
    ensures
        notified(policy, network_restricted, true, calls, numbers).contains(syscall),
{
    let all = notified(policy, network_restricted, true, calls, numbers);
    let files = seq![
        calls.openat,
        calls.openat2,
        calls.name_to_handle_at,
        calls.open_by_handle_at,
    ] + (match calls.open {
        Some(open) => seq![open],
        None => Seq::empty(),
    }) + numbers_of(numbers);
    let before = all.len() - files.len();
    assert(all =~= all.take(before) + files);
    let i = if syscall == calls.openat {
        0
    } else if syscall == calls.openat2 {
        1
    } else if syscall == calls.name_to_handle_at {
        2
    } else if syscall == calls.open_by_handle_at {
        3
    } else if calls.open == Some(syscall) {
        4
    } else {
        let list = numbers_of(numbers);
        let k = choose|k: int| 0 <= k < list.len() && list[k] == syscall;
        files.len() - list.len() + k
    };
    assert(files[i] == syscall);
    assert(all[before + i] == syscall);
}

/// A process is stopped at exactly the calls that its policy asks for: at binds
/// and connects where they are brokered, at sends where local addresses may be
/// bound, and where files are mediated at every call that opens, goes by handles
/// or changes them.
pub proof fn law_a_process_is_stopped_where_its_policy_asks(
    policy: AccessPolicy,
    network_restricted: bool,
    needs_filesystem: bool,
    calls: NotificationSyscalls,
    numbers: Seq<MutationNumber>,
    at: int,
    syscall: i64,
)
    ensures
        ({
            let list = notified(
                policy,
                network_restricted,
                needs_filesystem,
                calls,
                numbers,
            );
            let restricted = policy.network_access is Restricted;
            let local = restricted && policy.network_access->bind
                == policy::IpBindAccess::Localhost;
            let all_sockets = !restricted || policy.network_access->unix_socket_access is Unrestricted;
            let ports = restricted && policy.network_access->connect_tcp_ports@.len() > 0;
            let binds = network_restricted && (local || !all_sockets);
            let connects = network_restricted && (local || ports || !all_sockets)
                || needs_filesystem || all_sockets;
            let sends = network_restricted && local;
            &&& binds ==> list.contains(calls.bind)
            &&& connects ==> list.contains(calls.connect)
            &&& sends ==> list.contains(calls.sendto) && list.contains(calls.sendmsg)
                && list.contains(calls.sendmmsg)
            &&& needs_filesystem ==> list.contains(calls.openat) && list.contains(calls.openat2)
                && list.contains(calls.name_to_handle_at) && list.contains(calls.open_by_handle_at)
            &&& needs_filesystem && calls.open is Some ==> list.contains(calls.open->0)
            &&& needs_filesystem && 0 <= at < numbers.len() ==> list.contains(numbers[at].nr)
            &&& list.contains(syscall) ==> (binds && syscall == calls.bind) || (connects && syscall
                == calls.connect) || (sends && (syscall == calls.sendto || syscall == calls.sendmsg
                || syscall == calls.sendmmsg)) || (needs_filesystem && (syscall == calls.openat
                || syscall == calls.openat2 || syscall == calls.name_to_handle_at || syscall
                == calls.open_by_handle_at || calls.open == Some(syscall) || exists|i: int|
                0 <= i < numbers.len() && (#[trigger] numbers[i]).nr == syscall))
        }),
{
    let first = if brokers_bind(policy, network_restricted) {
        seq![calls.bind]
    } else {
        Seq::empty()
    };
    let second = if brokers_connect(policy, network_restricted, needs_filesystem) {
        seq![calls.connect]
    } else {
        Seq::empty()
    };
    let third = if network_restricted && policy::binds_locally(policy.network_access) {
        seq![calls.sendto, calls.sendmsg, calls.sendmmsg]
    } else {
        Seq::empty()
    };
    let fixed = seq![
        calls.openat,
        calls.openat2,
        calls.name_to_handle_at,
        calls.open_by_handle_at,
    ];
    let old = match calls.open {
        Some(open) => seq![open],
        None => Seq::empty(),
    };
    let changes = numbers_of(numbers);
    let fourth = if needs_filesystem {
        fixed + old + changes
    } else {
        Seq::empty()
    };
    let list = notified(policy, network_restricted, needs_filesystem, calls, numbers);
    assert(list == first + second + third + fourth);
    let a = first.len() as int;
    let b = a + second.len();
    let c = b + third.len();
    assert(first.len() > 0 ==> list[0] == calls.bind);
    assert(second.len() > 0 ==> list[a] == calls.connect);
    if third.len() > 0 {
        assert(list[b] == calls.sendto && list[b + 1] == calls.sendmsg && list[b + 2]
            == calls.sendmmsg);
    }
    if needs_filesystem {
        assert(list[c] == calls.openat && list[c + 1] == calls.openat2);
        assert(list[c + 2] == calls.name_to_handle_at && list[c + 3] == calls.open_by_handle_at);
        assert(calls.open is Some ==> list[c + 4] == calls.open->0);
        if 0 <= at < numbers.len() {
            assert(changes[at] == numbers[at].nr);
            assert(list[c + 4 + old.len() + at] == changes[at]);
        }
    }
    if list.contains(syscall) {
        let i = choose|i: int| 0 <= i < list.len() && list[i] == syscall;
        if i < a {
            assert(first[i] == syscall);
        } else if i < b {
            assert(second[i - a] == syscall);
        } else if i < c {
            assert(third[i - b] == syscall);
        } else {
            assert(fourth[i - c] == syscall);
            let k = i - c;
            if k < 4 {
                assert(fixed[k] == syscall);
            } else if k < 4 + old.len() {
                assert(old[k - 4] == syscall);
            } else {
                let j = k - 4 - old.len();
                assert(changes[j] == syscall);
                assert(numbers[j].nr == syscall);
            }
        }
    }
}

/// A process whose steps all succeed confines itself in this order and then
/// takes its program. The first step that fails ends it, told to the parent as
/// long as the parent does not answer its calls yet.
pub proof fn law_a_process_confines_itself_in_order(state: ChildState)
    ensures
        child_action(child_start()) == ChildAction::EnforcePolicy,
        child_action(child_after(child_start(), true)) == ChildAction::LoadFilters,
        child_action(child_after(child_after(child_start(), true), true))
            == ChildAction::HandOffListener,
        child_action(child_after(child_after(child_after(child_start(), true), true), true))
            == ChildAction::CloseDescriptors,
        child_action(
            child_after(child_after(child_after(child_after(child_start(), true), true), true), true),
        ) == ChildAction::Exec,
        !state.failed ==> child_after(state, false).failed && child_action(
            child_after(state, false),
        ) == (ChildAction::Report { to_parent: !state.handed_off }),
        state.failed ==> child_after(state, true) == state && child_after(state, false) == state,
{
}

/// A record is sent as a marker, its length with the high byte first, and
/// itself.
pub proof fn law_records_are_framed_by_their_length(payload: Seq<u8>)
    requires
        payload.len() <= 0xffff_ffff,
    ensures
        framed(payload).len() == 5 + payload.len(),
        framed(payload)[0] == 1,
        0x100_0000 * framed(payload)[1] + 0x1_0000 * framed(payload)[2] + 0x100 * framed(payload)[3]
            + framed(payload)[4] == payload.len(),
        forall|i: int| 0 <= i < payload.len() ==> framed(payload)[5 + i] == #[trigger] payload[i],
{
    let frame = framed(payload);
    assert(frame.subrange(1, 5) =~= length_bytes(payload.len()));
    assert(frame[1] == length_bytes(payload.len())[0] && frame[2] == length_bytes(payload.len())[1]);
    assert(frame[3] == length_bytes(payload.len())[2] && frame[4] == length_bytes(payload.len())[3]);
}

} // verus!
