//! The accesses that were denied without a question, told when the process
//! ends.

use crate::broker::address::BrokerError;
use crate::broker::grant::{Grant, Handled, NotificationResult, SocketGrant};
use crate::text;
use crate::trap;
use crate::trap::{FilesystemDenial, NetworkOperation, ProcessContext, Trap, TrapOperation};
use vstd::prelude::*;

verus! {

/// A denied access.
#[derive(Debug)]
pub enum Denial {
    Filesystem(FilesystemDenial),
    Network {
        operation: NetworkOperation,
        target: String,
        syscall: &'static str,
        process: ProcessContext,
    },
}

/// How a process ended.
#[derive(Clone, Copy, Debug, PartialEq, Eq, Structural)]
pub enum ExitStatus {
    Exited { code: i32 },
    Signaled { signal: u8 },
    Other,
}

/// The code that stands for how a process ended.
pub open spec fn exit_number(status: ExitStatus) -> int {
    match status {
        ExitStatus::Exited { code } => code as int,
        ExitStatus::Signaled { signal } => 128 + signal,
        ExitStatus::Other => 1,
    }
}

/// The code that stands for how a process ended: its own, one above 128 for a
/// signal, and 1 for anything else.
pub fn exit_code(status: ExitStatus) -> (code: i32)
    ensures
        code == exit_number(status),
{
    match status {
        ExitStatus::Exited { code } => code,
        ExitStatus::Signaled { signal } => 128 + signal as i32,
        ExitStatus::Other => 1,
    }
}

/// Whether two records tell of the same denied access.
pub open spec fn same_access(left: Denial, right: Denial) -> bool {
    match left {
        Denial::Filesystem(denial) => right matches Denial::Filesystem(other)
            && trap::same_denial(denial, other),
        Denial::Network { operation, target, syscall, process } => right matches Denial::Network {
            operation: other_operation,
            target: other_target,
            syscall: other_syscall,
            process: other_process,
        } && operation == other_operation && target@ == other_target@ && syscall@
            == other_syscall@ && trap::same_process(process, other_process),
    }
}

/// Whether a denial is told even where the process succeeded: denied reads are
/// not, since programs probe for files they can do without.
pub open spec fn told_on_success(denial: Denial) -> bool {
    match denial {
        Denial::Filesystem(denial) => denial.operation == TrapOperation::Write,
        Denial::Network { .. } => true,
    }
}

/// Whether a record tells of a denial, without a question.
pub open spec fn tells(trap: Trap, denial: Denial) -> bool {
    match denial {
        Denial::Filesystem(denial) => trap matches Trap::Filesystem(record)
            && trap::reports_denial(record, denial, None),
        Denial::Network { operation, target, syscall, process } => trap::reports_network(
            trap,
            operation,
            target,
            syscall,
            process,
            None,
        ),
    }
}

impl Denial {
    /// Whether both tell of the same denied access.
    pub fn is_same(&self, other: &Denial) -> (same: bool)
        ensures
            same == same_access(*self, *other),
    {
        match (self, other) {
            (Denial::Filesystem(denial), Denial::Filesystem(other)) => denial.is_same(other),
            (
                Denial::Network { operation, target, syscall, process },
                Denial::Network {
                    operation: other_operation,
                    target: other_target,
                    syscall: other_syscall,
                    process: other_process,
                },
            ) => *operation == *other_operation && text::text_equal(
                target.as_str(),
                other_target.as_str(),
            ) && text::text_equal(syscall, other_syscall) && process.is_same(other_process),
            _ => false,
        }
    }

    /// Whether the denial is told even where the process succeeded.
    pub fn report_on_success(&self) -> (told: bool)
        ensures
            told == told_on_success(*self),
    {
        match self {
            Denial::Filesystem(denial) => denial.operation == TrapOperation::Write,
            Denial::Network { .. } => true,
        }
    }

    /// The record that tells of the denial.
    pub fn into_trap(self) -> (trap: Trap)
        ensures
            tells(trap, self),
    {
        match self {
            Denial::Filesystem(denial) => Trap::filesystem(denial, None),
            Denial::Network { operation, target, syscall, process } => Trap::network(
                operation,
                target,
                syscall,
                process,
                None,
            ),
        }
    }
}

/// The denied accesses, each once, in the order they came in.
#[derive(Debug)]
pub struct Denials {
    pub pending: Vec<Denial>,
}

/// Whether a list holds a denial.
pub open spec fn holds(list: Seq<Denial>, denial: Denial) -> bool {
    exists|i: int| 0 <= i < list.len() && same_access(#[trigger] list[i], denial)
}

/// A list after a denial has come in.
pub open spec fn recorded(list: Seq<Denial>, denial: Denial) -> Seq<Denial> {
    if holds(list, denial) {
        list
    } else {
        list.push(denial)
    }
}

/// Whether no access is listed twice.
pub open spec fn no_repeats(list: Seq<Denial>) -> bool {
    forall|i: int, j: int|
        0 <= i < j < list.len() ==> !same_access(#[trigger] list[i], #[trigger] list[j])
}

/// The denials that are told of a process that ended with a code.
pub open spec fn told(list: Seq<Denial>, code: int) -> Seq<Denial>
    decreases list.len(),
{
    if list.len() == 0 {
        Seq::empty()
    } else if code != 0 || told_on_success(list.last()) {
        told(list.drop_last(), code).push(list.last())
    } else {
        told(list.drop_last(), code)
    }
}

/// Whether each record tells of its denial.
pub open spec fn tells_all(traps: Seq<Trap>, list: Seq<Denial>) -> bool {
    &&& traps.len() == list.len()
    &&& forall|i: int| 0 <= i < list.len() ==> tells(#[trigger] traps[i], list[i])
}

impl Denials {
    /// No denials yet.
    pub fn new() -> (denials: Self)
        ensures
            denials.pending@ == Seq::<Denial>::empty(),
    {
        Denials { pending: Vec::new() }
    }

    /// Adds a denial that is not listed yet.
    pub fn record(&mut self, denial: Denial)
        ensures
            final(self).pending@ == recorded(old(self).pending@, denial),
            no_repeats(old(self).pending@) ==> no_repeats(final(self).pending@),
    {
        let mut at: usize = 0;
        while at < self.pending.len()
            invariant
                at <= self.pending.len(),
                self.pending@ == old(self).pending@,
                forall|i: int|
                    0 <= i < at ==> !same_access(#[trigger] self.pending@[i], denial),
            decreases self.pending.len() - at,
        {
            if self.pending[at].is_same(&denial) {
                assert(holds(self.pending@, denial));
                return;
            }
            at += 1;
        }
        self.pending.push(denial);
    }

    /// The code of the process and the records of the denials to be told.
    pub fn emit(self, status: ExitStatus) -> (report: (i32, Vec<Trap>))
        ensures
            report.0 == exit_number(status),
            tells_all(report.1@, told(self.pending@, exit_number(status))),
    {
        let code = exit_code(status);
        let ghost list = self.pending@;
        let mut traps: Vec<Trap> = Vec::new();
        let mut rest = self.pending;
        let ghost mut at: int = 0;
        assert(list.skip(0) =~= list);
        while rest.len() > 0
            invariant
                0 <= at <= list.len(),
                rest@ == list.skip(at),
                code == exit_number(status),
                tells_all(traps@, told(list.take(at), code as int)),
            decreases rest.len(),
        {
            let denial = rest.remove(0);
            proof {
                let now = list.take(at + 1);
                assert(now.drop_last() =~= list.take(at));
                assert(now.last() == denial);
                assert(rest@ =~= list.skip(at + 1));
                at = at + 1;
            }
            if code != 0 || denial.report_on_success() {
                traps.push(denial.into_trap());
            }
        }
        assert(list.take(at) =~= list);
        (code, traps)
    }
}

/// What a denied access comes to: a question where the launcher can be asked,
/// and otherwise a record and a refusal.
pub fn deny_network<H>(
    operation: NetworkOperation,
    target: String,
    syscall: &'static str,
    process: ProcessContext,
    grant: SocketGrant<H>,
    denials: &mut Denials,
    query_enabled: bool,
    next_query_id: &mut u64,
) -> (result: Handled<H>)
    requires
        *old(next_query_id) < u64::MAX,
    ensures
        query_enabled ==> (result matches Ok(NotificationResult::Query(decision))
            && decision.query_id == *old(next_query_id) && decision.grant == Some(
            Grant::Socket(grant),
        ) && trap::reports_network(
            decision.trap,
            operation,
            target,
            syscall,
            process,
            Some(decision.query_id),
        )) && *final(next_query_id) == *old(next_query_id) + 1 && final(denials).pending@ == old(
            denials,
        ).pending@,
        !query_enabled ==> result == Err::<NotificationResult<H>, _>(BrokerError::PolicyDenied)
            && *final(next_query_id) == *old(next_query_id) && final(denials).pending@ == recorded(
            old(denials).pending@,
            Denial::Network { operation, target, syscall, process },
        ),
        no_repeats(old(denials).pending@) ==> no_repeats(final(denials).pending@),
{
    if query_enabled {
        let query_id: u64 = *next_query_id;
        *next_query_id = query_id + 1;
        let record = Trap::network(operation, target, syscall, process, Some(query_id));
        return Ok(NotificationResult::query(query_id, record, Some(Grant::Socket(grant))));
    }
    denials.record(Denial::Network { operation, target, syscall, process });
    Err(BrokerError::PolicyDenied)
}

/// The same denial again is told once: what comes in twice is listed once.
pub proof fn law_repeated_denial_is_listed_once(list: Seq<Denial>, denial: Denial)
    ensures
        recorded(recorded(list, denial), denial) == recorded(list, denial),
        holds(recorded(list, denial), denial),
{
    let once = recorded(list, denial);
    if !holds(list, denial) {
        assert(same_access(once[once.len() - 1], denial));
    }
    assert(holds(once, denial));
}

/// A process that fails has every denial told. One that succeeds has its
/// denied writes and network accesses told.
pub proof fn law_failure_tells_every_denial(list: Seq<Denial>, code: int)
    ensures
        code != 0 ==> told(list, code) == list,
        forall|i: int|
            0 <= i < list.len() && told_on_success(#[trigger] list[i]) ==> told(
                list,
                code,
            ).contains(list[i]),
    decreases list.len(),
{
    if list.len() > 0 {
        let rest = list.drop_last();
        law_failure_tells_every_denial(rest, code);
        if code != 0 {
            assert(told(list, code) =~= list);
        }
        assert forall|i: int| 0 <= i < list.len() && told_on_success(#[trigger] list[i]) implies told(
            list,
            code,
        ).contains(list[i]) by {
            let all = told(list, code);
            if i == list.len() - 1 {
                assert(all[all.len() - 1] == list[i]);
            } else {
                assert(rest[i] == list[i]);
                let shown = told(rest, code);
                let k = choose|k: int| 0 <= k < shown.len() && shown[k] == list[i];
                assert(all[k] == list[i]);
            }
        }
    } else {
        assert(told(list, code) =~= list);
    }
}

/// A denied write and a denied network access are told whatever the process came
/// to. A denied read is told only where the process failed. Nothing is told that
/// was not denied.
pub proof fn law_success_tells_writes_and_network(list: Seq<Denial>, denial: Denial, code: int)
    ensures
        list.contains(denial) && (denial is Network || denial is Filesystem
            && denial->Filesystem_0.operation == TrapOperation::Write) ==> told(
            list,
            code,
        ).contains(denial),
        list.contains(denial) && code != 0 ==> told(list, code).contains(denial),
        denial is Filesystem && denial->Filesystem_0.operation == TrapOperation::Read ==> !told(
            list,
            0,
        ).contains(denial),
        told(list, code).contains(denial) ==> list.contains(denial),
    decreases list.len(),
{
    if list.len() > 0 {
        let less = list.drop_last();
        let rest = told(less, code);
        let all = told(list, code);
        law_success_tells_writes_and_network(less, denial, code);
        law_success_tells_writes_and_network(less, denial, 0);
        if list.contains(denial) {
            let i = choose|i: int| 0 <= i < list.len() && list[i] == denial;
            if i < less.len() {
                assert(less[i] == denial);
                if rest.contains(denial) {
                    let j = choose|j: int| 0 <= j < rest.len() && rest[j] == denial;
                    assert(all[j] == denial);
                }
            } else if code != 0 || told_on_success(denial) {
                assert(all[rest.len() as int] == denial);
            }
        }
        if all.contains(denial) {
            let j = choose|j: int| 0 <= j < all.len() && all[j] == denial;
            if j < rest.len() {
                assert(rest[j] == denial);
                let i = choose|i: int| 0 <= i < less.len() && less[i] == denial;
                assert(list[i] == denial);
            } else {
                assert(list[list.len() - 1] == denial);
            }
        }
        let quiet = told(list, 0);
        let before = told(less, 0);
        if quiet.contains(denial) {
            let j = choose|j: int| 0 <= j < quiet.len() && quiet[j] == denial;
            if j < before.len() {
                assert(before[j] == denial);
            }
        }
    }
}

/// A process is told by its own code, by 128 and its signal, or else by 1.
pub proof fn law_ends_have_their_codes(code: i32, signal: u8)
    ensures
        exit_number(ExitStatus::Exited { code }) == code,
        exit_number(ExitStatus::Signaled { signal }) == 128 + signal,
        exit_number(ExitStatus::Other) == 1,
{
}

/// Two denied network accesses are the same where they agree in all they tell,
/// and none is the same as a denied file.
pub proof fn law_denials_differ_by_what_they_tell(
    operation: NetworkOperation,
    other_operation: NetworkOperation,
    target: String,
    other_target: String,
    syscall: &'static str,
    other_syscall: &'static str,
    process: ProcessContext,
    other_process: ProcessContext,
    denial: FilesystemDenial,
    other: FilesystemDenial,
)
    ensures
        ({
            let left = Denial::Network { operation, target, syscall, process };
            let right = Denial::Network {
                operation: other_operation,
                target: other_target,
                syscall: other_syscall,
                process: other_process,
            };
            &&& same_access(left, right) <==> operation == other_operation && target@
                == other_target@ && syscall@ == other_syscall@ && trap::same_process(
                process,
                other_process,
            )
            &&& !same_access(left, Denial::Filesystem(denial))
            &&& !same_access(Denial::Filesystem(denial), left)
            &&& same_access(Denial::Filesystem(denial), Denial::Filesystem(other))
                <==> trap::same_denial(denial, other)
        }),
{
}

/// A denial that is not listed yet is added behind the others, and one that is
/// changes nothing.
pub proof fn law_new_denials_come_last(list: Seq<Denial>, denial: Denial, at: int)
    ensures
        (forall|i: int| 0 <= i < list.len() ==> !same_access(#[trigger] list[i], denial))
            ==> recorded(list, denial) == list.push(denial),
        0 <= at < list.len() && same_access(list[at], denial) ==> recorded(list, denial) == list,
{
}

} // verus!
