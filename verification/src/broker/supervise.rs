//! Supervising a sandboxed process: waiting for it to end, for its calls and
//! for the launcher's answers.

use crate::broker::control;
use crate::broker::control::{Answer, ControlResponse, PendingQueries, PendingQuery};
use crate::broker::denials;
use crate::broker::denials::{Denials, ExitStatus};
use crate::broker::grant::Grant;
use vstd::prelude::*;

verus! {

/// What came of waiting for the process.
#[derive(Clone, Copy, Debug, PartialEq, Eq, Structural)]
pub enum WaitEvent {
    StillAlive,
    Ended(ExitStatus),
    Interrupted,
    Failed { errno: i32 },
}

/// What follows from waiting for the process.
#[derive(Clone, Copy, Debug, PartialEq, Eq, Structural)]
pub enum WaitStep {
    /// Wait again.
    Again,
    /// Go on supervising.
    GoOn,
    /// The process ended: tell what was denied.
    Finish(ExitStatus),
    /// Supervising failed.
    Fail { errno: i32 },
}

/// What is ready on a descriptor.
#[derive(Clone, Copy, Debug, PartialEq, Eq, Structural)]
pub struct Readiness {
    /// There is something to read.
    pub readable: bool,
    /// It was closed, or is in error.
    pub broken: bool,
    /// Anything else.
    pub other: bool,
}

/// What is done about the launcher's answers.
#[derive(Clone, Copy, Debug, PartialEq, Eq, Structural)]
pub enum ControlStep {
    /// Nothing.
    Skip,
    /// Read them.
    Read,
    /// No more will come.
    Close,
}

/// What follows from a look at the descriptors.
#[derive(Clone, Copy, Debug, PartialEq, Eq, Structural)]
pub enum PollStep {
    /// Nothing is ready: wait for the process again.
    Idle,
    /// No more calls will come: wait until the process ends.
    AwaitEnd,
    /// See to the answers, and afterwards to a call where `receive`.
    Serve { control: ControlStep, receive: bool },
}

/// Whether nothing is ready.
pub open spec fn is_idle(ready: Readiness) -> bool {
    !ready.readable && !ready.broken && !ready.other
}

/// What follows from a look at the descriptors, that of the answers being
/// looked at where it is open.
pub open spec fn poll_step(
    control_open: bool,
    notify: Readiness,
    control: Readiness,
) -> PollStep {
    if is_idle(notify) && is_idle(control) {
        PollStep::Idle
    } else if notify.broken {
        PollStep::AwaitEnd
    } else {
        PollStep::Serve {
            control: if !control_open {
                ControlStep::Skip
            } else if control.broken {
                ControlStep::Close
            } else if control.readable {
                ControlStep::Read
            } else {
                ControlStep::Skip
            },
            receive: notify.readable,
        }
    }
}

/// What follows from waiting for the process without blocking.
pub fn after_wait(event: WaitEvent) -> (step: WaitStep)
    ensures
        step == (match event {
            WaitEvent::StillAlive => WaitStep::GoOn,
            WaitEvent::Ended(status) => WaitStep::Finish(status),
            WaitEvent::Interrupted => WaitStep::Again,
            WaitEvent::Failed { errno } => WaitStep::Fail { errno },
        }),
{
    match event {
        WaitEvent::StillAlive => WaitStep::GoOn,
        WaitEvent::Ended(status) => WaitStep::Finish(status),
        WaitEvent::Interrupted => WaitStep::Again,
        WaitEvent::Failed { errno } => WaitStep::Fail { errno },
    }
}

/// What follows from waiting until the process ends.
pub fn after_final_wait(event: WaitEvent) -> (step: WaitStep)
    ensures
        step == (match event {
            WaitEvent::StillAlive => WaitStep::Finish(ExitStatus::Other),
            WaitEvent::Ended(status) => WaitStep::Finish(status),
            WaitEvent::Interrupted => WaitStep::Again,
            WaitEvent::Failed { errno } => WaitStep::Fail { errno },
        }),
{
    match event {
        WaitEvent::StillAlive => WaitStep::Finish(ExitStatus::Other),
        WaitEvent::Ended(status) => WaitStep::Finish(status),
        WaitEvent::Interrupted => WaitStep::Again,
        WaitEvent::Failed { errno } => WaitStep::Fail { errno },
    }
}

/// What a read of the launcher's answers gave.
#[derive(Debug)]
pub enum ControlRead {
    /// The launcher closed its side.
    Closed,
    /// The read failed. Whether the descriptor is broken is told by the next
    /// look at it.
    Failed,
    /// A piece.
    Piece(Vec<u8>),
}

/// What supervising a process keeps track of.
pub struct Supervisor<H> {
    /// Whether answers can still come.
    pub control_open: bool,
    /// Whether the launcher can be asked.
    pub query_enabled: bool,
    /// The calls that wait for an answer.
    pub pending: PendingQueries<H>,
    /// The start of an answer whose end has not come.
    pub buffer: Vec<u8>,
    /// The number of the next question.
    pub next_query_id: u64,
    /// What was denied without a question.
    pub denials: Denials,
}

/// Whether what is kept fits together: only questions that were asked wait for
/// an answer, nothing waits for an answer that cannot come, and nothing is
/// asked that cannot be answered.
pub open spec fn supervised<H>(supervisor: Supervisor<H>) -> bool {
    &&& forall|id: u64| #[trigger]
        supervisor.pending@.dom().contains(id) ==> 1 <= id < supervisor.next_query_id
    &&& supervisor.next_query_id >= 1
    &&& supervisor.query_enabled == supervisor.control_open
    &&& !supervisor.control_open ==> supervisor.pending@ == Map::<u64, PendingQuery<H>>::empty()
    &&& supervisor.buffer@.len() <= control::CONTROL_BUFFER_MAX
    &&& denials::no_repeats(supervisor.denials.pending@)
}

impl<H> Supervisor<H> {
    /// The start, where `interactive` says whether the launcher answers.
    pub fn new(interactive: bool) -> (supervisor: Self)
        ensures
            supervised(supervisor),
            supervisor.control_open == interactive,
            supervisor.query_enabled == interactive,
            supervisor.pending@ == Map::<u64, PendingQuery<H>>::empty(),
            supervisor.buffer@.len() == 0,
            supervisor.next_query_id == 1,
            supervisor.denials.pending@.len() == 0,
    {
        Supervisor {
            control_open: interactive,
            query_enabled: interactive,
            pending: PendingQueries::new(),
            buffer: Vec::new(),
            next_query_id: 1,
            denials: Denials::new(),
        }
    }

    /// What follows from a look at the descriptors.
    pub fn after_poll(&self, notify: Readiness, control: Readiness) -> (step: PollStep)
        ensures
            step == poll_step(self.control_open, notify, control),
    {
        let notify_idle = !notify.readable && !notify.broken && !notify.other;
        let control_idle = !control.readable && !control.broken && !control.other;
        if notify_idle && control_idle {
            return PollStep::Idle;
        }
        if notify.broken {
            return PollStep::AwaitEnd;
        }
        let control = if !self.control_open {
            ControlStep::Skip
        } else if control.broken {
            ControlStep::Close
        } else if control.readable {
            ControlStep::Read
        } else {
            ControlStep::Skip
        };
        PollStep::Serve { control, receive: notify.readable }
    }

    /// Takes in what a read of the answers gave: the complete answers, or
    /// `None` where no more will come.
    pub fn process_control_responses(&mut self, read: ControlRead) -> (lines: Option<Vec<Vec<u8>>>)
        requires
            supervised(*old(self)),
        ensures
            supervised(*final(self)),
            final(self).pending == old(self).pending,
            final(self).denials == old(self).denials,
            final(self).next_query_id == old(self).next_query_id,
            final(self).control_open == old(self).control_open,
            match read {
                ControlRead::Closed => lines is None && final(self).buffer@ == old(self).buffer@,
                ControlRead::Failed => lines matches Some(list) && list@.len() == 0 && final(self).buffer@ == old(self).buffer@,
                ControlRead::Piece(piece) => lines matches Some(list) && crate::bytes::texts(list@)
                    == control::lines_of(old(self).buffer@ + piece@) && final(self).buffer@
                    == control::kept_of(old(self).buffer@ + piece@),
            },
    {
        match read {
            ControlRead::Closed => None,
            ControlRead::Failed => Some(Vec::new()),
            ControlRead::Piece(piece) => {
                Some(control::take_lines(&mut self.buffer, piece.as_slice()))
            },
        }
    }

    /// Takes in an answer, and says what is done about the call it is about.
    pub fn answer(&mut self, response: &ControlResponse) -> (answer: Option<(u64, Answer<H>)>)
        requires
            supervised(*old(self)),
        ensures
            supervised(*final(self)),
            final(self).control_open == old(self).control_open,
            final(self).next_query_id == old(self).next_query_id,
            final(self).denials == old(self).denials,
            final(self).buffer == old(self).buffer,
            match control::written_number(response.query_id@) {
                Some(id) => if old(self).pending@.dom().contains(id) {
                    final(self).pending@ == old(self).pending@.remove(id) && answer == Some(
                        (
                            old(self).pending@[id].id,
                            control::answered(old(self).pending@[id], response.action),
                        ),
                    )
                } else {
                    final(self).pending@ == old(self).pending@ && answer is None
                },
                None => final(self).pending@ == old(self).pending@ && answer is None,
            },
    {
        self.pending.answer(response)
    }

    /// The launcher is gone: nothing more is asked, and every call that waits
    /// is to be denied, by the number by which the kernel knows it, each once.
    pub fn close_control(&mut self) -> (ids: Vec<u64>)
        requires
            supervised(*old(self)),
        ensures
            supervised(*final(self)),
            !final(self).control_open,
            !final(self).query_enabled,
            final(self).pending@ == Map::<u64, PendingQuery<H>>::empty(),
            final(self).denials == old(self).denials,
            final(self).next_query_id == old(self).next_query_id,
            final(self).buffer == old(self).buffer,
            control::lists_waiting(ids@, old(self).pending@),
            ids@.len() == old(self).pending@.dom().len(),
    {
        let ids = self.pending.deny_all_pending();
        self.control_open = false;
        self.query_enabled = false;
        ids
    }

    /// A call waits for the answer to a question that was just asked.
    pub fn await_answer(&mut self, query_id: u64, id: u64, grant: Option<Grant<H>>)
        requires
            supervised(*old(self)),
            old(self).control_open,
            1 <= query_id < old(self).next_query_id,
        ensures
            supervised(*final(self)),
            final(self).control_open,
            final(self).next_query_id == old(self).next_query_id,
            final(self).denials == old(self).denials,
            final(self).buffer == old(self).buffer,
            final(self).pending@ == old(self).pending@.insert(
                query_id,
                PendingQuery { id, grant },
            ),
    {
        self.pending.insert(query_id, PendingQuery { id, grant });
    }
}

/// Once the launcher is gone, no call is left to wait for it, and no look at
/// the descriptors turns to it again.
pub proof fn law_nothing_waits_for_a_gone_launcher<H>(
    supervisor: Supervisor<H>,
    notify: Readiness,
    control: Readiness,
)
    requires
        supervised(supervisor),
        !supervisor.control_open,
    ensures
        !supervisor.query_enabled,
        supervisor.pending@ == Map::<u64, PendingQuery<H>>::empty(),
        poll_step(supervisor.control_open, notify, control) matches PollStep::Serve {
            control: step,
            ..
        } ==> step == ControlStep::Skip,
{
}

/// The launcher going away is seen to before the next call, and never passed
/// over while the process can still be served.
pub proof fn law_gone_launcher_is_noticed(notify: Readiness, control: Readiness)
    requires
        control.broken,
        !notify.broken,
    ensures
        poll_step(true, notify, control) matches PollStep::Serve { control: step, .. } && step
            == ControlStep::Close,
{
}

/// Where no more calls will come, the end is awaited. Otherwise answers are read
/// where there are any and they can still come, and a call is taken where one is
/// there. Nothing is done where nothing is ready.
pub proof fn law_what_is_ready_is_served(
    control_open: bool,
    notify: Readiness,
    control: Readiness,
)
    ensures
        notify.broken ==> poll_step(control_open, notify, control) is AwaitEnd,
        !notify.readable && !notify.broken && !notify.other && !control.readable && !control.broken
            && !control.other ==> poll_step(control_open, notify, control) is Idle,
        !notify.broken && (notify.readable || notify.other || control.readable || control.broken
            || control.other) ==> (poll_step(control_open, notify, control) matches PollStep::Serve {
            control: step,
            receive,
        } && receive == notify.readable && step == (if control_open && control.broken {
            ControlStep::Close
        } else if control_open && control.readable {
            ControlStep::Read
        } else {
            ControlStep::Skip
        })),
{
}

} // verus!
