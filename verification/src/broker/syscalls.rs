//! The calls that a sandboxed process is stopped at, by their numbers on this
//! machine.

use vstd::prelude::*;

verus! {

/// The numbers of the calls that are not tied to one file operation.
#[derive(Clone, Copy, Debug, PartialEq, Eq, Structural)]
pub struct NotificationSyscalls {
    pub bind: i64,
    pub connect: i64,
    pub socket: i64,
    pub io_uring_setup: i64,
    pub sendto: i64,
    pub sendmsg: i64,
    pub sendmmsg: i64,
    pub openat: i64,
    pub openat2: i64,
    /// Newer machines do not have it.
    pub open: Option<i64>,
    pub name_to_handle_at: i64,
    pub open_by_handle_at: i64,
}

/// The calls that send datagrams.
#[derive(Clone, Copy, Debug, PartialEq, Eq, Structural)]
pub enum SendSyscall {
    SendTo,
    SendMsg,
    SendMmsg,
}

/// Whether a call sends datagrams.
pub open spec fn sends(syscalls: NotificationSyscalls, syscall: i64) -> bool {
    syscall == syscalls.sendto || syscall == syscalls.sendmsg || syscall == syscalls.sendmmsg
}

/// Whether a call opens a file by its path.
pub open spec fn opens(syscalls: NotificationSyscalls, syscall: i64) -> bool {
    syscall == syscalls.openat || syscall == syscalls.openat2 || syscalls.open == Some(syscall)
}

/// Whether a call reaches files by handles, past every path.
pub open spec fn takes_handles(syscalls: NotificationSyscalls, syscall: i64) -> bool {
    syscall == syscalls.name_to_handle_at || syscall == syscalls.open_by_handle_at
}

/// Which call sends the datagrams.
pub open spec fn send_of(syscalls: NotificationSyscalls, syscall: i64) -> Option<SendSyscall> {
    if syscall == syscalls.sendto {
        Some(SendSyscall::SendTo)
    } else if syscall == syscalls.sendmsg {
        Some(SendSyscall::SendMsg)
    } else if syscall == syscalls.sendmmsg {
        Some(SendSyscall::SendMmsg)
    } else {
        None
    }
}

/// The calls that reach files, apart from those that change them.
pub open spec fn reaches_files(syscalls: NotificationSyscalls) -> Seq<i64> {
    seq![
        syscalls.openat,
        syscalls.openat2,
        syscalls.name_to_handle_at,
        syscalls.open_by_handle_at,
    ] + (match syscalls.open {
        Some(open) => seq![open],
        None => Seq::empty(),
    })
}

/// Every call that has a number.
pub open spec fn all_numbers(syscalls: NotificationSyscalls) -> Seq<i64> {
    seq![
        syscalls.bind,
        syscalls.connect,
        syscalls.socket,
        syscalls.io_uring_setup,
        syscalls.sendto,
        syscalls.sendmsg,
        syscalls.sendmmsg,
    ] + reaches_files(syscalls)
}

impl NotificationSyscalls {
    /// The calls that send datagrams.
    pub fn datagram_send_syscalls(&self) -> (list: [i64; 3])
        ensures
            list@ == seq![self.sendto, self.sendmsg, self.sendmmsg],
    {
        let list = [self.sendto, self.sendmsg, self.sendmmsg];
        assert(list@ =~= seq![self.sendto, self.sendmsg, self.sendmmsg]);
        list
    }

    /// Whether a call sends datagrams.
    pub fn is_datagram_send(&self, syscall: i64) -> (yes: bool)
        ensures
            yes == sends(*self, syscall),
    {
        syscall == self.sendto || syscall == self.sendmsg || syscall == self.sendmmsg
    }

    /// Which call sends the datagrams.
    pub fn datagram_send(&self, syscall: i64) -> (call: Option<SendSyscall>)
        ensures
            call == send_of(*self, syscall),
    {
        if syscall == self.sendto {
            Some(SendSyscall::SendTo)
        } else if syscall == self.sendmsg {
            Some(SendSyscall::SendMsg)
        } else if syscall == self.sendmmsg {
            Some(SendSyscall::SendMmsg)
        } else {
            None
        }
    }

    /// Whether a call opens a file by its path.
    pub fn is_open(&self, syscall: i64) -> (yes: bool)
        ensures
            yes == opens(*self, syscall),
    {
        syscall == self.openat || syscall == self.openat2 || match self.open {
            Some(open) => open == syscall,
            None => false,
        }
    }

    /// Whether a call reaches files by handles.
    pub fn is_handle_syscall(&self, syscall: i64) -> (yes: bool)
        ensures
            yes == takes_handles(*self, syscall),
    {
        syscall == self.name_to_handle_at || syscall == self.open_by_handle_at
    }

    /// The calls that reach files, apart from those that change them. Reading
    /// a file's metadata is not among them: programs walk through directories
    /// that they may not read.
    pub fn filesystem_syscalls(&self) -> (list: Vec<i64>)
        ensures
            list@ == reaches_files(*self),
            forall|syscall: i64| #[trigger]
                list@.contains(syscall) <==> opens(*self, syscall) || takes_handles(
                    *self,
                    syscall,
                ),
    {
        let mut list = vec![
            self.openat,
            self.openat2,
            self.name_to_handle_at,
            self.open_by_handle_at,
        ];
        if let Some(open) = self.open {
            list.push(open);
        }
        assert(list@ =~= reaches_files(*self));
        assert(list@[0] == self.openat && list@[1] == self.openat2);
        assert(list@[2] == self.name_to_handle_at && list@[3] == self.open_by_handle_at);
        assert(self.open is Some ==> list@[4] == self.open->0);
        list
    }
}

/// Where every call has a number of its own, the list of those that reach files
/// names none twice, and none that binds, connects or sends.
pub proof fn law_calls_that_reach_files_are_listed_once(syscalls: NotificationSyscalls)
    requires
        all_numbers(syscalls).no_duplicates(),
    ensures
        reaches_files(syscalls).no_duplicates(),
        !reaches_files(syscalls).contains(syscalls.bind),
        !reaches_files(syscalls).contains(syscalls.connect),
        forall|syscall: i64| sends(syscalls, syscall) ==> !(#[trigger] reaches_files(
            syscalls,
        ).contains(syscall)),
{
    let all = all_numbers(syscalls);
    let list = reaches_files(syscalls);
    assert forall|i: int| 0 <= i < list.len() implies #[trigger] list[i] == all[i + 7] by {}
    assert(all[0] == syscalls.bind && all[1] == syscalls.connect);
    assert(all[4] == syscalls.sendto && all[5] == syscalls.sendmsg && all[6] == syscalls.sendmmsg);
}

/// Each call is known by its number: the three that send, the three that open by
/// a path, and the two that go by handles.
pub proof fn law_calls_are_known_by_their_numbers(syscalls: NotificationSyscalls, syscall: i64)
    ensures
        sends(syscalls, syscall) <==> syscall == syscalls.sendto || syscall == syscalls.sendmsg
            || syscall == syscalls.sendmmsg,
        opens(syscalls, syscall) <==> syscall == syscalls.openat || syscall == syscalls.openat2
            || syscalls.open == Some(syscall),
        takes_handles(syscalls, syscall) <==> syscall == syscalls.name_to_handle_at || syscall
            == syscalls.open_by_handle_at,
        send_of(syscalls, syscalls.sendto) == Some(SendSyscall::SendTo),
        syscalls.sendmsg != syscalls.sendto ==> send_of(syscalls, syscalls.sendmsg) == Some(
            SendSyscall::SendMsg,
        ),
        syscalls.sendmmsg != syscalls.sendto && syscalls.sendmmsg != syscalls.sendmsg ==> send_of(
            syscalls,
            syscalls.sendmmsg,
        ) == Some(SendSyscall::SendMmsg),
        send_of(syscalls, syscall) is Some <==> syscall == syscalls.sendto || syscall
            == syscalls.sendmsg || syscall == syscalls.sendmmsg,
{
}

} // verus!
