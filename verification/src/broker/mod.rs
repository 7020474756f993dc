//! The broker: what it answers to the calls a sandboxed process is stopped at.

pub mod address;
pub mod control;
pub mod datagram;
pub mod datagram_copy;
pub mod denials;
pub mod grant;
pub mod machine;
pub mod memory;
pub mod mutation;
pub mod notify;
pub mod open;
pub mod process;
pub mod registers;
pub mod socket;
pub mod startup;
pub mod supervise;
pub mod syscalls;
