//! Policy lowering, path mediation and trap reporting for the landstrip sandbox.

pub mod broker;
pub mod bytes;
pub mod errnos;
pub mod error;
pub mod glob;
pub mod linux;
pub mod lowering;
pub mod order;
pub mod paths;
pub mod policy;
pub mod regex;
pub mod resolve;
pub mod scan;
pub mod seatbelt;
pub mod sys;
pub mod text;
pub mod trap;
pub mod verdict;
pub mod windows;
pub mod winpath;
