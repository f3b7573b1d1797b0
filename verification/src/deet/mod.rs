//! The debugger.

pub mod address;
pub mod backtrace;
pub mod calls;
pub mod commands;
pub mod debugger;
pub mod inferior;
pub mod laws;
pub mod report;
pub mod session;
pub mod system;
pub mod tracee;
pub mod turns;
pub mod word;
