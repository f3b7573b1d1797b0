//! What the system calls signals and errors.

use nix::errno::Errno;
use nix::sys::signal::Signal;
use vstd::prelude::*;

verus! {

/// The name of a signal, by its number on x86-64 Linux; empty if the number is no signal.
pub uninterp spec fn signal_text(number: i32) -> Seq<char>;

/// The description of an error, by its number on x86-64 Linux.
pub uninterp spec fn errno_text(number: i32) -> Seq<char>;

/// `nix::sys::signal::Signal::as_str`: the name depends on the signal alone. A number that stands
/// for no signal is given the empty name.
#[verifier::external_body]
pub(crate) fn signal_name(number: i32) -> (name: String)
    ensures
        name@ == signal_text(number),
{
    match Signal::try_from(number) {
        Ok(signal) => signal.as_str().to_string(),
        Err(_) => String::new(),
    }
}

/// `nix::errno::Errno::desc`: the description depends on the error alone. A number that stands for
/// no error is described as unknown.
#[verifier::external_body]
pub(crate) fn errno_desc(number: i32) -> (desc: String)
    ensures
        desc@ == errno_text(number),
{
    Errno::from_i32(number).desc().to_string()
}

} // verus!
