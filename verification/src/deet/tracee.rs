//! The traced process as the debugger sees it: what can be asked of it, and what it answers.

use crate::deet::word::{byte_of, word_bytes};
use vstd::prelude::*;

verus! {

/// What is asked of the traced process.
#[derive(Clone, Copy, PartialEq, Eq, Debug)]
pub enum TraceCall {
    /// Read the registers.
    GetRegs,
    /// Write the registers as they were last read, with another instruction pointer.
    SetRegs { rip: usize },
    /// Let the process execute one instruction.
    Step,
    /// Let the process run.
    Cont,
    /// Wait for the process to change state, with the given option bits.
    Wait { options: Option<i32> },
    /// Read the machine word at an address.
    Read { addr: usize },
    /// Write a machine word at an address.
    Write { addr: usize, word: usize },
}

/// What a wait found out.
#[derive(Clone, Copy, PartialEq, Eq, Debug)]
pub enum WaitStatus {
    Exited(i32),
    Signaled(i32),
    Stopped(i32),
    /// Any state that the debugger does not handle.
    Other,
}

/// The answer to a [`TraceCall`].
#[derive(Clone, Copy, PartialEq, Eq, Debug)]
pub enum TraceReply {
    /// The instruction pointer and the base pointer.
    Regs { rip: usize, rbp: usize },
    /// The call was carried out.
    Done,
    /// The word that was read.
    Word(usize),
    /// The state that was waited for.
    Waited(WaitStatus),
    /// The call failed with this error number.
    Failed(i32),
}

/// Why the debugger cannot go on.
#[derive(Clone, Copy, PartialEq, Eq, Debug)]
pub enum Fault {
    /// A wait reported a state that the debugger does not handle.
    UnexpectedWaitStatus,
    /// An address calculation left the address space.
    AddressOverflow,
    /// There is no line for the address of a stack frame.
    NoLine,
    /// There is no function for the address of a stack frame.
    NoFunction,
    /// The place for a breakpoint could not be made out.
    NoAddress,
    /// The traced process could not be killed.
    KillFailed,
    /// The killed process could not be waited for.
    RecycleFailed(i32),
    /// A breakpoint could not be written.
    ArmFailed(i32),
    /// The terminal could not be read.
    InputFailed,
    /// An answer came to a question that was not asked.
    OutOfTurn,
}

/// How a task on the traced process fails.
#[derive(Clone, Copy, PartialEq, Eq, Debug)]
pub enum Failure {
    /// A call failed with this error number.
    System(i32),
    /// The debugger cannot go on.
    Fatal(Fault),
}

/// A task that waits for an answer, or its result.
#[derive(PartialEq, Eq, Debug)]
pub enum Progress<S, T> {
    Pending(S),
    Finished(T),
}

/// The part of a traced process that the debugger reads and writes.
pub struct Tracee {
    pub memory: spec_fn(int) -> u8,
    pub rip: usize,
}

/// The bytes of `word` stand at `addr`.
pub open spec fn holds_word(memory: spec_fn(int) -> u8, addr: usize, word: usize) -> bool {
    forall|i: int| 0 <= i < word_bytes() ==> #[trigger] byte_of(word, i) == memory(addr + i)
}

/// `post` is `pre` with the bytes of `word` at `addr`.
pub open spec fn stores_word(
    pre: spec_fn(int) -> u8,
    addr: usize,
    word: usize,
    post: spec_fn(int) -> u8,
) -> bool {
    &&& forall|i: int| 0 <= i < word_bytes() ==> #[trigger] byte_of(word, i) == post(addr + i)
    &&& forall|a: int| !(addr <= a < addr + word_bytes()) ==> #[trigger] post(a) == pre(a)
}

/// `reply` is a true answer to `call` by a process that was `pre` and is now `post`. While it
/// runs, the process does not itself write to the addresses in `code`.
pub open spec fn answers(
    pre: Tracee,
    call: TraceCall,
    reply: TraceReply,
    post: Tracee,
    code: Set<usize>,
) -> bool {
    match (call, reply) {
        (_, TraceReply::Failed(_)) => post == pre,
        (TraceCall::GetRegs, TraceReply::Regs { rip, rbp: _ }) => post == pre && rip == pre.rip,
        (TraceCall::SetRegs { rip }, TraceReply::Done) => {
            post.memory == pre.memory && post.rip == rip
        },
        (TraceCall::Step, TraceReply::Done) => post == pre,
        (TraceCall::Cont, TraceReply::Done) => post == pre,
        (TraceCall::Wait { options: _ }, TraceReply::Waited(_)) => {
            forall|a: usize| #[trigger]
                code.contains(a) ==> (post.memory)(a as int) == (pre.memory)(a as int)
        },
        (TraceCall::Read { addr }, TraceReply::Word(word)) => {
            post == pre && holds_word(pre.memory, addr, word)
        },
        (TraceCall::Write { addr, word }, TraceReply::Done) => {
            post.rip == pre.rip && stores_word(pre.memory, addr, word, post.memory)
        },
        _ => false,
    }
}

} // verus!
