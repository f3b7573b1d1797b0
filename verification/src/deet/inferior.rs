//! The process being debugged, and the tasks that are carried out on it.

use crate::deet::tracee::{Failure, Fault, Progress, TraceCall, TraceReply, WaitStatus};
use crate::deet::word::{
    align_addr_to_word, byte_at, byte_of, replace_byte, with_byte, word_offset, word_start,
};
use std::collections::HashMap;
use vstd::prelude::*;

verus! {

/// The byte of the instruction that traps into the debugger.
pub const TRAP: u8 = 0xcc;

/// A place where the process is to stop.
#[derive(Clone, Copy, PartialEq, Eq, Debug)]
pub struct Breakpoint {
    pub addr: usize,
    /// The byte that the trap instruction stands in for.
    pub orig_byte: u8,
}

/// The state of the inferior after a wait.
#[derive(Clone, Copy, PartialEq, Eq, Debug)]
pub enum Status {
    /// The inferior stopped: the signal that stopped it, and the instruction pointer.
    Stopped(i32, usize),
    /// The inferior exited with this status code.
    Exited(i32),
    /// The inferior was ended by this signal.
    Signaled(i32),
}

/// The process being debugged.
#[derive(Clone, Copy, PartialEq, Eq, Debug)]
pub struct Inferior {
    pub child: u32,
}

/// Writing one byte of the inferior's memory.
#[derive(Clone, Copy, PartialEq, Eq, Debug)]
pub struct WriteByte {
    pub addr: usize,
    pub val: u8,
    pub phase: WriteBytePhase,
}

#[derive(Clone, Copy, PartialEq, Eq, Debug)]
pub enum WriteBytePhase {
    /// The word around the byte is being read.
    Reading,
    /// The word with the byte in it is being written.
    Writing { orig_byte: u8, word: usize },
}

impl WriteByte {
    /// What the task asks next.
    pub open spec fn call(self) -> TraceCall {
        match self.phase {
            WriteBytePhase::Reading => TraceCall::Read { addr: word_start(self.addr) },
            WriteBytePhase::Writing { orig_byte: _, word } => TraceCall::Write {
                addr: word_start(self.addr),
                word,
            },
        }
    }

    /// What an answer makes of the task.
    pub open spec fn next(self, reply: TraceReply) -> Progress<WriteByte, Result<u8, Failure>> {
        match (self.phase, reply) {
            (_, TraceReply::Failed(errno)) => Progress::Finished(Err(Failure::System(errno))),
            (WriteBytePhase::Reading, TraceReply::Word(word)) => Progress::Pending(
                WriteByte {
                    addr: self.addr,
                    val: self.val,
                    phase: WriteBytePhase::Writing {
                        orig_byte: byte_of(word, word_offset(self.addr)),
                        word: replace_byte(word, word_offset(self.addr), self.val),
                    },
                },
            ),
            (WriteBytePhase::Writing { orig_byte, word: _ }, TraceReply::Done) => {
                Progress::Finished(Ok(orig_byte))
            },
            _ => Progress::Finished(Err(Failure::Fatal(Fault::OutOfTurn))),
        }
    }

    /// What the task asks next.
    pub fn request(&self) -> (call: TraceCall)
        ensures
            call == self.call(),
    {
        match self.phase {
            WriteBytePhase::Reading => TraceCall::Read { addr: align_addr_to_word(self.addr) },
            WriteBytePhase::Writing { orig_byte: _, word } => TraceCall::Write {
                addr: align_addr_to_word(self.addr),
                word,
            },
        }
    }

    /// Takes an answer.
    pub fn answer(self, reply: TraceReply) -> (progress: Progress<WriteByte, Result<u8, Failure>>)
        ensures
            progress == self.next(reply),
    {
        match (self.phase, reply) {
            (_, TraceReply::Failed(errno)) => Progress::Finished(Err(Failure::System(errno))),
            (WriteBytePhase::Reading, TraceReply::Word(word)) => {
                let byte_offset: usize = self.addr - align_addr_to_word(self.addr);
                let orig_byte: u8 = byte_at(word, byte_offset);
                let updated: usize = with_byte(word, byte_offset, self.val);
                Progress::Pending(
                    WriteByte {
                        addr: self.addr,
                        val: self.val,
                        phase: WriteBytePhase::Writing { orig_byte, word: updated },
                    },
                )
            },
            (WriteBytePhase::Writing { orig_byte, word: _ }, TraceReply::Done) => {
                Progress::Finished(Ok(orig_byte))
            },
            _ => Progress::Finished(Err(Failure::Fatal(Fault::OutOfTurn))),
        }
    }
}

/// Waiting for the inferior to change state.
#[derive(Clone, Copy, PartialEq, Eq, Debug)]
pub struct Wait {
    pub options: Option<i32>,
    /// The signal that stopped the inferior, once that is known.
    pub stopped_by: Option<i32>,
}

impl Wait {
    /// What the task asks next.
    pub open spec fn call(self) -> TraceCall {
        match self.stopped_by {
            None => TraceCall::Wait { options: self.options },
            Some(_) => TraceCall::GetRegs,
        }
    }

    /// What an answer makes of the task.
    pub open spec fn next(self, reply: TraceReply) -> Progress<Wait, Result<Status, Failure>> {
        match (self.stopped_by, reply) {
            (_, TraceReply::Failed(errno)) => Progress::Finished(Err(Failure::System(errno))),
            (None, TraceReply::Waited(WaitStatus::Exited(code))) => {
                Progress::Finished(Ok(Status::Exited(code)))
            },
            (None, TraceReply::Waited(WaitStatus::Signaled(signal))) => {
                Progress::Finished(Ok(Status::Signaled(signal)))
            },
            (None, TraceReply::Waited(WaitStatus::Stopped(signal))) => Progress::Pending(
                Wait { options: self.options, stopped_by: Some(signal) },
            ),
            (None, TraceReply::Waited(WaitStatus::Other)) => {
                Progress::Finished(Err(Failure::Fatal(Fault::UnexpectedWaitStatus)))
            },
            (Some(signal), TraceReply::Regs { rip, rbp: _ }) => {
                Progress::Finished(Ok(Status::Stopped(signal, rip)))
            },
            _ => Progress::Finished(Err(Failure::Fatal(Fault::OutOfTurn))),
        }
    }

    /// What the task asks next.
    pub fn request(&self) -> (call: TraceCall)
        ensures
            call == self.call(),
    {
        match self.stopped_by {
            None => TraceCall::Wait { options: self.options },
            Some(_) => TraceCall::GetRegs,
        }
    }

    /// Takes an answer.
    pub fn answer(self, reply: TraceReply) -> (progress: Progress<Wait, Result<Status, Failure>>)
        ensures
            progress == self.next(reply),
    {
        match (self.stopped_by, reply) {
            (_, TraceReply::Failed(errno)) => Progress::Finished(Err(Failure::System(errno))),
            (None, TraceReply::Waited(WaitStatus::Exited(code))) => {
                Progress::Finished(Ok(Status::Exited(code)))
            },
            (None, TraceReply::Waited(WaitStatus::Signaled(signal))) => {
                Progress::Finished(Ok(Status::Signaled(signal)))
            },
            (None, TraceReply::Waited(WaitStatus::Stopped(signal))) => Progress::Pending(
                Wait { options: self.options, stopped_by: Some(signal) },
            ),
            (None, TraceReply::Waited(WaitStatus::Other)) => {
                Progress::Finished(Err(Failure::Fatal(Fault::UnexpectedWaitStatus)))
            },
            (Some(signal), TraceReply::Regs { rip, rbp: _ }) => {
                Progress::Finished(Ok(Status::Stopped(signal, rip)))
            },
            _ => Progress::Finished(Err(Failure::Fatal(Fault::OutOfTurn))),
        }
    }
}

/// Restarting the inferior until its state changes again.
#[derive(Clone, Copy, PartialEq, Eq, Debug)]
pub enum Cont {
    /// The place where the inferior stands is being read.
    ReadingStart,
    /// The instruction under the breakpoint at `at` is being executed.
    Stepping { at: usize },
    StepWaiting { at: usize, wait: Wait },
    /// The trap that was stepped over is being put back.
    Rearming(WriteByte),
    /// The inferior is being let go.
    Resuming,
    RunWaiting(Wait),
    /// The place where the inferior stopped is being read.
    ReadingStop(Status),
    /// The byte under the breakpoint that was hit is being put back.
    Restoring { status: Status, rip: usize, write: WriteByte },
    /// The instruction pointer is being moved back to the breakpoint.
    Rewinding { status: Status, rip: usize },
}

impl Cont {
    /// What the task asks next.
    pub open spec fn call(self) -> TraceCall {
        match self {
            Cont::ReadingStart => TraceCall::GetRegs,
            Cont::Stepping { at: _ } => TraceCall::Step,
            Cont::StepWaiting { at: _, wait } => wait.call(),
            Cont::Rearming(write) => write.call(),
            Cont::Resuming => TraceCall::Cont,
            Cont::RunWaiting(wait) => wait.call(),
            Cont::ReadingStop(_) => TraceCall::GetRegs,
            Cont::Restoring { status: _, rip: _, write } => write.call(),
            Cont::Rewinding { status: _, rip } => TraceCall::SetRegs { rip },
        }
    }

    /// What an answer makes of the task.
    pub open spec fn next(
        self,
        break_points: Map<usize, Breakpoint>,
        reply: TraceReply,
    ) -> Progress<Cont, Result<Status, Failure>> {
        match (self, reply) {
            (_, TraceReply::Failed(errno)) => Progress::Finished(Err(Failure::System(errno))),
            (Cont::ReadingStart, TraceReply::Regs { rip, rbp: _ }) => Progress::Pending(
                if break_points.contains_key(rip) {
                    Cont::Stepping { at: rip }
                } else {
                    Cont::Resuming
                },
            ),
            (Cont::Stepping { at }, TraceReply::Done) => Progress::Pending(
                Cont::StepWaiting { at, wait: spec_wait(None) },
            ),
            (Cont::StepWaiting { at, wait }, _) => match wait.next(reply) {
                Progress::Pending(wait) => Progress::Pending(Cont::StepWaiting { at, wait }),
                Progress::Finished(Ok(Status::Stopped(_, _))) => Progress::Pending(
                    Cont::Rearming(spec_write_byte(at, TRAP)),
                ),
                Progress::Finished(ended) => Progress::Finished(ended),
            },
            (Cont::Rearming(write), _) => match write.next(reply) {
                Progress::Pending(write) => Progress::Pending(Cont::Rearming(write)),
                Progress::Finished(Ok(_)) => Progress::Pending(Cont::Resuming),
                Progress::Finished(Err(failure)) => Progress::Finished(Err(failure)),
            },
            (Cont::Resuming, TraceReply::Done) => Progress::Pending(
                Cont::RunWaiting(spec_wait(None)),
            ),
            (Cont::RunWaiting(wait), _) => match wait.next(reply) {
                Progress::Pending(wait) => Progress::Pending(Cont::RunWaiting(wait)),
                Progress::Finished(Ok(Status::Stopped(signal, pos))) => Progress::Pending(
                    Cont::ReadingStop(Status::Stopped(signal, pos)),
                ),
                Progress::Finished(ended) => Progress::Finished(ended),
            },
            (Cont::ReadingStop(status), TraceReply::Regs { rip, rbp: _ }) => if rip > 0
                && break_points.contains_key((rip - 1) as usize) {
                let at = (rip - 1) as usize;
                Progress::Pending(
                    Cont::Restoring {
                        status,
                        rip: at,
                        write: spec_write_byte(at, break_points[at].orig_byte),
                    },
                )
            } else {
                Progress::Finished(Ok(status))
            },
            (Cont::Restoring { status, rip, write }, _) => match write.next(reply) {
                Progress::Pending(write) => Progress::Pending(
                    Cont::Restoring { status, rip, write },
                ),
                Progress::Finished(Ok(_)) => Progress::Pending(Cont::Rewinding { status, rip }),
                Progress::Finished(Err(failure)) => Progress::Finished(Err(failure)),
            },
            (Cont::Rewinding { status, rip: _ }, TraceReply::Done) => {
                Progress::Finished(Ok(status))
            },
            _ => Progress::Finished(Err(Failure::Fatal(Fault::OutOfTurn))),
        }
    }

    /// What the task asks next.
    pub fn request(&self) -> (call: TraceCall)
        ensures
            call == self.call(),
    {
        match self {
            Cont::ReadingStart => TraceCall::GetRegs,
            Cont::Stepping { at: _ } => TraceCall::Step,
            Cont::StepWaiting { at: _, wait } => wait.request(),
            Cont::Rearming(write) => write.request(),
            Cont::Resuming => TraceCall::Cont,
            Cont::RunWaiting(wait) => wait.request(),
            Cont::ReadingStop(_) => TraceCall::GetRegs,
            Cont::Restoring { status: _, rip: _, write } => write.request(),
            Cont::Rewinding { status: _, rip } => TraceCall::SetRegs { rip: *rip },
        }
    }

    /// Takes an answer.
    pub fn answer(self, break_points: &HashMap<usize, Breakpoint>, reply: TraceReply) -> (progress:
        Progress<Cont, Result<Status, Failure>>)
        ensures
            progress == self.next(break_points@, reply),
    {
        broadcast use vstd::std_specs::hash::group_hash_axioms;

        if let TraceReply::Failed(errno) = reply {
            return Progress::Finished(Err(Failure::System(errno)));
        }
        match self {
            Cont::ReadingStart => match reply {
                TraceReply::Regs { rip, rbp: _ } => Progress::Pending(
                    if break_points.contains_key(&rip) {
                        Cont::Stepping { at: rip }
                    } else {
                        Cont::Resuming
                    },
                ),
                _ => out_of_turn(),
            },
            Cont::Stepping { at } => match reply {
                TraceReply::Done => {
                    Progress::Pending(Cont::StepWaiting { at, wait: start_wait(None) })
                },
                _ => out_of_turn(),
            },
            Cont::StepWaiting { at, wait } => match wait.answer(reply) {
                Progress::Pending(wait) => Progress::Pending(Cont::StepWaiting { at, wait }),
                Progress::Finished(Ok(Status::Stopped(_, _))) => {
                    Progress::Pending(Cont::Rearming(start_write_byte(at, TRAP)))
                },
                Progress::Finished(ended) => Progress::Finished(ended),
            },
            Cont::Rearming(write) => match write.answer(reply) {
                Progress::Pending(write) => Progress::Pending(Cont::Rearming(write)),
                Progress::Finished(Ok(_)) => Progress::Pending(Cont::Resuming),
                Progress::Finished(Err(failure)) => Progress::Finished(Err(failure)),
            },
            Cont::Resuming => match reply {
                TraceReply::Done => Progress::Pending(Cont::RunWaiting(start_wait(None))),
                _ => out_of_turn(),
            },
            Cont::RunWaiting(wait) => match wait.answer(reply) {
                Progress::Pending(wait) => Progress::Pending(Cont::RunWaiting(wait)),
                Progress::Finished(Ok(Status::Stopped(signal, pos))) => {
                    Progress::Pending(Cont::ReadingStop(Status::Stopped(signal, pos)))
                },
                Progress::Finished(ended) => Progress::Finished(ended),
            },
            Cont::ReadingStop(status) => match reply {
                TraceReply::Regs { rip, rbp: _ } => {
                    // No breakpoint stands before the first address.
                    if rip == 0 {
                        return Progress::Finished(Ok(status));
                    }
                    let at: usize = rip - 1;
                    match break_points.get(&at) {
                        Some(break_point) => Progress::Pending(
                            Cont::Restoring {
                                status,
                                rip: at,
                                write: start_write_byte(at, break_point.orig_byte),
                            },
                        ),
                        None => Progress::Finished(Ok(status)),
                    }
                },
                _ => out_of_turn(),
            },
            Cont::Restoring { status, rip, write } => match write.answer(reply) {
                Progress::Pending(write) => {
                    Progress::Pending(Cont::Restoring { status, rip, write })
                },
                Progress::Finished(Ok(_)) => Progress::Pending(Cont::Rewinding { status, rip }),
                Progress::Finished(Err(failure)) => Progress::Finished(Err(failure)),
            },
            Cont::Rewinding { status, rip: _ } => match reply {
                TraceReply::Done => Progress::Finished(Ok(status)),
                _ => out_of_turn(),
            },
        }
    }
}

/// Starting an inferior: it is waited for, and then the breakpoints are written into it. There is
/// no inferior if an error is met on the way.
pub struct Launch {
    pub child: u32,
    pub phase: LaunchPhase,
    /// The addresses of the breakpoints, in the order in which they are written.
    pub addrs: Vec<usize>,
}

#[derive(Clone, Copy, PartialEq, Eq, Debug)]
pub enum LaunchPhase {
    /// The new process is expected to stop.
    Waiting(Wait),
    /// The trap at `addrs[index]` is being written.
    Arming { index: usize, write: WriteByte },
}

/// `addrs` lists the addresses of the breakpoints, each once.
pub open spec fn lists_breakpoints(
    addrs: Seq<usize>,
    break_points: Map<usize, Breakpoint>,
) -> bool {
    &&& addrs.no_duplicates()
    &&& forall|a: usize| #[trigger] addrs.contains(a) <==> break_points.contains_key(a)
}

/// The breakpoint at `addr` with another original byte.
pub open spec fn with_orig_byte(break_point: Breakpoint, orig_byte: u8) -> Breakpoint {
    Breakpoint { addr: break_point.addr, orig_byte }
}

fn breakpoint_addresses(break_points: &HashMap<usize, Breakpoint>) -> (addrs: Vec<usize>)
    ensures
        lists_breakpoints(addrs@, break_points@),
{
    broadcast use vstd::std_specs::hash::group_hash_axioms;

    let mut addrs: Vec<usize> = Vec::new();
    let keys = break_points.keys();
    let ghost order = vstd::std_specs::iter::IteratorSpec::remaining(&keys);
    for addr in it: keys
        invariant
            it.seq() == order,
            addrs@ == order.unref().take(it.index() as int),
    {
        addrs.push(*addr);
        assert(addrs@ =~= order.unref().take(it.index() + 1));
    }
    assert(addrs@ =~= order.unref());
    assert(addrs@.no_duplicates()) by {
        assert forall|i: int, j: int| 0 <= i < addrs.len() && 0 <= j < addrs.len() && i
            != j implies addrs@[i] != addrs@[j] by {
            assert(order[i] != order[j]);
        }
    }
    assert forall|a: usize| #[trigger] addrs@.contains(a) <==> break_points@.contains_key(a) by {
        assert(addrs@.to_set().contains(a) <==> break_points@.dom().contains(a));
    }
    addrs
}

impl Launch {
    /// The breakpoints that are being written are those of the table.
    pub open spec fn wf(self, break_points: Map<usize, Breakpoint>) -> bool {
        match self.phase {
            LaunchPhase::Waiting(_) => true,
            LaunchPhase::Arming { index, write } => {
                &&& lists_breakpoints(self.addrs@, break_points)
                &&& index < self.addrs.len()
                &&& write.addr == self.addrs@[index as int]
                &&& write.val == TRAP
            },
        }
    }

    /// What the task asks next.
    pub open spec fn call(self) -> TraceCall {
        match self.phase {
            LaunchPhase::Waiting(wait) => wait.call(),
            LaunchPhase::Arming { index: _, write } => write.call(),
        }
    }

    /// The task once the traps before `index` have been written.
    pub open spec fn arming(
        child: u32,
        addrs: Vec<usize>,
        index: int,
    ) -> Progress<Launch, Result<Option<Inferior>, Fault>> {
        if index < addrs@.len() {
            Progress::Pending(
                Launch {
                    child,
                    phase: LaunchPhase::Arming {
                        index: index as usize,
                        write: spec_write_byte(addrs@[index], TRAP),
                    },
                    addrs,
                },
            )
        } else {
            Progress::Finished(Ok(Some(Inferior { child })))
        }
    }

    /// The end of a launch in which an error is met: there is no inferior. Only an answer to a
    /// question that was not asked ends the debugger.
    pub open spec fn failed(failure: Failure) -> Progress<Launch, Result<Option<Inferior>, Fault>> {
        if failure == Failure::Fatal(Fault::OutOfTurn) {
            Progress::Finished(Err(Fault::OutOfTurn))
        } else {
            Progress::Finished(Ok(None))
        }
    }

    /// What an answer makes of the task and of the breakpoints. Once the inferior has stopped, the
    /// breakpoints are written in no particular order.
    pub open spec fn next(
        self,
        before: Map<usize, Breakpoint>,
        reply: TraceReply,
        after: Map<usize, Breakpoint>,
        progress: Progress<Launch, Result<Option<Inferior>, Fault>>,
    ) -> bool {
        match self.phase {
            LaunchPhase::Waiting(wait) => {
                &&& after == before
                &&& match wait.next(reply) {
                    Progress::Pending(wait) => progress == Progress::<
                        Launch,
                        Result<Option<Inferior>, Fault>,
                    >::Pending(Launch { phase: LaunchPhase::Waiting(wait), ..self }),
                    Progress::Finished(Ok(Status::Stopped(_, _))) => exists|addrs: Vec<usize>|
                        lists_breakpoints(addrs@, before) && progress == #[trigger] Launch::arming(
                            self.child,
                            addrs,
                            0,
                        ),
                    Progress::Finished(Err(failure)) => progress == Launch::failed(failure),
                    Progress::Finished(Ok(_)) => progress == Progress::<
                        Launch,
                        Result<Option<Inferior>, Fault>,
                    >::Finished(Ok(None)),
                }
            },
            LaunchPhase::Arming { index, write } => match write.next(reply) {
                Progress::Pending(write) => {
                    &&& after == before
                    &&& progress == Progress::<
                        Launch,
                        Result<Option<Inferior>, Fault>,
                    >::Pending(Launch { phase: LaunchPhase::Arming { index, write }, ..self })
                },
                Progress::Finished(Ok(orig_byte)) => {
                    &&& after == before.insert(
                        write.addr,
                        with_orig_byte(before[write.addr], orig_byte),
                    )
                    &&& progress == Launch::arming(self.child, self.addrs, index + 1)
                },
                Progress::Finished(Err(failure)) => {
                    &&& after == before
                    &&& progress == Launch::failed(failure)
                },
            },
        }
    }

    /// What the task asks next.
    pub fn request(&self) -> (call: TraceCall)
        ensures
            call == self.call(),
    {
        match self.phase {
            LaunchPhase::Waiting(wait) => wait.request(),
            LaunchPhase::Arming { index: _, write } => write.request(),
        }
    }

    fn arm_from(child: u32, addrs: Vec<usize>, index: usize) -> (progress: Progress<
        Launch,
        Result<Option<Inferior>, Fault>,
    >)
        ensures
            progress == Launch::arming(child, addrs, index as int),
    {
        if index < addrs.len() {
            let write: WriteByte = start_write_byte(addrs[index], TRAP);
            Progress::Pending(Launch { child, phase: LaunchPhase::Arming { index, write }, addrs })
        } else {
            Progress::Finished(Ok(Some(Inferior { child })))
        }
    }

    fn fail(failure: Failure) -> (progress: Progress<Launch, Result<Option<Inferior>, Fault>>)
        ensures
            progress == Launch::failed(failure),
    {
        match failure {
            Failure::Fatal(Fault::OutOfTurn) => Progress::Finished(Err(Fault::OutOfTurn)),
            _ => Progress::Finished(Ok(None)),
        }
    }

    /// Takes an answer. The byte under each trap is recorded in the table.
    pub fn answer(
        self,
        break_points: &mut HashMap<usize, Breakpoint>,
        reply: TraceReply,
    ) -> (progress: Progress<Launch, Result<Option<Inferior>, Fault>>)
        requires
            self.wf(old(break_points)@),
        ensures
            self.next(old(break_points)@, reply, final(break_points)@, progress),
            progress is Pending ==> progress->Pending_0.wf(final(break_points)@),
            final(break_points)@.dom() == old(break_points)@.dom(),
            forall|a: usize| #[trigger]
                final(break_points)@.contains_key(a) ==> final(break_points)@[a].addr == old(
                    break_points,
                )@[a].addr,
    {
        broadcast use vstd::std_specs::hash::group_hash_axioms;

        match self.phase {
            LaunchPhase::Waiting(wait) => match wait.answer(reply) {
                Progress::Pending(wait) => Progress::Pending(
                    Launch {
                        child: self.child,
                        phase: LaunchPhase::Waiting(wait),
                        addrs: self.addrs,
                    },
                ),
                Progress::Finished(Ok(Status::Stopped(_, _))) => {
                    let addrs: Vec<usize> = breakpoint_addresses(break_points);
                    Launch::arm_from(self.child, addrs, 0)
                },
                Progress::Finished(Err(failure)) => Launch::fail(failure),
                Progress::Finished(Ok(_)) => Progress::Finished(Ok(None)),
            },
            LaunchPhase::Arming { index, write } => match write.answer(reply) {
                Progress::Pending(write) => Progress::Pending(
                    Launch {
                        child: self.child,
                        phase: LaunchPhase::Arming { index, write },
                        addrs: self.addrs,
                    },
                ),
                Progress::Finished(Ok(orig_byte)) => {
                    let addr: usize = write.addr;
                    assert(self.addrs@.contains(addr));
                    let placed_at: usize = match break_points.get(&addr) {
                        Some(break_point) => break_point.addr,
                        None => addr,
                    };
                    break_points.insert(addr, Breakpoint { addr: placed_at, orig_byte });
                    proof {
                        assert(break_points@.dom() =~= old(break_points)@.dom());
                        assert forall|a: usize| #[trigger]
                            self.addrs@.contains(a) <==> break_points@.contains_key(a) by {
                            assert(self.addrs@.contains(a) <==> old(break_points)@.contains_key(a));
                        }
                    }
                    Launch::arm_from(self.child, self.addrs, index + 1)
                },
                Progress::Finished(Err(failure)) => Launch::fail(failure),
            },
        }
    }
}

/// How a failure to write a breakpoint into a running inferior ends the debugger.
pub open spec fn arm_fault(failure: Failure) -> Fault {
    match failure {
        Failure::System(errno) => Fault::ArmFailed(errno),
        Failure::Fatal(fault) => fault,
    }
}

/// How a failure to write a breakpoint into a running inferior ends the debugger.
pub fn arming_fault(failure: Failure) -> (fault: Fault)
    ensures
        fault == arm_fault(failure),
{
    match failure {
        Failure::System(errno) => Fault::ArmFailed(errno),
        Failure::Fatal(fault) => fault,
    }
}

impl Inferior {
    /// Begins with the process that was spawned for the target, if that succeeded.
    pub fn new(spawned: Option<u32>) -> (progress: Progress<Launch, Option<Inferior>>)
        ensures
            match spawned {
                None => progress == Progress::<Launch, Option<Inferior>>::Finished(None),
                Some(child) => progress matches Progress::Pending(launch) && launch.child == child
                    && launch.phase == LaunchPhase::Waiting(spec_wait(None)),
            },
    {
        match spawned {
            None => Progress::Finished(None),
            Some(child) => Progress::Pending(
                Launch {
                    child,
                    phase: LaunchPhase::Waiting(start_wait(None)),
                    addrs: Vec::new(),
                },
            ),
        }
    }

    /// Begins to restart the inferior.
    pub fn cont(&self) -> (task: Cont)
        ensures
            task == Cont::ReadingStart,
    {
        Cont::ReadingStart
    }

    /// Begins to write one byte of the inferior's memory.
    pub fn write_byte(&self, addr: usize, val: u8) -> (task: WriteByte)
        ensures
            task == spec_write_byte(addr, val),
    {
        start_write_byte(addr, val)
    }

    /// Begins to wait for the inferior.
    pub fn wait(&self, options: Option<i32>) -> (task: Wait)
        ensures
            task == spec_wait(options),
    {
        start_wait(options)
    }

    /// What an attempt to kill the inferior comes to.
    pub fn kill(&self, killed: bool) -> (result: Result<(), Fault>)
        ensures
            result == if killed {
                Ok(())
            } else {
                Err::<(), Fault>(Fault::KillFailed)
            },
    {
        if killed {
            Ok(())
        } else {
            Err(Fault::KillFailed)
        }
    }

    /// The process number of the inferior.
    pub fn pid(&self) -> (pid: i32)
        ensures
            pid == self.child as i32,
    {
        self.child as i32
    }
}

/// The start of a wait.
pub open spec fn spec_wait(options: Option<i32>) -> Wait {
    Wait { options, stopped_by: None }
}

/// The start of writing a byte.
pub open spec fn spec_write_byte(addr: usize, val: u8) -> WriteByte {
    WriteByte { addr, val, phase: WriteBytePhase::Reading }
}

fn start_wait(options: Option<i32>) -> (wait: Wait)
    ensures
        wait == spec_wait(options),
{
    Wait { options, stopped_by: None }
}

fn start_write_byte(addr: usize, val: u8) -> (write: WriteByte)
    ensures
        write == spec_write_byte(addr, val),
{
    WriteByte { addr, val, phase: WriteBytePhase::Reading }
}

fn out_of_turn<S, T>() -> (progress: Progress<S, Result<T, Failure>>)
    ensures
        progress == Progress::<S, Result<T, Failure>>::Finished(
            Err(Failure::Fatal(Fault::OutOfTurn)),
        ),
{
    Progress::Finished(Err(Failure::Fatal(Fault::OutOfTurn)))
}

} // verus!
