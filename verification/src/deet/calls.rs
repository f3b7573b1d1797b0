//! What the tasks on the traced process make of each answer.

use crate::deet::backtrace::{Backtrace, BacktraceCall, BacktraceReply};
use crate::deet::inferior::{
    Breakpoint, Cont, Inferior, Launch, Status, Wait, WriteByte, WriteBytePhase,
};
use crate::deet::report::{Line, Report};
use crate::deet::tracee::{Failure, Fault, Progress, TraceCall, TraceReply, WaitStatus};
use crate::deet::word::{
    byte_of, law_replace_byte, law_word_is_aligned_around_address, word_bytes, word_start,
};
use vstd::prelude::*;

verus! {

/// The end of a task that got an answer to a question that it had not asked.
pub open spec fn out_of_turn<S, T>() -> Progress<S, Result<T, Failure>> {
    Progress::Finished(Err(Failure::Fatal(Fault::OutOfTurn)))
}

/// The end of a task one of whose calls failed.
pub open spec fn failed_with<S, T>(errno: i32) -> Progress<S, Result<T, Failure>> {
    Progress::Finished(Err(Failure::System(errno)))
}

/// A byte is written in two calls, on the aligned word around its address. The word that was read is
/// written back with that byte changed and no other, and the task gives back the byte that was
/// there. A call that fails ends the task with its error.
pub proof fn law_byte_is_written_in_its_word(
    addr: usize,
    val: u8,
    word: usize,
    errno: i32,
    reply: TraceReply,
)
    ensures
        ({
            let size = usize::BITS as int / 8;
            let reading = WriteByte { addr, val, phase: WriteBytePhase::Reading };
            &&& reading.call() matches TraceCall::Read { addr: start } && {
                &&& start as int % size == 0
                &&& start <= addr < start + size
                &&& reading.next(TraceReply::Failed(errno)) == failed_with::<WriteByte, u8>(errno)
                &&& !(reply is Failed) && !(reply is Word) ==> reading.next(reply) == out_of_turn::<
                    WriteByte,
                    u8,
                >()
                &&& reading.next(TraceReply::Word(word)) matches Progress::Pending(writing) && {
                    &&& writing.addr == addr && writing.val == val
                    &&& writing.call() matches TraceCall::Write { addr: at, word: updated } && {
                        &&& at == start
                        &&& forall|i: int|
                            0 <= i < size ==> #[trigger] byte_of(updated, i) == if start + i == addr {
                                val
                            } else {
                                byte_of(word, i)
                            }
                    }
                    &&& writing.next(TraceReply::Done) == Progress::<
                        WriteByte,
                        Result<u8, Failure>,
                    >::Finished(Ok(byte_of(word, addr - start)))
                    &&& writing.next(TraceReply::Failed(errno)) == failed_with::<WriteByte, u8>(
                        errno,
                    )
                    &&& !(reply is Failed) && !(reply is Done) ==> writing.next(reply)
                        == out_of_turn::<WriteByte, u8>()
                }
            }
        }),
{
    law_word_is_aligned_around_address(addr);
    law_replace_byte(word, addr - word_start(addr), val);
    assert(word_bytes() == usize::BITS as int / 8);
}

/// A wait gives back the state of the process: its exit code, the signal that ended it, or the
/// signal that stopped it together with the place where its registers then say it stands. A call
/// that fails ends the wait with its error, and a state that is not handled ends the debugger.
pub proof fn law_wait_gives_the_state(
    options: Option<i32>,
    code: i32,
    signal: i32,
    rip: usize,
    rbp: usize,
    errno: i32,
    reply: TraceReply,
)
    ensures
        ({
            let waiting = Wait { options, stopped_by: None };
            &&& waiting.call() == (TraceCall::Wait { options })
            &&& waiting.next(TraceReply::Waited(WaitStatus::Exited(code))) == Progress::<
                Wait,
                Result<Status, Failure>,
            >::Finished(Ok(Status::Exited(code)))
            &&& waiting.next(TraceReply::Waited(WaitStatus::Signaled(signal))) == Progress::<
                Wait,
                Result<Status, Failure>,
            >::Finished(Ok(Status::Signaled(signal)))
            &&& waiting.next(TraceReply::Waited(WaitStatus::Other)) == Progress::<
                Wait,
                Result<Status, Failure>,
            >::Finished(Err(Failure::Fatal(Fault::UnexpectedWaitStatus)))
            &&& waiting.next(TraceReply::Failed(errno)) == failed_with::<Wait, Status>(errno)
            &&& !(reply is Failed) && !(reply is Waited) ==> waiting.next(reply) == out_of_turn::<
                Wait,
                Status,
            >()
            &&& waiting.next(TraceReply::Waited(WaitStatus::Stopped(signal))) matches Progress::Pending(
                looking,
            ) && {
                &&& looking.call() == TraceCall::GetRegs
                &&& looking.next(TraceReply::Regs { rip, rbp }) == Progress::<
                    Wait,
                    Result<Status, Failure>,
                >::Finished(Ok(Status::Stopped(signal, rip)))
                &&& looking.next(TraceReply::Failed(errno)) == failed_with::<Wait, Status>(errno)
                &&& !(reply is Failed) && !(reply is Regs) ==> looking.next(reply) == out_of_turn::<
                    Wait,
                    Status,
                >()
            }
        }),
{
}

/// A call that fails ends a restart with its error, wherever the restart stands.
pub proof fn law_restart_fails_with_its_call(
    task: Cont,
    break_points: Map<usize, Breakpoint>,
    errno: i32,
)
    ensures
        task.next(break_points, TraceReply::Failed(errno)) == failed_with::<Cont, Status>(errno),
{
}

/// A restart ends with the process, whether it ends while it is stepped over a breakpoint or while
/// it runs: the exit code, or the signal that ended it, is the status, and nothing more is asked.
pub proof fn law_restart_ends_with_the_process(
    break_points: Map<usize, Breakpoint>,
    at: usize,
    code: i32,
    signal: i32,
)
    ensures
        ({
            let wait = Wait { options: None, stopped_by: None };
            let exited = TraceReply::Waited(WaitStatus::Exited(code));
            let signaled = TraceReply::Waited(WaitStatus::Signaled(signal));
            let stepping = Cont::StepWaiting { at, wait };
            let running = Cont::RunWaiting(wait);
            &&& stepping.call() == (TraceCall::Wait { options: None })
            &&& running.call() == (TraceCall::Wait { options: None })
            &&& stepping.next(break_points, exited) == Progress::<
                Cont,
                Result<Status, Failure>,
            >::Finished(Ok(Status::Exited(code)))
            &&& running.next(break_points, exited) == Progress::<
                Cont,
                Result<Status, Failure>,
            >::Finished(Ok(Status::Exited(code)))
            &&& stepping.next(break_points, signaled) == Progress::<
                Cont,
                Result<Status, Failure>,
            >::Finished(Ok(Status::Signaled(signal)))
            &&& running.next(break_points, signaled) == Progress::<
                Cont,
                Result<Status, Failure>,
            >::Finished(Ok(Status::Signaled(signal)))
        }),
{
}

/// Where the registers say, at the end of a restart, that the process has just executed a trap at a
/// breakpoint, that breakpoint is undone; anywhere else the restart ends with the status that was
/// waited for.
pub proof fn law_restart_looks_for_its_breakpoint(
    break_points: Map<usize, Breakpoint>,
    status: Status,
    rip: usize,
    rbp: usize,
)
    ensures
        ({
            let progress = Cont::ReadingStop(status).next(
                break_points,
                TraceReply::Regs { rip, rbp },
            );
            let at = (rip - 1) as usize;
            if rip > 0 && break_points.contains_key(at) {
                progress == Progress::<Cont, Result<Status, Failure>>::Pending(
                    Cont::Restoring {
                        status,
                        rip: at,
                        write: WriteByte {
                            addr: at,
                            val: break_points[at].orig_byte,
                            phase: WriteBytePhase::Reading,
                        },
                    },
                )
            } else {
                progress == Progress::<Cont, Result<Status, Failure>>::Finished(Ok(status))
            }
        }),
{
}

/// The reply is of the kind that the call asks for.
pub open spec fn fits(call: TraceCall, reply: TraceReply) -> bool {
    match call {
        TraceCall::GetRegs => reply is Regs,
        TraceCall::SetRegs { rip: _ } => reply is Done,
        TraceCall::Step => reply is Done,
        TraceCall::Cont => reply is Done,
        TraceCall::Wait { options: _ } => reply is Waited,
        TraceCall::Read { addr: _ } => reply is Word,
        TraceCall::Write { addr: _, word: _ } => reply is Done,
    }
}

/// An answer to a question that was not asked ends a restart and the debugger.
pub proof fn law_restart_takes_fitting_answers_only(
    task: Cont,
    break_points: Map<usize, Breakpoint>,
    reply: TraceReply,
)
    requires
        !fits(task.call(), reply),
        !(reply is Failed),
    ensures
        task.next(break_points, reply) == out_of_turn::<Cont, Status>(),
{
}

/// A launch in which a call fails, or whose process is gone or in a state that is not handled, ends
/// without an inferior and without a change to the table, and no other launch does.
pub proof fn law_launch_that_meets_an_error_gives_none(
    launch: Launch,
    before: Map<usize, Breakpoint>,
    reply: TraceReply,
    after: Map<usize, Breakpoint>,
    progress: Progress<Launch, Result<Option<Inferior>, Fault>>,
)
    requires
        launch.next(before, reply, after, progress),
    ensures
        ({
            let met = {
                ||| reply is Failed
                ||| launch.call() is Wait && fits(launch.call(), reply) && !(
                reply matches TraceReply::Waited(WaitStatus::Stopped(_)))
            };
            &&& met <==> progress == Progress::<
                Launch,
                Result<Option<Inferior>, Fault>,
            >::Finished(Ok(None))
            &&& met ==> after == before
            &&& !met && !fits(launch.call(), reply) ==> after == before && progress == Progress::<
                Launch,
                Result<Option<Inferior>, Fault>,
            >::Finished(Err(Fault::OutOfTurn))
        }),
{
}

/// A backtrace that fails says why: the error of the call that failed, a frame without a line, a
/// frame without a function, or a frame whose return address lies beyond the address space. That
/// last frame is still printed; nothing else is.
pub proof fn law_backtrace_says_why_it_fails(
    pc: usize,
    base: usize,
    line: Line,
    function: String,
    errno: i32,
)
    requires
        function@ != "main"@,
    ensures
        ({
            let failed = BacktraceReply::Trace(TraceReply::Failed(errno));
            let at_function = Backtrace::FindingFunction { pc, base, line };
            let error = (None::<Report>, failed_with::<Backtrace, ()>(errno));
            &&& Backtrace::ReadingRegs.next(failed) == error
            &&& (Backtrace::ReadingReturn { base }).next(failed) == error
            &&& (Backtrace::ReadingBase { base, pc }).next(failed) == error
            &&& (Backtrace::FindingLine { pc, base }).next(BacktraceReply::Line(None)) == (
                None::<Report>,
                Progress::<Backtrace, Result<(), Failure>>::Finished(
                    Err(Failure::Fatal(Fault::NoLine)),
                ),
            )
            &&& at_function.next(BacktraceReply::Function(None)) == (
                None::<Report>,
                Progress::<Backtrace, Result<(), Failure>>::Finished(
                    Err(Failure::Fatal(Fault::NoFunction)),
                ),
            )
            &&& base + 8 > usize::MAX ==> at_function.next(
                BacktraceReply::Function(Some(function)),
            ) == (
                Some(Report::Frame { function, line }),
                Progress::<Backtrace, Result<(), Failure>>::Finished(
                    Err(Failure::Fatal(Fault::AddressOverflow)),
                ),
            )
        }),
{
}

/// An answer to a question that was not asked ends a backtrace and the debugger.
pub proof fn law_backtrace_takes_fitting_answers_only(task: Backtrace, reply: BacktraceReply)
    requires
        !match (task.call(), reply) {
            (BacktraceCall::Trace(call), BacktraceReply::Trace(reply)) => {
                fits(call, reply) || reply is Failed
            },
            (BacktraceCall::LineFromAddr(_), BacktraceReply::Line(_)) => true,
            (BacktraceCall::FunctionFromAddr(_), BacktraceReply::Function(_)) => true,
            _ => false,
        },
    ensures
        task.next(reply) == (None::<Report>, out_of_turn::<Backtrace, ()>()),
{
}

} // verus!
