//! What the debugger does at each turn of its loop, told by what it was waiting for.

use crate::deet::address::{location_of, Location};
use crate::deet::backtrace::{Backtrace, BacktraceCall, BacktraceReply};
use crate::deet::commands::debugger_run;
use crate::deet::debugger::{
    Debugger, DebuggerCommand, Event, Input, LoadError, Phase, Request, StartError, Turn,
};
use crate::deet::inferior::{
    Breakpoint, Cont, Inferior, Launch, LaunchPhase, Status, Wait, WriteByte, WriteBytePhase,
};
use crate::deet::report::Report;
use crate::deet::tracee::{Failure, Fault, Progress, TraceCall, TraceReply};
use crate::deet::word::word_start;
use crate::text::words::{is_white_space, texts, words};
use vstd::prelude::*;

verus! {

/// Nothing changes but what the debugger waits for.
pub open spec fn all_kept(pre: Debugger, post: Debugger) -> bool {
    &&& post.target == pre.target
    &&& post.history_path == pre.history_path
    &&& post.inferior == pre.inferior
    &&& post.break_points@ == pre.break_points@
}

/// The debugger prints these lines and prompts for the next command.
pub open spec fn back_at_the_prompt(post: Debugger, turn: Turn, reports: Seq<Report>) -> bool {
    &&& turn.reports@ == reports
    &&& turn.request == Request::ReadLine
    &&& post.phase is Prompting
}

/// The debugger prints nothing and asks for this.
pub open spec fn silently_asks(turn: Turn, request: Request) -> bool {
    turn.reports@ == Seq::<Report>::empty() && turn.request == request
}

/// The debugger prints nothing and breaks off for this reason.
pub open spec fn silently_aborts(pre: Debugger, post: Debugger, turn: Turn, fault: Fault) -> bool {
    &&& all_kept(pre, post)
    &&& post.phase is Over
    &&& silently_asks(turn, Request::Abort(fault))
}

/// A breakpoint is entered in the table, and its number and place are printed.
pub open spec fn enters_breakpoint(
    pre: Debugger,
    post: Debugger,
    turn: Turn,
    addr: usize,
    orig_byte: u8,
) -> bool {
    &&& post.target == pre.target
    &&& post.history_path == pre.history_path
    &&& post.inferior == pre.inferior
    &&& post.break_points@.dom() == pre.break_points@.dom().insert(addr)
    &&& post.break_points@[addr] == (Breakpoint { addr, orig_byte })
    &&& forall|a: usize|
        a != addr && pre.break_points@.contains_key(a) ==> #[trigger] post.break_points@[a]
            == pre.break_points@[a]
    &&& back_at_the_prompt(
        post,
        turn,
        seq![
            Report::BreakpointSet { index: (post.break_points@.dom().len() - 1) as usize, addr },
        ],
    )
}

/// A breakpoint is set: at once if there is no inferior, else by writing a trap into the inferior,
/// which begins with reading the word around its address.
pub open spec fn sets_breakpoint(pre: Debugger, post: Debugger, turn: Turn, addr: usize) -> bool {
    if pre.inferior is None {
        enters_breakpoint(pre, post, turn, addr, 0)
    } else {
        &&& all_kept(pre, post)
        &&& post.phase == Phase::Arming(
            WriteByte { addr, val: 0xcc, phase: WriteBytePhase::Reading },
        )
        &&& silently_asks(turn, Request::Trace(TraceCall::Read { addr: word_start(addr) }))
    }
}

/// At the prompt: an interrupt brings a hint, a blank line nothing, and any other line is to be
/// remembered with its words kept; the end of the input is the wish to leave.
pub proof fn law_at_the_prompt(pre: Debugger, event: Event, post: Debugger, turn: Turn)
    requires
        pre.phase is Prompting,
        pre.transition(event, post, turn),
    ensures
        match event {
            Event::Input(Input::Interrupted) => {
                all_kept(pre, post) && back_at_the_prompt(post, turn, seq![Report::QuitHint])
            },
            Event::Input(Input::Line(line)) => {
                &&& all_kept(pre, post)
                &&& if forall|i: int| 0 <= i < line@.len() ==> is_white_space(#[trigger] line@[i]) {
                    back_at_the_prompt(post, turn, seq![])
                } else {
                    &&& silently_asks(turn, Request::Remember(line))
                    &&& post.phase matches Phase::Remembering(tokens) && texts(tokens@) == words(
                        line@,
                    )
                }
            },
            Event::Input(Input::Eof) => {
                &&& post.break_points@ == pre.break_points@
                &&& post.inferior is None
                &&& post.target == pre.target && post.history_path == pre.history_path
                &&& match pre.inferior {
                    None => silently_asks(turn, Request::Quit) && post.phase is Over,
                    Some(inferior) => {
                        &&& silently_asks(turn, Request::Kill)
                        &&& post.phase == Phase::Killing { inferior, rerun: None }
                    },
                }
            },
            Event::Input(Input::Failed) => silently_aborts(pre, post, turn, Fault::InputFailed),
            _ => silently_aborts(pre, post, turn, Fault::OutOfTurn),
        },
{
}

/// After a line was added to the history: its words are to be interpreted, and it is printed, with
/// the place of the history and the error, if the history could not be saved.
pub proof fn law_after_remembering(
    pre: Debugger,
    tokens: Vec<String>,
    event: Event,
    post: Debugger,
    turn: Turn,
)
    requires
        pre.phase == Phase::Remembering(tokens),
        pre.transition(event, post, turn),
    ensures
        all_kept(pre, post),
        match event {
            Event::Remembered(error) => {
                &&& turn.request == Request::Interpret(tokens)
                &&& post.phase is Interpreting
                &&& error is None ==> turn.reports@ == Seq::<Report>::empty()
                &&& error matches Some(error) ==> turn.reports@ == seq![
                    Report::HistoryNotSaved { path: pre.history_path, error },
                ]
            },
            _ => silently_aborts(pre, post, turn, Fault::OutOfTurn),
        },
{
}

/// What each command begins with.
pub proof fn law_command_is_obeyed(
    pre: Debugger,
    command: DebuggerCommand,
    post: Debugger,
    turn: Turn,
)
    requires
        pre.phase is Interpreting,
        pre.transition(Event::Interpreted(Some(command)), post, turn),
    ensures
        match command {
            DebuggerCommand::Run(args) => match pre.inferior {
                None => {
                    &&& all_kept(pre, post)
                    &&& post.phase is Spawning
                    &&& silently_asks(turn, Request::Spawn(args))
                },
                Some(inferior) => {
                    &&& all_kept(Debugger { inferior: None, ..pre }, post)
                    &&& post.phase == Phase::Killing { inferior, rerun: Some(args) }
                    &&& silently_asks(turn, Request::Kill)
                },
            },
            DebuggerCommand::Quit => match pre.inferior {
                None => {
                    &&& all_kept(pre, post)
                    &&& post.phase is Over
                    &&& silently_asks(turn, Request::Quit)
                },
                Some(inferior) => {
                    &&& all_kept(Debugger { inferior: None, ..pre }, post)
                    &&& post.phase == Phase::Killing { inferior, rerun: None }
                    &&& silently_asks(turn, Request::Kill)
                },
            },
            DebuggerCommand::Continue => {
                &&& all_kept(pre, post)
                &&& pre.inferior is None ==> back_at_the_prompt(
                    post,
                    turn,
                    seq![Report::NoSubprocess],
                )
                &&& pre.inferior is Some ==> {
                    &&& post.phase == Phase::Continuing { task: Cont::ReadingStart, first: false }
                    &&& silently_asks(turn, Request::Trace(TraceCall::GetRegs))
                }
            },
            DebuggerCommand::Backtrace => {
                &&& all_kept(pre, post)
                &&& pre.inferior is None ==> back_at_the_prompt(
                    post,
                    turn,
                    seq![Report::NoSubprocess],
                )
                &&& pre.inferior is Some ==> {
                    &&& post.phase == Phase::Tracing(Backtrace::ReadingRegs)
                    &&& silently_asks(turn, Request::Trace(TraceCall::GetRegs))
                }
            },
            DebuggerCommand::Break(arg) => match location_of(arg@) {
                Location::Address(Some(addr)) => sets_breakpoint(pre, post, turn, addr),
                Location::Address(None) => silently_aborts(pre, post, turn, Fault::NoAddress),
                Location::Line(line) => {
                    &&& all_kept(pre, post)
                    &&& post.phase is Resolving
                    &&& silently_asks(turn, Request::AddrForLine(line))
                },
                Location::Function => {
                    &&& all_kept(pre, post)
                    &&& post.phase is Resolving
                    &&& silently_asks(turn, Request::AddrForFunction(arg))
                },
            },
        },
{
}

/// A line that stands for no command is reported, and the user is prompted again.
pub proof fn law_no_command(pre: Debugger, event: Event, post: Debugger, turn: Turn)
    requires
        pre.phase is Interpreting,
        !(event matches Event::Interpreted(Some(_))),
        pre.transition(event, post, turn),
    ensures
        if event is Interpreted {
            all_kept(pre, post) && back_at_the_prompt(post, turn, seq![Report::Unrecognized])
        } else {
            silently_aborts(pre, post, turn, Fault::OutOfTurn)
        },
{
}

/// After a look-up: the breakpoint is set where something was found, and only there.
pub proof fn law_after_look_up(pre: Debugger, event: Event, post: Debugger, turn: Turn)
    requires
        pre.phase is Resolving,
        pre.transition(event, post, turn),
    ensures
        match event {
            Event::Address(Some(addr)) => sets_breakpoint(pre, post, turn, addr),
            Event::Address(None) => silently_aborts(pre, post, turn, Fault::NoAddress),
            _ => silently_aborts(pre, post, turn, Fault::OutOfTurn),
        },
{
}

/// While a trap is written into the inferior: the breakpoint is entered, with the byte that the
/// write replaced, when the write has succeeded, and not before.
pub proof fn law_while_arming(
    pre: Debugger,
    write: WriteByte,
    event: Event,
    post: Debugger,
    turn: Turn,
)
    requires
        pre.phase == Phase::Arming(write),
        pre.transition(event, post, turn),
    ensures
        match event {
            Event::Trace(reply) => match write.next(reply) {
                Progress::Pending(next) => {
                    &&& all_kept(pre, post)
                    &&& post.phase == Phase::Arming(next)
                    &&& silently_asks(turn, Request::Trace(next.call()))
                },
                Progress::Finished(Ok(orig_byte)) => {
                    enters_breakpoint(pre, post, turn, write.addr, orig_byte)
                },
                Progress::Finished(Err(Failure::System(errno))) => {
                    silently_aborts(pre, post, turn, Fault::ArmFailed(errno))
                },
                Progress::Finished(Err(Failure::Fatal(fault))) => {
                    silently_aborts(pre, post, turn, fault)
                },
            },
            _ => silently_aborts(pre, post, turn, Fault::OutOfTurn),
        },
{
}

/// After an inferior was killed: if the debugger is to be left, that is printed and it is; if the
/// target is to be started again, the killed process is waited for first.
pub proof fn law_after_the_kill(
    pre: Debugger,
    inferior: Inferior,
    rerun: Option<Vec<String>>,
    event: Event,
    post: Debugger,
    turn: Turn,
)
    requires
        pre.phase == (Phase::Killing { inferior, rerun }),
        pre.transition(event, post, turn),
    ensures
        all_kept(pre, post),
        match event {
            Event::Killed(true) => match rerun {
                None => {
                    &&& turn.reports@ == seq![Report::KillingInferior(inferior.child as i32)]
                    &&& turn.request == Request::Quit
                    &&& post.phase is Over
                },
                Some(args) => {
                    let wait = Wait { options: None, stopped_by: None };
                    &&& post.phase == (Phase::Recycling { inferior, args, wait })
                    &&& silently_asks(turn, Request::Trace(TraceCall::Wait { options: None }))
                },
            },
            Event::Killed(false) => silently_aborts(pre, post, turn, Fault::KillFailed),
            _ => silently_aborts(pre, post, turn, Fault::OutOfTurn),
        },
{
}

/// While a killed inferior is waited for: once it is gone that is printed, and the target is started
/// with the arguments that were given.
pub proof fn law_while_recycling(
    pre: Debugger,
    inferior: Inferior,
    args: Vec<String>,
    wait: Wait,
    event: Event,
    post: Debugger,
    turn: Turn,
)
    requires
        pre.phase == (Phase::Recycling { inferior, args, wait }),
        pre.transition(event, post, turn),
    ensures
        all_kept(pre, post),
        match event {
            Event::Trace(reply) => match wait.next(reply) {
                Progress::Pending(next) => {
                    &&& post.phase == (Phase::Recycling { inferior, args, wait: next })
                    &&& silently_asks(turn, Request::Trace(next.call()))
                },
                Progress::Finished(Ok(_)) => {
                    &&& turn.reports@ == seq![Report::KillingInferior(inferior.child as i32)]
                    &&& turn.request == Request::Spawn(args)
                    &&& post.phase is Spawning
                },
                Progress::Finished(Err(Failure::System(errno))) => {
                    silently_aborts(pre, post, turn, Fault::RecycleFailed(errno))
                },
                Progress::Finished(Err(Failure::Fatal(fault))) => {
                    silently_aborts(pre, post, turn, fault)
                },
            },
            _ => silently_aborts(pre, post, turn, Fault::OutOfTurn),
        },
{
}

/// After the target was started: the new process is waited for. If it could not be started, that is
/// printed.
pub proof fn law_after_the_start(pre: Debugger, event: Event, post: Debugger, turn: Turn)
    requires
        pre.phase is Spawning,
        pre.transition(event, post, turn),
    ensures
        all_kept(pre, post),
        match event {
            Event::Spawned(None) => back_at_the_prompt(post, turn, seq![Report::StartFailed]),
            Event::Spawned(Some(child)) => {
                &&& silently_asks(turn, Request::Trace(TraceCall::Wait { options: None }))
                &&& post.phase matches Phase::Launching(launch) && launch.child == child
                    && launch.phase == LaunchPhase::Waiting(
                    Wait { options: None, stopped_by: None },
                )
            },
            _ => silently_aborts(pre, post, turn, Fault::OutOfTurn),
        },
{
}

/// While a new process is prepared: when it is ready it is the inferior, and it is restarted; when
/// an error was met there is no inferior, and that is printed.
pub proof fn law_while_launching(
    pre: Debugger,
    launch: Launch,
    reply: TraceReply,
    post: Debugger,
    turn: Turn,
)
    requires
        pre.phase == Phase::Launching(launch),
        pre.transition(Event::Trace(reply), post, turn),
    ensures
        post.target == pre.target,
        post.history_path == pre.history_path,
        exists|progress: Progress<Launch, Result<Option<Inferior>, Fault>>|
            {
                &&& #[trigger] launch.next(
                    pre.break_points@,
                    reply,
                    post.break_points@,
                    progress,
                )
                &&& match progress {
                    Progress::Pending(next) => {
                        &&& post.inferior == pre.inferior
                        &&& post.phase == Phase::Launching(next)
                        &&& silently_asks(turn, Request::Trace(next.call()))
                    },
                    Progress::Finished(Ok(Some(inferior))) => {
                        &&& post.inferior == Some(inferior)
                        &&& post.phase == (Phase::Continuing {
                            task: Cont::ReadingStart,
                            first: true,
                        })
                        &&& silently_asks(turn, Request::Trace(TraceCall::GetRegs))
                    },
                    Progress::Finished(Ok(None)) => {
                        &&& post.inferior == pre.inferior
                        &&& back_at_the_prompt(post, turn, seq![Report::StartFailed])
                    },
                    Progress::Finished(Err(fault)) => {
                        &&& post.inferior == pre.inferior
                        &&& post.phase is Over
                        &&& silently_asks(turn, Request::Abort(fault))
                    },
                }
            },
{
    let progress = choose|progress: Progress<Launch, Result<Option<Inferior>, Fault>>|
        {
            &&& launch.next(pre.break_points@, reply, post.break_points@, progress)
            &&& #[trigger] pre.leads_to(pre.launched(post.break_points@, progress), post, turn)
        };
    assert(launch.next(pre.break_points@, reply, post.break_points@, progress));
}

/// While a new process is prepared, nothing but an answer of that process is of use.
pub proof fn law_launch_takes_answers_only(pre: Debugger, event: Event, post: Debugger, turn: Turn)
    requires
        pre.phase is Launching,
        !(event is Trace),
        pre.transition(event, post, turn),
    ensures
        silently_aborts(pre, post, turn, Fault::OutOfTurn),
{
}

/// While the inferior is restarted, for the first time or again. If it stopped, by whatever signal,
/// it is kept, its signal is printed, and the line where it stopped is looked up. If it exited, it is
/// given up, and its status is printed. If a signal ended it, that is printed. If a call failed, the
/// error is printed, and the inferior is kept.
pub proof fn law_while_restarting(
    pre: Debugger,
    task: Cont,
    first: bool,
    event: Event,
    post: Debugger,
    turn: Turn,
)
    requires
        pre.phase == (Phase::Continuing { task, first }),
        pre.transition(event, post, turn),
    ensures
        post.break_points@ == pre.break_points@,
        match event {
            Event::Trace(reply) => match task.next(pre.break_points@, reply) {
                Progress::Pending(next) => {
                    &&& all_kept(pre, post)
                    &&& post.phase == (Phase::Continuing { task: next, first })
                    &&& silently_asks(turn, Request::Trace(next.call()))
                },
                Progress::Finished(Ok(Status::Stopped(signal, pos))) => {
                    &&& all_kept(pre, post)
                    &&& post.phase == (Phase::Locating { pos })
                    &&& turn.reports@ == seq![Report::ChildStopped(signal)]
                    &&& turn.request == Request::LineFromAddr(pos)
                },
                Progress::Finished(Ok(Status::Exited(code))) => {
                    &&& all_kept(Debugger { inferior: None, ..pre }, post)
                    &&& back_at_the_prompt(post, turn, seq![Report::ChildExited(code)])
                },
                Progress::Finished(Ok(Status::Signaled(_))) => {
                    &&& all_kept(pre, post)
                    &&& back_at_the_prompt(post, turn, seq![Report::ChildSignaled])
                },
                Progress::Finished(Err(Failure::System(errno))) => {
                    &&& all_kept(pre, post)
                    &&& first ==> back_at_the_prompt(
                        post,
                        turn,
                        seq![Report::RestartFailed(errno)],
                    )
                    &&& !first ==> back_at_the_prompt(
                        post,
                        turn,
                        seq![Report::ContinueFailed(errno)],
                    )
                },
                Progress::Finished(Err(Failure::Fatal(fault))) => {
                    silently_aborts(pre, post, turn, fault)
                },
            },
            _ => silently_aborts(pre, post, turn, Fault::OutOfTurn),
        },
{
}

/// After the line where the inferior stopped was looked up: the line is printed, or the address if
/// there is no line. The inferior is kept.
pub proof fn law_after_locating(
    pre: Debugger,
    pos: usize,
    event: Event,
    post: Debugger,
    turn: Turn,
)
    requires
        pre.phase == (Phase::Locating { pos }),
        pre.transition(event, post, turn),
    ensures
        all_kept(pre, post),
        match event {
            Event::Line(Some(line)) => {
                back_at_the_prompt(post, turn, seq![Report::StoppedAtLine(line)])
            },
            Event::Line(None) => {
                back_at_the_prompt(post, turn, seq![Report::StoppedAtAddress(pos)])
            },
            _ => silently_aborts(pre, post, turn, Fault::OutOfTurn),
        },
{
}

/// What a backtrace is told by an event, if it is told anything.
pub open spec fn told(event: Event) -> Option<BacktraceReply> {
    match event {
        Event::Trace(reply) => Some(BacktraceReply::Trace(reply)),
        Event::Line(line) => Some(BacktraceReply::Line(line)),
        Event::Function(function) => Some(BacktraceReply::Function(function)),
        _ => None,
    }
}

/// While the call chain is listed: every frame is printed as it is found, the listing goes on until
/// it ends, and a call that failed is printed. The inferior is kept.
pub proof fn law_while_listing(
    pre: Debugger,
    backtrace: Backtrace,
    event: Event,
    post: Debugger,
    turn: Turn,
)
    requires
        pre.phase == Phase::Tracing(backtrace),
        pre.transition(event, post, turn),
    ensures
        all_kept(pre, post),
        match told(event) {
            Some(reply) => {
                let (report, progress) = backtrace.next(reply);
                let printed = match report {
                    Some(report) => seq![report],
                    None => seq![],
                };
                match progress {
                    Progress::Pending(next) => {
                        &&& turn.reports@ == printed
                        &&& post.phase == Phase::Tracing(next)
                        &&& turn.request == match next.call() {
                            BacktraceCall::Trace(call) => Request::Trace(call),
                            BacktraceCall::LineFromAddr(addr) => Request::LineFromAddr(addr),
                            BacktraceCall::FunctionFromAddr(addr) => Request::FunctionFromAddr(
                                addr,
                            ),
                        }
                    },
                    Progress::Finished(Ok(())) => back_at_the_prompt(post, turn, printed),
                    Progress::Finished(Err(Failure::System(errno))) => back_at_the_prompt(
                        post,
                        turn,
                        printed.push(Report::BacktraceFailed(errno)),
                    ),
                    Progress::Finished(Err(Failure::Fatal(fault))) => {
                        &&& turn.reports@ == printed
                        &&& turn.request == Request::Abort(fault)
                        &&& post.phase is Over
                    },
                }
            },
            None => silently_aborts(pre, post, turn, Fault::OutOfTurn),
        },
{
    if let Some(reply) = told(event) {
        if let Some(report) = backtrace.next(reply).0 {
            assert(Seq::<Report>::empty().push(report) =~= seq![report]);
        }
    }
}

/// A debugger that is over takes no more part.
pub proof fn law_over_is_over(pre: Debugger, event: Event, post: Debugger, turn: Turn)
    requires
        pre.phase is Over,
        pre.transition(event, post, turn),
    ensures
        silently_aborts(pre, post, turn, Fault::OutOfTurn),
{
}

/// The inferior is given up only when it has exited, or to be killed; and a debugger that has none
/// gets one only from a launch that is done.
pub proof fn law_inferior_comes_and_goes(pre: Debugger, event: Event, post: Debugger, turn: Turn)
    requires
        pre.wf(),
        pre.transition(event, post, turn),
        post.inferior != pre.inferior,
    ensures
        pre.inferior is Some ==> {
            &&& post.inferior is None
            &&& {
                ||| turn.request is Kill
                ||| pre.phase matches Phase::Continuing { task, first: _ } && event matches Event::Trace(
                    reply,
                ) && task.next(pre.break_points@, reply) matches Progress::Finished(
                    Ok(Status::Exited(_)),
                )
            }
        },
        pre.inferior is None ==> pre.phase is Launching && turn.request == Request::Trace(
            TraceCall::GetRegs,
        ),
{
}

/// Whenever a restart ends with the inferior stopped, by any signal and at any place, the debugger
/// prints that signal and looks up that place; after the answer it prints the line, or the address
/// if there is none, and prompts. It has the same inferior throughout, so that the next command can
/// work on it.
pub proof fn law_stop_is_told_and_the_inferior_kept(
    debuggers: Seq<Debugger>,
    events: Seq<Event>,
    turns: Seq<Turn>,
    n: int,
    task: Cont,
    first: bool,
    reply: TraceReply,
    signal: i32,
    pos: usize,
)
    requires
        debugger_run(debuggers, events, turns),
        0 <= n < events.len(),
        debuggers[n].phase == (Phase::Continuing { task, first }),
        events[n] == Event::Trace(reply),
        task.next(debuggers[n].break_points@, reply) == Progress::<
            Cont,
            Result<Status, Failure>,
        >::Finished(Ok(Status::Stopped(signal, pos))),
    ensures
        turns[n].reports@ == seq![Report::ChildStopped(signal)],
        turns[n].request == Request::LineFromAddr(pos),
        debuggers[n].inferior is Some,
        debuggers[n + 1].inferior == debuggers[n].inferior,
        n + 1 < events.len() ==> (events[n + 1] matches Event::Line(line) ==> {
            &&& debuggers[n + 2].inferior == debuggers[n].inferior
            &&& debuggers[n + 2].phase is Prompting
            &&& turns[n + 1].request == Request::ReadLine
            &&& turns[n + 1].reports@ == match line {
                Some(line) => seq![Report::StoppedAtLine(line)],
                None => seq![Report::StoppedAtAddress(pos)],
            }
        }),
{
    assert(debuggers[n].wf()) by {
        if n > 0 {
            assert(debuggers[n - 1].transition(events[n - 1], debuggers[n], turns[n - 1]));
        }
    }
    law_while_restarting(debuggers[n], task, first, events[n], debuggers[n + 1], turns[n]);
    if n + 1 < events.len() {
        law_after_locating(
            debuggers[n + 1],
            pos,
            events[n + 1],
            debuggers[n + 2],
            turns[n + 1],
        );
    }
}

/// The arguments of the command to run the target that was obeyed last among the first `n` events.
pub open spec fn last_run(debuggers: Seq<Debugger>, events: Seq<Event>, n: nat) -> Option<
    Vec<String>,
>
    decreases n,
{
    if n == 0 {
        None
    } else {
        match (debuggers[n - 1].phase, events[n - 1]) {
            (Phase::Interpreting, Event::Interpreted(Some(DebuggerCommand::Run(args)))) => Some(
                args,
            ),
            _ => last_run(debuggers, events, (n - 1) as nat),
        }
    }
}

/// The arguments that a phase keeps for the next start of the target.
spec fn args_in_store(phase: Phase) -> Option<Vec<String>> {
    match phase {
        Phase::Killing { inferior: _, rerun } => rerun,
        Phase::Recycling { inferior: _, args, wait: _ } => Some(args),
        _ => None,
    }
}

/// The arguments that a turn keeps in store or starts the target with.
spec fn args_handed_on(post: Debugger, turn: Turn) -> Option<Vec<String>> {
    match turn.request {
        Request::Spawn(args) => Some(args),
        _ => args_in_store(post.phase),
    }
}

proof fn lemma_args_handed_on(pre: Debugger, event: Event, post: Debugger, turn: Turn)
    requires
        pre.transition(event, post, turn),
        args_handed_on(post, turn) is Some,
    ensures
        match (pre.phase, event) {
            (Phase::Interpreting, Event::Interpreted(Some(DebuggerCommand::Run(args)))) => {
                args_handed_on(post, turn) == Some(args)
            },
            _ => args_handed_on(post, turn) == args_in_store(pre.phase),
        },
{
}

proof fn lemma_args_in_store(
    debuggers: Seq<Debugger>,
    events: Seq<Event>,
    turns: Seq<Turn>,
    n: nat,
)
    requires
        debugger_run(debuggers, events, turns),
        n < events.len(),
        args_handed_on(debuggers[n as int + 1], turns[n as int]) is Some,
    ensures
        args_handed_on(debuggers[n as int + 1], turns[n as int]) == last_run(
            debuggers,
            events,
            n + 1,
        ),
    decreases n,
{
    let i = n as int;
    assert(debuggers[i].transition(events[i], debuggers[i + 1], turns[i]));
    lemma_args_handed_on(debuggers[i], events[i], debuggers[i + 1], turns[i]);
    if args_in_store(debuggers[i].phase) is Some {
        assert(i > 0);
        assert(debuggers[i - 1].transition(events[i - 1], debuggers[i], turns[i - 1]));
        lemma_phase_request(debuggers[i - 1], events[i - 1], debuggers[i], turns[i - 1]);
        lemma_args_in_store(debuggers, events, turns, (n - 1) as nat);
    }
}

/// While arguments are in store, no start of the target is asked for.
proof fn lemma_phase_request(pre: Debugger, event: Event, post: Debugger, turn: Turn)
    requires
        pre.transition(event, post, turn),
        args_in_store(post.phase) is Some,
    ensures
        !(turn.request is Spawn),
{
}

/// Whenever the target is to be started, it is with the arguments of the command to run it that was
/// obeyed last, whether or not an inferior had to be killed and waited for in between.
pub proof fn law_target_is_started_as_the_user_said(
    debuggers: Seq<Debugger>,
    events: Seq<Event>,
    turns: Seq<Turn>,
    n: nat,
    args: Vec<String>,
)
    requires
        debugger_run(debuggers, events, turns),
        n < events.len(),
        turns[n as int].request == Request::Spawn(args),
    ensures
        last_run(debuggers, events, n + 1) == Some(args),
{
    lemma_args_in_store(debuggers, events, turns, n);
}

/// A debugger is there exactly when the debug information was loaded and there is a home directory.
/// It is for the target that was named, keeps its history in the home directory, and has neither an
/// inferior nor breakpoints. If the debug information was not loaded, what is printed names the
/// target, and the error if there is one.
pub proof fn law_debugger_is_set_up(
    target: Seq<char>,
    loaded: Result<(), LoadError>,
    home: Option<Seq<char>>,
    result: Result<Debugger, StartError>,
    detail: Seq<char>,
)
    requires
        Debugger::comes_of(target, loaded, home, result),
    ensures
        result is Ok <==> loaded is Ok && home is Some,
        result matches Ok(debugger) ==> {
            &&& debugger.target@ == target
            &&& debugger.history_path@ == home->0 + "/.deet_history"@
            &&& debugger.inferior is None
            &&& debugger.break_points@.dom() == Set::<usize>::empty()
            &&& debugger.phase is Prompting
            &&& debugger.wf()
        },
        loaded is Ok && home is None ==> result matches Err(StartError::NoHome),
        loaded matches Err(error) ==> result matches Err(StartError::Exit(report))
            && report.spec_text_with(detail) == match error {
            LoadError::ErrorOpeningFile => "Could not open file "@ + target,
            LoadError::DwarfFormatError(error) => "Could not debugging symbols from "@ + target
                + ": "@ + error@,
        },
{
    if let Ok(debugger) = result {
        assert(debugger.break_points@.dom() =~= Set::<usize>::empty());
    }
}

/// The loop begins at the prompt, and prints nothing.
pub proof fn law_loop_begins_at_the_prompt(pre: Debugger, post: Debugger, turn: Turn)
    requires
        pre.leads_to(pre.prompts(seq![]), post, turn),
    ensures
        all_kept(pre, post),
        back_at_the_prompt(post, turn, seq![]),
{
}

} // verus!
