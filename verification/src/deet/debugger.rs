//! The debugger's command loop.
//!
//! The loop is driven from outside: every turn prints some lines and asks for one thing to be
//! done, and the outcome of that is handed to the next turn.

use crate::deet::address::{location_of, parse_address, Location};
use crate::deet::backtrace::{extend, Backtrace, BacktraceCall, BacktraceReply};
use crate::deet::inferior::{
    arm_fault, arming_fault, spec_wait, spec_write_byte, Breakpoint, Cont, Inferior, Launch,
    LaunchPhase, Status, Wait, WriteByte, TRAP,
};
use crate::deet::report::{Line, Report};
use crate::deet::tracee::{Failure, Fault, Progress, TraceCall, TraceReply};
use crate::text::words::{is_blank, law_blank_has_no_words, split_words, texts, words};
use std::collections::HashMap;
use vstd::prelude::*;

verus! {

/// What the user can ask for.
#[derive(PartialEq, Eq, Debug)]
pub enum DebuggerCommand {
    /// Start the target with these arguments.
    Run(Vec<String>),
    Quit,
    Continue,
    Backtrace,
    /// Set a breakpoint at the place that is named.
    Break(String),
}

/// What came of reading a line from the terminal.
#[derive(PartialEq, Eq, Debug)]
pub enum Input {
    Line(String),
    Interrupted,
    Eof,
    /// The terminal could not be read.
    Failed,
}

/// The outcome of a [`Request`].
#[derive(PartialEq, Eq, Debug)]
pub enum Event {
    Input(Input),
    /// The history was saved, or could not be because of this error.
    Remembered(Option<String>),
    /// The command that the words stand for, if any.
    Interpreted(Option<DebuggerCommand>),
    /// Whether the inferior could be killed.
    Killed(bool),
    /// The new process, if it could be started.
    Spawned(Option<u32>),
    Trace(TraceReply),
    Line(Option<Line>),
    Function(Option<String>),
    Address(Option<usize>),
}

/// What the debugger wants done.
#[derive(PartialEq, Eq, Debug)]
pub enum Request {
    /// Prompt for a line.
    ReadLine,
    /// Add a line to the history and save the history.
    Remember(String),
    /// Make a command of the words of a line.
    Interpret(Vec<String>),
    /// Kill the inferior.
    Kill,
    /// Start the target with these arguments, to be traced.
    Spawn(Vec<String>),
    /// Make a call on the inferior.
    Trace(TraceCall),
    /// Look up the line at an address.
    LineFromAddr(usize),
    /// Look up the function at an address.
    FunctionFromAddr(usize),
    /// Look up the address of a line.
    AddrForLine(usize),
    /// Look up the address of a function.
    AddrForFunction(String),
    /// Leave the debugger.
    Quit,
    /// Break off: the debugger cannot go on.
    Abort(Fault),
}

/// What a turn of the loop does: it prints lines, then makes a request.
#[derive(PartialEq, Eq, Debug)]
pub struct Turn {
    pub reports: Vec<Report>,
    pub request: Request,
}

/// What the debugger is waiting for.
pub enum Phase {
    Prompting,
    /// A line, split into these words, is being added to the history.
    Remembering(Vec<String>),
    Interpreting,
    /// The inferior is being killed. Then the target is started with the arguments in `rerun`, or
    /// else the debugger is left.
    Killing { inferior: Inferior, rerun: Option<Vec<String>> },
    /// The killed inferior is being waited for.
    Recycling { inferior: Inferior, args: Vec<String>, wait: Wait },
    Spawning,
    Launching(Launch),
    /// The inferior is being restarted, for the first time or again.
    Continuing { task: Cont, first: bool },
    /// The line where the inferior stopped is being looked up.
    Locating { pos: usize },
    Tracing(Backtrace),
    /// The place for a breakpoint is being looked up.
    Resolving,
    /// A breakpoint is being written into the inferior.
    Arming(WriteByte),
    Over,
}

/// The debugger.
pub struct Debugger {
    pub target: String,
    pub history_path: String,
    pub inferior: Option<Inferior>,
    pub break_points: HashMap<usize, Breakpoint>,
    pub phase: Phase,
}

/// Why the debug information of the target could not be loaded.
#[derive(PartialEq, Eq, Debug)]
pub enum LoadError {
    ErrorOpeningFile,
    /// The file holds no usable debug information, as this error says.
    DwarfFormatError(String),
}

/// Why the debugger could not start.
#[derive(PartialEq, Eq, Debug)]
pub enum StartError {
    /// It prints a line and exits with status 1.
    Exit(Report),
    /// There is no home directory for the history.
    NoHome,
}

/// What a turn leads to.
pub struct Outcome {
    pub inferior: Option<Inferior>,
    pub break_points: Map<usize, Breakpoint>,
    pub phase: Phase,
    pub reports: Seq<Report>,
    pub request: Request,
}

impl Debugger {
    /// Every breakpoint is filed under its own address.
    pub open spec fn filed(self) -> bool {
        forall|a: usize| #[trigger]
            self.break_points@.contains_key(a) ==> self.break_points@[a].addr == a
    }

    /// Every breakpoint is filed under its own address, and the phase fits the inferior.
    pub open spec fn wf(self) -> bool {
        &&& self.filed()
        &&& match self.phase {
            Phase::Killing { inferior: _, rerun: _ } => self.inferior is None,
            Phase::Recycling { inferior: _, args: _, wait: _ } => self.inferior is None,
            Phase::Spawning => self.inferior is None,
            Phase::Launching(launch) => self.inferior is None && launch.wf(self.break_points@),
            Phase::Continuing { task: _, first: _ } => self.inferior is Some,
            Phase::Locating { pos: _ } => self.inferior is Some,
            Phase::Tracing(backtrace) => self.inferior is Some && backtrace.wf(),
            Phase::Arming(write) => self.inferior is Some && write.val == TRAP,
            _ => true,
        }
    }

    /// The turn leads from `self` to `post` as `outcome` says.
    pub open spec fn leads_to(self, outcome: Outcome, post: Debugger, turn: Turn) -> bool {
        &&& post.target == self.target
        &&& post.history_path == self.history_path
        &&& post.inferior == outcome.inferior
        &&& post.break_points@ =~= outcome.break_points
        &&& post.phase == outcome.phase
        &&& turn.reports@ =~= outcome.reports
        &&& turn.request == outcome.request
    }

    /// Nothing changes but what is waited for.
    pub open spec fn asks(self, phase: Phase, reports: Seq<Report>, request: Request) -> Outcome {
        Outcome {
            inferior: self.inferior,
            break_points: self.break_points@,
            phase,
            reports,
            request,
        }
    }

    /// The user is prompted for the next command.
    pub open spec fn prompts(self, reports: Seq<Report>) -> Outcome {
        self.asks(Phase::Prompting, reports, Request::ReadLine)
    }

    /// The debugger breaks off.
    pub open spec fn aborts(self, reports: Seq<Report>, fault: Fault) -> Outcome {
        self.asks(Phase::Over, reports, Request::Abort(fault))
    }

    /// A call is made on the inferior.
    pub open spec fn traces(self, phase: Phase, reports: Seq<Report>, call: TraceCall) -> Outcome {
        self.asks(phase, reports, Request::Trace(call))
    }

    /// A breakpoint whose trap stands in for `orig_byte` is entered in the table.
    pub open spec fn records(self, addr: usize, orig_byte: u8) -> Outcome {
        let break_points = self.break_points@.insert(addr, Breakpoint { addr, orig_byte });
        Outcome {
            break_points,
            ..self.prompts(
                seq![Report::BreakpointSet { index: (break_points.len() - 1) as usize, addr }],
            )
        }
    }

    /// A breakpoint is set: in the memory of the inferior first, if there is one.
    pub open spec fn places(self, addr: usize) -> Outcome {
        if self.inferior is Some {
            let write = spec_write_byte(addr, TRAP);
            self.traces(Phase::Arming(write), seq![], write.call())
        } else {
            self.records(addr, 0)
        }
    }

    /// A breakpoint is set where a look-up says, which must have found something.
    pub open spec fn places_found(self, addr: Option<usize>) -> Outcome {
        match addr {
            Some(addr) => self.places(addr),
            None => self.aborts(seq![], Fault::NoAddress),
        }
    }

    /// What a command leads to.
    pub open spec fn obeys(self, command: DebuggerCommand) -> Outcome {
        match command {
            DebuggerCommand::Run(args) => match self.inferior {
                Some(inferior) => Outcome {
                    inferior: None,
                    ..self.asks(
                        Phase::Killing { inferior, rerun: Some(args) },
                        seq![],
                        Request::Kill,
                    )
                },
                None => self.asks(Phase::Spawning, seq![], Request::Spawn(args)),
            },
            DebuggerCommand::Quit => match self.inferior {
                Some(inferior) => Outcome {
                    inferior: None,
                    ..self.asks(Phase::Killing { inferior, rerun: None }, seq![], Request::Kill)
                },
                None => self.asks(Phase::Over, seq![], Request::Quit),
            },
            DebuggerCommand::Continue => if self.inferior is Some {
                self.traces(
                    Phase::Continuing { task: Cont::ReadingStart, first: false },
                    seq![],
                    TraceCall::GetRegs,
                )
            } else {
                self.prompts(seq![Report::NoSubprocess])
            },
            DebuggerCommand::Backtrace => if self.inferior is Some {
                self.traces(Phase::Tracing(Backtrace::ReadingRegs), seq![], TraceCall::GetRegs)
            } else {
                self.prompts(seq![Report::NoSubprocess])
            },
            DebuggerCommand::Break(arg) => match location_of(arg@) {
                Location::Address(addr) => self.places_found(addr),
                Location::Line(line) => self.asks(
                    Phase::Resolving,
                    seq![],
                    Request::AddrForLine(line),
                ),
                Location::Function => self.asks(
                    Phase::Resolving,
                    seq![],
                    Request::AddrForFunction(arg),
                ),
            },
        }
    }

    /// What the end of a restart leads to.
    pub open spec fn restarted(self, result: Result<Status, Failure>, first: bool) -> Outcome {
        match result {
            Ok(Status::Exited(code)) => Outcome {
                inferior: None,
                ..self.prompts(seq![Report::ChildExited(code)])
            },
            Ok(Status::Stopped(signal, pos)) => self.asks(
                Phase::Locating { pos },
                seq![Report::ChildStopped(signal)],
                Request::LineFromAddr(pos),
            ),
            Ok(Status::Signaled(_)) => self.prompts(seq![Report::ChildSignaled]),
            Err(Failure::System(errno)) => self.prompts(
                seq![
                    if first {
                        Report::RestartFailed(errno)
                    } else {
                        Report::ContinueFailed(errno)
                    },
                ],
            ),
            Err(Failure::Fatal(fault)) => self.aborts(seq![], fault),
        }
    }

    /// What an answer to a backtrace leads to.
    pub open spec fn backtraced(self, backtrace: Backtrace, reply: BacktraceReply) -> Outcome {
        let (report, progress) = backtrace.next(reply);
        let reports = extend(seq![], report);
        match progress {
            Progress::Pending(backtrace) => self.asks(
                Phase::Tracing(backtrace),
                reports,
                backtrace_request(backtrace.call()),
            ),
            Progress::Finished(Ok(())) => self.prompts(reports),
            Progress::Finished(Err(Failure::System(errno))) => self.prompts(
                reports.push(Report::BacktraceFailed(errno)),
            ),
            Progress::Finished(Err(Failure::Fatal(fault))) => self.aborts(reports, fault),
        }
    }

    /// What the progress of a launch leads to.
    pub open spec fn launched(
        self,
        break_points: Map<usize, Breakpoint>,
        progress: Progress<Launch, Result<Option<Inferior>, Fault>>,
    ) -> Outcome {
        match progress {
            Progress::Pending(launch) => Outcome {
                break_points,
                ..self.traces(Phase::Launching(launch), seq![], launch.call())
            },
            Progress::Finished(Ok(Some(inferior))) => Outcome {
                break_points,
                inferior: Some(inferior),
                ..self.traces(
                    Phase::Continuing { task: Cont::ReadingStart, first: true },
                    seq![],
                    TraceCall::GetRegs,
                )
            },
            Progress::Finished(Ok(None)) => Outcome {
                break_points,
                ..self.prompts(seq![Report::StartFailed])
            },
            Progress::Finished(Err(fault)) => Outcome {
                break_points,
                ..self.aborts(seq![], fault)
            },
        }
    }

    /// What an event leads to, where one outcome is possible.
    pub open spec fn after(self, event: Event) -> Outcome {
        match (self.phase, event) {
            (Phase::Prompting, Event::Input(Input::Interrupted)) => self.prompts(
                seq![Report::QuitHint],
            ),
            (Phase::Prompting, Event::Input(Input::Eof)) => self.obeys(DebuggerCommand::Quit),
            (Phase::Prompting, Event::Input(Input::Failed)) => self.aborts(
                seq![],
                Fault::InputFailed,
            ),
            (Phase::Remembering(tokens), Event::Remembered(error)) => self.asks(
                Phase::Interpreting,
                match error {
                    Some(error) => seq![
                        Report::HistoryNotSaved { path: self.history_path, error },
                    ],
                    None => seq![],
                },
                Request::Interpret(tokens),
            ),
            (Phase::Interpreting, Event::Interpreted(None)) => self.prompts(
                seq![Report::Unrecognized],
            ),
            (Phase::Interpreting, Event::Interpreted(Some(command))) => self.obeys(command),
            (Phase::Killing { inferior: _, rerun: _ }, Event::Killed(false)) => self.aborts(
                seq![],
                Fault::KillFailed,
            ),
            (Phase::Killing { inferior, rerun: None }, Event::Killed(true)) => self.asks(
                Phase::Over,
                seq![Report::KillingInferior(inferior.child as i32)],
                Request::Quit,
            ),
            (Phase::Killing { inferior, rerun: Some(args) }, Event::Killed(true)) => {
                let wait = spec_wait(None);
                self.traces(Phase::Recycling { inferior, args, wait }, seq![], wait.call())
            },
            (
                Phase::Recycling { inferior, args, wait },
                Event::Trace(reply),
            ) => match wait.next(reply) {
                Progress::Pending(wait) => self.traces(
                    Phase::Recycling { inferior, args, wait },
                    seq![],
                    wait.call(),
                ),
                Progress::Finished(Ok(_)) => self.asks(
                    Phase::Spawning,
                    seq![Report::KillingInferior(inferior.child as i32)],
                    Request::Spawn(args),
                ),
                Progress::Finished(Err(Failure::System(errno))) => self.aborts(
                    seq![],
                    Fault::RecycleFailed(errno),
                ),
                Progress::Finished(Err(Failure::Fatal(fault))) => self.aborts(seq![], fault),
            },
            (Phase::Spawning, Event::Spawned(None)) => self.prompts(seq![Report::StartFailed]),
            (Phase::Continuing { task, first }, Event::Trace(reply)) => match task.next(
                self.break_points@,
                reply,
            ) {
                Progress::Pending(task) => self.traces(
                    Phase::Continuing { task, first },
                    seq![],
                    task.call(),
                ),
                Progress::Finished(result) => self.restarted(result, first),
            },
            (Phase::Locating { pos: _ }, Event::Line(Some(line))) => self.prompts(
                seq![Report::StoppedAtLine(line)],
            ),
            (Phase::Locating { pos }, Event::Line(None)) => self.prompts(
                seq![Report::StoppedAtAddress(pos)],
            ),
            (Phase::Tracing(backtrace), Event::Trace(reply)) => self.backtraced(
                backtrace,
                BacktraceReply::Trace(reply),
            ),
            (Phase::Tracing(backtrace), Event::Line(line)) => self.backtraced(
                backtrace,
                BacktraceReply::Line(line),
            ),
            (Phase::Tracing(backtrace), Event::Function(function)) => self.backtraced(
                backtrace,
                BacktraceReply::Function(function),
            ),
            (Phase::Resolving, Event::Address(addr)) => self.places_found(addr),
            (Phase::Arming(write), Event::Trace(reply)) => match write.next(reply) {
                Progress::Pending(write) => self.traces(
                    Phase::Arming(write),
                    seq![],
                    write.call(),
                ),
                Progress::Finished(Ok(orig_byte)) => self.records(write.addr, orig_byte),
                Progress::Finished(Err(failure)) => self.aborts(
                    seq![],
                    arm_fault(failure),
                ),
            },
            _ => self.aborts(seq![], Fault::OutOfTurn),
        }
    }

    /// What an event leads to.
    pub open spec fn transition(self, event: Event, post: Debugger, turn: Turn) -> bool {
        match (self.phase, event) {
            (Phase::Prompting, Event::Input(Input::Line(line))) => if is_blank(
                line@,
            ) {
                self.leads_to(self.prompts(seq![]), post, turn)
            } else {
                post.phase matches Phase::Remembering(tokens) && {
                    &&& texts(tokens@) == words(line@)
                    &&& self.leads_to(
                        self.asks(Phase::Remembering(tokens), seq![], Request::Remember(line)),
                        post,
                        turn,
                    )
                }
            },
            (Phase::Spawning, Event::Spawned(Some(child))) => {
                post.phase matches Phase::Launching(launch) && {
                    &&& launch.child == child
                    &&& launch.phase == LaunchPhase::Waiting(
                        spec_wait(None),
                    )
                    &&& self.leads_to(
                        self.traces(Phase::Launching(launch), seq![], launch.call()),
                        post,
                        turn,
                    )
                }
            },
            (Phase::Launching(launch), Event::Trace(reply)) => {
                exists|progress: Progress<Launch, Result<Option<Inferior>, Fault>>|
                    {
                        &&& launch.next(self.break_points@, reply, post.break_points@, progress)
                        &&& #[trigger] self.leads_to(
                            self.launched(post.break_points@, progress),
                            post,
                            turn,
                        )
                    }
            },
            _ => self.leads_to(self.after(event), post, turn),
        }
    }
}

impl Debugger {
    /// What comes of setting up a debugger.
    pub open spec fn comes_of(
        target: Seq<char>,
        loaded: Result<(), LoadError>,
        home: Option<Seq<char>>,
        result: Result<Debugger, StartError>,
    ) -> bool {
        match loaded {
            Err(LoadError::ErrorOpeningFile) => {
                result matches Err(StartError::Exit(Report::CouldNotOpen { target: t })) && t@
                    == target
            },
            Err(LoadError::DwarfFormatError(error)) => {
                result matches Err(
                    StartError::Exit(Report::NoDebuggingSymbols { target: t, error: e }),
                ) && t@ == target && e == error
            },
            Ok(()) => match home {
                None => result matches Err(StartError::NoHome),
                Some(home) => result matches Ok(debugger) && {
                    &&& debugger.wf()
                    &&& debugger.target@ == target
                    &&& debugger.history_path@ == home + "/.deet_history"@
                    &&& debugger.inferior is None
                    &&& debugger.break_points@ == Map::<usize, Breakpoint>::empty()
                    &&& debugger.phase == Phase::Prompting
                },
            },
        }
    }

    /// Sets up a debugger for `target`, whose debug information has been loaded or not. The
    /// history is kept in the home directory.
    pub fn new(target: &str, loaded: Result<(), LoadError>, home: Option<&str>) -> (result: Result<
        Debugger,
        StartError,
    >)
        ensures
            Debugger::comes_of(
                target@,
                loaded,
                match home {
                    Some(home) => Some(home@),
                    None => None,
                },
                result,
            ),
            match loaded {
                Err(LoadError::ErrorOpeningFile) => {
                    result matches Err(StartError::Exit(Report::CouldNotOpen { target: t })) && t@
                        == target@
                },
                Err(LoadError::DwarfFormatError(error)) => {
                    result matches Err(
                        StartError::Exit(Report::NoDebuggingSymbols { target: t, error: e }),
                    ) && t@ == target@ && e == error
                },
                Ok(()) => match home {
                    None => result matches Err(StartError::NoHome),
                    Some(home) => result matches Ok(debugger) && {
                        &&& debugger.wf()
                        &&& debugger.target@ == target@
                        &&& debugger.history_path@ == home@ + "/.deet_history"@
                        &&& debugger.inferior is None
                        &&& debugger.break_points@ == Map::<usize, Breakpoint>::empty()
                        &&& debugger.phase == Phase::Prompting
                    },
                },
            },
    {
        broadcast use vstd::std_specs::hash::group_hash_axioms;

        match loaded {
            Err(LoadError::ErrorOpeningFile) => Err(
                StartError::Exit(Report::CouldNotOpen { target: target.to_owned() }),
            ),
            Err(LoadError::DwarfFormatError(error)) => Err(
                StartError::Exit(Report::NoDebuggingSymbols { target: target.to_owned(), error }),
            ),
            Ok(()) => match home {
                None => Err(StartError::NoHome),
                Some(home) => {
                    let mut history_path: String = home.to_owned();
                    history_path.append("/.deet_history");
                    Ok(
                        Debugger {
                            target: target.to_owned(),
                            history_path,
                            inferior: None,
                            break_points: HashMap::new(),
                            phase: Phase::Prompting,
                        },
                    )
                },
            },
        }
    }

    /// Begins the command loop.
    pub fn run(&mut self) -> (turn: Turn)
        requires
            old(self).filed(),
        ensures
            old(self).leads_to(old(self).prompts(seq![]), *final(self), turn),
            final(self).wf(),
    {
        self.prompt(Vec::new())
    }

    /// Takes the outcome of the last request and makes the next one.
    pub fn step(&mut self, event: Event) -> (turn: Turn)
        requires
            old(self).wf(),
        ensures
            old(self).transition(event, *final(self), turn),
            final(self).wf(),
    {
        let mut phase: Phase = Phase::Over;
        std::mem::swap(&mut phase, &mut self.phase);
        match (phase, event) {
            (Phase::Prompting, Event::Input(input)) => self.read(input),
            (Phase::Remembering(tokens), Event::Remembered(error)) => {
                let mut reports: Vec<Report> = Vec::new();
                if let Some(error) = error {
                    reports.push(
                        Report::HistoryNotSaved { path: self.history_path.clone(), error },
                    );
                }
                self.ask(Phase::Interpreting, reports, Request::Interpret(tokens))
            },
            (Phase::Interpreting, Event::Interpreted(None)) => {
                self.prompt(one(Report::Unrecognized))
            },
            (Phase::Interpreting, Event::Interpreted(Some(command))) => self.obey(command),
            (Phase::Killing { inferior, rerun }, Event::Killed(killed)) => {
                self.killed(inferior, rerun, killed)
            },
            (Phase::Recycling { inferior, args, wait }, Event::Trace(reply)) => {
                self.recycle(inferior, args, wait, reply)
            },
            (Phase::Spawning, Event::Spawned(spawned)) => match Inferior::new(spawned) {
                Progress::Finished(_) => self.prompt(one(Report::StartFailed)),
                Progress::Pending(launch) => {
                    let call: TraceCall = launch.request();
                    self.ask(Phase::Launching(launch), Vec::new(), Request::Trace(call))
                },
            },
            (Phase::Launching(launch), Event::Trace(reply)) => self.launch(launch, reply),
            (Phase::Continuing { task, first }, Event::Trace(reply)) => {
                match task.answer(&self.break_points, reply) {
                    Progress::Pending(task) => {
                        let call: TraceCall = task.request();
                        self.ask(
                            Phase::Continuing { task, first },
                            Vec::new(),
                            Request::Trace(call),
                        )
                    },
                    Progress::Finished(result) => self.stopped(result, first),
                }
            },
            (Phase::Locating { pos: _ }, Event::Line(Some(line))) => {
                self.prompt(one(Report::StoppedAtLine(line)))
            },
            (Phase::Locating { pos }, Event::Line(None)) => {
                self.prompt(one(Report::StoppedAtAddress(pos)))
            },
            (Phase::Tracing(backtrace), Event::Trace(reply)) => {
                self.backtrace(backtrace, BacktraceReply::Trace(reply))
            },
            (Phase::Tracing(backtrace), Event::Line(line)) => {
                self.backtrace(backtrace, BacktraceReply::Line(line))
            },
            (Phase::Tracing(backtrace), Event::Function(function)) => {
                self.backtrace(backtrace, BacktraceReply::Function(function))
            },
            (Phase::Resolving, Event::Address(addr)) => self.place_found(addr),
            (Phase::Arming(write), Event::Trace(reply)) => match write.answer(reply) {
                Progress::Pending(write) => {
                    let call: TraceCall = write.request();
                    self.ask(Phase::Arming(write), Vec::new(), Request::Trace(call))
                },
                Progress::Finished(Ok(orig_byte)) => self.record(write.addr, orig_byte),
                Progress::Finished(Err(failure)) => {
                    self.abort(Vec::new(), arming_fault(failure))
                },
            },
            _ => self.abort(Vec::new(), Fault::OutOfTurn),
        }
    }

    fn ask(&mut self, phase: Phase, reports: Vec<Report>, request: Request) -> (turn: Turn)
        ensures
            old(self).leads_to(old(self).asks(phase, reports@, request), *final(self), turn),
    {
        self.phase = phase;
        Turn { reports, request }
    }

    fn prompt(&mut self, reports: Vec<Report>) -> (turn: Turn)
        ensures
            old(self).leads_to(old(self).prompts(reports@), *final(self), turn),
    {
        self.ask(Phase::Prompting, reports, Request::ReadLine)
    }

    fn abort(&mut self, reports: Vec<Report>, fault: Fault) -> (turn: Turn)
        ensures
            old(self).leads_to(old(self).aborts(reports@, fault), *final(self), turn),
    {
        self.ask(Phase::Over, reports, Request::Abort(fault))
    }

    /// A line was read, or not.
    fn read(&mut self, input: Input) -> (turn: Turn)
        requires
            old(self).filed(),
        ensures
            (Debugger { phase: Phase::Prompting, ..*old(self) }).transition(
                Event::Input(input),
                *final(self),
                turn,
            ),
            final(self).wf(),
    {
        match input {
            Input::Interrupted => self.prompt(one(Report::QuitHint)),
            Input::Eof => self.obey(DebuggerCommand::Quit),
            Input::Failed => self.abort(Vec::new(), Fault::InputFailed),
            Input::Line(line) => {
                let tokens: Vec<String> = split_words(line.as_str());
                proof {
                    law_blank_has_no_words(line@);
                }
                if tokens.len() == 0 {
                    self.prompt(Vec::new())
                } else {
                    self.ask(Phase::Remembering(tokens), Vec::new(), Request::Remember(line))
                }
            },
        }
    }

    /// Carries out a command.
    fn obey(&mut self, command: DebuggerCommand) -> (turn: Turn)
        requires
            old(self).filed(),
        ensures
            old(self).leads_to(old(self).obeys(command), *final(self), turn),
            final(self).wf(),
    {
        match command {
            DebuggerCommand::Run(args) => match self.inferior {
                Some(inferior) => {
                    self.inferior = None;
                    self.ask(
                        Phase::Killing { inferior, rerun: Some(args) },
                        Vec::new(),
                        Request::Kill,
                    )
                },
                None => self.ask(Phase::Spawning, Vec::new(), Request::Spawn(args)),
            },
            DebuggerCommand::Quit => match self.inferior {
                Some(inferior) => {
                    self.inferior = None;
                    self.ask(Phase::Killing { inferior, rerun: None }, Vec::new(), Request::Kill)
                },
                None => self.ask(Phase::Over, Vec::new(), Request::Quit),
            },
            DebuggerCommand::Continue => match self.inferior {
                Some(inferior) => {
                    let task: Cont = inferior.cont();
                    let call: TraceCall = task.request();
                    self.ask(
                        Phase::Continuing { task, first: false },
                        Vec::new(),
                        Request::Trace(call),
                    )
                },
                None => self.prompt(one(Report::NoSubprocess)),
            },
            DebuggerCommand::Backtrace => match self.inferior {
                Some(inferior) => {
                    let backtrace: Backtrace = inferior.print_backtrace();
                    self.ask(
                        Phase::Tracing(backtrace),
                        Vec::new(),
                        Request::Trace(TraceCall::GetRegs),
                    )
                },
                None => self.prompt(one(Report::NoSubprocess)),
            },
            DebuggerCommand::Break(arg) => match parse_address(arg.as_str()) {
                Location::Address(addr) => self.place_found(addr),
                Location::Line(line) => {
                    self.ask(Phase::Resolving, Vec::new(), Request::AddrForLine(line))
                },
                Location::Function => {
                    self.ask(Phase::Resolving, Vec::new(), Request::AddrForFunction(arg))
                },
            },
        }
    }

    /// Sets a breakpoint where a look-up says.
    fn place_found(&mut self, addr: Option<usize>) -> (turn: Turn)
        requires
            old(self).filed(),
        ensures
            old(self).leads_to(old(self).places_found(addr), *final(self), turn),
            final(self).wf(),
    {
        match addr {
            None => self.abort(Vec::new(), Fault::NoAddress),
            Some(addr) => match self.inferior {
                None => self.record(addr, 0),
                Some(inferior) => {
                    let write: WriteByte = inferior.write_byte(addr, TRAP);
                    let call: TraceCall = write.request();
                    self.ask(Phase::Arming(write), Vec::new(), Request::Trace(call))
                },
            },
        }
    }

    /// Enters a breakpoint in the table.
    fn record(&mut self, addr: usize, orig_byte: u8) -> (turn: Turn)
        requires
            old(self).filed(),
        ensures
            old(self).leads_to(old(self).records(addr, orig_byte), *final(self), turn),
            final(self).wf(),
    {
        broadcast use vstd::std_specs::hash::group_hash_axioms;

        self.break_points.insert(addr, Breakpoint { addr, orig_byte });
        let count: usize = self.break_points.len();
        assert(count > 0) by {
            assert(self.break_points@.dom().contains(addr));
        }
        self.prompt(one(Report::BreakpointSet { index: count - 1, addr }))
    }

    /// The old inferior was killed, or not.
    fn killed(&mut self, inferior: Inferior, rerun: Option<Vec<String>>, killed: bool) -> (turn:
        Turn)
        requires
            old(self).filed(),
            old(self).inferior is None,
        ensures
            (Debugger { phase: Phase::Killing { inferior, rerun }, ..*old(self) }).transition(
                Event::Killed(killed),
                *final(self),
                turn,
            ),
            final(self).wf(),
    {
        if let Err(fault) = inferior.kill(killed) {
            return self.abort(Vec::new(), fault);
        }
        match rerun {
            None => {
                let pid: i32 = inferior.pid();
                self.ask(Phase::Over, one(Report::KillingInferior(pid)), Request::Quit)
            },
            Some(args) => {
                let wait: Wait = inferior.wait(None);
                let call: TraceCall = wait.request();
                self.ask(
                    Phase::Recycling { inferior, args, wait },
                    Vec::new(),
                    Request::Trace(call),
                )
            },
        }
    }

    /// The killed inferior is being waited for.
    fn recycle(
        &mut self,
        inferior: Inferior,
        args: Vec<String>,
        wait: Wait,
        reply: TraceReply,
    ) -> (turn: Turn)
        requires
            old(self).filed(),
            old(self).inferior is None,
        ensures
            (Debugger {
                phase: Phase::Recycling { inferior, args, wait },
                ..*old(self)
            }).transition(Event::Trace(reply), *final(self), turn),
            final(self).wf(),
    {
        match wait.answer(reply) {
            Progress::Pending(wait) => {
                let call: TraceCall = wait.request();
                self.ask(
                    Phase::Recycling { inferior, args, wait },
                    Vec::new(),
                    Request::Trace(call),
                )
            },
            Progress::Finished(Ok(_)) => {
                let pid: i32 = inferior.pid();
                self.ask(
                    Phase::Spawning,
                    one(Report::KillingInferior(pid)),
                    Request::Spawn(args),
                )
            },
            Progress::Finished(Err(Failure::System(errno))) => {
                self.abort(Vec::new(), Fault::RecycleFailed(errno))
            },
            Progress::Finished(Err(Failure::Fatal(fault))) => self.abort(Vec::new(), fault),
        }
    }

    /// The new inferior is being prepared.
    fn launch(&mut self, launch: Launch, reply: TraceReply) -> (turn: Turn)
        requires
            old(self).filed(),
            old(self).inferior is None,
            launch.wf(old(self).break_points@),
        ensures
            (Debugger { phase: Phase::Launching(launch), ..*old(self) }).transition(
                Event::Trace(reply),
                *final(self),
                turn,
            ),
            final(self).wf(),
    {
        let ghost pre = Debugger { phase: Phase::Launching(launch), ..*self };
        let progress = launch.answer(&mut self.break_points, reply);
        let ghost answered = progress;
        let ghost table = self.break_points@;
        let turn: Turn = match progress {
            Progress::Pending(launch) => {
                let call: TraceCall = launch.request();
                self.ask(Phase::Launching(launch), Vec::new(), Request::Trace(call))
            },
            Progress::Finished(Ok(Some(inferior))) => {
                self.inferior = Some(inferior);
                let task: Cont = inferior.cont();
                let call: TraceCall = task.request();
                self.ask(
                    Phase::Continuing { task, first: true },
                    Vec::new(),
                    Request::Trace(call),
                )
            },
            Progress::Finished(Ok(None)) => self.prompt(one(Report::StartFailed)),
            Progress::Finished(Err(fault)) => self.abort(Vec::new(), fault),
        };
        assert(pre.leads_to(pre.launched(table, answered), *self, turn));
        turn
    }

    /// A restart has ended.
    fn stopped(&mut self, result: Result<Status, Failure>, first: bool) -> (turn: Turn)
        requires
            old(self).filed(),
            old(self).inferior is Some,
        ensures
            old(self).leads_to(old(self).restarted(result, first), *final(self), turn),
            final(self).wf(),
    {
        match result {
            Ok(Status::Exited(code)) => {
                self.inferior = None;
                self.prompt(one(Report::ChildExited(code)))
            },
            Ok(Status::Stopped(signal, pos)) => self.ask(
                Phase::Locating { pos },
                one(Report::ChildStopped(signal)),
                Request::LineFromAddr(pos),
            ),
            Ok(Status::Signaled(_)) => self.prompt(one(Report::ChildSignaled)),
            Err(Failure::System(errno)) => {
                let report: Report = if first {
                    Report::RestartFailed(errno)
                } else {
                    Report::ContinueFailed(errno)
                };
                self.prompt(one(report))
            },
            Err(Failure::Fatal(fault)) => self.abort(Vec::new(), fault),
        }
    }

    /// A backtrace goes on.
    fn backtrace(&mut self, backtrace: Backtrace, reply: BacktraceReply) -> (turn: Turn)
        requires
            old(self).filed(),
            old(self).inferior is Some,
        ensures
            old(self).leads_to(old(self).backtraced(backtrace, reply), *final(self), turn),
            final(self).wf(),
    {
        let (report, progress) = backtrace.answer(reply);
        let mut reports: Vec<Report> = Vec::new();
        if let Some(report) = report {
            reports.push(report);
        }
        match progress {
            Progress::Pending(backtrace) => {
                let request: Request = match backtrace.request() {
                    BacktraceCall::Trace(call) => Request::Trace(call),
                    BacktraceCall::LineFromAddr(addr) => Request::LineFromAddr(addr),
                    BacktraceCall::FunctionFromAddr(addr) => Request::FunctionFromAddr(addr),
                };
                self.ask(Phase::Tracing(backtrace), reports, request)
            },
            Progress::Finished(Ok(())) => self.prompt(reports),
            Progress::Finished(Err(Failure::System(errno))) => {
                reports.push(Report::BacktraceFailed(errno));
                self.prompt(reports)
            },
            Progress::Finished(Err(Failure::Fatal(fault))) => self.abort(reports, fault),
        }
    }
}

fn one(report: Report) -> (reports: Vec<Report>)
    ensures
        reports@ == seq![report],
{
    let mut reports: Vec<Report> = Vec::new();
    reports.push(report);
    reports
}

/// The request for what a backtrace asks.
pub open spec fn backtrace_request(call: BacktraceCall) -> Request {
    match call {
        BacktraceCall::Trace(call) => Request::Trace(call),
        BacktraceCall::LineFromAddr(addr) => Request::LineFromAddr(addr),
        BacktraceCall::FunctionFromAddr(addr) => Request::FunctionFromAddr(addr),
    }
}

} // verus!
