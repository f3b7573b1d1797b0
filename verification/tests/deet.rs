use std::collections::HashMap;
use systems_toolkit::deet::address::{parse_address, Location};
use systems_toolkit::deet::debugger::{
    Debugger, DebuggerCommand, Event, Input, LoadError, Request, StartError, Turn,
};
use systems_toolkit::deet::inferior::{
    Breakpoint, Cont, Inferior, Launch, Status, Wait, WriteByte, TRAP,
};
use systems_toolkit::deet::report::{Line, Report};
use systems_toolkit::deet::tracee::{
    Failure, Fault, Progress, TraceCall, TraceReply, WaitStatus,
};
use systems_toolkit::deet::word::{align_addr_to_word, byte_at, with_byte};

/// A process in memory: it runs from trap to trap.
struct Process {
    memory: HashMap<usize, u8>,
    rip: usize,
    rbp: usize,
    /// What the next waits find out, and where the process then stands.
    waits: Vec<(WaitStatus, usize)>,
    /// The calls that let the process run, with the bytes at the watched addresses at that time.
    runs: Vec<(TraceCall, Vec<u8>)>,
    watched: Vec<usize>,
    broken: bool,
}

impl Process {
    fn new(rip: usize, waits: Vec<(WaitStatus, usize)>) -> Process {
        let mut memory = HashMap::new();
        for a in 0x1000..0x1100 {
            memory.insert(a, (a % 251) as u8);
        }
        Process {
            memory,
            rip,
            rbp: 0,
            waits,
            runs: Vec::new(),
            watched: Vec::new(),
            broken: false,
        }
    }

    fn byte(&self, addr: usize) -> u8 {
        *self.memory.get(&addr).unwrap_or(&0)
    }

    fn perform(&mut self, call: TraceCall) -> TraceReply {
        if self.broken {
            return TraceReply::Failed(3);
        }
        match call {
            TraceCall::GetRegs => TraceReply::Regs { rip: self.rip, rbp: self.rbp },
            TraceCall::SetRegs { rip } => {
                self.rip = rip;
                TraceReply::Done
            }
            TraceCall::Step | TraceCall::Cont => {
                let bytes = self.watched.iter().map(|a| self.byte(*a)).collect();
                self.runs.push((call, bytes));
                TraceReply::Done
            }
            TraceCall::Wait { options } => {
                assert_eq!(options, None);
                let (status, rip) = self.waits.remove(0);
                self.rip = rip;
                TraceReply::Waited(status)
            }
            TraceCall::Read { addr } => {
                let mut bytes = [0u8; 8];
                for i in 0..8 {
                    bytes[i] = self.byte(addr + i);
                }
                TraceReply::Word(usize::from_le_bytes(bytes))
            }
            TraceCall::Write { addr, word } => {
                for (i, b) in word.to_le_bytes().iter().enumerate() {
                    self.memory.insert(addr + i, *b);
                }
                TraceReply::Done
            }
        }
    }
}

fn write_byte(process: &mut Process, task: WriteByte) -> Result<u8, Failure> {
    let mut task = task;
    loop {
        let reply = process.perform(task.request());
        match task.answer(reply) {
            Progress::Pending(next) => task = next,
            Progress::Finished(result) => return result,
        }
    }
}

fn wait(process: &mut Process, task: Wait) -> Result<Status, Failure> {
    let mut task = task;
    loop {
        let reply = process.perform(task.request());
        match task.answer(reply) {
            Progress::Pending(next) => task = next,
            Progress::Finished(result) => return result,
        }
    }
}

fn cont(
    process: &mut Process,
    break_points: &HashMap<usize, Breakpoint>,
    task: Cont,
) -> Result<Status, Failure> {
    let mut task = task;
    loop {
        let reply = process.perform(task.request());
        match task.answer(break_points, reply) {
            Progress::Pending(next) => task = next,
            Progress::Finished(result) => return result,
        }
    }
}

fn launch(
    process: &mut Process,
    break_points: &mut HashMap<usize, Breakpoint>,
    task: Launch,
) -> Result<Option<Inferior>, Fault> {
    let mut task = task;
    loop {
        let reply = process.perform(task.request());
        match task.answer(break_points, reply) {
            Progress::Pending(next) => task = next,
            Progress::Finished(result) => return result,
        }
    }
}

#[test]
fn addresses_are_aligned_to_words() {
    assert_eq!(align_addr_to_word(0), 0);
    assert_eq!(align_addr_to_word(0x1007), 0x1000);
    assert_eq!(align_addr_to_word(0x1008), 0x1008);
    assert_eq!(align_addr_to_word(usize::MAX), usize::MAX - 7);
}

#[test]
fn bytes_of_words() {
    assert_eq!(byte_at(0x1122334455667788, 0), 0x88);
    assert_eq!(byte_at(0x1122334455667788, 7), 0x11);
    assert_eq!(with_byte(0x1122334455667788, 2, 0xcc), 0x1122334455cc7788);
    assert_eq!(with_byte(0x1122334455cc7788, 2, 0x66), 0x1122334455667788);
}

#[test]
fn hexadecimal_addresses() {
    assert_eq!(parse_address("*0x401000"), Location::Address(Some(0x401000)));
    assert_eq!(parse_address("*0X401aF0"), Location::Address(Some(0x401af0)));
    assert_eq!(parse_address("*0XDEADBEEF"), Location::Address(Some(0xdeadbeef)));
    assert_eq!(parse_address("*00FF"), Location::Address(Some(0xff)));
    assert_eq!(parse_address("*401000"), Location::Address(Some(0x401000)));
    assert_eq!(parse_address("*+ff"), Location::Address(Some(0xff)));
    assert_eq!(parse_address("*"), Location::Address(None));
    assert_eq!(parse_address("*0x"), Location::Address(None));
    assert_eq!(parse_address("*main"), Location::Address(None));
    assert_eq!(parse_address("*10000000000000000"), Location::Address(None));
}

#[test]
fn line_numbers_and_function_names() {
    assert_eq!(parse_address("15"), Location::Line(15));
    assert_eq!(parse_address("+15"), Location::Line(15));
    assert_eq!(parse_address("main"), Location::Function);
    assert_eq!(parse_address("-15"), Location::Function);
    assert_eq!(parse_address("0x10"), Location::Function);
    assert_eq!(parse_address(""), Location::Function);
}

#[test]
fn a_byte_is_written_and_undone() {
    let inferior = Inferior { child: 7 };
    for addr in 0x1010..0x1020 {
        let mut process = Process::new(0x1000, Vec::new());
        let before = process.memory.clone();
        let orig = before[&addr];
        assert_eq!(write_byte(&mut process, inferior.write_byte(addr, TRAP)), Ok(orig));
        let mut expected = before.clone();
        expected.insert(addr, 0xcc);
        assert_eq!(process.memory, expected);
        assert_eq!(write_byte(&mut process, inferior.write_byte(addr, orig)), Ok(TRAP));
        assert_eq!(process.memory, before);
    }
}

#[test]
fn a_write_fails_with_the_error_number() {
    let inferior = Inferior { child: 7 };
    let mut process = Process::new(0x1000, Vec::new());
    process.broken = true;
    let task = inferior.write_byte(0x1010, TRAP);
    assert_eq!(write_byte(&mut process, task), Err(Failure::System(3)));
    let task = inferior.write_byte(0x1010, TRAP);
    assert_eq!(
        task.answer(TraceReply::Done),
        Progress::Finished(Err(Failure::Fatal(Fault::OutOfTurn)))
    );
}

#[test]
fn waits_tell_the_status() {
    let inferior = Inferior { child: 7 };
    let cases = [
        (WaitStatus::Exited(3), Ok(Status::Exited(3))),
        (WaitStatus::Signaled(9), Ok(Status::Signaled(9))),
        (WaitStatus::Stopped(5), Ok(Status::Stopped(5, 0x1042))),
        (WaitStatus::Other, Err(Failure::Fatal(Fault::UnexpectedWaitStatus))),
    ];
    for (status, expected) in cases {
        let mut process = Process::new(0x1000, vec![(status, 0x1042)]);
        assert_eq!(wait(&mut process, inferior.wait(None)), expected);
    }
}

#[test]
fn process_numbers() {
    assert_eq!(Inferior { child: 1234 }.pid(), 1234);
}

fn table(addrs: &[usize]) -> HashMap<usize, Breakpoint> {
    let mut break_points = HashMap::new();
    for addr in addrs {
        break_points.insert(*addr, Breakpoint { addr: *addr, orig_byte: 0 });
    }
    break_points
}

fn start(process: &mut Process, break_points: &mut HashMap<usize, Breakpoint>) -> Inferior {
    match Inferior::new(Some(99)) {
        Progress::Pending(task) => match launch(process, break_points, task) {
            Ok(Some(inferior)) => inferior,
            other => panic!("{:?}", other),
        },
        Progress::Finished(_) => panic!("not started"),
    }
}

#[test]
fn a_launch_arms_every_breakpoint() {
    let addrs = [0x1010, 0x1011, 0x1017, 0x1040];
    let mut break_points = table(&addrs);
    let mut process = Process::new(0x1000, vec![(WaitStatus::Stopped(5), 0x1000)]);
    let before = process.memory.clone();
    let inferior = start(&mut process, &mut break_points);
    assert_eq!(inferior, Inferior { child: 99 });
    let mut expected = before.clone();
    for addr in addrs {
        assert_eq!(break_points[&addr], Breakpoint { addr, orig_byte: before[&addr] });
        expected.insert(addr, TRAP);
    }
    assert_eq!(process.memory, expected);
}

#[test]
fn a_launch_can_fail() {
    assert!(matches!(Inferior::new(None), Progress::Finished(None)));
    for status in [WaitStatus::Exited(1), WaitStatus::Signaled(9)] {
        let mut process = Process::new(0x1000, vec![(status, 0x1000)]);
        if let Progress::Pending(task) = Inferior::new(Some(99)) {
            assert_eq!(launch(&mut process, &mut table(&[0x1010]), task), Ok(None));
        }
    }
    let mut process = Process::new(0x1000, Vec::new());
    process.broken = true;
    if let Progress::Pending(task) = Inferior::new(Some(99)) {
        assert_eq!(launch(&mut process, &mut table(&[0x1010]), task), Ok(None));
    }
    if let Progress::Pending(task) = Inferior::new(Some(99)) {
        let reply = TraceReply::Waited(WaitStatus::Other);
        assert!(matches!(
            task.answer(&mut table(&[0x1010]), reply),
            Progress::Finished(Ok(None))
        ));
    }
    if let Progress::Pending(task) = Inferior::new(Some(99)) {
        assert!(matches!(
            task.answer(&mut table(&[0x1010]), TraceReply::Done),
            Progress::Finished(Err(Fault::OutOfTurn))
        ));
    }
}

#[test]
fn a_trap_that_cannot_be_written_ends_the_launch() {
    for failing in [2, 3] {
        let mut debugger = new_debugger();
        debugger.run();
        enter(&mut debugger, "b *1010", DebuggerCommand::Break(String::from("*1010")));
        enter(&mut debugger, "r", DebuggerCommand::Run(Vec::new()));
        let mut process = Process::new(0x1000, vec![(WaitStatus::Stopped(5), 0x1000)]);
        let mut turn = debugger.step(Event::Spawned(Some(77)));
        let mut made = 0;
        while let Request::Trace(call) = turn.request {
            process.broken = made == failing;
            made += 1;
            let reply = process.perform(call);
            turn = debugger.step(Event::Trace(reply));
        }
        assert_eq!(made, failing + 1);
        assert_eq!(texts(&turn), vec!["fail to start subprocess"]);
        assert_eq!(turn.request, Request::ReadLine);
        assert_eq!(debugger.inferior, None);
        assert_eq!(debugger.break_points[&0x1010], Breakpoint { addr: 0x1010, orig_byte: 0 });
    }
}

#[test]
fn a_restart_runs_from_breakpoint_to_breakpoint() {
    let addrs = [0x1010, 0x1020];
    let mut break_points = table(&addrs);
    let mut process = Process::new(
        0x1000,
        vec![
            (WaitStatus::Stopped(5), 0x1000),
            (WaitStatus::Stopped(5), 0x1011),
            (WaitStatus::Stopped(5), 0x1012),
            (WaitStatus::Stopped(5), 0x1021),
            (WaitStatus::Stopped(5), 0x1022),
            (WaitStatus::Exited(0), 0),
        ],
    );
    let image = process.memory.clone();
    let inferior = start(&mut process, &mut break_points);
    process.watched = addrs.to_vec();

    // To the first breakpoint: the inferior then stands on it, with its byte in place.
    let status = cont(&mut process, &break_points, inferior.cont());
    assert_eq!(status, Ok(Status::Stopped(5, 0x1011)));
    assert_eq!(process.rip, 0x1010);
    assert_eq!(process.byte(0x1010), image[&0x1010]);
    assert_eq!(process.byte(0x1020), TRAP);
    assert_eq!(process.runs, vec![(TraceCall::Cont, vec![TRAP, TRAP])]);

    // Over it to the second one.
    process.runs.clear();
    let status = cont(&mut process, &break_points, inferior.cont());
    assert_eq!(status, Ok(Status::Stopped(5, 0x1021)));
    assert_eq!(process.rip, 0x1020);
    assert_eq!(process.byte(0x1010), TRAP);
    assert_eq!(process.byte(0x1020), image[&0x1020]);
    assert_eq!(
        process.runs,
        vec![
            (TraceCall::Step, vec![image[&0x1010], TRAP]),
            (TraceCall::Cont, vec![TRAP, TRAP]),
        ]
    );

    // To the end.
    let status = cont(&mut process, &break_points, inferior.cont());
    assert_eq!(status, Ok(Status::Exited(0)));
}

#[test]
fn a_restart_can_end_early() {
    let break_points = table(&[0x1010]);
    let inferior = Inferior { child: 7 };
    // The step over a breakpoint ends the process.
    let mut process = Process::new(0x1010, vec![(WaitStatus::Signaled(11), 0)]);
    let status = cont(&mut process, &break_points, inferior.cont());
    assert_eq!(status, Ok(Status::Signaled(11)));
    // The process stops elsewhere.
    let mut process = Process::new(0x1000, vec![(WaitStatus::Stopped(2), 0x1077)]);
    let status = cont(&mut process, &break_points, inferior.cont());
    assert_eq!(status, Ok(Status::Stopped(2, 0x1077)));
    assert_eq!(process.rip, 0x1077);
    // The process jumps to a null pointer.
    let mut process = Process::new(0x1000, vec![(WaitStatus::Stopped(11), 0)]);
    let memory = process.memory.clone();
    let status = cont(&mut process, &break_points, inferior.cont());
    assert_eq!(status, Ok(Status::Stopped(11, 0)));
    assert_eq!(process.rip, 0);
    assert_eq!(process.memory, memory);
    // It does so after it was stepped over a breakpoint.
    let mut process = Process::new(
        0x1010,
        vec![(WaitStatus::Stopped(5), 0x1012), (WaitStatus::Stopped(11), 0)],
    );
    let status = cont(&mut process, &break_points, inferior.cont());
    assert_eq!(status, Ok(Status::Stopped(11, 0)));
    assert_eq!(process.byte(0x1010), TRAP);
    assert_eq!(process.runs.len(), 2);
    // The process is gone.
    process.broken = true;
    let status = cont(&mut process, &break_points, inferior.cont());
    assert_eq!(status, Err(Failure::System(3)));
}

#[test]
fn texts_of_reports() {
    let line = || Line { file: String::from("samples/a.c"), number: 12 };
    let cases = [
        (Report::CouldNotOpen { target: String::from("x") }, "Could not open file x"),
        (
            Report::NoDebuggingSymbols { target: String::from("x"), error: String::from("E") },
            "Could not debugging symbols from x: E",
        ),
        (Report::QuitHint, "Type \"quit\" to exit"),
        (
            Report::HistoryNotSaved { path: String::from("/h"), error: String::from("full") },
            "Warning: failed to save history file at /h: full",
        ),
        (Report::Unrecognized, "Unrecognized command."),
        (Report::KillingInferior(42), "Killing running inferior (pid 42)"),
        (Report::StartFailed, "fail to start subprocess"),
        (Report::ChildExited(-1), "Child exited (status -1)"),
        (Report::ChildSignaled, "Child exited due to signal"),
        (Report::ChildStopped(5), "Child stopped (signal SIGTRAP)"),
        (Report::ChildStopped(11), "Child stopped (signal SIGSEGV)"),
        (Report::ChildStopped(2), "Child stopped (signal SIGINT)"),
        (Report::StoppedAtLine(line()), "Stopped at samples/a.c:12"),
        (Report::StoppedAtAddress(0x4011af), "Stopped at 0x4011af (no debug line info)"),
        (Report::RestartFailed(3), "fail to restart subprocess: No such process"),
        (Report::ContinueFailed(5), "fail to contunue the subprocess: I/O error"),
        (Report::NoSubprocess, "There's no subprocess debugged"),
        (
            Report::Frame { function: String::from("f"), line: line() },
            "f (samples/a.c:12)",
        ),
        (Report::BacktraceFailed(1), "fail to print backtrace: Operation not permitted"),
        (Report::BreakpointSet { index: 0, addr: 0x10 }, "Set breakpoint 0 at 0x10"),
    ];
    for (report, text) in cases {
        assert_eq!(report.text(), text);
    }
}

#[test]
fn texts_with_given_details() {
    assert_eq!(Report::ChildStopped(5).text_with("X"), "Child stopped (signal X)");
    assert_eq!(Report::RestartFailed(3).text_with("why"), "fail to restart subprocess: why");
    assert_eq!(Report::ContinueFailed(3).text_with("why"), "fail to contunue the subprocess: why");
    assert_eq!(Report::BacktraceFailed(3).text_with("why"), "fail to print backtrace: why");
    assert_eq!(Report::StartFailed.text_with("X"), "fail to start subprocess");
}

fn new_debugger() -> Debugger {
    match Debugger::new("prog", Ok(()), Some("/home/me")) {
        Ok(debugger) => debugger,
        Err(_) => panic!("not started"),
    }
}

fn texts(turn: &Turn) -> Vec<String> {
    turn.reports.iter().map(|r| r.text()).collect()
}

#[test]
fn a_debugger_is_set_up() {
    let debugger = new_debugger();
    assert_eq!(debugger.target, "prog");
    assert_eq!(debugger.history_path, "/home/me/.deet_history");
    assert!(debugger.break_points.is_empty());
    assert_eq!(debugger.inferior, None);
}

#[test]
fn a_debugger_may_not_start() {
    match Debugger::new("prog", Err(LoadError::ErrorOpeningFile), Some("/")) {
        Err(StartError::Exit(report)) => assert_eq!(report.text(), "Could not open file prog"),
        _ => panic!("started"),
    }
    let bad = LoadError::DwarfFormatError(String::from("Bad"));
    match Debugger::new("prog", Err(bad), None) {
        Err(StartError::Exit(report)) => {
            assert_eq!(report.text(), "Could not debugging symbols from prog: Bad")
        }
        _ => panic!("started"),
    }
    assert!(matches!(Debugger::new("prog", Ok(()), None), Err(StartError::NoHome)));
}

/// Types a command, up to where it is carried out.
fn enter(debugger: &mut Debugger, line: &str, command: DebuggerCommand) -> Turn {
    let turn = debugger.step(Event::Input(Input::Line(String::from(line))));
    assert_eq!(turn.request, Request::Remember(String::from(line)));
    let turn = debugger.step(Event::Remembered(None));
    let words: Vec<String> = line.split_whitespace().map(String::from).collect();
    assert!(turn.reports.is_empty());
    assert_eq!(turn.request, Request::Interpret(words));
    debugger.step(Event::Interpreted(Some(command)))
}

/// Answers calls on the inferior as long as there are any.
fn drive(debugger: &mut Debugger, process: &mut Process, turn: Turn) -> Turn {
    let mut turn = turn;
    while let Request::Trace(call) = turn.request {
        assert!(turn.reports.is_empty());
        let reply = process.perform(call);
        turn = debugger.step(Event::Trace(reply));
    }
    turn
}

#[test]
fn prompting() {
    let mut debugger = new_debugger();
    assert_eq!(debugger.run().request, Request::ReadLine);
    let turn = debugger.step(Event::Input(Input::Interrupted));
    assert_eq!(texts(&turn), vec!["Type \"quit\" to exit"]);
    assert_eq!(turn.request, Request::ReadLine);
    let turn = debugger.step(Event::Input(Input::Line(String::from(" \t "))));
    assert_eq!(turn, Turn { reports: Vec::new(), request: Request::ReadLine });
    debugger.step(Event::Input(Input::Line(String::from("wat is"))));
    let turn = debugger.step(Event::Remembered(Some(String::from("disk full"))));
    assert_eq!(
        texts(&turn),
        vec!["Warning: failed to save history file at /home/me/.deet_history: disk full"]
    );
    let turn = debugger.step(Event::Interpreted(None));
    assert_eq!(texts(&turn), vec!["Unrecognized command."]);
    assert_eq!(turn.request, Request::ReadLine);
    let turn = debugger.step(Event::Input(Input::Eof));
    assert_eq!(turn, Turn { reports: Vec::new(), request: Request::Quit });
}

#[test]
fn a_broken_terminal_ends_the_debugger() {
    let mut debugger = new_debugger();
    debugger.run();
    let turn = debugger.step(Event::Input(Input::Failed));
    assert_eq!(turn.request, Request::Abort(Fault::InputFailed));
    let turn = debugger.step(Event::Killed(true));
    assert_eq!(turn.request, Request::Abort(Fault::OutOfTurn));
}

#[test]
fn commands_without_an_inferior() {
    let mut debugger = new_debugger();
    debugger.run();
    let turn = enter(&mut debugger, "continue", DebuggerCommand::Continue);
    assert_eq!(texts(&turn), vec!["There's no subprocess debugged"]);
    let turn = enter(&mut debugger, "back", DebuggerCommand::Backtrace);
    assert_eq!(texts(&turn), vec!["There's no subprocess debugged"]);
    let turn = enter(
        &mut debugger,
        "break *0x1010",
        DebuggerCommand::Break(String::from("*0x1010")),
    );
    assert_eq!(texts(&turn), vec!["Set breakpoint 0 at 0x1010"]);
    assert_eq!(turn.request, Request::ReadLine);
    assert_eq!(debugger.break_points[&0x1010], Breakpoint { addr: 0x1010, orig_byte: 0 });
    let turn = enter(&mut debugger, "b 12", DebuggerCommand::Break(String::from("12")));
    assert_eq!(turn.request, Request::AddrForLine(12));
    let turn = debugger.step(Event::Address(Some(0x1020)));
    assert_eq!(texts(&turn), vec!["Set breakpoint 1 at 0x1020"]);
    let turn = enter(&mut debugger, "b f", DebuggerCommand::Break(String::from("f")));
    assert_eq!(turn.request, Request::AddrForFunction(String::from("f")));
    let turn = debugger.step(Event::Address(Some(0x1010)));
    assert_eq!(texts(&turn), vec!["Set breakpoint 1 at 0x1010"]);
    let turn = enter(&mut debugger, "b g", DebuggerCommand::Break(String::from("g")));
    assert_eq!(turn.request, Request::AddrForFunction(String::from("g")));
    let turn = debugger.step(Event::Address(None));
    assert_eq!(turn.request, Request::Abort(Fault::NoAddress));
}

#[test]
fn a_session() {
    let mut debugger = new_debugger();
    debugger.run();
    enter(&mut debugger, "b *1010", DebuggerCommand::Break(String::from("*1010")));
    let args = vec![String::from("3")];
    let turn = enter(&mut debugger, "r 3", DebuggerCommand::Run(args));
    assert_eq!(turn.request, Request::Spawn(vec![String::from("3")]));
    let mut process = Process::new(
        0x1000,
        vec![
            (WaitStatus::Stopped(5), 0x1000),
            (WaitStatus::Stopped(5), 0x1011),
            (WaitStatus::Stopped(5), 0x1012),
            (WaitStatus::Stopped(2), 0x7000),
            (WaitStatus::Signaled(9), 0),
        ],
    );
    let image = process.memory.clone();
    let turn = debugger.step(Event::Spawned(Some(77)));
    let turn = drive(&mut debugger, &mut process, turn);
    assert_eq!(texts(&turn), vec!["Child stopped (signal SIGTRAP)"]);
    assert_eq!(turn.request, Request::LineFromAddr(0x1011));
    let line = Line { file: String::from("a.c"), number: 3 };
    let turn = debugger.step(Event::Line(Some(line)));
    assert_eq!(texts(&turn), vec!["Stopped at a.c:3"]);
    assert_eq!(turn.request, Request::ReadLine);
    assert_eq!(debugger.break_points[&0x1010].orig_byte, image[&0x1010]);

    // A breakpoint that is set while the inferior is there.
    let turn = enter(&mut debugger, "b *1033", DebuggerCommand::Break(String::from("*1033")));
    let turn = drive(&mut debugger, &mut process, turn);
    assert_eq!(texts(&turn), vec!["Set breakpoint 1 at 0x1033"]);
    assert_eq!(debugger.break_points[&0x1033].orig_byte, image[&0x1033]);
    assert_eq!(process.byte(0x1033), TRAP);

    let turn = enter(&mut debugger, "c", DebuggerCommand::Continue);
    let turn = drive(&mut debugger, &mut process, turn);
    assert_eq!(texts(&turn), vec!["Child stopped (signal SIGINT)"]);
    let turn = debugger.step(Event::Line(None));
    assert_eq!(texts(&turn), vec!["Stopped at 0x7000 (no debug line info)"]);

    // Starting again kills what is there.
    let turn = enter(&mut debugger, "r", DebuggerCommand::Run(Vec::new()));
    assert_eq!(turn.request, Request::Kill);
    let turn = debugger.step(Event::Killed(true));
    let reply = match turn.request {
        Request::Trace(call) => process.perform(call),
        _ => panic!("no wait"),
    };
    let turn = debugger.step(Event::Trace(reply));
    assert_eq!(texts(&turn), vec!["Killing running inferior (pid 77)"]);
    assert_eq!(turn.request, Request::Spawn(Vec::new()));
    let turn = debugger.step(Event::Spawned(None));
    assert_eq!(texts(&turn), vec!["fail to start subprocess"]);
    assert_eq!(debugger.inferior, None);
    assert_eq!(debugger.break_points.len(), 2);
}

/// A debugger with an inferior that has stopped.
fn stopped_debugger(process: &mut Process) -> Debugger {
    let mut debugger = new_debugger();
    debugger.run();
    enter(&mut debugger, "r", DebuggerCommand::Run(Vec::new()));
    let turn = debugger.step(Event::Spawned(Some(77)));
    let turn = drive(&mut debugger, process, turn);
    assert!(matches!(turn.request, Request::LineFromAddr(_)));
    debugger.step(Event::Line(None));
    debugger
}

fn two_stops(last: (WaitStatus, usize)) -> Process {
    Process::new(
        0x1000,
        vec![(WaitStatus::Stopped(5), 0x1000), (WaitStatus::Stopped(2), 0x1055), last],
    )
}

#[test]
fn the_inferior_ends() {
    let mut process = two_stops((WaitStatus::Exited(4), 0));
    let mut debugger = stopped_debugger(&mut process);
    let turn = enter(&mut debugger, "c", DebuggerCommand::Continue);
    let turn = drive(&mut debugger, &mut process, turn);
    assert_eq!(texts(&turn), vec!["Child exited (status 4)"]);
    assert_eq!(debugger.inferior, None);

    let mut process = two_stops((WaitStatus::Signaled(9), 0));
    let mut debugger = stopped_debugger(&mut process);
    let turn = enter(&mut debugger, "c", DebuggerCommand::Continue);
    let turn = drive(&mut debugger, &mut process, turn);
    assert_eq!(texts(&turn), vec!["Child exited due to signal"]);
    assert_eq!(debugger.inferior, Some(Inferior { child: 77 }));
}

#[test]
fn quitting_kills_the_inferior() {
    let mut process = two_stops((WaitStatus::Exited(4), 0));
    let mut debugger = stopped_debugger(&mut process);
    let turn = enter(&mut debugger, "q", DebuggerCommand::Quit);
    assert_eq!(turn.request, Request::Kill);
    let turn = debugger.step(Event::Killed(true));
    assert_eq!(texts(&turn), vec!["Killing running inferior (pid 77)"]);
    assert_eq!(turn.request, Request::Quit);

    let mut process = two_stops((WaitStatus::Exited(4), 0));
    let mut debugger = stopped_debugger(&mut process);
    enter(&mut debugger, "q", DebuggerCommand::Quit);
    let turn = debugger.step(Event::Killed(false));
    assert_eq!(turn.request, Request::Abort(Fault::KillFailed));
}

#[test]
fn failing_calls_are_reported() {
    let mut process = two_stops((WaitStatus::Exited(4), 0));
    let mut debugger = stopped_debugger(&mut process);
    process.broken = true;
    let turn = enter(&mut debugger, "c", DebuggerCommand::Continue);
    let turn = drive(&mut debugger, &mut process, turn);
    assert_eq!(texts(&turn), vec!["fail to contunue the subprocess: No such process"]);
    let turn = enter(&mut debugger, "bt", DebuggerCommand::Backtrace);
    let turn = drive(&mut debugger, &mut process, turn);
    assert_eq!(texts(&turn), vec!["fail to print backtrace: No such process"]);
    let turn = enter(&mut debugger, "b *1", DebuggerCommand::Break(String::from("*1")));
    let turn = drive(&mut debugger, &mut process, turn);
    assert_eq!(turn.request, Request::Abort(Fault::ArmFailed(3)));

    let mut process = two_stops((WaitStatus::Exited(4), 0));
    let mut debugger = stopped_debugger(&mut process);
    process.broken = true;
    enter(&mut debugger, "r", DebuggerCommand::Run(Vec::new()));
    let turn = debugger.step(Event::Killed(true));
    let turn = drive(&mut debugger, &mut process, turn);
    assert_eq!(turn.request, Request::Abort(Fault::RecycleFailed(3)));
}

#[test]
fn the_first_restart_can_fail() {
    let mut debugger = new_debugger();
    debugger.run();
    enter(&mut debugger, "r", DebuggerCommand::Run(Vec::new()));
    debugger.step(Event::Spawned(Some(77)));
    debugger.step(Event::Trace(TraceReply::Waited(WaitStatus::Stopped(5))));
    let turn = debugger.step(Event::Trace(TraceReply::Regs { rip: 1, rbp: 1 }));
    assert_eq!(turn.request, Request::Trace(TraceCall::GetRegs));
    let turn = debugger.step(Event::Trace(TraceReply::Failed(3)));
    assert_eq!(texts(&turn), vec!["fail to restart subprocess: No such process"]);
}

fn put_word(process: &mut Process, addr: usize, word: usize) {
    process.perform(TraceCall::Write { addr, word });
}

fn place(number: usize) -> Option<Line> {
    Some(Line { file: String::from("a.c"), number })
}

#[test]
fn a_backtrace_goes_up_to_main() {
    let mut process = two_stops((WaitStatus::Exited(4), 0));
    process.rbp = 0x2000;
    put_word(&mut process, 0x2000, 0x2100);
    put_word(&mut process, 0x2008, 0x1066);
    let mut debugger = stopped_debugger(&mut process);
    let turn = enter(&mut debugger, "bt", DebuggerCommand::Backtrace);
    let turn = drive(&mut debugger, &mut process, turn);
    assert_eq!(turn.request, Request::LineFromAddr(0x1055));
    let turn = debugger.step(Event::Line(place(5)));
    assert_eq!(turn.request, Request::FunctionFromAddr(0x1055));
    let turn = debugger.step(Event::Function(Some(String::from("f"))));
    assert_eq!(texts(&turn), vec!["f (a.c:5)"]);
    let turn = drive(
        &mut debugger,
        &mut process,
        Turn { reports: Vec::new(), request: turn.request },
    );
    assert_eq!(turn.request, Request::LineFromAddr(0x1066));
    debugger.step(Event::Line(place(9)));
    let turn = debugger.step(Event::Function(Some(String::from("main"))));
    assert_eq!(texts(&turn), vec!["main (a.c:9)"]);
    assert_eq!(turn.request, Request::ReadLine);
}

#[test]
fn a_backtrace_may_get_lost() {
    for (base, line, function, fault) in [
        (0x2000, None, None, Fault::NoLine),
        (0x2000, place(1), None, Fault::NoFunction),
        (usize::MAX - 7, place(1), Some(String::from("f")), Fault::AddressOverflow),
    ] {
        let mut process = two_stops((WaitStatus::Exited(4), 0));
        process.rbp = base;
        let mut debugger = stopped_debugger(&mut process);
        let turn = enter(&mut debugger, "bt", DebuggerCommand::Backtrace);
        drive(&mut debugger, &mut process, turn);
        let mut turn = debugger.step(Event::Line(line));
        if let Request::FunctionFromAddr(_) = turn.request {
            turn = debugger.step(Event::Function(function));
        }
        assert_eq!(turn.request, Request::Abort(fault));
    }
}

#[test]
fn killing_may_fail() {
    let inferior = Inferior { child: 7 };
    assert_eq!(inferior.kill(true), Ok(()));
    assert_eq!(inferior.kill(false), Err(Fault::KillFailed));
}

#[test]
fn breakpoints_outlive_the_inferior() {
    let mut debugger = new_debugger();
    debugger.run();
    enter(&mut debugger, "b *1010", DebuggerCommand::Break(String::from("*1010")));
    for child in [70, 71] {
        let mut process = Process::new(
            0x1000,
            vec![
                (WaitStatus::Stopped(5), 0x1000),
                (WaitStatus::Stopped(5), 0x1011),
                (WaitStatus::Stopped(5), 0x1013),
                (WaitStatus::Exited(0), 0),
            ],
        );
        process.watched = vec![0x1010];
        let orig_byte = process.byte(0x1010);
        let turn = enter(&mut debugger, "r", DebuggerCommand::Run(Vec::new()));
        assert_eq!(turn.request, Request::Spawn(Vec::new()));
        let turn = debugger.step(Event::Spawned(Some(child)));
        drive(&mut debugger, &mut process, turn);
        debugger.step(Event::Line(None));
        assert_eq!(debugger.break_points[&0x1010], Breakpoint { addr: 0x1010, orig_byte });
        let turn = enter(&mut debugger, "c", DebuggerCommand::Continue);
        let turn = drive(&mut debugger, &mut process, turn);
        assert_eq!(texts(&turn), vec!["Child exited (status 0)"]);
        assert_eq!(
            process.runs,
            vec![
                (TraceCall::Cont, vec![TRAP]),
                (TraceCall::Step, vec![orig_byte]),
                (TraceCall::Cont, vec![TRAP]),
            ]
        );
    }
}

#[test]
fn a_breakpoint_set_twice_in_a_running_inferior_records_the_trap() {
    let mut process = two_stops((WaitStatus::Exited(4), 0));
    let orig_byte = process.byte(0x1020);
    let mut debugger = stopped_debugger(&mut process);
    for expected in [orig_byte, TRAP] {
        let arg = DebuggerCommand::Break(String::from("*1020"));
        let turn = enter(&mut debugger, "b *1020", arg);
        let turn = drive(&mut debugger, &mut process, turn);
        assert_eq!(texts(&turn), vec!["Set breakpoint 0 at 0x1020"]);
        assert_eq!(debugger.break_points[&0x1020].orig_byte, expected);
    }
}

#[test]
fn a_stop_at_a_null_pointer_is_reported() {
    let mut process = two_stops((WaitStatus::Stopped(11), 0));
    let mut debugger = stopped_debugger(&mut process);
    let turn = enter(&mut debugger, "c", DebuggerCommand::Continue);
    let turn = drive(&mut debugger, &mut process, turn);
    assert_eq!(texts(&turn), vec!["Child stopped (signal SIGSEGV)"]);
    assert_eq!(turn.request, Request::LineFromAddr(0));
    let turn = debugger.step(Event::Line(None));
    assert_eq!(texts(&turn), vec!["Stopped at 0x0 (no debug line info)"]);
    assert_eq!(turn.request, Request::ReadLine);
}

#[test]
fn the_table_holds_what_was_set() {
    let mut debugger = new_debugger();
    debugger.run();
    enter(&mut debugger, "b *30", DebuggerCommand::Break(String::from("*30")));
    enter(&mut debugger, "b f", DebuggerCommand::Break(String::from("f")));
    debugger.step(Event::Address(Some(0x10)));
    enter(&mut debugger, "b 7", DebuggerCommand::Break(String::from("7")));
    debugger.step(Event::Address(Some(0x20)));
    enter(&mut debugger, "b *10", DebuggerCommand::Break(String::from("*10")));
    let mut keys: Vec<usize> = debugger.break_points.keys().copied().collect();
    keys.sort();
    assert_eq!(keys, vec![0x10, 0x20, 0x30]);
    let turn = enter(&mut debugger, "q", DebuggerCommand::Quit);
    assert_eq!(turn, Turn { reports: Vec::new(), request: Request::Quit });
    assert_eq!(debugger.break_points.len(), 3);
}

#[test]
fn the_user_is_prompted_until_a_line_is_recognized() {
    let mut debugger = new_debugger();
    let mut turn = debugger.run();
    let mut inputs = vec!["", "foo", " ", "bar  baz", "c", "never read"].into_iter();
    let mut remembered = Vec::new();
    let mut interpreted = Vec::new();
    let mut printed = Vec::new();
    loop {
        printed.extend(texts(&turn));
        if printed.last().map(|text| text.as_str()) == Some("There's no subprocess debugged") {
            break;
        }
        turn = match turn.request {
            Request::ReadLine => {
                let line = String::from(inputs.next().unwrap());
                debugger.step(Event::Input(Input::Line(line)))
            }
            Request::Remember(line) => {
                remembered.push(line);
                debugger.step(Event::Remembered(None))
            }
            Request::Interpret(words) => {
                let command = if words == vec!["c"] {
                    Some(DebuggerCommand::Continue)
                } else {
                    None
                };
                interpreted.push(words);
                debugger.step(Event::Interpreted(command))
            }
            other => panic!("{:?}", other),
        };
    }
    assert_eq!(remembered, vec!["foo", "bar  baz", "c"]);
    assert_eq!(interpreted, vec![vec!["foo"], vec!["bar", "baz"], vec!["c"]]);
    assert_eq!(
        printed,
        vec![
            "Unrecognized command.",
            "Unrecognized command.",
            "There's no subprocess debugged",
        ]
    );
}

#[test]
fn a_launch_makes_two_calls_for_each_breakpoint() {
    let mut break_points = table(&[0x1010, 0x1011, 0x1040]);
    let mut process = Process::new(0x1000, vec![(WaitStatus::Stopped(5), 0x1000)]);
    let mut task = match Inferior::new(Some(99)) {
        Progress::Pending(task) => task,
        Progress::Finished(_) => panic!("not started"),
    };
    let mut made = 0;
    let result = loop {
        made += 1;
        let reply = process.perform(task.request());
        match task.answer(&mut break_points, reply) {
            Progress::Pending(next) => task = next,
            Progress::Finished(result) => break result,
        }
    };
    assert_eq!(made, 8);
    assert_eq!(result, Ok(Some(Inferior { child: 99 })));
}
