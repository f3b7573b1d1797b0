//! What the debugger tells its user.

use crate::deet::system::{errno_desc, errno_text, signal_name, signal_text};
use crate::text::number::{digits, push_digits, push_signed, signed_decimal};
use vstd::prelude::*;

verus! {

/// A line of the source.
#[derive(PartialEq, Eq, Debug)]
pub struct Line {
    pub file: String,
    pub number: usize,
}

/// One line of output.
#[derive(PartialEq, Eq, Debug)]
pub enum Report {
    CouldNotOpen { target: String },
    NoDebuggingSymbols { target: String, error: String },
    QuitHint,
    HistoryNotSaved { path: String, error: String },
    Unrecognized,
    KillingInferior(i32),
    StartFailed,
    ChildExited(i32),
    ChildSignaled,
    ChildStopped(i32),
    StoppedAtLine(Line),
    StoppedAtAddress(usize),
    RestartFailed(i32),
    ContinueFailed(i32),
    NoSubprocess,
    Frame { function: String, line: Line },
    BacktraceFailed(i32),
    BreakpointSet { index: usize, addr: usize },
}

/// An address in hexadecimal, after the prefix `0x`.
pub open spec fn hex_text(addr: usize) -> Seq<char> {
    "0x"@ + digits(addr as nat, 16)
}

/// A file and a line number, with a colon between them.
pub open spec fn place_text(line: Line) -> Seq<char> {
    line.file@ + ":"@ + digits(line.number as nat, 10)
}

impl Report {
    /// What the system calls the signal or the error that the line speaks of.
    pub open spec fn spec_detail(self) -> Seq<char> {
        match self {
            Report::ChildStopped(signal) => signal_text(signal),
            Report::RestartFailed(errno) => errno_text(errno),
            Report::ContinueFailed(errno) => errno_text(errno),
            Report::BacktraceFailed(errno) => errno_text(errno),
            _ => seq![],
        }
    }

    /// The text of the line, with `detail` as the system's word for the signal or the error.
    pub open spec fn spec_text_with(self, detail: Seq<char>) -> Seq<char> {
        match self {
            Report::CouldNotOpen { target } => "Could not open file "@ + target@,
            Report::NoDebuggingSymbols { target, error } => "Could not debugging symbols from "@
                + target@ + ": "@ + error@,
            Report::QuitHint => "Type \"quit\" to exit"@,
            Report::HistoryNotSaved { path, error } => "Warning: failed to save history file at "@
                + path@ + ": "@ + error@,
            Report::Unrecognized => "Unrecognized command."@,
            Report::KillingInferior(pid) => "Killing running inferior (pid "@ + signed_decimal(
                pid as int,
            ) + ")"@,
            Report::StartFailed => "fail to start subprocess"@,
            Report::ChildExited(code) => "Child exited (status "@ + signed_decimal(code as int)
                + ")"@,
            Report::ChildSignaled => "Child exited due to signal"@,
            Report::ChildStopped(_) => "Child stopped (signal "@ + detail + ")"@,
            Report::StoppedAtLine(line) => "Stopped at "@ + place_text(line),
            Report::StoppedAtAddress(addr) => "Stopped at "@ + hex_text(addr)
                + " (no debug line info)"@,
            Report::RestartFailed(_) => "fail to restart subprocess: "@ + detail,
            Report::ContinueFailed(_) => "fail to contunue the subprocess: "@ + detail,
            Report::NoSubprocess => "There's no subprocess debugged"@,
            Report::Frame { function, line } => function@ + " ("@ + place_text(line) + ")"@,
            Report::BacktraceFailed(_) => "fail to print backtrace: "@ + detail,
            Report::BreakpointSet { index, addr } => "Set breakpoint "@ + digits(index as nat, 10)
                + " at "@ + hex_text(addr),
        }
    }

    /// The text of the line.
    pub open spec fn spec_text(self) -> Seq<char> {
        self.spec_text_with(self.spec_detail())
    }

    /// What the system calls the signal or the error that the line speaks of.
    fn detail(&self) -> (detail: String)
        ensures
            detail@ == self.spec_detail(),
    {
        match self {
            Report::ChildStopped(signal) => signal_name(*signal),
            Report::RestartFailed(errno) => errno_desc(*errno),
            Report::ContinueFailed(errno) => errno_desc(*errno),
            Report::BacktraceFailed(errno) => errno_desc(*errno),
            _ => String::new(),
        }
    }

    /// The text of the line.
    pub fn text(&self) -> (text: String)
        ensures
            text@ == self.spec_text(),
    {
        let detail: String = self.detail();
        self.text_with(detail.as_str())
    }

    /// The text of the line, with `detail` as the system's word for the signal or the error.
    pub fn text_with(&self, detail: &str) -> (text: String)
        ensures
            text@ == self.spec_text_with(detail@),
    {
        let mut out: String = String::new();
        match self {
            Report::CouldNotOpen { target } => {
                out.append("Could not open file ");
                out.append(target.as_str());
            },
            Report::NoDebuggingSymbols { target, error } => {
                out.append("Could not debugging symbols from ");
                out.append(target.as_str());
                out.append(": ");
                out.append(error.as_str());
            },
            Report::QuitHint => out.append("Type \"quit\" to exit"),
            Report::HistoryNotSaved { path, error } => {
                out.append("Warning: failed to save history file at ");
                out.append(path.as_str());
                out.append(": ");
                out.append(error.as_str());
            },
            Report::Unrecognized => out.append("Unrecognized command."),
            Report::KillingInferior(pid) => {
                out.append("Killing running inferior (pid ");
                push_signed(&mut out, *pid);
                out.append(")");
            },
            Report::StartFailed => out.append("fail to start subprocess"),
            Report::ChildExited(code) => {
                out.append("Child exited (status ");
                push_signed(&mut out, *code);
                out.append(")");
            },
            Report::ChildSignaled => out.append("Child exited due to signal"),
            Report::ChildStopped(_) => {
                out.append("Child stopped (signal ");
                out.append(detail);
                out.append(")");
            },
            Report::StoppedAtLine(line) => {
                out.append("Stopped at ");
                push_place(&mut out, line);
            },
            Report::StoppedAtAddress(addr) => {
                out.append("Stopped at ");
                push_hex(&mut out, *addr);
                out.append(" (no debug line info)");
            },
            Report::RestartFailed(_) => {
                out.append("fail to restart subprocess: ");
                out.append(detail);
            },
            Report::ContinueFailed(_) => {
                out.append("fail to contunue the subprocess: ");
                out.append(detail);
            },
            Report::NoSubprocess => out.append("There's no subprocess debugged"),
            Report::Frame { function, line } => {
                out.append(function.as_str());
                out.append(" (");
                push_place(&mut out, line);
                out.append(")");
            },
            Report::BacktraceFailed(_) => {
                out.append("fail to print backtrace: ");
                out.append(detail);
            },
            Report::BreakpointSet { index, addr } => {
                out.append("Set breakpoint ");
                push_digits(&mut out, *index, 10);
                out.append(" at ");
                push_hex(&mut out, *addr);
            },
        }
        assert(out@ =~= self.spec_text_with(detail@));
        out
    }
}

fn push_hex(out: &mut String, addr: usize)
    ensures
        final(out)@ == old(out)@ + hex_text(addr),
{
    out.append("0x");
    push_digits(out, addr, 16);
    assert(out@ =~= old(out)@ + hex_text(addr));
}

fn push_place(out: &mut String, line: &Line)
    ensures
        final(out)@ == old(out)@ + place_text(*line),
{
    out.append(line.file.as_str());
    out.append(":");
    push_digits(out, line.number, 10);
    assert(out@ =~= old(out)@ + place_text(*line));
}

/// What the debugger says of the process: its number, its exit code and the system's word for its
/// signal stand in the text as they are, whatever they are.
pub proof fn law_texts_on_the_process(n: i32, detail: Seq<char>)
    ensures
        Report::KillingInferior(n).spec_text_with(detail) == "Killing running inferior (pid "@
            + signed_decimal(n as int) + ")"@,
        Report::ChildExited(n).spec_text_with(detail) == "Child exited (status "@ + signed_decimal(
            n as int,
        ) + ")"@,
        Report::ChildSignaled.spec_text_with(detail) == "Child exited due to signal"@,
        Report::ChildStopped(n).spec_text_with(detail) == "Child stopped (signal "@ + detail + ")"@,
        Report::StartFailed.spec_text_with(detail) == "fail to start subprocess"@,
        Report::NoSubprocess.spec_text_with(detail) == "There's no subprocess debugged"@,
{
}

/// What the debugger says of places: an address is written in hexadecimal after `0x`, a line as its
/// file, a colon and its number.
pub proof fn law_texts_on_places(
    line: Line,
    function: String,
    addr: usize,
    index: usize,
    detail: Seq<char>,
)
    ensures
        ({
            let place = line.file@ + ":"@ + digits(line.number as nat, 10);
            let address = "0x"@ + digits(addr as nat, 16);
            &&& Report::StoppedAtLine(line).spec_text_with(detail) == "Stopped at "@ + place
            &&& Report::StoppedAtAddress(addr).spec_text_with(detail) == "Stopped at "@ + address
                + " (no debug line info)"@
            &&& (Report::Frame { function, line }).spec_text_with(detail) == function@ + " ("@
                + place + ")"@
            &&& (Report::BreakpointSet { index, addr }).spec_text_with(detail)
                == "Set breakpoint "@ + digits(index as nat, 10) + " at "@ + address
        }),
{
}

/// What the debugger says of failures: the system's word for the error stands at the end.
pub proof fn law_texts_on_failures(errno: i32, path: String, error: String, detail: Seq<char>)
    ensures
        Report::RestartFailed(errno).spec_text_with(detail) == "fail to restart subprocess: "@
            + detail,
        Report::ContinueFailed(errno).spec_text_with(detail)
            == "fail to contunue the subprocess: "@ + detail,
        Report::BacktraceFailed(errno).spec_text_with(detail) == "fail to print backtrace: "@
            + detail,
        (Report::HistoryNotSaved { path, error }).spec_text_with(detail)
            == "Warning: failed to save history file at "@ + path@ + ": "@ + error@,
{
}

/// What the debugger says to its user at the prompt and at the start.
pub proof fn law_texts_for_the_user(target: String, error: String, detail: Seq<char>)
    ensures
        Report::QuitHint.spec_text_with(detail) == "Type \"quit\" to exit"@,
        Report::Unrecognized.spec_text_with(detail) == "Unrecognized command."@,
        (Report::CouldNotOpen { target }).spec_text_with(detail) == "Could not open file "@
            + target@,
        (Report::NoDebuggingSymbols { target, error }).spec_text_with(detail)
            == "Could not debugging symbols from "@ + target@ + ": "@ + error@,
{
}

/// The system's word is that for the signal or the error that the report holds.
pub proof fn law_details_are_those_of_the_report(report: Report, n: i32)
    ensures
        report.spec_text() == report.spec_text_with(report.spec_detail()),
        Report::ChildStopped(n).spec_detail() == signal_text(n),
        Report::RestartFailed(n).spec_detail() == errno_text(n),
        Report::ContinueFailed(n).spec_detail() == errno_text(n),
        Report::BacktraceFailed(n).spec_detail() == errno_text(n),
{
}

} // verus!
