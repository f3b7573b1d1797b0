//! Listing the function calls that led to the place where the inferior stands.

use crate::deet::inferior::Inferior;
use crate::deet::report::{Line, Report};
use crate::deet::tracee::{Failure, Fault, Progress, TraceCall, TraceReply};
use vstd::prelude::*;

verus! {

/// What a backtrace asks.
#[derive(Clone, Copy, PartialEq, Eq, Debug)]
pub enum BacktraceCall {
    Trace(TraceCall),
    LineFromAddr(usize),
    FunctionFromAddr(usize),
}

/// The answer to a [`BacktraceCall`].
#[derive(PartialEq, Eq, Debug)]
pub enum BacktraceReply {
    Trace(TraceReply),
    Line(Option<Line>),
    Function(Option<String>),
}

/// Listing the frames of the inferior's stack, the innermost first, up to that of `main`.
#[derive(PartialEq, Eq, Debug)]
pub enum Backtrace {
    ReadingRegs,
    /// The line of a frame is being looked up.
    FindingLine { pc: usize, base: usize },
    /// The function of a frame is being looked up.
    FindingFunction { pc: usize, base: usize, line: Line },
    /// The return address of the frame at `base` is being read.
    ReadingReturn { base: usize },
    /// The base pointer of the caller is being read.
    ReadingBase { base: usize, pc: usize },
}

/// What an answer leads to: perhaps a line of output, and then more of the task or its end.
pub type BacktraceStep = (Option<Report>, Progress<Backtrace, Result<(), Failure>>);

impl Backtrace {
    /// What the task asks next.
    pub open spec fn call(self) -> BacktraceCall {
        match self {
            Backtrace::ReadingRegs => BacktraceCall::Trace(TraceCall::GetRegs),
            Backtrace::FindingLine { pc, base: _ } => BacktraceCall::LineFromAddr(pc),
            Backtrace::FindingFunction { pc, base: _, line: _ } => {
                BacktraceCall::FunctionFromAddr(pc)
            },
            Backtrace::ReadingReturn { base } => BacktraceCall::Trace(
                TraceCall::Read { addr: (base + 8) as usize },
            ),
            Backtrace::ReadingBase { base, pc: _ } => BacktraceCall::Trace(
                TraceCall::Read { addr: base },
            ),
        }
    }

    /// The address of a return address is an address.
    pub open spec fn wf(self) -> bool {
        match self {
            Backtrace::ReadingReturn { base } => base + 8 <= usize::MAX,
            _ => true,
        }
    }

    /// What an answer makes of the task.
    pub open spec fn next(self, reply: BacktraceReply) -> BacktraceStep {
        match (self, reply) {
            (
                Backtrace::ReadingRegs,
                BacktraceReply::Trace(TraceReply::Regs { rip, rbp }),
            ) => (None, Progress::Pending(Backtrace::FindingLine { pc: rip, base: rbp })),
            (Backtrace::FindingLine { pc, base }, BacktraceReply::Line(Some(line))) => {
                (None, Progress::Pending(Backtrace::FindingFunction { pc, base, line }))
            },
            (Backtrace::FindingLine { pc: _, base: _ }, BacktraceReply::Line(None)) => {
                (None, Progress::Finished(Err(Failure::Fatal(Fault::NoLine))))
            },
            (
                Backtrace::FindingFunction { pc: _, base, line },
                BacktraceReply::Function(Some(function)),
            ) => (
                Some(Report::Frame { function, line }),
                if function@ == "main"@ {
                    Progress::Finished(Ok(()))
                } else if base + 8 > usize::MAX {
                    Progress::Finished(Err(Failure::Fatal(Fault::AddressOverflow)))
                } else {
                    Progress::Pending(Backtrace::ReadingReturn { base })
                },
            ),
            (
                Backtrace::FindingFunction { pc: _, base: _, line: _ },
                BacktraceReply::Function(None),
            ) => (None, Progress::Finished(Err(Failure::Fatal(Fault::NoFunction)))),
            (
                Backtrace::ReadingReturn { base },
                BacktraceReply::Trace(TraceReply::Word(pc)),
            ) => (None, Progress::Pending(Backtrace::ReadingBase { base, pc })),
            (
                Backtrace::ReadingBase { base: _, pc },
                BacktraceReply::Trace(TraceReply::Word(base)),
            ) => (None, Progress::Pending(Backtrace::FindingLine { pc, base })),
            (
                Backtrace::ReadingRegs
                | Backtrace::ReadingReturn { base: _ }
                | Backtrace::ReadingBase { base: _, pc: _ },
                BacktraceReply::Trace(TraceReply::Failed(errno)),
            ) => (None, Progress::Finished(Err(Failure::System(errno)))),
            _ => (None, Progress::Finished(Err(Failure::Fatal(Fault::OutOfTurn)))),
        }
    }

    /// What the task asks next.
    pub fn request(&self) -> (call: BacktraceCall)
        requires
            self.wf(),
        ensures
            call == self.call(),
    {
        match self {
            Backtrace::ReadingRegs => BacktraceCall::Trace(TraceCall::GetRegs),
            Backtrace::FindingLine { pc, base: _ } => BacktraceCall::LineFromAddr(*pc),
            Backtrace::FindingFunction { pc, base: _, line: _ } => {
                BacktraceCall::FunctionFromAddr(*pc)
            },
            Backtrace::ReadingReturn { base } => BacktraceCall::Trace(
                TraceCall::Read { addr: *base + 8 },
            ),
            Backtrace::ReadingBase { base, pc: _ } => BacktraceCall::Trace(
                TraceCall::Read { addr: *base },
            ),
        }
    }

    /// Takes an answer.
    pub fn answer(self, reply: BacktraceReply) -> (step: BacktraceStep)
        ensures
            step == self.next(reply),
            step.1 is Pending ==> step.1->Pending_0.wf(),
    {
        match (self, reply) {
            (
                Backtrace::ReadingRegs,
                BacktraceReply::Trace(TraceReply::Regs { rip, rbp }),
            ) => (None, Progress::Pending(Backtrace::FindingLine { pc: rip, base: rbp })),
            (Backtrace::FindingLine { pc, base }, BacktraceReply::Line(Some(line))) => {
                (None, Progress::Pending(Backtrace::FindingFunction { pc, base, line }))
            },
            (Backtrace::FindingLine { pc: _, base: _ }, BacktraceReply::Line(None)) => {
                (None, Progress::Finished(Err(Failure::Fatal(Fault::NoLine))))
            },
            (
                Backtrace::FindingFunction { pc: _, base, line },
                BacktraceReply::Function(Some(function)),
            ) => {
                let outermost: bool = function == "main".to_owned();
                let frame: Report = Report::Frame { function, line };
                if outermost {
                    (Some(frame), Progress::Finished(Ok(())))
                } else if base > usize::MAX - 8 {
                    (Some(frame), Progress::Finished(Err(Failure::Fatal(Fault::AddressOverflow))))
                } else {
                    (Some(frame), Progress::Pending(Backtrace::ReadingReturn { base }))
                }
            },
            (
                Backtrace::FindingFunction { pc: _, base: _, line: _ },
                BacktraceReply::Function(None),
            ) => (None, Progress::Finished(Err(Failure::Fatal(Fault::NoFunction)))),
            (
                Backtrace::ReadingReturn { base },
                BacktraceReply::Trace(TraceReply::Word(pc)),
            ) => (None, Progress::Pending(Backtrace::ReadingBase { base, pc })),
            (
                Backtrace::ReadingBase { base: _, pc },
                BacktraceReply::Trace(TraceReply::Word(base)),
            ) => (None, Progress::Pending(Backtrace::FindingLine { pc, base })),
            (Backtrace::ReadingRegs, BacktraceReply::Trace(TraceReply::Failed(errno))) => {
                (None, Progress::Finished(Err(Failure::System(errno))))
            },
            (
                Backtrace::ReadingReturn { base: _ },
                BacktraceReply::Trace(TraceReply::Failed(errno)),
            ) => (None, Progress::Finished(Err(Failure::System(errno)))),
            (
                Backtrace::ReadingBase { base: _, pc: _ },
                BacktraceReply::Trace(TraceReply::Failed(errno)),
            ) => (None, Progress::Finished(Err(Failure::System(errno)))),
            _ => (None, Progress::Finished(Err(Failure::Fatal(Fault::OutOfTurn)))),
        }
    }
}

impl Inferior {
    /// Begins to list the function calls that led to the place where the inferior stands.
    pub fn print_backtrace(&self) -> (task: Backtrace)
        ensures
            task == Backtrace::ReadingRegs,
    {
        Backtrace::ReadingRegs
    }
}

/// The inferior's registers and stack, and what is known of its code.
pub struct Stack {
    pub rip: usize,
    pub rbp: usize,
    pub word: spec_fn(int) -> usize,
    pub line: spec_fn(usize) -> Line,
    pub function: spec_fn(usize) -> String,
}

impl Stack {
    /// The instruction and base pointers of frame `k`, the innermost being frame 0.
    pub open spec fn frame(self, k: nat) -> (usize, usize)
        decreases k,
    {
        if k == 0 {
            (self.rip, self.rbp)
        } else {
            let base = self.frame((k - 1) as nat).1;
            ((self.word)(base + 8), (self.word)(base as int))
        }
    }

    /// The line of output for frame `k`.
    pub open spec fn frame_report(self, k: nat) -> Report {
        let pc = self.frame(k).0;
        Report::Frame { function: (self.function)(pc), line: (self.line)(pc) }
    }

    /// Frame `k` is that of the function `main`.
    pub open spec fn is_main(self, k: nat) -> bool {
        (self.function)(self.frame(k).0)@ == "main"@
    }

    /// `reply` is a true answer to `call`.
    pub open spec fn answers(self, call: BacktraceCall, reply: BacktraceReply) -> bool {
        match (call, reply) {
            (BacktraceCall::LineFromAddr(pc), BacktraceReply::Line(line)) => {
                line is Some ==> line->0 == (self.line)(pc)
            },
            (BacktraceCall::FunctionFromAddr(pc), BacktraceReply::Function(function)) => {
                function is Some ==> function->0 == (self.function)(pc)
            },
            (BacktraceCall::Trace(call), BacktraceReply::Trace(reply)) => match (call, reply) {
                (_, TraceReply::Failed(_)) => true,
                (TraceCall::GetRegs, TraceReply::Regs { rip, rbp }) => {
                    rip == self.rip && rbp == self.rbp
                },
                (TraceCall::Read { addr }, TraceReply::Word(word)) => {
                    word == (self.word)(addr as int)
                },
                _ => false,
            },
            _ => false,
        }
    }
}

/// The lines of output are the frames from the innermost on, and the task is at the next one.
pub open spec fn backtrace_invariant(stack: Stack, task: Backtrace, reports: Seq<Report>) -> bool {
    let n = reports.len();
    &&& task.wf()
    &&& forall|k: int|
        0 <= k < n ==> #[trigger] reports[k] == stack.frame_report(k as nat) && !stack.is_main(
            k as nat,
        )
    &&& match task {
        Backtrace::ReadingRegs => n == 0,
        Backtrace::FindingLine { pc, base } => (pc, base) == stack.frame(n),
        Backtrace::FindingFunction { pc, base, line } => {
            (pc, base) == stack.frame(n) && line == (stack.line)(pc)
        },
        Backtrace::ReadingReturn { base } => n > 0 && base == stack.frame((n - 1) as nat).1,
        Backtrace::ReadingBase { base, pc } => {
            n > 0 && base == stack.frame((n - 1) as nat).1 && pc == (stack.word)(base + 8)
        },
    }
}

/// The lines of output after one more step.
pub open spec fn extend(reports: Seq<Report>, report: Option<Report>) -> Seq<Report> {
    match report {
        Some(report) => reports.push(report),
        None => reports,
    }
}

/// One true answer to a backtrace. The task ends well exactly when it has listed the frame of
/// `main`.
pub proof fn law_backtrace_step(
    stack: Stack,
    task: Backtrace,
    reports: Seq<Report>,
    reply: BacktraceReply,
)
    requires
        backtrace_invariant(stack, task, reports),
        stack.answers(task.call(), reply),
    ensures
        ({
            let (report, progress) = task.next(reply);
            let listed = extend(reports, report);
            match progress {
                Progress::Pending(next) => backtrace_invariant(stack, next, listed),
                Progress::Finished(Ok(())) => {
                    &&& listed.len() > 0
                    &&& stack.is_main((listed.len() - 1) as nat)
                    &&& forall|k: int|
                        0 <= k < listed.len() ==> #[trigger] listed[k] == stack.frame_report(
                            k as nat,
                        )
                    &&& forall|k: int|
                        0 <= k < listed.len() - 1 ==> !#[trigger] stack.is_main(k as nat)
                },
                Progress::Finished(Err(_)) => true,
            }
        }),
{
    let (report, progress) = task.next(reply);
    let listed = extend(reports, report);
    let n = reports.len();
    match progress {
        Progress::Finished(Ok(())) => {
            assert forall|k: int| 0 <= k < listed.len() - 1 implies !#[trigger] stack.is_main(
                k as nat,
            ) by {
                assert(reports[k] == stack.frame_report(k as nat));
            }
        },
        Progress::Pending(next) => {
            assert(stack.frame((n + 1) as nat) == ({
                let base = stack.frame(n).1;
                ((stack.word)(base + 8), (stack.word)(base as int))
            }));
        },
        _ => {},
    }
}

/// A backtrace, answer by answer: the task and the lines of output before each answer.
pub open spec fn backtrace_run(
    stack: Stack,
    tasks: Seq<Backtrace>,
    outputs: Seq<Seq<Report>>,
    replies: Seq<BacktraceReply>,
) -> bool {
    &&& tasks.len() == outputs.len() == replies.len() + 1
    &&& tasks[0] == Backtrace::ReadingRegs
    &&& outputs[0] == Seq::<Report>::empty()
    &&& forall|i: int|
        0 <= i < replies.len() ==> {
            &&& stack.answers((#[trigger] tasks[i]).call(), replies[i])
            &&& tasks[i].next(replies[i]).1 == Progress::<Backtrace, Result<(), Failure>>::Pending(
                tasks[i + 1],
            )
            &&& outputs[i + 1] == extend(outputs[i], tasks[i].next(replies[i]).0)
        }
}

/// While a backtrace runs, its output is the call chain so far: frame by frame from the innermost
/// on, none of them that of `main`.
pub proof fn law_backtrace_lists_the_call_chain(
    stack: Stack,
    tasks: Seq<Backtrace>,
    outputs: Seq<Seq<Report>>,
    replies: Seq<BacktraceReply>,
)
    requires
        backtrace_run(stack, tasks, outputs, replies),
    ensures
        backtrace_invariant(stack, tasks.last(), outputs.last()),
    decreases replies.len(),
{
    if replies.len() > 0 {
        let n = replies.len() - 1;
        let ts = tasks.drop_last();
        let os = outputs.drop_last();
        let rs = replies.drop_last();
        assert(backtrace_run(stack, ts, os, rs)) by {
            assert forall|i: int| 0 <= i < rs.len() implies stack.answers(
                (#[trigger] ts[i]).call(),
                rs[i],
            ) && ts[i].next(rs[i]).1 == Progress::<Backtrace, Result<(), Failure>>::Pending(
                ts[i + 1],
            ) && os[i + 1] == extend(os[i], ts[i].next(rs[i]).0) by {
                assert(tasks[i] == ts[i]);
            }
        }
        law_backtrace_lists_the_call_chain(stack, ts, os, rs);
        assert(tasks[n] == ts.last());
        law_backtrace_step(stack, tasks[n], outputs[n], replies[n]);
    }
}

/// A backtrace that ends well has listed the call chain from the innermost frame up to that of
/// `main`, and nothing beyond it.
pub proof fn law_backtrace_ends_at_main(
    stack: Stack,
    tasks: Seq<Backtrace>,
    outputs: Seq<Seq<Report>>,
    replies: Seq<BacktraceReply>,
    reply: BacktraceReply,
)
    requires
        backtrace_run(stack, tasks, outputs, replies),
        stack.answers(tasks.last().call(), reply),
        tasks.last().next(reply).1 == Progress::<Backtrace, Result<(), Failure>>::Finished(Ok(())),
    ensures
        ({
            let listed = extend(outputs.last(), tasks.last().next(reply).0);
            &&& listed.len() > 0
            &&& stack.is_main((listed.len() - 1) as nat)
            &&& forall|k: int|
                0 <= k < listed.len() ==> #[trigger] listed[k] == stack.frame_report(k as nat)
            &&& forall|k: int| 0 <= k < listed.len() - 1 ==> !#[trigger] stack.is_main(k as nat)
        }),
{
    law_backtrace_lists_the_call_chain(stack, tasks, outputs, replies);
    law_backtrace_step(stack, tasks.last(), outputs.last(), reply);
}

impl Stack {
    /// The answer to `call` when every frame has a line and a function, and every read succeeds.
    pub open spec fn full_answer(self, call: BacktraceCall) -> BacktraceReply {
        match call {
            BacktraceCall::LineFromAddr(pc) => BacktraceReply::Line(Some((self.line)(pc))),
            BacktraceCall::FunctionFromAddr(pc) => BacktraceReply::Function(
                Some((self.function)(pc)),
            ),
            BacktraceCall::Trace(TraceCall::Read { addr }) => BacktraceReply::Trace(
                TraceReply::Word((self.word)(addr as int)),
            ),
            BacktraceCall::Trace(_) => BacktraceReply::Trace(
                TraceReply::Regs { rip: self.rip, rbp: self.rbp },
            ),
        }
    }
}

/// The reply tells what was asked for.
pub open spec fn is_informative(reply: BacktraceReply) -> bool {
    match reply {
        BacktraceReply::Trace(reply) => !(reply is Failed),
        BacktraceReply::Line(line) => line is Some,
        BacktraceReply::Function(function) => function is Some,
    }
}

/// A true answer to a backtrace that tells what was asked for is the full answer, and that is one.
pub proof fn law_full_answer_is_the_true_one(stack: Stack, task: Backtrace, reply: BacktraceReply)
    ensures
        stack.answers(task.call(), reply) && is_informative(reply) <==> reply == stack.full_answer(
            task.call(),
        ),
{
}

/// The lines of output of a backtrace that gets `steps` full answers, and its end, if it has come to
/// one.
pub open spec fn listing(stack: Stack, task: Backtrace, steps: nat) -> (
    Seq<Report>,
    Option<Result<(), Failure>>,
)
    decreases steps,
{
    if steps == 0 {
        (seq![], None)
    } else {
        let (report, progress) = task.next(stack.full_answer(task.call()));
        let first = extend(seq![], report);
        match progress {
            Progress::Pending(next) => {
                let (reports, end) = listing(stack, next, (steps - 1) as nat);
                (first + reports, end)
            },
            Progress::Finished(result) => (first, Some(result)),
        }
    }
}

/// The listing from frame `k` on.
proof fn lemma_listing(stack: Stack, n: nat, k: nat)
    requires
        k <= n,
        stack.is_main(n),
        forall|j: nat| j < n ==> !#[trigger] stack.is_main(j),
        forall|j: nat| j < n ==> (#[trigger] stack.frame(j)).1 + 8 <= usize::MAX,
    ensures
        listing(
            stack,
            Backtrace::FindingLine { pc: stack.frame(k).0, base: stack.frame(k).1 },
            (4 * (n - k) + 2) as nat,
        ) == (
            Seq::new((n - k + 1) as nat, |j: int| stack.frame_report((k + j) as nat)),
            Some(Ok::<(), Failure>(())),
        ),
    decreases n - k,
{
    let (pc, base) = stack.frame(k);
    let line = (stack.line)(pc);
    let steps = (4 * (n - k) + 2) as nat;
    let expected = Seq::new((n - k + 1) as nat, |j: int| stack.frame_report((k + j) as nat));
    let at_line = Backtrace::FindingLine { pc, base };
    let at_function = Backtrace::FindingFunction { pc, base, line };
    let report = stack.frame_report(k);
    if k == n {
        assert(listing(stack, at_function, 1) == (
            extend(seq![], Some(report)),
            Some(Ok::<(), Failure>(())),
        ));
        assert(listing(stack, at_line, 2).0 =~= expected);
    } else {
        let at_return = Backtrace::ReadingReturn { base };
        let next_pc = (stack.word)(base + 8);
        let next_base = (stack.word)(base as int);
        let at_base = Backtrace::ReadingBase { base, pc: next_pc };
        let next = Backtrace::FindingLine { pc: next_pc, base: next_base };
        assert(!stack.is_main(k));
        assert(stack.frame(k + 1) == (next_pc, next_base));
        lemma_listing(stack, n, k + 1);
        let rest = listing(stack, next, (steps - 4) as nat);
        assert(listing(stack, at_base, (steps - 3) as nat) == (seq![] + rest.0, rest.1));
        assert(seq![] + rest.0 =~= rest.0);
        assert(listing(stack, at_return, (steps - 2) as nat) == (seq![] + rest.0, rest.1));
        assert(listing(stack, at_function, (steps - 1) as nat) == (
            extend(seq![], Some(report)) + rest.0,
            rest.1,
        ));
        assert(listing(stack, at_line, steps).0 =~= expected);
    }
}

/// A backtrace comes to its end: if frame `n` is the first that is that of `main`, every frame has a
/// line and a function, every read succeeds, and no return address lies beyond the address space,
/// then it ends well when it has listed the frames from 0 to `n`.
pub proof fn law_backtrace_comes_to_main(stack: Stack, n: nat)
    requires
        stack.is_main(n),
        forall|k: nat| k < n ==> !#[trigger] stack.is_main(k),
        forall|k: nat| k < n ==> (#[trigger] stack.frame(k)).1 + 8 <= usize::MAX,
    ensures
        listing(stack, Backtrace::ReadingRegs, 4 * n + 3) == (
            Seq::new(n + 1, |k: int| stack.frame_report(k as nat)),
            Some(Ok::<(), Failure>(())),
        ),
{
    lemma_listing(stack, n, 0);
    let expected = Seq::new(n + 1, |k: int| stack.frame_report(k as nat));
    assert(listing(stack, Backtrace::ReadingRegs, 4 * n + 3).0 =~= expected);
}

} // verus!
