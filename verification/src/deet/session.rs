//! What holds of the debugged process over a whole session with the debugger.

use crate::deet::backtrace::BacktraceCall;
use crate::deet::debugger::{Debugger, Event, Phase, Request, Turn};
use crate::deet::inferior::{
    lists_breakpoints, with_orig_byte, Breakpoint, Cont, Launch, LaunchPhase, Status, TRAP,
};
use crate::deet::laws::{
    armed, breaks_off, byte_written, cont_invariant, law_cont_step, law_write_byte_step,
    write_underway,
};
use crate::deet::tracee::{answers, Progress, TraceCall, TraceReply, Tracee};
use vstd::prelude::*;

verus! {

/// The call on the inferior whose answer a phase waits for.
pub open spec fn awaits(phase: Phase) -> Option<TraceCall> {
    match phase {
        Phase::Recycling { inferior: _, args: _, wait } => Some(wait.call()),
        Phase::Launching(launch) => Some(launch.call()),
        Phase::Continuing { task, first: _ } => Some(task.call()),
        Phase::Tracing(backtrace) => match backtrace.call() {
            BacktraceCall::Trace(call) => Some(call),
            _ => None,
        },
        Phase::Arming(write) => Some(write.call()),
        _ => None,
    }
}

/// The debugger makes a call on the inferior exactly when it then waits for the answer to it.
pub proof fn law_calls_are_awaited(pre: Debugger, event: Event, post: Debugger, turn: Turn)
    requires
        pre.wf(),
        pre.transition(event, post, turn),
    ensures
        awaits(post.phase) == match turn.request {
            Request::Trace(call) => Some(call),
            _ => None,
        },
{
}

/// A process is started only while there is none, and the debugger is left only when there is
/// none.
pub proof fn law_at_most_one_inferior(pre: Debugger, event: Event, post: Debugger, turn: Turn)
    requires
        pre.wf(),
        pre.transition(event, post, turn),
    ensures
        turn.request is Spawn ==> post.inferior is None,
        turn.request is Quit ==> post.inferior is None,
{
}

/// No breakpoint is ever lost: not when it is hit, nor when the target is started again.
pub proof fn law_breakpoints_are_never_lost(pre: Debugger, event: Event, post: Debugger, turn: Turn)
    requires
        pre.wf(),
        pre.transition(event, post, turn),
    ensures
        pre.break_points@.dom().subset_of(post.break_points@.dom()),
{
}

/// The inferior's memory at the addresses in `code`, where the program itself stands: at a
/// breakpoint a trap or the byte of the program's `image`, which the breakpoint records; elsewhere
/// the image.
pub open spec fn intact(
    image: spec_fn(int) -> u8,
    code: Set<usize>,
    memory: spec_fn(int) -> u8,
    break_points: Map<usize, Breakpoint>,
) -> bool {
    forall|a: usize| #[trigger]
        code.contains(a) ==> if break_points.contains_key(a) {
            &&& break_points[a].orig_byte == image(a as int)
            &&& memory(a as int) == TRAP || memory(a as int) == image(a as int)
        } else {
            memory(a as int) == image(a as int)
        }
}

/// The inferior's code while the traps are written into it: those before `done` stand.
pub open spec fn intact_up_to(
    image: spec_fn(int) -> u8,
    code: Set<usize>,
    memory: spec_fn(int) -> u8,
    break_points: Map<usize, Breakpoint>,
    addrs: Seq<usize>,
    done: int,
) -> bool {
    forall|a: usize| #[trigger]
        code.contains(a) ==> if addrs.take(done).contains(a) {
            &&& break_points[a].orig_byte == image(a as int)
            &&& memory(a as int) == TRAP
        } else {
            memory(a as int) == image(a as int)
        }
}

/// What holds of the inferior while the debugger waits for the outcome of its last request.
pub open spec fn session_invariant(
    debugger: Debugger,
    tracee: Tracee,
    image: spec_fn(int) -> u8,
    code: Set<usize>,
) -> bool {
    let memory = tracee.memory;
    let break_points = debugger.break_points@;
    &&& debugger.wf()
    &&& break_points.dom().subset_of(code)
    &&& match debugger.phase {
        Phase::Launching(launch) => match launch.phase {
            LaunchPhase::Waiting(_) => {
                forall|a: usize| #[trigger]
                    code.contains(a) ==> memory(a as int) == image(a as int)
            },
            LaunchPhase::Arming { index, write } => {
                &&& intact_up_to(image, code, memory, break_points, launch.addrs@, index as int)
                &&& write_underway(write, memory)
            },
        },
        Phase::Continuing { task, first: _ } => {
            &&& cont_invariant(task, tracee, break_points)
            &&& intact(image, code, memory, break_points)
        },
        Phase::Arming(write) => {
            &&& code.contains(write.addr)
            &&& memory(write.addr as int) == image(write.addr as int)
            &&& write_underway(write, memory)
            &&& armed(memory, break_points, Some(tracee.rip))
            &&& intact(image, code, memory, break_points)
        },
        Phase::Over => true,
        _ => debugger.inferior is Some ==> {
            &&& armed(memory, break_points, Some(tracee.rip))
            &&& intact(image, code, memory, break_points)
        },
    }
}

/// `event` is a true account of what came of the last request, and turns the inferior from `before`
/// into `after`. A new process is the program's image; a process that has stopped stays as it is;
/// and no process writes to its own code.
pub open spec fn truthful(
    debugger: Debugger,
    before: Tracee,
    event: Event,
    after: Tracee,
    image: spec_fn(int) -> u8,
    code: Set<usize>,
) -> bool {
    match event {
        Event::Trace(reply) => awaits(debugger.phase) is Some ==> answers(
            before,
            awaits(debugger.phase)->0,
            reply,
            after,
            code,
        ),
        Event::Spawned(_) => forall|a: usize| #[trigger]
            code.contains(a) ==> (after.memory)(a as int) == image(a as int),
        _ => after == before,
    }
}

/// The exceptions. Breakpoints are set in code. One that is set again while a trap stands at its
/// address would record the trap in place of the byte under it. And a restart must not break off
/// halfway through a breakpoint.
pub open spec fn undisturbed(
    pre: Debugger,
    tracee: Tracee,
    event: Event,
    post: Debugger,
    image: spec_fn(int) -> u8,
    code: Set<usize>,
) -> bool {
    &&& post.break_points@.dom().subset_of(code)
    &&& post.phase matches Phase::Arming(write) ==> !(pre.phase is Arming) ==> {
        &&& code.contains(write.addr)
        &&& pre.break_points@.contains_key(write.addr) ==> (tracee.memory)(write.addr as int)
            == image(write.addr as int)
    }
    &&& match (pre.phase, event) {
        (Phase::Continuing { task, first: _ }, Event::Trace(reply)) => !breaks_off(task, reply),
        _ => true,
    }
}

/// Through a restart the code stays intact.
proof fn lemma_cont_keeps_code_intact(
    task: Cont,
    pre: Tracee,
    reply: TraceReply,
    post: Tracee,
    break_points: Map<usize, Breakpoint>,
    image: spec_fn(int) -> u8,
    code: Set<usize>,
)
    requires
        cont_invariant(task, pre, break_points),
        intact(image, code, pre.memory, break_points),
        break_points.dom().subset_of(code),
        answers(pre, task.call(), reply, post, code),
    ensures
        intact(image, code, post.memory, break_points),
        answers(pre, task.call(), reply, post, break_points.dom()),
{
    match task {
        Cont::Rearming(write) => {
            law_write_byte_step(write, pre, reply, post, code);
        },
        Cont::Restoring { status: _, rip: _, write } => {
            assert(code.contains(write.addr)) by {
                assert(break_points.dom().contains(write.addr));
            }
            law_write_byte_step(write, pre, reply, post, code);
        },
        _ => {},
    }
}

/// One more trap has been written into a new inferior.
proof fn lemma_launch_keeps_code_intact(
    addrs: Seq<usize>,
    index: int,
    val: Breakpoint,
    pre: spec_fn(int) -> u8,
    before: Map<usize, Breakpoint>,
    post: spec_fn(int) -> u8,
    image: spec_fn(int) -> u8,
    code: Set<usize>,
)
    requires
        lists_breakpoints(addrs, before),
        0 <= index < addrs.len(),
        intact_up_to(image, code, pre, before, addrs, index),
        before.dom().subset_of(code),
        val.orig_byte == pre(addrs[index] as int),
        byte_written(pre, addrs[index], TRAP, post),
    ensures
        intact_up_to(image, code, post, before.insert(addrs[index], val), addrs, index + 1),
        lists_breakpoints(addrs, before.insert(addrs[index], val)),
{
    let addr = addrs[index];
    let after = before.insert(addr, val);
    let written = addrs.take(index);
    let longer = addrs.take(index + 1);
    assert(longer =~= written.push(addr));
    assert(addrs.contains(addr)) by {
        assert(addrs[index] == addr);
    }
    assert(code.contains(addr)) by {
        assert(before.dom().contains(addr));
    }
    assert(!written.contains(addr)) by {
        if written.contains(addr) {
            let j = choose|j: int| 0 <= j < written.len() && written[j] == addr;
            assert(addrs[j] == addrs[index]);
        }
    }
    assert forall|a: usize| #[trigger] code.contains(a) implies if longer.contains(a) {
        after[a].orig_byte == image(a as int) && post(a as int) == TRAP
    } else {
        post(a as int) == image(a as int)
    } by {
        if written.contains(a) {
            let j = choose|j: int| 0 <= j < written.len() && written[j] == a;
            assert(longer[j] == a);
        }
        assert(longer[index] == addr);
    }
    assert forall|a: usize| #[trigger] addrs.contains(a) <==> after.contains_key(a) by {
        assert(addrs.contains(a) <==> before.contains_key(a));
    }
}

/// Once all traps are written, the new inferior can be restarted.
proof fn lemma_launched_inferior_is_armed(
    addrs: Seq<usize>,
    memory: spec_fn(int) -> u8,
    break_points: Map<usize, Breakpoint>,
    image: spec_fn(int) -> u8,
    code: Set<usize>,
)
    requires
        lists_breakpoints(addrs, break_points),
        intact_up_to(image, code, memory, break_points, addrs, addrs.len() as int),
        break_points.dom().subset_of(code),
    ensures
        armed(memory, break_points, None),
        intact(image, code, memory, break_points),
{
    assert(addrs.take(addrs.len() as int) =~= addrs);
    assert forall|a: usize| #[trigger] break_points.contains_key(a) implies memory(a as int)
        == TRAP by {
        assert(addrs.contains(a));
        assert(code.contains(a)) by {
            assert(break_points.dom().contains(a));
        }
    }
    assert forall|a: usize| #[trigger] code.contains(a) implies if break_points.contains_key(a) {
        &&& break_points[a].orig_byte == image(a as int)
        &&& memory(a as int) == TRAP || memory(a as int) == image(a as int)
    } else {
        memory(a as int) == image(a as int)
    } by {
        assert(addrs.contains(a) <==> break_points.contains_key(a));
    }
}

/// One turn of a session keeps what holds of the inferior.
pub proof fn law_session_step(
    pre: Debugger,
    before: Tracee,
    event: Event,
    post: Debugger,
    turn: Turn,
    after: Tracee,
    image: spec_fn(int) -> u8,
    code: Set<usize>,
)
    requires
        session_invariant(pre, before, image, code),
        pre.transition(event, post, turn),
        post.wf(),
        truthful(pre, before, event, after, image, code),
        undisturbed(pre, before, event, post, image, code),
    ensures
        session_invariant(post, after, image, code),
{
    let table = pre.break_points@;
    match (pre.phase, event) {
        (Phase::Continuing { task, first: _ }, Event::Trace(reply)) => {
            lemma_cont_keeps_code_intact(task, before, reply, after, table, image, code);
            law_cont_step(task, before, reply, after, table);
        },
        (Phase::Arming(write), Event::Trace(reply)) => {
            law_write_byte_step(write, before, reply, after, code);
        },
        (Phase::Launching(launch), Event::Trace(reply)) => {
            match launch.phase {
                LaunchPhase::Waiting(wait) => {
                    if let Progress::Finished(Ok(Status::Stopped(_, _))) = wait.next(reply) {
                        let addrs = choose|addrs: Vec<usize>|
                            lists_breakpoints(addrs@, table) && pre.leads_to(
                                pre.launched(table, #[trigger] Launch::arming(launch.child, addrs, 0)),
                                post,
                                turn,
                            );
                        assert(addrs@.take(0) =~= Seq::empty());
                        assert(intact_up_to(image, code, after.memory, table, addrs@, 0));
                        if addrs@.len() == 0 {
                            lemma_launched_inferior_is_armed(
                                addrs@,
                                after.memory,
                                table,
                                image,
                                code,
                            );
                        }
                    }
                },
                LaunchPhase::Arming { index, write } => {
                    law_write_byte_step(write, before, reply, after, code);
                    if let Progress::Finished(Ok(orig_byte)) = write.next(reply) {
                        let addrs = launch.addrs@;
                        lemma_launch_keeps_code_intact(
                            addrs,
                            index as int,
                            with_orig_byte(table[write.addr], orig_byte),
                            before.memory,
                            table,
                            after.memory,
                            image,
                            code,
                        );
                        if index + 1 == addrs.len() {
                            lemma_launched_inferior_is_armed(
                                addrs,
                                after.memory,
                                post.break_points@,
                                image,
                                code,
                            );
                        }
                    }
                },
            }
        },
        _ => {},
    }
}

/// A session, turn by turn: the debugger and the inferior before each event, the events, and the
/// turns that they lead to. It begins at the prompt, without an inferior.
pub open spec fn session_run(
    debuggers: Seq<Debugger>,
    tracees: Seq<Tracee>,
    events: Seq<Event>,
    turns: Seq<Turn>,
    image: spec_fn(int) -> u8,
    code: Set<usize>,
) -> bool {
    &&& debuggers.len() == tracees.len() == events.len() + 1
    &&& turns.len() == events.len()
    &&& debuggers[0].wf()
    &&& debuggers[0].phase is Prompting
    &&& debuggers[0].inferior is None
    &&& debuggers[0].break_points@.dom().subset_of(code)
    &&& forall|i: int|
        0 <= i < events.len() ==> {
            let pre = #[trigger] debuggers[i];
            let post = debuggers[i + 1];
            &&& pre.transition(events[i], post, turns[i])
            &&& post.wf()
            &&& truthful(pre, tracees[i], events[i], tracees[i + 1], image, code)
            &&& undisturbed(pre, tracees[i], events[i], post, image, code)
        }
}

proof fn lemma_session(
    debuggers: Seq<Debugger>,
    tracees: Seq<Tracee>,
    events: Seq<Event>,
    turns: Seq<Turn>,
    image: spec_fn(int) -> u8,
    code: Set<usize>,
    n: int,
)
    requires
        session_run(debuggers, tracees, events, turns, image, code),
        0 <= n <= events.len(),
    ensures
        session_invariant(debuggers[n], tracees[n], image, code),
    decreases n,
{
    if n > 0 {
        lemma_session(debuggers, tracees, events, turns, image, code, n - 1);
        law_session_step(
            debuggers[n - 1],
            tracees[n - 1],
            events[n - 1],
            debuggers[n],
            turns[n - 1],
            tracees[n],
            image,
            code,
        );
    }
}

/// In the whole of a session, whenever the debugger lets the inferior run, a trap stands at every
/// breakpoint, every breakpoint records the byte of the program under its trap, and all other code
/// is the program's.
pub proof fn law_no_breakpoint_is_missed(
    debuggers: Seq<Debugger>,
    tracees: Seq<Tracee>,
    events: Seq<Event>,
    turns: Seq<Turn>,
    image: spec_fn(int) -> u8,
    code: Set<usize>,
    n: int,
)
    requires
        session_run(debuggers, tracees, events, turns, image, code),
        0 <= n < turns.len(),
        turns[n].request == Request::Trace(TraceCall::Cont),
    ensures
        armed(tracees[n + 1].memory, debuggers[n + 1].break_points@, None),
        intact(image, code, tracees[n + 1].memory, debuggers[n + 1].break_points@),
{
    lemma_session(debuggers, tracees, events, turns, image, code, n);
    lemma_session(debuggers, tracees, events, turns, image, code, n + 1);
    law_calls_are_awaited(debuggers[n], events[n], debuggers[n + 1], turns[n]);
}

/// Whenever the debugger prompts while there is an inferior, the inferior can be restarted, and no
/// trap is missing but perhaps at the place where it stands.
pub proof fn law_inferior_at_the_prompt_can_go_on(
    debuggers: Seq<Debugger>,
    tracees: Seq<Tracee>,
    events: Seq<Event>,
    turns: Seq<Turn>,
    image: spec_fn(int) -> u8,
    code: Set<usize>,
    n: int,
)
    requires
        session_run(debuggers, tracees, events, turns, image, code),
        0 <= n < debuggers.len(),
        debuggers[n].phase is Prompting,
        debuggers[n].inferior is Some,
    ensures
        cont_invariant(Cont::ReadingStart, tracees[n], debuggers[n].break_points@),
        intact(image, code, tracees[n].memory, debuggers[n].break_points@),
{
    lemma_session(debuggers, tracees, events, turns, image, code, n);
}

} // verus!
