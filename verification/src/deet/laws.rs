//! What the tasks on a traced process amount to when the process answers truthfully.

use crate::deet::inferior::{
    lists_breakpoints, spec_wait, spec_write_byte, with_orig_byte, Breakpoint, Cont, Inferior,
    Launch, LaunchPhase, Status, WriteByte, WriteBytePhase, TRAP,
};
use crate::deet::tracee::{
    answers, holds_word, Failure, Fault, Progress, TraceCall, TraceReply, Tracee, WaitStatus,
};
use crate::deet::word::{
    byte_of, law_replace_byte, replace_byte, word_bytes, word_offset, word_start,
};
use vstd::prelude::*;

verus! {

/// `post` is `pre` with one byte changed.
pub open spec fn byte_written(
    pre: spec_fn(int) -> u8,
    addr: usize,
    val: u8,
    post: spec_fn(int) -> u8,
) -> bool {
    forall|a: int| 0 <= a <= usize::MAX ==> #[trigger] post(a) == if a == addr {
        val
    } else {
        pre(a)
    }
}

/// A byte-writing task that is about to write, knows the byte it replaces and the word to write.
pub open spec fn write_underway(write: WriteByte, memory: spec_fn(int) -> u8) -> bool {
    match write.phase {
        WriteBytePhase::Reading => true,
        WriteBytePhase::Writing { orig_byte, word } => {
            &&& orig_byte == memory(write.addr as int)
            &&& exists|read: usize|
                holds_word(memory, word_start(write.addr), read) && word == #[trigger] replace_byte(
                    read,
                    word_offset(write.addr),
                    write.val,
                )
        },
    }
}

proof fn lemma_word_place(addr: usize)
    ensures
        word_start(addr) + word_offset(addr) == addr,
        0 <= word_offset(addr) < word_bytes(),
        word_start(addr) + word_bytes() <= usize::MAX + 1,
{
    assert(word_bytes() == 4 || word_bytes() == 8);
    if word_bytes() == 4 {
        assert(addr - addr as int % 4 + 4 <= 0x1_0000_0000);
    }
}

/// One truthful answer to a byte-writing task: nothing changes until the task ends well, and then
/// one byte has changed.
pub proof fn law_write_byte_step(
    write: WriteByte,
    pre: Tracee,
    reply: TraceReply,
    post: Tracee,
    code: Set<usize>,
)
    requires
        write_underway(write, pre.memory),
        answers(pre, write.call(), reply, post, code),
    ensures
        post.rip == pre.rip,
        match write.next(reply) {
            Progress::Pending(next) => {
                &&& post == pre
                &&& write_underway(next, post.memory)
                &&& next.addr == write.addr && next.val == write.val
            },
            Progress::Finished(Ok(byte)) => {
                &&& byte == (pre.memory)(write.addr as int)
                &&& byte_written(pre.memory, write.addr, write.val, post.memory)
            },
            Progress::Finished(Err(_)) => post == pre,
        },
{
    lemma_word_place(write.addr);
    let start = word_start(write.addr);
    let offset = word_offset(write.addr);
    match (write.phase, reply) {
        (WriteBytePhase::Reading, TraceReply::Word(read)) => {
            assert(byte_of(read, offset) == (pre.memory)(start + offset));
            let next = write.next(reply)->Pending_0;
            assert(holds_word(post.memory, word_start(next.addr), read));
            assert(next.phase->word == replace_byte(read, word_offset(next.addr), next.val));
            assert(next.phase->orig_byte == (post.memory)(next.addr as int));
            assert(write_underway(next, post.memory));
        },
        (WriteBytePhase::Writing { orig_byte, word }, TraceReply::Done) => {
            let read = choose|read: usize|
                holds_word(pre.memory, start, read) && word == #[trigger] replace_byte(
                    read,
                    offset,
                    write.val,
                );
            law_replace_byte(read, offset, write.val);
            assert forall|a: int| 0 <= a <= usize::MAX implies #[trigger] (post.memory)(a) == if a
                == write.addr {
                write.val
            } else {
                (pre.memory)(a)
            } by {
                if start <= a < start + word_bytes() {
                    let i = a - start;
                    assert(byte_of(word, i) == (post.memory)(start + i));
                    assert(byte_of(read, i) == (pre.memory)(start + i));
                }
            }
        },
        _ => {},
    }
}

/// Writing a byte of a process that answers truthfully changes that byte and nothing else, and
/// returns the byte that was there.
pub proof fn law_write_byte(
    addr: usize,
    val: u8,
    before: Tracee,
    first: TraceReply,
    between: Tracee,
    second: TraceReply,
    after: Tracee,
    code: Set<usize>,
)
    requires
        answers(before, spec_write_byte(addr, val).call(), first, between, code),
        spec_write_byte(addr, val).next(first) is Pending,
        answers(between, spec_write_byte(addr, val).next(first)->Pending_0.call(), second, after, code),
    ensures
        match spec_write_byte(addr, val).next(first)->Pending_0.next(second) {
            Progress::Finished(Ok(byte)) => {
                &&& byte == (before.memory)(addr as int)
                &&& byte_written(before.memory, addr, val, after.memory)
                &&& after.rip == before.rip
            },
            Progress::Finished(Err(failure)) => after == before && failure is System,
            Progress::Pending(_) => false,
        },
{
    law_write_byte_step(spec_write_byte(addr, val), before, first, between, code);
    let write = spec_write_byte(addr, val).next(first)->Pending_0;
    law_write_byte_step(write, between, second, after, code);
}

/// A trap stands at every breakpoint but `except`.
pub open spec fn armed(
    memory: spec_fn(int) -> u8,
    break_points: Map<usize, Breakpoint>,
    except: Option<usize>,
) -> bool {
    forall|a: usize| #[trigger]
        break_points.contains_key(a) && Some(a) != except ==> memory(a as int) == TRAP
}

/// What holds of the inferior's memory at each point of a restart.
pub open spec fn cont_invariant(
    task: Cont,
    tracee: Tracee,
    break_points: Map<usize, Breakpoint>,
) -> bool {
    let memory = tracee.memory;
    match task {
        Cont::ReadingStart => armed(memory, break_points, Some(tracee.rip)),
        Cont::Stepping { at } => {
            &&& armed(memory, break_points, Some(at))
            &&& break_points.contains_key(at)
            &&& tracee.rip == at
        },
        Cont::StepWaiting { at, wait: _ } => {
            &&& armed(memory, break_points, Some(at))
            &&& break_points.contains_key(at)
        },
        Cont::Rearming(write) => {
            &&& armed(memory, break_points, Some(write.addr))
            &&& break_points.contains_key(write.addr)
            &&& write.val == TRAP
            &&& write_underway(write, memory)
        },
        Cont::Resuming => armed(memory, break_points, None),
        Cont::RunWaiting(_) => armed(memory, break_points, None),
        Cont::ReadingStop(status) => {
            &&& armed(memory, break_points, None)
            &&& status matches Status::Stopped(_, pos) && pos == tracee.rip
        },
        Cont::Restoring { status, rip, write } => {
            &&& armed(memory, break_points, None)
            &&& status matches Status::Stopped(_, pos) && pos == rip + 1
            &&& break_points.contains_key(rip)
            &&& write.addr == rip
            &&& write.val == break_points[rip].orig_byte
            &&& write_underway(write, memory)
        },
        Cont::Rewinding { status, rip } => {
            &&& armed(memory, break_points, Some(rip))
            &&& status matches Status::Stopped(_, pos) && pos == rip + 1
            &&& break_points.contains_key(rip)
            &&& memory(rip as int) == break_points[rip].orig_byte
        },
    }
}

/// The breakpoint that is hit by a process that stops at `pos`: the one whose trap it has just
/// executed.
pub open spec fn hit_at(pos: usize, break_points: Map<usize, Breakpoint>) -> Option<usize> {
    if pos > 0 && break_points.contains_key((pos - 1) as usize) {
        Some((pos - 1) as usize)
    } else {
        None
    }
}

/// How the inferior is left when a restart ends with it stopped at `pos`. If a breakpoint was hit,
/// the inferior stands on it, its byte is back in place, and every other breakpoint is armed. If
/// not, the inferior stands at `pos`, and every breakpoint is armed.
pub open spec fn stopped_cleanly(
    tracee: Tracee,
    break_points: Map<usize, Breakpoint>,
    pos: usize,
) -> bool {
    &&& armed(tracee.memory, break_points, hit_at(pos, break_points))
    &&& match hit_at(pos, break_points) {
        Some(at) => {
            tracee.rip == at && (tracee.memory)(at as int) == break_points[at].orig_byte
        },
        None => tracee.rip == pos,
    }
}

/// The restart ends while the trap that was stepped over is still missing, or while the inferior
/// still stands behind the breakpoint whose byte has been put back.
pub open spec fn breaks_off(task: Cont, reply: TraceReply) -> bool {
    match task {
        Cont::StepWaiting { at: _, wait: _ } => {
            reply is Failed || reply matches TraceReply::Waited(WaitStatus::Signaled(_))
        },
        Cont::Rearming(_) => reply is Failed,
        Cont::Rewinding { status: _, rip: _ } => reply is Failed,
        _ => false,
    }
}

/// One truthful answer keeps what holds of the inferior's memory during a restart. Also when the
/// restart ends early, the next one can begin, unless it broke off halfway through a breakpoint.
pub proof fn law_cont_step(
    task: Cont,
    pre: Tracee,
    reply: TraceReply,
    post: Tracee,
    break_points: Map<usize, Breakpoint>,
)
    requires
        cont_invariant(task, pre, break_points),
        answers(pre, task.call(), reply, post, break_points.dom()),
    ensures
        match task.next(break_points, reply) {
            Progress::Pending(next) => cont_invariant(next, post, break_points),
            Progress::Finished(Ok(Status::Stopped(_, pos))) => {
                &&& stopped_cleanly(post, break_points, pos)
                &&& armed(post.memory, break_points, Some(post.rip))
            },
            Progress::Finished(Ok(Status::Exited(_))) => true,
            Progress::Finished(Err(Failure::Fatal(_))) => true,
            Progress::Finished(_) => !breaks_off(task, reply) ==> armed(
                post.memory,
                break_points,
                Some(post.rip),
            ),
        },
{
    match task {
        Cont::Rearming(write) => {
            law_write_byte_step(write, pre, reply, post, break_points.dom());
        },
        Cont::Restoring { status: _, rip, write } => {
            law_write_byte_step(write, pre, reply, post, break_points.dom());
        },
        _ => {},
    }
}

/// A restart, answer by answer: the task and the inferior before each answer, and the answers.
pub open spec fn cont_run(
    tasks: Seq<Cont>,
    tracees: Seq<Tracee>,
    replies: Seq<TraceReply>,
    break_points: Map<usize, Breakpoint>,
) -> bool {
    &&& tasks.len() == tracees.len() == replies.len() + 1
    &&& tasks[0] == Cont::ReadingStart
    &&& forall|i: int|
        0 <= i < replies.len() ==> {
            &&& answers(
                tracees[i],
                (#[trigger] tasks[i]).call(),
                replies[i],
                tracees[i + 1],
                break_points.dom(),
            )
            &&& tasks[i].next(break_points, replies[i]) == Progress::<
                Cont,
                Result<Status, Failure>,
            >::Pending(tasks[i + 1])
        }
}

/// Whenever a restart lets the inferior run, a trap stands at every breakpoint. It is enough that,
/// when the restart began, no trap was missing but at the place where the inferior stood.
pub proof fn law_every_breakpoint_is_armed_when_the_inferior_runs(
    tasks: Seq<Cont>,
    tracees: Seq<Tracee>,
    replies: Seq<TraceReply>,
    break_points: Map<usize, Breakpoint>,
)
    requires
        cont_run(tasks, tracees, replies, break_points),
        armed(tracees[0].memory, break_points, Some(tracees[0].rip)),
    ensures
        tasks.last().call() == TraceCall::Cont ==> armed(tracees.last().memory, break_points, None),
        cont_invariant(tasks.last(), tracees.last(), break_points),
    decreases replies.len(),
{
    if replies.len() > 0 {
        let n = replies.len() - 1;
        let ts = tasks.drop_last();
        let ps = tracees.drop_last();
        let rs = replies.drop_last();
        assert(cont_run(ts, ps, rs, break_points)) by {
            assert forall|i: int| 0 <= i < rs.len() implies answers(
                ps[i],
                (#[trigger] ts[i]).call(),
                rs[i],
                ps[i + 1],
                break_points.dom(),
            ) && ts[i].next(break_points, rs[i]) == Progress::<
                Cont,
                Result<Status, Failure>,
            >::Pending(ts[i + 1]) by {
                assert(tasks[i] == ts[i]);
            }
        }
        law_every_breakpoint_is_armed_when_the_inferior_runs(ts, ps, rs, break_points);
        assert(tasks[n] == ts.last());
        law_cont_step(tasks[n], tracees[n], replies[n], tracees[n + 1], break_points);
    }
}

/// A restart that ends with the inferior stopped at `pos` leaves every breakpoint armed but the one
/// at `pos - 1`. If there is one, the inferior stands on it, and the byte under the trap is back in
/// place; if not, the inferior stands at `pos`. Either way the next restart can begin.
pub proof fn law_cont_stops_cleanly(
    tasks: Seq<Cont>,
    tracees: Seq<Tracee>,
    replies: Seq<TraceReply>,
    break_points: Map<usize, Breakpoint>,
    reply: TraceReply,
    after: Tracee,
    signal: i32,
    pos: usize,
)
    requires
        cont_run(tasks, tracees, replies, break_points),
        armed(tracees[0].memory, break_points, Some(tracees[0].rip)),
        answers(tracees.last(), tasks.last().call(), reply, after, break_points.dom()),
        tasks.last().next(break_points, reply) == Progress::<Cont, Result<Status, Failure>>::Finished(
            Ok(Status::Stopped(signal, pos)),
        ),
    ensures
        stopped_cleanly(after, break_points, pos),
        armed(after.memory, break_points, Some(after.rip)),
{
    law_every_breakpoint_is_armed_when_the_inferior_runs(tasks, tracees, replies, break_points);
    law_cont_step(tasks.last(), tracees.last(), reply, after, break_points);
}

/// The calls that a restart makes when it gets these answers one after the other, and what has come
/// of it then.
pub open spec fn replay(
    task: Cont,
    break_points: Map<usize, Breakpoint>,
    replies: Seq<TraceReply>,
) -> (Seq<TraceCall>, Progress<Cont, Result<Status, Failure>>)
    decreases replies.len(),
{
    if replies.len() == 0 {
        (seq![], Progress::Pending(task))
    } else {
        match task.next(break_points, replies[0]) {
            Progress::Pending(next) => {
                let (calls, progress) = replay(next, break_points, replies.skip(1));
                (seq![task.call()] + calls, progress)
            },
            Progress::Finished(result) => (seq![task.call()], Progress::Finished(result)),
        }
    }
}

proof fn lemma_replay_step(
    task: Cont,
    break_points: Map<usize, Breakpoint>,
    reply: TraceReply,
    rest: Seq<TraceReply>,
)
    ensures
        replay(task, break_points, seq![reply] + rest) == match task.next(break_points, reply) {
            Progress::Pending(next) => (
                seq![task.call()] + replay(next, break_points, rest).0,
                replay(next, break_points, rest).1,
            ),
            Progress::Finished(result) => (seq![task.call()], Progress::Finished(result)),
        },
{
    assert((seq![reply] + rest).skip(1) =~= rest);
}

/// From putting a trap back to letting the inferior go.
proof fn lemma_replay_rearming(break_points: Map<usize, Breakpoint>, at: usize, word: usize)
    ensures
        replay(
            Cont::Rearming(spec_write_byte(at, TRAP)),
            break_points,
            seq![TraceReply::Word(word), TraceReply::Done, TraceReply::Done],
        ) == (
            seq![
                TraceCall::Read { addr: word_start(at) },
                TraceCall::Write {
                    addr: word_start(at),
                    word: replace_byte(word, word_offset(at), TRAP),
                },
                TraceCall::Cont,
            ],
            Progress::<Cont, Result<Status, Failure>>::Pending(Cont::RunWaiting(spec_wait(None))),
        ),
{
    let write = spec_write_byte(at, TRAP);
    let writing = write.next(TraceReply::Word(word))->Pending_0;
    let empty = Seq::<TraceReply>::empty();
    lemma_replay_step(Cont::Resuming, break_points, TraceReply::Done, empty);
    let rest2 = seq![TraceReply::Done] + empty;
    lemma_replay_step(Cont::Rearming(writing), break_points, TraceReply::Done, rest2);
    let rest1 = seq![TraceReply::Done] + rest2;
    lemma_replay_step(Cont::Rearming(write), break_points, TraceReply::Word(word), rest1);
    let replies = seq![TraceReply::Word(word)] + rest1;
    assert(replies =~= seq![TraceReply::Word(word), TraceReply::Done, TraceReply::Done]);
    assert(replay(Cont::Rearming(write), break_points, replies).0 =~= seq![
        TraceCall::Read { addr: word_start(at) },
        TraceCall::Write {
            addr: word_start(at),
            word: replace_byte(word, word_offset(at), TRAP),
        },
        TraceCall::Cont,
    ]);
}

/// From putting back the byte under a trap to the end.
proof fn lemma_replay_restoring(
    break_points: Map<usize, Breakpoint>,
    status: Status,
    at: usize,
    word: usize,
)
    ensures
        replay(
            Cont::Restoring {
                status,
                rip: at,
                write: spec_write_byte(at, break_points[at].orig_byte),
            },
            break_points,
            seq![TraceReply::Word(word), TraceReply::Done, TraceReply::Done],
        ) == (
            seq![
                TraceCall::Read { addr: word_start(at) },
                TraceCall::Write {
                    addr: word_start(at),
                    word: replace_byte(word, word_offset(at), break_points[at].orig_byte),
                },
                TraceCall::SetRegs { rip: at },
            ],
            Progress::<Cont, Result<Status, Failure>>::Finished(Ok(status)),
        ),
{
    let write = spec_write_byte(at, break_points[at].orig_byte);
    let writing = write.next(TraceReply::Word(word))->Pending_0;
    let empty = Seq::<TraceReply>::empty();
    lemma_replay_step(Cont::Rewinding { status, rip: at }, break_points, TraceReply::Done, empty);
    let rest2 = seq![TraceReply::Done] + empty;
    lemma_replay_step(
        Cont::Restoring { status, rip: at, write: writing },
        break_points,
        TraceReply::Done,
        rest2,
    );
    let rest1 = seq![TraceReply::Done] + rest2;
    let task = Cont::Restoring { status, rip: at, write };
    lemma_replay_step(task, break_points, TraceReply::Word(word), rest1);
    let replies = seq![TraceReply::Word(word)] + rest1;
    assert(replies =~= seq![TraceReply::Word(word), TraceReply::Done, TraceReply::Done]);
    assert(replay(task, break_points, replies).0 =~= seq![
        TraceCall::Read { addr: word_start(at) },
        TraceCall::Write {
            addr: word_start(at),
            word: replace_byte(word, word_offset(at), break_points[at].orig_byte),
        },
        TraceCall::SetRegs { rip: at },
    ]);
}

/// How a restart sets out when no call fails. Away from a breakpoint, the inferior is let go at
/// once: it is not stepped, and nothing is written to it. On a breakpoint, it is stepped once, the
/// trap is put back, and only then is it let go.
pub proof fn law_cont_sets_out(
    break_points: Map<usize, Breakpoint>,
    rip: usize,
    rbp: usize,
    signal: i32,
    stepped_rip: usize,
    stepped_rbp: usize,
    word: usize,
)
    ensures
        !break_points.contains_key(rip) ==> replay(
            Cont::ReadingStart,
            break_points,
            seq![TraceReply::Regs { rip, rbp }, TraceReply::Done],
        ) == (
            seq![TraceCall::GetRegs, TraceCall::Cont],
            Progress::<Cont, Result<Status, Failure>>::Pending(Cont::RunWaiting(spec_wait(None))),
        ),
        break_points.contains_key(rip) ==> replay(
            Cont::ReadingStart,
            break_points,
            seq![
                TraceReply::Regs { rip, rbp },
                TraceReply::Done,
                TraceReply::Waited(WaitStatus::Stopped(signal)),
                TraceReply::Regs { rip: stepped_rip, rbp: stepped_rbp },
                TraceReply::Word(word),
                TraceReply::Done,
                TraceReply::Done,
            ],
        ) == (
            seq![
                TraceCall::GetRegs,
                TraceCall::Step,
                TraceCall::Wait { options: None },
                TraceCall::GetRegs,
                TraceCall::Read { addr: word_start(rip) },
                TraceCall::Write {
                    addr: word_start(rip),
                    word: replace_byte(word, word_offset(rip), TRAP),
                },
                TraceCall::Cont,
            ],
            Progress::<Cont, Result<Status, Failure>>::Pending(Cont::RunWaiting(spec_wait(None))),
        ),
{
    let done = seq![TraceReply::Done];
    if break_points.contains_key(rip) {
        lemma_replay_rearming(break_points, rip, word);
        let tail = seq![TraceReply::Word(word), TraceReply::Done, TraceReply::Done];
        let wait = spec_wait(None);
        let stopped = wait.next(TraceReply::Waited(WaitStatus::Stopped(signal)))->Pending_0;
        let task3 = Cont::StepWaiting { at: rip, wait: stopped };
        let regs3 = TraceReply::Regs { rip: stepped_rip, rbp: stepped_rbp };
        lemma_replay_step(task3, break_points, regs3, tail);
        let rest3 = seq![regs3] + tail;
        let task2 = Cont::StepWaiting { at: rip, wait };
        let waited = TraceReply::Waited(WaitStatus::Stopped(signal));
        lemma_replay_step(task2, break_points, waited, rest3);
        let rest2 = seq![waited] + rest3;
        lemma_replay_step(Cont::Stepping { at: rip }, break_points, TraceReply::Done, rest2);
        let rest1 = seq![TraceReply::Done] + rest2;
        let regs = TraceReply::Regs { rip, rbp };
        lemma_replay_step(Cont::ReadingStart, break_points, regs, rest1);
        assert(seq![regs] + rest1 =~= seq![
            regs,
            TraceReply::Done,
            waited,
            regs3,
            TraceReply::Word(word),
            TraceReply::Done,
            TraceReply::Done,
        ]);
        assert(replay(Cont::ReadingStart, break_points, seq![regs] + rest1).0 =~= seq![
            TraceCall::GetRegs,
            TraceCall::Step,
            TraceCall::Wait { options: None },
            TraceCall::GetRegs,
            TraceCall::Read { addr: word_start(rip) },
            TraceCall::Write {
                addr: word_start(rip),
                word: replace_byte(word, word_offset(rip), TRAP),
            },
            TraceCall::Cont,
        ]);
    } else {
        let regs = TraceReply::Regs { rip, rbp };
        lemma_replay_step(Cont::Resuming, break_points, TraceReply::Done, seq![]);
        assert(seq![TraceReply::Done] + seq![] =~= done);
        lemma_replay_step(Cont::ReadingStart, break_points, regs, done);
        assert(seq![regs] + done =~= seq![regs, TraceReply::Done]);
        assert(replay(Cont::ReadingStart, break_points, seq![regs] + done).0 =~= seq![
            TraceCall::GetRegs,
            TraceCall::Cont,
        ]);
    }
}

/// How a restart ends when no call fails and the inferior, once let go, stops at `pos`: with the
/// status of that stop. Nothing is written unless a breakpoint was hit; then its byte is put back,
/// and the inferior is moved back to it.
pub proof fn law_cont_returns_the_last_status(
    break_points: Map<usize, Breakpoint>,
    signal: i32,
    pos: usize,
    rbp: usize,
    word: usize,
)
    ensures
        hit_at(pos, break_points) is None ==> replay(
            Cont::RunWaiting(spec_wait(None)),
            break_points,
            seq![
                TraceReply::Waited(WaitStatus::Stopped(signal)),
                TraceReply::Regs { rip: pos, rbp },
                TraceReply::Regs { rip: pos, rbp },
            ],
        ) == (
            seq![TraceCall::Wait { options: None }, TraceCall::GetRegs, TraceCall::GetRegs],
            Progress::<Cont, Result<Status, Failure>>::Finished(Ok(Status::Stopped(signal, pos))),
        ),
        hit_at(pos, break_points) matches Some(at) ==> replay(
            Cont::RunWaiting(spec_wait(None)),
            break_points,
            seq![
                TraceReply::Waited(WaitStatus::Stopped(signal)),
                TraceReply::Regs { rip: pos, rbp },
                TraceReply::Regs { rip: pos, rbp },
                TraceReply::Word(word),
                TraceReply::Done,
                TraceReply::Done,
            ],
        ) == (
            seq![
                TraceCall::Wait { options: None },
                TraceCall::GetRegs,
                TraceCall::GetRegs,
                TraceCall::Read { addr: word_start(at) },
                TraceCall::Write {
                    addr: word_start(at),
                    word: replace_byte(word, word_offset(at), break_points[at].orig_byte),
                },
                TraceCall::SetRegs { rip: at },
            ],
            Progress::<Cont, Result<Status, Failure>>::Finished(Ok(Status::Stopped(signal, pos))),
        ),
{
    let wait = spec_wait(None);
    let waited = TraceReply::Waited(WaitStatus::Stopped(signal));
    let stopped = wait.next(waited)->Pending_0;
    let regs = TraceReply::Regs { rip: pos, rbp };
    let tail = match hit_at(pos, break_points) {
        None => seq![],
        Some(at) => {
            lemma_replay_restoring(break_points, Status::Stopped(signal, pos), at, word);
            seq![TraceReply::Word(word), TraceReply::Done, TraceReply::Done]
        },
    };
    lemma_replay_step(
        Cont::ReadingStop(Status::Stopped(signal, pos)),
        break_points,
        regs,
        tail,
    );
    let rest2 = seq![regs] + tail;
    lemma_replay_step(Cont::RunWaiting(stopped), break_points, regs, rest2);
    let rest1 = seq![regs] + rest2;
    lemma_replay_step(Cont::RunWaiting(wait), break_points, waited, rest1);
    let replies = seq![waited] + rest1;
    let calls = replay(Cont::RunWaiting(wait), break_points, replies).0;
    match hit_at(pos, break_points) {
        None => {
            assert(replies =~= seq![waited, regs, regs]);
            assert(calls =~= seq![
                TraceCall::Wait { options: None },
                TraceCall::GetRegs,
                TraceCall::GetRegs,
            ]);
        },
        Some(at) => {
            assert(replies =~= seq![
                waited,
                regs,
                regs,
                TraceReply::Word(word),
                TraceReply::Done,
                TraceReply::Done,
            ]);
            assert(calls =~= seq![
                TraceCall::Wait { options: None },
                TraceCall::GetRegs,
                TraceCall::GetRegs,
                TraceCall::Read { addr: word_start(at) },
                TraceCall::Write {
                    addr: word_start(at),
                    word: replace_byte(word, word_offset(at), break_points[at].orig_byte),
                },
                TraceCall::SetRegs { rip: at },
            ]);
        },
    }
}

/// The memory of an inferior that was `image` when the first trap was written, once the traps at
/// `addrs[0..done]` stand, and the table `break_points` that has come of `initial`.
pub open spec fn partly_armed(
    image: spec_fn(int) -> u8,
    initial: Map<usize, Breakpoint>,
    addrs: Seq<usize>,
    done: int,
    memory: spec_fn(int) -> u8,
    break_points: Map<usize, Breakpoint>,
) -> bool {
    let written = addrs.take(done);
    &&& break_points.dom() == initial.dom()
    &&& forall|a: usize| #[trigger]
        break_points.contains_key(a) ==> break_points[a] == if written.contains(a) {
            with_orig_byte(initial[a], image(a as int))
        } else {
            initial[a]
        }
    &&& forall|a: usize| #[trigger]
        memory(a as int) == if written.contains(a) {
            TRAP
        } else {
            image(a as int)
        }
}

/// What holds while the traps are written into a new inferior.
pub open spec fn launch_invariant(
    launch: Launch,
    image: spec_fn(int) -> u8,
    initial: Map<usize, Breakpoint>,
    memory: spec_fn(int) -> u8,
    break_points: Map<usize, Breakpoint>,
) -> bool {
    &&& launch.wf(break_points)
    &&& launch.phase matches LaunchPhase::Arming { index, write } && {
        &&& partly_armed(image, initial, launch.addrs@, index as int, memory, break_points)
        &&& write_underway(write, memory)
    }
}

/// All traps stand, each breakpoint has the byte that its trap stands in for, and no other byte of
/// the inferior has changed.
pub open spec fn fully_armed(
    image: spec_fn(int) -> u8,
    initial: Map<usize, Breakpoint>,
    memory: spec_fn(int) -> u8,
    break_points: Map<usize, Breakpoint>,
) -> bool {
    &&& break_points.dom() == initial.dom()
    &&& forall|a: usize| #[trigger]
        break_points.contains_key(a) ==> break_points[a] == with_orig_byte(
            initial[a],
            image(a as int),
        )
    &&& forall|a: usize| #[trigger]
        memory(a as int) == if break_points.contains_key(a) {
            TRAP
        } else {
            image(a as int)
        }
}

/// One truthful answer while the traps are written.
pub proof fn law_launch_step(
    launch: Launch,
    image: spec_fn(int) -> u8,
    initial: Map<usize, Breakpoint>,
    pre: Tracee,
    before: Map<usize, Breakpoint>,
    reply: TraceReply,
    post: Tracee,
    after: Map<usize, Breakpoint>,
    progress: Progress<Launch, Result<Option<Inferior>, Fault>>,
)
    requires
        launch_invariant(launch, image, initial, pre.memory, before),
        answers(pre, launch.call(), reply, post, before.dom()),
        launch.next(before, reply, after, progress),
    ensures
        match progress {
            Progress::Pending(next) => launch_invariant(next, image, initial, post.memory, after),
            Progress::Finished(Ok(Some(_))) => fully_armed(image, initial, post.memory, after),
            Progress::Finished(_) => true,
        },
{
    let index = launch.phase->index as int;
    let write = launch.phase->write;
    let addrs = launch.addrs@;
    let addr = write.addr;
    law_write_byte_step(write, pre, reply, post, before.dom());
    assert(addrs.contains(addr)) by {
        assert(addrs[index] == addr);
    }
    match write.next(reply) {
        Progress::Finished(Ok(_)) => {
            let written = addrs.take(index);
            let longer = addrs.take(index + 1);
            assert(longer =~= written.push(addr));
            assert(!written.contains(addr)) by {
                if written.contains(addr) {
                    let j = choose|j: int| 0 <= j < written.len() && written[j] == addr;
                    assert(addrs[j] == addrs[index]);
                }
            }
            assert forall|a: usize| longer.contains(a) <==> (written.contains(a) || a == addr) by {
                if written.contains(a) {
                    let j = choose|j: int| 0 <= j < written.len() && written[j] == a;
                    assert(longer[j] == a);
                }
                assert(longer[index] == addr);
            }
            assert(after.dom() =~= before.dom());
            assert(partly_armed(image, initial, addrs, index + 1, post.memory, after)) by {
                assert forall|a: usize| #[trigger] (post.memory)(a as int) == if longer.contains(
                    a,
                ) {
                    TRAP
                } else {
                    image(a as int)
                } by {
                    assert((pre.memory)(a as int) == if written.contains(a) {
                        TRAP
                    } else {
                        image(a as int)
                    });
                }
            }
            assert(lists_breakpoints(addrs, after)) by {
                assert forall|a: usize| #[trigger]
                    addrs.contains(a) <==> after.contains_key(a) by {
                    assert(addrs.contains(a) <==> before.contains_key(a));
                }
            }
            if index + 1 == addrs.len() {
                assert(longer =~= addrs);
                assert forall|a: usize| #[trigger] (post.memory)(a as int)
                    == if after.contains_key(a) {
                    TRAP
                } else {
                    image(a as int)
                } by {
                    assert(addrs.contains(a) <==> after.contains_key(a));
                }
                assert forall|a: usize| #[trigger] after.contains_key(a) implies after[a]
                    == with_orig_byte(initial[a], image(a as int)) by {
                    assert(addrs.contains(a));
                }
            }
        },
        _ => {},
    }
}

/// The writing of the traps, answer by answer: the task, the inferior and the table before each
/// answer, and the answers.
pub open spec fn launch_run(
    launches: Seq<Launch>,
    tracees: Seq<Tracee>,
    tables: Seq<Map<usize, Breakpoint>>,
    replies: Seq<TraceReply>,
) -> bool {
    &&& launches.len() == tracees.len() == tables.len() == replies.len() + 1
    &&& lists_breakpoints(launches[0].addrs@, tables[0])
    &&& Launch::arming(launches[0].child, launches[0].addrs, 0) == Progress::<
        Launch,
        Result<Option<Inferior>, Fault>,
    >::Pending(launches[0])
    &&& forall|i: int|
        0 <= i < replies.len() ==> {
            &&& answers(
                tracees[i],
                (#[trigger] launches[i]).call(),
                replies[i],
                tracees[i + 1],
                tables[i].dom(),
            )
            &&& launches[i].next(
                tables[i],
                replies[i],
                tables[i + 1],
                Progress::Pending(launches[i + 1]),
            )
        }
}

proof fn lemma_launch_run(
    launches: Seq<Launch>,
    tracees: Seq<Tracee>,
    tables: Seq<Map<usize, Breakpoint>>,
    replies: Seq<TraceReply>,
)
    requires
        launch_run(launches, tracees, tables, replies),
    ensures
        launch_invariant(
            launches.last(),
            tracees[0].memory,
            tables[0],
            tracees.last().memory,
            tables.last(),
        ),
    decreases replies.len(),
{
    let image = tracees[0].memory;
    if replies.len() == 0 {
        let launch = launches[0];
        assert(launch.addrs@.take(0) =~= Seq::empty());
        assert(partly_armed(image, tables[0], launch.addrs@, 0, image, tables[0]));
    } else {
        let n = replies.len() - 1;
        let ls = launches.drop_last();
        let ps = tracees.drop_last();
        let ts = tables.drop_last();
        let rs = replies.drop_last();
        assert(launch_run(ls, ps, ts, rs)) by {
            assert forall|i: int| 0 <= i < rs.len() implies answers(
                ps[i],
                (#[trigger] ls[i]).call(),
                rs[i],
                ps[i + 1],
                ts[i].dom(),
            ) && ls[i].next(ts[i], rs[i], ts[i + 1], Progress::Pending(ls[i + 1])) by {
                assert(launches[i] == ls[i]);
            }
        }
        lemma_launch_run(ls, ps, ts, rs);
        assert(launches[n] == ls.last());
        law_launch_step(
            launches[n],
            image,
            tables[0],
            tracees[n],
            tables[n],
            replies[n],
            tracees[n + 1],
            tables[n + 1],
            Progress::Pending(launches[n + 1]),
        );
    }
}

/// Once an inferior has been started, a trap stands at every breakpoint, every breakpoint records
/// the byte that stood there, and nothing else of the inferior has changed, whatever the order in
/// which the breakpoints were written.
pub proof fn law_launch_arms_every_breakpoint(
    launches: Seq<Launch>,
    tracees: Seq<Tracee>,
    tables: Seq<Map<usize, Breakpoint>>,
    replies: Seq<TraceReply>,
    reply: TraceReply,
    after: Tracee,
    table: Map<usize, Breakpoint>,
    inferior: Inferior,
)
    requires
        launch_run(launches, tracees, tables, replies),
        answers(tracees.last(), launches.last().call(), reply, after, tables.last().dom()),
        launches.last().next(
            tables.last(),
            reply,
            table,
            Progress::Finished(Ok(Some(inferior))),
        ),
    ensures
        fully_armed(tracees[0].memory, tables[0], after.memory, table),
        armed(after.memory, table, None),
{
    lemma_launch_run(launches, tracees, tables, replies);
    law_launch_step(
        launches.last(),
        tracees[0].memory,
        tables[0],
        tracees.last(),
        tables.last(),
        reply,
        after,
        table,
        Progress::Finished(Ok(Some(inferior))),
    );
    assert forall|a: usize| #[trigger] table.contains_key(a) implies (after.memory)(a as int)
        == TRAP by {
        assert((after.memory)(a as int) == if table.contains_key(a) {
            TRAP
        } else {
            (tracees[0].memory)(a as int)
        });
    }
}

/// The reply says that the call on a new process was carried out and that the process has stopped.
pub open spec fn goes_well(call: TraceCall, reply: TraceReply) -> bool {
    match call {
        TraceCall::Wait { options: _ } => reply matches TraceReply::Waited(WaitStatus::Stopped(_)),
        TraceCall::GetRegs => reply is Regs,
        TraceCall::Read { addr: _ } => reply is Word,
        _ => reply is Done,
    }
}

/// Where a launch stands after `n` calls that went well.
pub open spec fn launch_after(
    launch: Launch,
    child: u32,
    initial: Set<usize>,
    table: Map<usize, Breakpoint>,
    n: int,
) -> bool {
    &&& launch.child == child
    &&& table.dom() == initial
    &&& match launch.phase {
        LaunchPhase::Waiting(wait) => {
            n == if wait.stopped_by is None {
                0int
            } else {
                1
            }
        },
        LaunchPhase::Arming { index, write } => {
            &&& launch.wf(table)
            &&& n == if write.phase is Reading {
                2 + 2 * index
            } else {
                3 + 2 * index
            }
        },
    }
}

/// A list of the breakpoints is as long as their number.
proof fn lemma_number_of_breakpoints(addrs: Seq<usize>, break_points: Map<usize, Breakpoint>)
    requires
        lists_breakpoints(addrs, break_points),
    ensures
        addrs.len() == break_points.dom().len(),
{
    addrs.unique_seq_to_set();
    assert(addrs.to_set() =~= break_points.dom()) by {
        assert forall|a: usize| addrs.to_set().contains(a) <==> break_points.dom().contains(a) by {
            assert(addrs.contains(a) <==> break_points.contains_key(a));
        }
    }
}

proof fn lemma_launch_after(
    launch: Launch,
    child: u32,
    initial: Set<usize>,
    before: Map<usize, Breakpoint>,
    reply: TraceReply,
    after: Map<usize, Breakpoint>,
    progress: Progress<Launch, Result<Option<Inferior>, Fault>>,
    n: int,
)
    requires
        launch_after(launch, child, initial, before, n),
        goes_well(launch.call(), reply),
        launch.next(before, reply, after, progress),
    ensures
        match progress {
            Progress::Pending(next) => {
                &&& launch_after(next, child, initial, after, n + 1)
                &&& n + 1 < 2 + 2 * initial.len()
            },
            Progress::Finished(result) => {
                &&& result == Ok::<Option<Inferior>, Fault>(Some(Inferior { child }))
                &&& n + 1 == 2 + 2 * initial.len()
            },
        },
{
    match launch.phase {
        LaunchPhase::Waiting(wait) => {
            if wait.stopped_by is Some {
                let addrs = choose|addrs: Vec<usize>|
                    lists_breakpoints(addrs@, before) && progress == #[trigger] Launch::arming(
                        launch.child,
                        addrs,
                        0,
                    );
                lemma_number_of_breakpoints(addrs@, before);
            }
        },
        LaunchPhase::Arming { index, write } => {
            let addrs = launch.addrs@;
            lemma_number_of_breakpoints(addrs, before);
            assert(addrs.contains(addrs[index as int]));
            assert(after.dom() =~= before.dom());
            assert(lists_breakpoints(addrs, after)) by {
                assert forall|a: usize| #[trigger]
                    addrs.contains(a) <==> after.contains_key(a) by {
                    assert(addrs.contains(a) <==> before.contains_key(a));
                }
            }
        },
    }
}

/// A launch in which every call goes well, from its beginning: the task and the table before each
/// answer, and the answers.
pub open spec fn good_launch_run(
    launches: Seq<Launch>,
    tables: Seq<Map<usize, Breakpoint>>,
    replies: Seq<TraceReply>,
) -> bool {
    &&& launches.len() == tables.len() == replies.len() + 1
    &&& launches[0].phase == LaunchPhase::Waiting(spec_wait(None))
    &&& forall|i: int|
        0 <= i < replies.len() ==> {
            &&& goes_well((#[trigger] launches[i]).call(), replies[i])
            &&& launches[i].next(
                tables[i],
                replies[i],
                tables[i + 1],
                Progress::Pending(launches[i + 1]),
            )
        }
}

proof fn lemma_good_launch_run(
    launches: Seq<Launch>,
    tables: Seq<Map<usize, Breakpoint>>,
    replies: Seq<TraceReply>,
    n: int,
)
    requires
        good_launch_run(launches, tables, replies),
        0 <= n < launches.len(),
    ensures
        launch_after(launches[n], launches[0].child, tables[0].dom(), tables[n], n),
    decreases n,
{
    if n > 0 {
        lemma_good_launch_run(launches, tables, replies, n - 1);
        lemma_launch_after(
            launches[n - 1],
            launches[0].child,
            tables[0].dom(),
            tables[n - 1],
            replies[n - 1],
            tables[n],
            Progress::Pending(launches[n]),
            n - 1,
        );
    }
}

/// A launch whose calls all go well ends with an inferior: the process that was started. It does so
/// with the answer to its last call: a wait, a look at the registers, and two calls for each
/// breakpoint.
pub proof fn law_launch_that_goes_well_gives_an_inferior(
    launches: Seq<Launch>,
    tables: Seq<Map<usize, Breakpoint>>,
    replies: Seq<TraceReply>,
    reply: TraceReply,
    table: Map<usize, Breakpoint>,
    progress: Progress<Launch, Result<Option<Inferior>, Fault>>,
)
    requires
        good_launch_run(launches, tables, replies),
        goes_well(launches.last().call(), reply),
        launches.last().next(tables.last(), reply, table, progress),
    ensures
        progress is Finished <==> replies.len() + 1 == 2 + 2 * tables[0].dom().len(),
        replies.len() + 1 <= 2 + 2 * tables[0].dom().len(),
        progress is Finished ==> progress == Progress::<
            Launch,
            Result<Option<Inferior>, Fault>,
        >::Finished(Ok(Some(Inferior { child: launches[0].child }))),
{
    let n = replies.len() as int;
    lemma_good_launch_run(launches, tables, replies, n);
    lemma_launch_after(
        launches[n],
        launches[0].child,
        tables[0].dom(),
        tables[n],
        reply,
        table,
        progress,
        n,
    );
}

} // verus!
