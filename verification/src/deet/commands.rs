//! Which commands are obeyed, what they do to the table of breakpoints, and how the debugger is left.

use crate::deet::address::{location_of, Location};
use crate::deet::debugger::{Debugger, DebuggerCommand, Event, Input, Phase, Request, Turn};
use crate::deet::inferior::LaunchPhase;
use crate::deet::report::Report;
use crate::text::words::{is_blank, texts, words};
use vstd::prelude::*;

verus! {

/// A run of the debugger from a prompt on, turn by turn, whatever the events: the debugger before
/// each event, the events, and the turns that they lead to.
pub open spec fn debugger_run(
    debuggers: Seq<Debugger>,
    events: Seq<Event>,
    turns: Seq<Turn>,
) -> bool {
    &&& debuggers.len() == events.len() + 1
    &&& turns.len() == events.len()
    &&& debuggers[0].wf()
    &&& debuggers[0].phase is Prompting
    &&& forall|i: int|
        0 <= i < events.len() ==> {
            &&& (#[trigger] debuggers[i]).transition(events[i], debuggers[i + 1], turns[i])
            &&& debuggers[i + 1].wf()
        }
}

/// The address that a command to set a breakpoint comes to with this event, if it does: the one
/// that the command names, or the one that was looked up for it.
pub open spec fn break_address(debugger: Debugger, event: Event) -> Option<usize> {
    match (debugger.phase, event) {
        (Phase::Interpreting, Event::Interpreted(Some(DebuggerCommand::Break(arg)))) => {
            match location_of(arg@) {
                Location::Address(addr) => addr,
                _ => None,
            }
        },
        (Phase::Resolving, Event::Address(addr)) => addr,
        _ => None,
    }
}

/// The addresses that the commands to set breakpoints came to with the first `n` events.
pub open spec fn break_addresses(debuggers: Seq<Debugger>, events: Seq<Event>, n: int) -> Set<usize> {
    Set::new(
        |a: usize|
            exists|i: int|
                0 <= i < n && #[trigger] break_address(debuggers[i], events[i]) == Some(a),
    )
}

/// The breakpoints in the table, and the one that is being written into the inferior.
pub open spec fn known_breakpoints(debugger: Debugger) -> Set<usize> {
    match debugger.phase {
        Phase::Arming(write) => debugger.break_points@.dom().insert(write.addr),
        _ => debugger.break_points@.dom(),
    }
}

/// One event adds the address that it brings a command to, and no other; and a debugger that is
/// over stays so.
pub open spec fn adds_break_address(pre: Debugger, event: Event, post: Debugger) -> bool {
    &&& pre.phase is Over ==> post.phase is Over
    &&& post.phase is Over || known_breakpoints(post) == match break_address(pre, event) {
        Some(addr) => known_breakpoints(pre).insert(addr),
        None => known_breakpoints(pre),
    }
}

proof fn lemma_adds_break_address(pre: Debugger, event: Event, post: Debugger, turn: Turn)
    requires
        pre.wf(),
        pre.transition(event, post, turn),
    ensures
        adds_break_address(pre, event, post),
{
    if let Phase::Launching(launch) = pre.phase {
        if let LaunchPhase::Arming { index, write } = launch.phase {
            assert(launch.addrs@.contains(launch.addrs@[index as int]));
            assert(pre.break_points@.contains_key(write.addr));
        }
        assert(post.phase is Over || post.break_points@.dom() =~= pre.break_points@.dom());
    }
    assert(post.phase is Over || known_breakpoints(post) =~= match break_address(pre, event) {
        Some(addr) => known_breakpoints(pre).insert(addr),
        None => known_breakpoints(pre),
    });
}

proof fn lemma_known_breakpoints(debuggers: Seq<Debugger>, events: Seq<Event>, n: int)
    requires
        debuggers.len() == events.len() + 1,
        0 <= n < debuggers.len(),
        debuggers[0].phase is Prompting,
        !(debuggers[n].phase is Over),
        forall|i: int|
            0 <= i < events.len() ==> adds_break_address(
                #[trigger] debuggers[i],
                events[i],
                debuggers[i + 1],
            ),
    ensures
        known_breakpoints(debuggers[n]) == debuggers[0].break_points@.dom().union(
            break_addresses(debuggers, events, n),
        ),
    decreases n,
{
    let initial = debuggers[0].break_points@.dom();
    if n == 0 {
        assert(known_breakpoints(debuggers[0]) =~= initial.union(
            break_addresses(debuggers, events, 0),
        ));
    } else {
        let pre = debuggers[n - 1];
        let event = events[n - 1];
        assert(adds_break_address(pre, event, debuggers[n]));
        lemma_known_breakpoints(debuggers, events, n - 1);
        let before = break_addresses(debuggers, events, n - 1);
        let after = break_addresses(debuggers, events, n);
        assert forall|a: usize| #[trigger] after.contains(a) <==> (before.contains(a)
            || break_address(pre, event) == Some(a)) by {
            if after.contains(a) {
                let i = choose|i: int|
                    0 <= i < n && #[trigger] break_address(debuggers[i], events[i]) == Some(a);
                assert(break_address(debuggers[i], events[i]) == Some(a));
            }
            if before.contains(a) {
                let i = choose|i: int|
                    0 <= i < n - 1 && #[trigger] break_address(debuggers[i], events[i]) == Some(a);
                assert(break_address(debuggers[i], events[i]) == Some(a));
            }
        }
        assert(known_breakpoints(debuggers[n]) =~= initial.union(after));
    }
}

/// Between commands, the breakpoints in the table are exactly those that there were at first and
/// those at the addresses that commands to set breakpoints have come to. A new debugger has none at
/// first.
pub proof fn law_table_holds_what_was_set(
    debuggers: Seq<Debugger>,
    events: Seq<Event>,
    turns: Seq<Turn>,
    n: int,
)
    requires
        debugger_run(debuggers, events, turns),
        0 <= n < debuggers.len(),
        debuggers[n].phase is Prompting,
    ensures
        debuggers[n].break_points@.dom() == debuggers[0].break_points@.dom().union(
            break_addresses(debuggers, events, n),
        ),
{
    assert forall|i: int| 0 <= i < events.len() implies adds_break_address(
        #[trigger] debuggers[i],
        events[i],
        debuggers[i + 1],
    ) by {
        if i > 0 {
            assert(debuggers[i - 1].transition(events[i - 1], debuggers[i], turns[i - 1]));
        }
        lemma_adds_break_address(debuggers[i], events[i], debuggers[i + 1], turns[i]);
    }
    lemma_known_breakpoints(debuggers, events, n);
}

/// The user wants to leave: the command to quit was read, or the end of the input.
pub open spec fn reads_quit(debugger: Debugger, event: Event) -> bool {
    match (debugger.phase, event) {
        (Phase::Prompting, Event::Input(Input::Eof)) => true,
        (Phase::Interpreting, Event::Interpreted(Some(DebuggerCommand::Quit))) => true,
        _ => false,
    }
}

/// When the user wants to leave and there is no inferior, the debugger is left at once, and nothing
/// is printed. If there is one, it is to be killed, and it is given up; once it has been killed
/// that is printed, and the debugger is left. The table of breakpoints does not change.
pub proof fn law_quit_leaves_the_debugger(
    debuggers: Seq<Debugger>,
    events: Seq<Event>,
    turns: Seq<Turn>,
    n: int,
)
    requires
        debugger_run(debuggers, events, turns),
        0 <= n < events.len(),
        reads_quit(debuggers[n], events[n]),
    ensures
        turns[n].reports@ == Seq::<Report>::empty(),
        debuggers[n + 1].inferior is None,
        debuggers[n + 1].break_points@ == debuggers[n].break_points@,
        match debuggers[n].inferior {
            None => turns[n].request == Request::Quit,
            Some(inferior) => {
                &&& turns[n].request == Request::Kill
                &&& n + 1 < events.len() && events[n + 1] == Event::Killed(true) ==> {
                    &&& turns[n + 1].reports@ == seq![
                        Report::KillingInferior(inferior.child as i32),
                    ]
                    &&& turns[n + 1].request == Request::Quit
                    &&& debuggers[n + 2].break_points@ == debuggers[n].break_points@
                }
            },
        },
{
    if n + 1 < events.len() {
        assert(debuggers[n + 1].transition(events[n + 1], debuggers[n + 2], turns[n + 1]));
    }
}

/// The debugger is left only when the user wants to: either just then, and there is no inferior; or
/// just after the inferior has been killed for that, once.
pub proof fn law_debugger_is_left_only_to_quit(
    debuggers: Seq<Debugger>,
    events: Seq<Event>,
    turns: Seq<Turn>,
    n: int,
)
    requires
        debugger_run(debuggers, events, turns),
        0 <= n < events.len(),
        turns[n].request is Quit,
    ensures
        ({
            ||| reads_quit(debuggers[n], events[n]) && debuggers[n].inferior is None
            ||| {
                &&& n > 0
                &&& reads_quit(debuggers[n - 1], events[n - 1])
                &&& debuggers[n - 1].inferior is Some
                &&& turns[n - 1].request is Kill
                &&& events[n] == Event::Killed(true)
            }
        }),
{
    let pre = debuggers[n];
    if !reads_quit(pre, events[n]) {
        assert(pre.phase matches Phase::Killing { inferior: _, rerun: None });
        assert(n > 0);
        assert(debuggers[n - 1].transition(events[n - 1], pre, turns[n - 1]));
    }
}

/// The line that an event brings to the prompt, unless it is blank.
pub open spec fn line_read(debugger: Debugger, event: Event) -> Option<Seq<char>> {
    match (debugger.phase, event) {
        (Phase::Prompting, Event::Input(Input::Line(line))) => if is_blank(line@) {
            None
        } else {
            Some(line@)
        },
        _ => None,
    }
}

/// The line that a turn asks to remember.
pub open spec fn line_remembered(turn: Turn) -> Option<Seq<char>> {
    match turn.request {
        Request::Remember(line) => Some(line@),
        _ => None,
    }
}

/// A row of lines with one more, if there is one.
pub open spec fn with_line(lines: Seq<Seq<char>>, line: Option<Seq<char>>) -> Seq<Seq<char>> {
    match line {
        Some(line) => lines.push(line),
        None => lines,
    }
}

/// The lines, but for blank ones, that the first `n` events brought to the prompt.
pub open spec fn lines_read(debuggers: Seq<Debugger>, events: Seq<Event>, n: nat) -> Seq<Seq<char>>
    decreases n,
{
    if n == 0 {
        seq![]
    } else {
        with_line(
            lines_read(debuggers, events, (n - 1) as nat),
            line_read(debuggers[n - 1], events[n - 1]),
        )
    }
}

/// The lines that the first `n` turns asked to remember.
pub open spec fn lines_remembered(turns: Seq<Turn>, n: nat) -> Seq<Seq<char>>
    decreases n,
{
    if n == 0 {
        seq![]
    } else {
        with_line(lines_remembered(turns, (n - 1) as nat), line_remembered(turns[n - 1]))
    }
}

/// How often a row of reports says that a command was not recognized.
pub open spec fn times_unrecognized(reports: Seq<Report>) -> nat
    decreases reports.len(),
{
    if reports.len() == 0 {
        0
    } else {
        times_unrecognized(reports.drop_last()) + if reports.last() is Unrecognized {
            1nat
        } else {
            0
        }
    }
}

/// How often the first `n` turns said that a command was not recognized.
pub open spec fn unrecognized(turns: Seq<Turn>, n: nat) -> nat
    decreases n,
{
    if n == 0 {
        0
    } else {
        unrecognized(turns, (n - 1) as nat) + times_unrecognized(turns[n - 1].reports@)
    }
}

proof fn lemma_line_remembered(pre: Debugger, event: Event, post: Debugger, turn: Turn)
    requires
        pre.wf(),
        pre.transition(event, post, turn),
    ensures
        line_remembered(turn) == line_read(pre, event),
{
}

/// Every line that is read at the prompt is remembered, but for blank ones, in the order in which
/// they are read, and nothing else is.
pub proof fn law_every_line_is_remembered(
    debuggers: Seq<Debugger>,
    events: Seq<Event>,
    turns: Seq<Turn>,
    n: nat,
)
    requires
        debugger_run(debuggers, events, turns),
        n <= events.len(),
    ensures
        lines_remembered(turns, n) == lines_read(debuggers, events, n),
    decreases n,
{
    if n > 0 {
        law_every_line_is_remembered(debuggers, events, turns, (n - 1) as nat);
        let i = n - 1;
        if i > 0 {
            assert(debuggers[i - 1].transition(events[i - 1], debuggers[i], turns[i - 1]));
        }
        lemma_line_remembered(debuggers[i], events[i], debuggers[i + 1], turns[i]);
    }
}

/// Lines are interpreted as `meaning` says: the command that a row of words stands for, if any.
pub open spec fn interpreted_by(
    debuggers: Seq<Debugger>,
    events: Seq<Event>,
    turns: Seq<Turn>,
    meaning: spec_fn(Seq<Seq<char>>) -> Option<DebuggerCommand>,
) -> bool {
    forall|i: int|
        0 < i < events.len() && (#[trigger] debuggers[i]).phase is Interpreting ==> {
            events[i] matches Event::Interpreted(command) ==> {
                turns[i - 1].request matches Request::Interpret(tokens) ==> command == meaning(
                    texts(tokens@),
                )
            }
        }
}

/// The event brings a command that is obeyed.
pub open spec fn brings_a_command(debugger: Debugger, event: Event) -> bool {
    match (debugger.phase, event) {
        (Phase::Prompting, Event::Input(Input::Eof)) => true,
        (Phase::Interpreting, Event::Interpreted(Some(_))) => true,
        _ => false,
    }
}

/// None of the lines stands for a command.
pub open spec fn none_recognized(
    lines: Seq<Seq<char>>,
    meaning: spec_fn(Seq<Seq<char>>) -> Option<DebuggerCommand>,
) -> bool {
    forall|j: int| 0 <= j < lines.len() ==> meaning(words(#[trigger] lines[j])) is None
}

/// What holds while lines are read and none of them has stood for a command yet: each line but the
/// one that is being dealt with has been reported.
pub open spec fn reading_invariant(
    phase: Phase,
    request: Option<Request>,
    lines: Seq<Seq<char>>,
    reported: nat,
    meaning: spec_fn(Seq<Seq<char>>) -> Option<DebuggerCommand>,
) -> bool {
    match phase {
        Phase::Prompting => none_recognized(lines, meaning) && reported == lines.len(),
        Phase::Remembering(tokens) => {
            &&& lines.len() > 0
            &&& texts(tokens@) == words(lines.last())
            &&& none_recognized(lines.drop_last(), meaning)
            &&& reported == lines.len() - 1
        },
        Phase::Interpreting => {
            &&& lines.len() > 0
            &&& request matches Some(Request::Interpret(tokens)) && texts(tokens@) == words(
                lines.last(),
            )
            &&& none_recognized(lines.drop_last(), meaning)
            &&& reported == lines.len() - 1
        },
        Phase::Over => true,
        _ => false,
    }
}

proof fn lemma_reading_step(
    pre: Debugger,
    request: Option<Request>,
    event: Event,
    post: Debugger,
    turn: Turn,
    lines: Seq<Seq<char>>,
    reported: nat,
    meaning: spec_fn(Seq<Seq<char>>) -> Option<DebuggerCommand>,
)
    requires
        pre.wf(),
        pre.transition(event, post, turn),
        reading_invariant(pre.phase, request, lines, reported, meaning),
        !brings_a_command(pre, event),
        pre.phase is Interpreting ==> (event matches Event::Interpreted(command) ==> (
        request matches Some(Request::Interpret(tokens)) ==> command == meaning(texts(tokens@)))),
    ensures
        reading_invariant(
            post.phase,
            Some(turn.request),
            with_line(lines, line_read(pre, event)),
            reported + times_unrecognized(turn.reports@),
            meaning,
        ),
{
    reveal_with_fuel(times_unrecognized, 2);
    match (pre.phase, event) {
        (Phase::Prompting, Event::Input(Input::Line(line))) => {
            assert(turn.reports@ =~= seq![]);
            assert(lines.push(line@).drop_last() =~= lines);
        },
        (Phase::Interpreting, Event::Interpreted(None)) => {
            assert(turn.reports@ =~= seq![Report::Unrecognized]);
            assert forall|j: int| 0 <= j < lines.len() implies meaning(
                words(#[trigger] lines[j]),
            ) is None by {
                if j < lines.len() - 1 {
                    assert(lines.drop_last()[j] == lines[j]);
                }
            }
        },
        _ => {},
    }
}

/// The request that event `i` answers.
pub open spec fn request_before(turns: Seq<Turn>, i: int) -> Option<Request> {
    if i == 0 {
        None
    } else {
        Some(turns[i - 1].request)
    }
}

/// What holds while lines are read is kept by event `i`.
spec fn reads_on(
    debuggers: Seq<Debugger>,
    events: Seq<Event>,
    turns: Seq<Turn>,
    meaning: spec_fn(Seq<Seq<char>>) -> Option<DebuggerCommand>,
    i: int,
) -> bool {
    forall|lines: Seq<Seq<char>>, reported: nat| #[trigger]
        reading_invariant(
            debuggers[i].phase,
            request_before(turns, i),
            lines,
            reported,
            meaning,
        ) ==> reading_invariant(
            debuggers[i + 1].phase,
            request_before(turns, i + 1),
            with_line(lines, line_read(debuggers[i], events[i])),
            reported + times_unrecognized(turns[i].reports@),
            meaning,
        )
}

proof fn lemma_reads_on(
    debuggers: Seq<Debugger>,
    events: Seq<Event>,
    turns: Seq<Turn>,
    meaning: spec_fn(Seq<Seq<char>>) -> Option<DebuggerCommand>,
    i: int,
)
    requires
        debugger_run(debuggers, events, turns),
        interpreted_by(debuggers, events, turns, meaning),
        0 <= i < events.len(),
        !brings_a_command(debuggers[i], events[i]),
    ensures
        reads_on(debuggers, events, turns, meaning, i),
{
    let pre = debuggers[i];
    assert(pre.wf()) by {
        if i > 0 {
            assert(debuggers[i - 1].transition(events[i - 1], debuggers[i], turns[i - 1]));
        }
    }
    assert forall|lines: Seq<Seq<char>>, reported: nat| #[trigger]
        reading_invariant(
            pre.phase,
            request_before(turns, i),
            lines,
            reported,
            meaning,
        ) implies reading_invariant(
        debuggers[i + 1].phase,
        request_before(turns, i + 1),
        with_line(lines, line_read(pre, events[i])),
        reported + times_unrecognized(turns[i].reports@),
        meaning,
    ) by {
        lemma_reading_step(
            pre,
            request_before(turns, i),
            events[i],
            debuggers[i + 1],
            turns[i],
            lines,
            reported,
            meaning,
        );
    }
}

proof fn lemma_reading(
    debuggers: Seq<Debugger>,
    events: Seq<Event>,
    turns: Seq<Turn>,
    meaning: spec_fn(Seq<Seq<char>>) -> Option<DebuggerCommand>,
    n: nat,
)
    requires
        debuggers[0].phase is Prompting,
        forall|i: int| 0 <= i < n ==> #[trigger] reads_on(debuggers, events, turns, meaning, i),
    ensures
        reading_invariant(
            debuggers[n as int].phase,
            request_before(turns, n as int),
            lines_read(debuggers, events, n),
            unrecognized(turns, n),
            meaning,
        ),
    decreases n,
{
    if n > 0 {
        let i = n - 1;
        lemma_reading(debuggers, events, turns, meaning, i as nat);
        assert(reads_on(debuggers, events, turns, meaning, i));
    }
}

/// The user is prompted until a line is recognized: the first command that is obeyed after a prompt
/// is that of the first line that stands for one. Every line before it, but for blank ones, has been
/// reported once as not recognized, and all of them have been remembered in order.
pub proof fn law_first_recognized_line_is_obeyed(
    debuggers: Seq<Debugger>,
    events: Seq<Event>,
    turns: Seq<Turn>,
    meaning: spec_fn(Seq<Seq<char>>) -> Option<DebuggerCommand>,
    n: nat,
    command: DebuggerCommand,
)
    requires
        debugger_run(debuggers, events, turns),
        interpreted_by(debuggers, events, turns, meaning),
        n < events.len(),
        forall|i: int| 0 <= i < n ==> !brings_a_command(#[trigger] debuggers[i], events[i]),
        debuggers[n as int].phase is Interpreting,
        events[n as int] == Event::Interpreted(Some(command)),
    ensures
        ({
            let lines = lines_read(debuggers, events, n);
            &&& lines.len() > 0
            &&& meaning(words(lines.last())) == Some(command)
            &&& none_recognized(lines.drop_last(), meaning)
            &&& lines_remembered(turns, n) == lines
            &&& unrecognized(turns, n) == lines.len() - 1
            &&& debuggers[n as int].leads_to(
                debuggers[n as int].obeys(command),
                debuggers[n as int + 1],
                turns[n as int],
            )
        }),
{
    assert forall|i: int| 0 <= i < n implies #[trigger] reads_on(
        debuggers,
        events,
        turns,
        meaning,
        i,
    ) by {
        lemma_reads_on(debuggers, events, turns, meaning, i);
    }
    lemma_reading(debuggers, events, turns, meaning, n);
    law_every_line_is_remembered(debuggers, events, turns, n);
}

/// As long as no line has been recognized, the user is prompted again: every line that was read, but
/// for blank ones, has been reported once as not recognized, and all of them have been remembered
/// in order.
pub proof fn law_unrecognized_lines_are_reported(
    debuggers: Seq<Debugger>,
    events: Seq<Event>,
    turns: Seq<Turn>,
    meaning: spec_fn(Seq<Seq<char>>) -> Option<DebuggerCommand>,
    n: nat,
)
    requires
        debugger_run(debuggers, events, turns),
        interpreted_by(debuggers, events, turns, meaning),
        n <= events.len(),
        forall|i: int| 0 <= i < n ==> !brings_a_command(#[trigger] debuggers[i], events[i]),
        debuggers[n as int].phase is Prompting,
    ensures
        ({
            let lines = lines_read(debuggers, events, n);
            &&& none_recognized(lines, meaning)
            &&& lines_remembered(turns, n) == lines
            &&& unrecognized(turns, n) == lines.len()
        }),
{
    assert forall|i: int| 0 <= i < n implies #[trigger] reads_on(
        debuggers,
        events,
        turns,
        meaning,
        i,
    ) by {
        lemma_reads_on(debuggers, events, turns, meaning, i);
    }
    lemma_reading(debuggers, events, turns, meaning, n);
    law_every_line_is_remembered(debuggers, events, turns, n);
}

} // verus!
