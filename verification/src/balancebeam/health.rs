//! Active health checks: which upstreams are marked as able to serve.

use crate::text::words::texts;
use vstd::prelude::*;

verus! {

/// The mark of an upstream that serves.
pub const ACTIVE: u8 = 1;

/// The mark of an upstream that does not serve.
pub const INACTIVE: u8 = 0;

/// The request by which an upstream is probed.
#[derive(PartialEq, Eq, Debug)]
pub struct Probe {
    pub method: String,
    pub uri: String,
    /// The value of the header `Host`.
    pub host: String,
    pub body: Vec<u8>,
}

/// Makes the request for one upstream: `GET` on the path for health checks. It is the one that is
/// tried before the upstream is approached, and the one to send.
pub fn probe(path: &str, upstream: &str) -> (probe: Probe)
    ensures
        probe.method@ == "GET"@,
        probe.uri@ == path@,
        probe.host@ == upstream@,
        probe.body@ == Seq::<u8>::empty(),
{
    Probe {
        method: "GET".to_owned(),
        uri: path.to_owned(),
        host: upstream.to_owned(),
        body: Vec::new(),
    }
}

impl Probe {
    /// The header that tells the upstream by which name it is addressed.
    pub fn host_header(&self) -> (header: (String, String))
        ensures
            header.0@ == "Host"@,
            header.1@ == self.host@,
    {
        ("Host".to_owned(), self.host.clone())
    }
}

/// The crate `http` accepts a request with this method, this URI, one header of this name and this
/// value, and this body.
pub uninterp spec fn probe_accepted(
    method: Seq<char>,
    uri: Seq<char>,
    header_name: Seq<char>,
    header_value: Seq<char>,
    body: Seq<u8>,
) -> bool;

/// `http::request::Builder::body`, on a builder with the method and the URI of a probe and with one
/// header, and with the body of the probe: whether it returns a request depends on these alone.
#[verifier::external_body]
fn probe_builds(probe: &Probe, header: &(String, String)) -> (accepted: bool)
    ensures
        accepted == probe_accepted(
            probe.method@,
            probe.uri@,
            header.0@,
            header.1@,
            probe.body@,
        ),
{
    http::Request::builder()
        .method(probe.method.as_str())
        .uri(probe.uri.as_str())
        .header(header.0.as_str(), header.1.as_str())
        .body(probe.body.as_slice())
        .is_ok()
}

/// What the health checks want done.
#[derive(Clone, Copy, PartialEq, Eq, Debug)]
pub enum HealthRequest {
    /// Wait for the next tick of a clock with this period.
    Tick { seconds: u64 },
    /// Connect to an upstream.
    Connect { ix: usize },
    /// Send the probe for an upstream.
    Send { ix: usize },
    /// Read the status of the response.
    ReadStatus,
    /// Mark an upstream.
    Mark { ix: usize, flag: u8 },
    /// Break off.
    Abort(HealthFault),
}

/// Why the health checks cannot go on.
#[derive(Clone, Copy, PartialEq, Eq, Debug)]
pub enum HealthFault {
    /// There is no clock with a period of zero.
    ZeroPeriod,
    /// The probe for an upstream is not a request.
    BadProbe,
    /// An answer came to a question that was not asked.
    OutOfTurn,
}

/// The outcome of a [`HealthRequest`].
#[derive(Clone, Copy, PartialEq, Eq, Debug)]
pub enum HealthEvent {
    Ticked,
    Connected(bool),
    Sent(bool),
    /// Whether the status was that of success, if it could be read.
    Status(Option<bool>),
    Marked,
}

/// What the health checks are waiting for.
#[derive(Clone, Copy, PartialEq, Eq, Debug)]
pub enum HealthPhase {
    Waiting,
    Connecting { ix: usize },
    Sending { ix: usize },
    Reading { ix: usize },
    Marking { ix: usize, flag: u8 },
    Over,
}

/// The health checks: at each tick all upstreams are probed in turn.
#[derive(Clone, Copy, PartialEq, Eq, Debug)]
pub struct HealthCheck {
    pub interval: u64,
    pub phase: HealthPhase,
}

/// The health checks after a turn, and what they want done.
pub type HealthTurn = (HealthCheck, HealthRequest);

impl HealthCheck {
    /// The upstream that is being probed is one of `len`.
    pub open spec fn wf(self, len: nat) -> bool {
        match self.phase {
            HealthPhase::Waiting => true,
            HealthPhase::Connecting { ix } => ix < len,
            HealthPhase::Sending { ix } => ix < len,
            HealthPhase::Reading { ix } => ix < len,
            HealthPhase::Marking { ix, flag: _ } => ix < len,
            HealthPhase::Over => true,
        }
    }

    pub open spec fn goes(self, phase: HealthPhase, request: HealthRequest) -> HealthTurn {
        (HealthCheck { interval: self.interval, phase }, request)
    }

    pub open spec fn stops(self, fault: HealthFault) -> HealthTurn {
        self.goes(HealthPhase::Over, HealthRequest::Abort(fault))
    }

    pub open spec fn marks(self, ix: usize, flag: u8) -> HealthTurn {
        self.goes(HealthPhase::Marking { ix, flag }, HealthRequest::Mark { ix, flag })
    }

    /// Waits for the next tick.
    pub open spec fn rests(self) -> HealthTurn {
        self.goes(HealthPhase::Waiting, HealthRequest::Tick { seconds: self.interval })
    }

    /// Begins with an upstream whose probe is a request or not.
    pub open spec fn approaches(self, ix: usize, accepted: bool) -> HealthTurn {
        if accepted {
            self.goes(HealthPhase::Connecting { ix }, HealthRequest::Connect { ix })
        } else {
            self.stops(HealthFault::BadProbe)
        }
    }

    /// Goes on to upstream `ix`, or rests if there are no more.
    pub open spec fn visits(self, path: Seq<char>, hosts: Seq<Seq<char>>, ix: int) -> HealthTurn {
        if ix < hosts.len() {
            self.approaches(
                ix as usize,
                probe_accepted("GET"@, path, "Host"@, hosts[ix], Seq::<u8>::empty()),
            )
        } else {
            self.rests()
        }
    }

    /// What an event leads to.
    pub open spec fn next(
        self,
        path: Seq<char>,
        hosts: Seq<Seq<char>>,
        event: HealthEvent,
    ) -> HealthTurn {
        match (self.phase, event) {
            (HealthPhase::Waiting, HealthEvent::Ticked) => self.visits(path, hosts, 0),
            (HealthPhase::Connecting { ix }, HealthEvent::Connected(connected)) => if connected {
                self.goes(HealthPhase::Sending { ix }, HealthRequest::Send { ix })
            } else {
                self.marks(ix, INACTIVE)
            },
            (HealthPhase::Sending { ix }, HealthEvent::Sent(sent)) => if sent {
                self.goes(HealthPhase::Reading { ix }, HealthRequest::ReadStatus)
            } else {
                self.marks(ix, INACTIVE)
            },
            (HealthPhase::Reading { ix }, HealthEvent::Status(status)) => self.marks(
                ix,
                if status == Some(true) {
                    ACTIVE
                } else {
                    INACTIVE
                },
            ),
            (HealthPhase::Marking { ix, flag: _ }, HealthEvent::Marked) => self.visits(
                path,
                hosts,
                ix + 1,
            ),
            _ => self.stops(HealthFault::OutOfTurn),
        }
    }

    /// How health checks with a period in seconds begin.
    pub open spec fn begin(interval: usize) -> HealthTurn {
        let check = HealthCheck { interval: interval as u64, phase: HealthPhase::Waiting };
        if interval == 0 {
            check.stops(HealthFault::ZeroPeriod)
        } else {
            check.rests()
        }
    }

    /// Sets up health checks with a period in seconds.
    pub fn new(interval: usize) -> (turn: HealthTurn)
        ensures
            turn == HealthCheck::begin(interval),
            ({
                let check = HealthCheck { interval: interval as u64, phase: HealthPhase::Waiting };
                turn == if interval == 0 {
                    check.stops(HealthFault::ZeroPeriod)
                } else {
                    check.rests()
                }
            }),
    {
        let seconds: u64 = interval as u64;
        if interval == 0 {
            (
                HealthCheck { interval: seconds, phase: HealthPhase::Over },
                HealthRequest::Abort(HealthFault::ZeroPeriod),
            )
        } else {
            (
                HealthCheck { interval: seconds, phase: HealthPhase::Waiting },
                HealthRequest::Tick { seconds },
            )
        }
    }

    /// Begins with an upstream whose probe is a request or not.
    pub fn approach(self, ix: usize, accepted: bool) -> (turn: HealthTurn)
        ensures
            turn == self.approaches(ix, accepted),
    {
        if accepted {
            self.go(HealthPhase::Connecting { ix }, HealthRequest::Connect { ix })
        } else {
            self.go(HealthPhase::Over, HealthRequest::Abort(HealthFault::BadProbe))
        }
    }

    /// Takes the outcome of the last request and makes the next one.
    pub fn step(self, path: &str, upstreams: &Vec<String>, event: HealthEvent) -> (turn: HealthTurn)
        requires
            self.wf(upstreams.len() as nat),
        ensures
            turn == self.next(path@, texts(upstreams@), event),
            turn.0.wf(upstreams.len() as nat),
    {
        match (self.phase, event) {
            (HealthPhase::Waiting, HealthEvent::Ticked) => self.visit(path, upstreams, 0),
            (HealthPhase::Connecting { ix }, HealthEvent::Connected(connected)) => if connected {
                self.go(HealthPhase::Sending { ix }, HealthRequest::Send { ix })
            } else {
                self.mark(ix, INACTIVE)
            },
            (HealthPhase::Sending { ix }, HealthEvent::Sent(sent)) => if sent {
                self.go(HealthPhase::Reading { ix }, HealthRequest::ReadStatus)
            } else {
                self.mark(ix, INACTIVE)
            },
            (HealthPhase::Reading { ix }, HealthEvent::Status(status)) => match status {
                Some(true) => self.mark(ix, ACTIVE),
                _ => self.mark(ix, INACTIVE),
            },
            (HealthPhase::Marking { ix, flag: _ }, HealthEvent::Marked) => {
                self.visit(path, upstreams, ix + 1)
            },
            _ => self.go(HealthPhase::Over, HealthRequest::Abort(HealthFault::OutOfTurn)),
        }
    }

    fn go(self, phase: HealthPhase, request: HealthRequest) -> (turn: HealthTurn)
        ensures
            turn == self.goes(phase, request),
    {
        (HealthCheck { interval: self.interval, phase }, request)
    }

    fn mark(self, ix: usize, flag: u8) -> (turn: HealthTurn)
        ensures
            turn == self.marks(ix, flag),
    {
        self.go(HealthPhase::Marking { ix, flag }, HealthRequest::Mark { ix, flag })
    }

    fn visit(self, path: &str, upstreams: &Vec<String>, ix: usize) -> (turn: HealthTurn)
        ensures
            turn == self.visits(path@, texts(upstreams@), ix as int),
            turn.0.wf(upstreams.len() as nat),
    {
        if ix < upstreams.len() {
            let probe: Probe = probe(path, upstreams[ix].as_str());
            let header: (String, String) = probe.host_header();
            let accepted: bool = probe_builds(&probe, &header);
            self.approach(ix, accepted)
        } else {
            self.go(HealthPhase::Waiting, HealthRequest::Tick { seconds: self.interval })
        }
    }
}

/// The marks with that of one upstream replaced.
pub open spec fn with_mark(flags: Seq<u8>, ix: int, flag: u8) -> Seq<u8> {
    flags.update(ix, flag)
}

/// Marks an upstream.
pub fn set_flag(flags: &mut Vec<u8>, ix: usize, flag: u8)
    requires
        ix < old(flags).len(),
    ensures
        final(flags)@ == with_mark(old(flags)@, ix as int, flag),
        final(flags)@ == old(flags)@.update(ix as int, flag),
{
    flags.set(ix, flag);
}

/// How an upstream fares when it is probed.
pub struct Health {
    pub connects: bool,
    pub receives: bool,
    pub status: Option<bool>,
}

/// The mark that an upstream deserves: active only if it takes the connection and the probe, and
/// answers with the status of success.
pub open spec fn verdict(health: Health) -> u8 {
    if health.connects && health.receives && health.status == Some(true) {
        ACTIVE
    } else {
        INACTIVE
    }
}

/// `event` is the outcome of `request` among upstreams that fare as `fares` says, and turns their
/// marks from `pre` into `post`.
pub open spec fn probed(
    fares: spec_fn(int) -> Health,
    check: HealthCheck,
    pre: Seq<u8>,
    event: HealthEvent,
    post: Seq<u8>,
) -> bool {
    match (check.phase, event) {
        (HealthPhase::Waiting, HealthEvent::Ticked) => post == pre,
        (HealthPhase::Connecting { ix }, HealthEvent::Connected(connected)) => {
            post == pre && connected == fares(ix as int).connects
        },
        (HealthPhase::Sending { ix }, HealthEvent::Sent(sent)) => {
            post == pre && sent == fares(ix as int).receives
        },
        (HealthPhase::Reading { ix }, HealthEvent::Status(status)) => {
            post == pre && status == fares(ix as int).status
        },
        (HealthPhase::Marking { ix, flag }, HealthEvent::Marked) => {
            post == pre.update(ix as int, flag)
        },
        _ => false,
    }
}

/// The marks in the middle of a round: those before `done` are what the upstreams deserve, the
/// others are what they were.
pub open spec fn marked_up_to(
    fares: spec_fn(int) -> Health,
    initial: Seq<u8>,
    flags: Seq<u8>,
    done: int,
) -> bool {
    &&& flags.len() == initial.len()
    &&& forall|i: int|
        0 <= i < flags.len() ==> #[trigger] flags[i] == if i < done {
            verdict(fares(i))
        } else {
            initial[i]
        }
}

/// What holds in the middle of a round.
pub open spec fn round_invariant(
    fares: spec_fn(int) -> Health,
    initial: Seq<u8>,
    check: HealthCheck,
    flags: Seq<u8>,
) -> bool {
    match check.phase {
        HealthPhase::Waiting => false,
        HealthPhase::Connecting { ix } => marked_up_to(fares, initial, flags, ix as int),
        HealthPhase::Sending { ix } => {
            marked_up_to(fares, initial, flags, ix as int) && fares(ix as int).connects
        },
        HealthPhase::Reading { ix } => {
            &&& marked_up_to(fares, initial, flags, ix as int)
            &&& fares(ix as int).connects && fares(ix as int).receives
        },
        HealthPhase::Marking { ix, flag } => {
            marked_up_to(fares, initial, flags, ix as int) && flag == verdict(fares(ix as int))
        },
        HealthPhase::Over => false,
    }
}

/// One step of a round. When the health checks rest again, every upstream has the mark that it
/// deserves. A probe that is not a request ends the health checks.
pub proof fn law_round_step(
    path: Seq<char>,
    hosts: Seq<Seq<char>>,
    fares: spec_fn(int) -> Health,
    initial: Seq<u8>,
    check: HealthCheck,
    pre: Seq<u8>,
    event: HealthEvent,
    post: Seq<u8>,
)
    requires
        hosts.len() == initial.len(),
        hosts.len() <= usize::MAX,
        check.wf(hosts.len()),
        round_invariant(fares, initial, check, pre),
        probed(fares, check, pre, event, post),
    ensures
        ({
            let next = check.next(path, hosts, event).0;
            &&& next.wf(hosts.len())
            &&& if next.phase is Waiting {
                post == Seq::new(hosts.len(), |i: int| verdict(fares(i)))
            } else {
                next.phase is Over || round_invariant(fares, initial, next, post)
            }
        }),
{
    match check.phase {
        HealthPhase::Marking { ix, flag } => {
            assert(marked_up_to(fares, initial, post, ix + 1)) by {
                assert forall|i: int| 0 <= i < post.len() implies #[trigger] post[i] == if i < ix
                    + 1 {
                    verdict(fares(i))
                } else {
                    initial[i]
                } by {
                    if i != ix {
                        assert(pre[i] == post[i]);
                    }
                }
            }
            if ix + 1 == hosts.len() {
                assert(post =~= Seq::new(hosts.len(), |i: int| verdict(fares(i))));
            }
        },
        _ => {},
    }
}

/// A round, step by step, from the tick on: the health checks and the marks before each event.
pub open spec fn health_round(
    path: Seq<char>,
    hosts: Seq<Seq<char>>,
    fares: spec_fn(int) -> Health,
    checks: Seq<HealthCheck>,
    marks: Seq<Seq<u8>>,
    events: Seq<HealthEvent>,
) -> bool {
    &&& checks.len() == marks.len() == events.len() + 1
    &&& events.len() > 0
    &&& checks[0].phase is Waiting
    &&& marks[0].len() == hosts.len()
    &&& forall|i: int|
        0 <= i < events.len() ==> {
            &&& probed(fares, #[trigger] checks[i], marks[i], events[i], marks[i + 1])
            &&& checks[i + 1] == checks[i].next(path, hosts, events[i]).0
        }
    &&& forall|i: int| 0 < i < events.len() ==> !((#[trigger] checks[i]).phase is Waiting)
}

proof fn lemma_health_round(
    path: Seq<char>,
    hosts: Seq<Seq<char>>,
    fares: spec_fn(int) -> Health,
    checks: Seq<HealthCheck>,
    marks: Seq<Seq<u8>>,
    events: Seq<HealthEvent>,
    n: int,
)
    requires
        hosts.len() <= usize::MAX,
        health_round(path, hosts, fares, checks, marks, events),
        1 <= n <= events.len(),
    ensures
        checks[n].wf(hosts.len()),
        if checks[n].phase is Waiting {
            marks[n] == Seq::new(hosts.len(), |i: int| verdict(fares(i)))
        } else {
            checks[n].phase is Over || round_invariant(fares, marks[0], checks[n], marks[n])
        },
    decreases n,
{
    if n == 1 {
        assert(probed(fares, checks[0], marks[0], events[0], marks[1]));
        assert(checks[1] == checks[0].next(path, hosts, events[0]).0);
        assert(marked_up_to(fares, marks[0], marks[1], 0));
        if hosts.len() == 0 {
            assert(marks[1] =~= Seq::new(hosts.len(), |i: int| verdict(fares(i))));
        }
    } else {
        lemma_health_round(path, hosts, fares, checks, marks, events, n - 1);
        assert(!(checks[n - 1].phase is Waiting));
        assert(probed(fares, checks[n - 1], marks[n - 1], events[n - 1], marks[n]));
        law_round_step(
            path,
            hosts,
            fares,
            marks[0],
            checks[n - 1],
            marks[n - 1],
            events[n - 1],
            marks[n],
        );
        assert(checks[n] == checks[n - 1].next(path, hosts, events[n - 1]).0);
    }
}

/// After a round of health checks every upstream is marked active if it passed its probe, and
/// inactive if not, whatever its mark was before.
pub proof fn law_round_marks_every_upstream(
    path: Seq<char>,
    hosts: Seq<Seq<char>>,
    fares: spec_fn(int) -> Health,
    checks: Seq<HealthCheck>,
    marks: Seq<Seq<u8>>,
    events: Seq<HealthEvent>,
)
    requires
        hosts.len() <= usize::MAX,
        health_round(path, hosts, fares, checks, marks, events),
        checks.last().phase is Waiting,
    ensures
        marks.last() == Seq::new(hosts.len(), |i: int| verdict(fares(i))),
{
    lemma_health_round(path, hosts, fares, checks, marks, events, events.len() as int);
}

/// Health checks with a period begin by waiting for the clock; without one they cannot begin.
pub proof fn law_health_checks_begin_with_the_clock(interval: usize)
    ensures
        interval > 0 ==> HealthCheck::begin(interval) == (
            HealthCheck { interval: interval as u64, phase: HealthPhase::Waiting },
            HealthRequest::Tick { seconds: interval as u64 },
        ),
        interval == 0 ==> HealthCheck::begin(interval).1 == HealthRequest::Abort(
            HealthFault::ZeroPeriod,
        ) && HealthCheck::begin(interval).0.phase is Over,
{
}

/// Marking an upstream changes its mark and no other.
pub proof fn law_one_mark_changes(flags: Seq<u8>, ix: int, flag: u8, other: int)
    requires
        0 <= ix < flags.len(),
        0 <= other < flags.len(),
    ensures
        with_mark(flags, ix, flag).len() == flags.len(),
        with_mark(flags, ix, flag)[ix] == flag,
        other != ix ==> with_mark(flags, ix, flag)[other] == flags[other],
{
}

/// What the health checks want done is what they then wait for, and the period stays the same.
pub proof fn law_health_checks_wait_for_what_they_ask(
    check: HealthCheck,
    path: Seq<char>,
    hosts: Seq<Seq<char>>,
    event: HealthEvent,
)
    ensures
        ({
            let (next, request) = check.next(path, hosts, event);
            &&& next.interval == check.interval
            &&& match next.phase {
                HealthPhase::Waiting => request == (HealthRequest::Tick {
                    seconds: check.interval,
                }),
                HealthPhase::Connecting { ix } => request == (HealthRequest::Connect { ix }),
                HealthPhase::Sending { ix } => request == (HealthRequest::Send { ix }),
                HealthPhase::Reading { ix: _ } => request == HealthRequest::ReadStatus,
                HealthPhase::Marking { ix, flag } => request == (HealthRequest::Mark { ix, flag }),
                HealthPhase::Over => request is Abort,
            }
        }),
{
}

/// Upstream `ix` comes up to be probed: if there is one, it is connected to, unless its probe, a `GET`
/// of the path with the upstream as `Host`, is no request; if there is none, the checks rest.
pub open spec fn comes_up(
    path: Seq<char>,
    hosts: Seq<Seq<char>>,
    ix: int,
    request: HealthRequest,
) -> bool {
    if ix >= hosts.len() {
        request is Tick
    } else if probe_accepted("GET"@, path, "Host"@, hosts[ix], Seq::<u8>::empty()) {
        request == (HealthRequest::Connect { ix: ix as usize })
    } else {
        request == HealthRequest::Abort(HealthFault::BadProbe)
    }
}

/// The clock brings up the first upstream, and each mark the next one.
pub proof fn law_upstreams_come_up_in_turn(
    interval: u64,
    path: Seq<char>,
    hosts: Seq<Seq<char>>,
    ix: usize,
    flag: u8,
)
    ensures
        comes_up(
            path,
            hosts,
            0,
            (HealthCheck { interval, phase: HealthPhase::Waiting }).next(
                path,
                hosts,
                HealthEvent::Ticked,
            ).1,
        ),
        comes_up(
            path,
            hosts,
            ix + 1,
            (HealthCheck { interval, phase: HealthPhase::Marking { ix, flag } }).next(
                path,
                hosts,
                HealthEvent::Marked,
            ).1,
        ),
{
}

/// An upstream is marked 1 exactly when it took the connection and the probe and answered with the
/// status of success; the first of these that fails marks it 0 at once.
pub proof fn law_upstream_is_marked_by_its_probe(
    interval: u64,
    path: Seq<char>,
    hosts: Seq<Seq<char>>,
    ix: usize,
)
    ensures
        ({
            let ask = |phase: HealthPhase, event: HealthEvent|
                (HealthCheck { interval, phase }).next(path, hosts, event).1;
            let connecting = HealthPhase::Connecting { ix };
            let sending = HealthPhase::Sending { ix };
            let reading = HealthPhase::Reading { ix };
            let inactive = HealthRequest::Mark { ix, flag: 0 };
            &&& ask(connecting, HealthEvent::Connected(false)) == inactive
            &&& ask(connecting, HealthEvent::Connected(true)) == (HealthRequest::Send { ix })
            &&& ask(sending, HealthEvent::Sent(false)) == inactive
            &&& ask(sending, HealthEvent::Sent(true)) == HealthRequest::ReadStatus
            &&& (HealthCheck { interval, phase: sending }).next(
                path,
                hosts,
                HealthEvent::Sent(true),
            ).0.phase == reading
            &&& ask(reading, HealthEvent::Status(None)) == inactive
            &&& ask(reading, HealthEvent::Status(Some(false))) == inactive
            &&& ask(reading, HealthEvent::Status(Some(true))) == (HealthRequest::Mark {
                ix,
                flag: 1,
            })
        }),
{
}

/// The health checks break off only where a probe is no request, or where an event comes out of
/// turn.
pub proof fn law_health_checks_go_on(
    check: HealthCheck,
    path: Seq<char>,
    hosts: Seq<Seq<char>>,
    event: HealthEvent,
)
    ensures
        ({
            let request = check.next(path, hosts, event).1;
            let expected = match check.phase {
                HealthPhase::Waiting => event is Ticked,
                HealthPhase::Connecting { ix: _ } => event is Connected,
                HealthPhase::Sending { ix: _ } => event is Sent,
                HealthPhase::Reading { ix: _ } => event is Status,
                HealthPhase::Marking { ix: _, flag: _ } => event is Marked,
                HealthPhase::Over => false,
            };
            &&& !expected <==> request == HealthRequest::Abort(HealthFault::OutOfTurn)
            &&& request == HealthRequest::Abort(HealthFault::BadProbe) ==> event is Ticked
                || event is Marked
            &&& request != HealthRequest::Abort(HealthFault::ZeroPeriod)
        }),
{
}

} // verus!
