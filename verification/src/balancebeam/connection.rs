//! Serving one client: its requests go to one upstream, and the responses come back.

use crate::balancebeam::limiter::{
    admits, after_request, law_limiter_decides, window_of, RateLimiter, Window,
};
use crate::balancebeam::upstream::{search_end, Found, Search};
use vstd::prelude::*;

verus! {

pub const BAD_REQUEST: u16 = 400;

pub const PAYLOAD_TOO_LARGE: u16 = 413;

pub const TOO_MANY_REQUESTS: u16 = 429;

pub const BAD_GATEWAY: u16 = 502;

pub const SERVICE_UNAVAILABLE: u16 = 503;

/// Why no request could be read from a client.
#[derive(Clone, Copy, PartialEq, Eq, Debug)]
pub enum RequestError {
    /// The client closed the connection after this many bytes of a request.
    IncompleteRequest(usize),
    MalformedRequest,
    InvalidContentLength,
    ContentLengthMismatch,
    RequestBodyTooLarge,
    ConnectionError,
}

/// What serving a client wants done.
#[derive(Clone, Copy, PartialEq, Eq, Debug)]
pub enum ConnectionRequest {
    /// Look at the marks of the upstreams.
    CheckFlags,
    /// Connect to an upstream.
    Connect { ix: usize },
    /// Read a request from the client.
    ReceiveRequest,
    /// Ask the rate limiter.
    CheckRate,
    /// Send the client an error response, and log it.
    SendError { status: u16 },
    /// Send the client an error response without logging it.
    SendErrorQuietly { status: u16 },
    /// Add the client's address to the request and send it to the upstream.
    Forward,
    /// Read the response from the upstream.
    ReceiveResponse,
    /// Send the response to the client.
    SendResponse,
    /// Close the connection.
    Close,
    /// Break off: an answer came to a question that was not asked.
    Abort,
}

/// The outcome of a [`ConnectionRequest`].
#[derive(Clone, Copy, PartialEq, Eq, Debug)]
pub enum ConnectionEvent {
    Connected(bool),
    Received(Result<(), RequestError>),
    Forwarded(bool),
    Answered(bool),
    /// The client was sent a response, successfully or not.
    Responded,
}

/// What serving a client is waiting for.
#[derive(Clone, Copy, PartialEq, Eq, Debug)]
pub enum ClientPhase {
    /// An upstream is being chosen.
    Choosing(Search),
    /// A connection to the chosen upstream is being opened.
    Dialing(Search),
    Receiving,
    Limiting,
    Forwarding,
    Awaiting,
    /// A response is being sent, after which the connection is closed or kept.
    Responding { close: bool },
    Closed,
}

/// The next phase, and what is wanted done.
pub type ConnectionTurn = (ClientPhase, ConnectionRequest);

/// The status of the response to a request that could not be read.
pub open spec fn error_status(error: RequestError) -> u16 {
    match error {
        RequestError::IncompleteRequest(_) => BAD_REQUEST,
        RequestError::MalformedRequest => BAD_REQUEST,
        RequestError::InvalidContentLength => BAD_REQUEST,
        RequestError::ContentLengthMismatch => BAD_REQUEST,
        RequestError::RequestBodyTooLarge => PAYLOAD_TOO_LARGE,
        RequestError::ConnectionError => SERVICE_UNAVAILABLE,
    }
}

/// The client is gone: it closed the connection between requests, or the connection broke.
pub open spec fn client_is_gone(error: RequestError) -> bool {
    error == RequestError::IncompleteRequest(0) || error == RequestError::ConnectionError
}

/// What the marks of the upstreams lead to.
pub open spec fn after_flags(phase: ClientPhase, flags: Seq<u8>) -> ConnectionTurn {
    match phase {
        ClientPhase::Choosing(search) => if flags[search.current as int] == 0 {
            (ClientPhase::Choosing(search.advanced()), ConnectionRequest::CheckFlags)
        } else {
            (ClientPhase::Dialing(search), ConnectionRequest::Connect { ix: search.current })
        },
        _ => (ClientPhase::Closed, ConnectionRequest::Abort),
    }
}

/// What the rate limiter's decision leads to.
pub open spec fn after_rate(phase: ClientPhase, accepted: bool) -> ConnectionTurn {
    match phase {
        ClientPhase::Limiting => if accepted {
            (ClientPhase::Forwarding, ConnectionRequest::Forward)
        } else {
            (
                ClientPhase::Responding { close: false },
                ConnectionRequest::SendErrorQuietly { status: TOO_MANY_REQUESTS },
            )
        },
        _ => (ClientPhase::Closed, ConnectionRequest::Abort),
    }
}

/// An error response that ends the connection.
pub open spec fn bad_gateway() -> ConnectionTurn {
    (ClientPhase::Responding { close: true }, ConnectionRequest::SendError { status: BAD_GATEWAY })
}

/// What an event leads to, with or without a limit on requests.
pub open spec fn after_event(
    limited: bool,
    phase: ClientPhase,
    event: ConnectionEvent,
) -> ConnectionTurn {
    match (phase, event) {
        (ClientPhase::Dialing(_), ConnectionEvent::Connected(true)) => {
            (ClientPhase::Receiving, ConnectionRequest::ReceiveRequest)
        },
        (ClientPhase::Dialing(search), ConnectionEvent::Connected(false)) => {
            if search.advanced().current == search.start {
                bad_gateway()
            } else {
                (ClientPhase::Choosing(search.advanced()), ConnectionRequest::CheckFlags)
            }
        },
        (ClientPhase::Receiving, ConnectionEvent::Received(Ok(()))) => if limited {
            (ClientPhase::Limiting, ConnectionRequest::CheckRate)
        } else {
            (ClientPhase::Forwarding, ConnectionRequest::Forward)
        },
        (ClientPhase::Receiving, ConnectionEvent::Received(Err(error))) => if client_is_gone(
            error,
        ) {
            (ClientPhase::Closed, ConnectionRequest::Close)
        } else {
            (
                ClientPhase::Responding { close: false },
                ConnectionRequest::SendError { status: error_status(error) },
            )
        },
        (ClientPhase::Forwarding, ConnectionEvent::Forwarded(true)) => {
            (ClientPhase::Awaiting, ConnectionRequest::ReceiveResponse)
        },
        (ClientPhase::Forwarding, ConnectionEvent::Forwarded(false)) => bad_gateway(),
        (ClientPhase::Awaiting, ConnectionEvent::Answered(true)) => {
            (ClientPhase::Responding { close: false }, ConnectionRequest::SendResponse)
        },
        (ClientPhase::Awaiting, ConnectionEvent::Answered(false)) => bad_gateway(),
        (ClientPhase::Responding { close: true }, ConnectionEvent::Responded) => {
            (ClientPhase::Closed, ConnectionRequest::Close)
        },
        (ClientPhase::Responding { close: false }, ConnectionEvent::Responded) => {
            (ClientPhase::Receiving, ConnectionRequest::ReceiveRequest)
        },
        _ => (ClientPhase::Closed, ConnectionRequest::Abort),
    }
}

/// A client being served.
pub struct Connection {
    pub client_ip: String,
    /// Whether the number of requests is limited.
    pub limited: bool,
    pub phase: ClientPhase,
}

/// The number of requests is limited.
pub open spec fn limits(max_requests_per_minute: usize) -> bool {
    max_requests_per_minute > 0
}

/// The name and the value of the header that tells the upstream the client's address.
pub open spec fn forwarding(client_ip: Seq<char>) -> (Seq<char>, Seq<char>) {
    ("x-forwarded-for"@, client_ip)
}

/// How the service of a client begins.
pub open spec fn begins(
    client_ip: Seq<char>,
    max_requests_per_minute: usize,
    search: Search,
    turn: (Connection, ConnectionRequest),
) -> bool {
    &&& turn.0.client_ip@ == client_ip
    &&& turn.0.limited == limits(max_requests_per_minute)
    &&& turn.0.phase == ClientPhase::Choosing(search)
    &&& turn.1 == ConnectionRequest::CheckFlags
}

/// Begins to serve a client, with a search for an upstream.
pub fn handle_connection(client_ip: &str, max_requests_per_minute: usize, search: Search) -> (turn:
    (Connection, ConnectionRequest))
    requires
        search.wf(),
    ensures
        begins(client_ip@, max_requests_per_minute, search, turn),
        turn.0.wf(),
        turn.0.fits(search.len as nat),
        turn.0.client_ip@ == client_ip@,
        turn.0.limited == limits(max_requests_per_minute),
        turn.0.limited == (max_requests_per_minute > 0),
        turn.0.phase == ClientPhase::Choosing(search),
        turn.1 == ConnectionRequest::CheckFlags,
{
    (
        Connection {
            client_ip: client_ip.to_owned(),
            limited: max_requests_per_minute > 0,
            phase: ClientPhase::Choosing(search),
        },
        ConnectionRequest::CheckFlags,
    )
}

/// The status of the response to a request that could not be read.
pub fn status_of(error: RequestError) -> (status: u16)
    ensures
        status == error_status(error),
{
    match error {
        RequestError::IncompleteRequest(_)
        | RequestError::MalformedRequest
        | RequestError::InvalidContentLength
        | RequestError::ContentLengthMismatch => BAD_REQUEST,
        RequestError::RequestBodyTooLarge => PAYLOAD_TOO_LARGE,
        RequestError::ConnectionError => SERVICE_UNAVAILABLE,
    }
}

impl Connection {
    /// A search for an upstream that is going on is in order.
    pub open spec fn wf(self) -> bool {
        match self.phase {
            ClientPhase::Choosing(search) => search.wf(),
            ClientPhase::Dialing(search) => search.wf(),
            _ => true,
        }
    }

    /// The number of upstreams fits the search that is going on.
    pub open spec fn fits(self, len: nat) -> bool {
        match self.phase {
            ClientPhase::Choosing(search) => search.len == len,
            ClientPhase::Dialing(search) => search.len == len,
            _ => true,
        }
    }

    /// The turn changes the phase and nothing else.
    pub open spec fn moves(self, turn: ConnectionTurn, post: Connection, request: ConnectionRequest)
        -> bool {
        &&& post.client_ip == self.client_ip
        &&& post.limited == self.limited
        &&& (post.phase, request) == turn
    }

    /// The marks of the upstreams lead from `self` to `post`, and to `next` being done.
    pub open spec fn looks_at(
        self,
        flags: Seq<u8>,
        post: Connection,
        next: ConnectionRequest,
    ) -> bool {
        self.moves(after_flags(self.phase, flags), post, next)
    }

    /// The limiter's decision leads from `self` to `post`, and to `next` being done.
    pub open spec fn asks_the_limiter(
        self,
        before: RateLimiter,
        now: u128,
        after: RateLimiter,
        post: Connection,
        next: ConnectionRequest,
    ) -> bool {
        if self.phase is Limiting {
            exists|accepted: bool|
                {
                    &&& #[trigger] before.decides(self.client_ip@, now, accepted, after)
                    &&& self.moves(after_rate(self.phase, accepted), post, next)
                }
        } else {
            &&& after.max_requests_per_minute == before.max_requests_per_minute
            &&& after.ip_request_count@ == before.ip_request_count@
            &&& self.moves((ClientPhase::Closed, ConnectionRequest::Abort), post, next)
        }
    }

    /// An event leads from `self` to `post`, and to `next` being done.
    pub open spec fn takes_event(
        self,
        event: ConnectionEvent,
        post: Connection,
        next: ConnectionRequest,
    ) -> bool {
        self.moves(after_event(self.limited, self.phase, event), post, next)
    }

    fn go(&mut self, phase: ClientPhase, request: ConnectionRequest) -> (next: ConnectionRequest)
        ensures
            old(self).moves((phase, request), *final(self), next),
    {
        self.phase = phase;
        request
    }

    fn give_up(&mut self) -> (next: ConnectionRequest)
        ensures
            old(self).moves(bad_gateway(), *final(self), next),
    {
        self.go(
            ClientPhase::Responding { close: true },
            ConnectionRequest::SendError { status: BAD_GATEWAY },
        )
    }

    /// Looks at the marks of the upstreams.
    pub fn check_flags(&mut self, flags: &Vec<u8>) -> (next: ConnectionRequest)
        requires
            old(self).wf(),
            old(self).fits(flags.len() as nat),
        ensures
            old(self).looks_at(flags@, *final(self), next),
            old(self).moves(after_flags(old(self).phase, flags@), *final(self), next),
            final(self).wf(),
            final(self).fits(flags.len() as nat),
    {
        match self.phase {
            ClientPhase::Choosing(chosen) => {
                let mut search: Search = chosen;
                match search.look(flags) {
                    None => {
                        self.go(ClientPhase::Choosing(search), ConnectionRequest::CheckFlags)
                    },
                    Some(ix) => {
                        self.go(ClientPhase::Dialing(search), ConnectionRequest::Connect { ix })
                    },
                }
            },
            _ => self.go(ClientPhase::Closed, ConnectionRequest::Abort),
        }
    }

    /// Asks the rate limiter about the request that has come in.
    pub fn check_rate(&mut self, limiter: &mut RateLimiter, now: u128) -> (next: ConnectionRequest)
        requires
            old(self).wf(),
        ensures
            old(self).asks_the_limiter(*old(limiter), now, *final(limiter), *final(self), next),
            final(self).wf(),
            old(self).moves(
                after_rate(
                    old(self).phase,
                    admits(
                        old(limiter).max_requests_per_minute,
                        window_of(
                            old(limiter).ip_request_count@,
                            old(self).client_ip@,
                        ),
                        now,
                    ),
                ),
                *final(self),
                next,
            ),
            final(limiter).max_requests_per_minute == old(limiter).max_requests_per_minute,
            final(limiter).ip_request_count@ == if old(self).phase is Limiting {
                after_request(
                    old(limiter).max_requests_per_minute,
                    old(limiter).ip_request_count@,
                    old(self).client_ip@,
                    now,
                )
            } else {
                old(limiter).ip_request_count@
            },
    {
        match self.phase {
            ClientPhase::Limiting => {
                if limiter.accept(self.client_ip.as_str(), now) {
                    self.go(ClientPhase::Forwarding, ConnectionRequest::Forward)
                } else {
                    self.go(
                        ClientPhase::Responding { close: false },
                        ConnectionRequest::SendErrorQuietly { status: TOO_MANY_REQUESTS },
                    )
                }
            },
            _ => self.go(ClientPhase::Closed, ConnectionRequest::Abort),
        }
    }

    /// Takes the outcome of the last request and makes the next one.
    pub fn step(&mut self, event: ConnectionEvent) -> (next: ConnectionRequest)
        requires
            old(self).wf(),
        ensures
            old(self).takes_event(event, *final(self), next),
            old(self).moves(
                after_event(old(self).limited, old(self).phase, event),
                *final(self),
                next,
            ),
            final(self).wf(),
            forall|len: nat| old(self).fits(len) ==> #[trigger] final(self).fits(len),
    {
        match (self.phase, event) {
            (ClientPhase::Dialing(dialed), ConnectionEvent::Connected(connected)) => {
                if connected {
                    return self.go(ClientPhase::Receiving, ConnectionRequest::ReceiveRequest);
                }
                let mut search: Search = dialed;
                if search.refused() {
                    self.give_up()
                } else {
                    self.go(ClientPhase::Choosing(search), ConnectionRequest::CheckFlags)
                }
            },
            (ClientPhase::Receiving, ConnectionEvent::Received(Ok(()))) => {
                if self.limited {
                    self.go(ClientPhase::Limiting, ConnectionRequest::CheckRate)
                } else {
                    self.go(ClientPhase::Forwarding, ConnectionRequest::Forward)
                }
            },
            (ClientPhase::Receiving, ConnectionEvent::Received(Err(error))) => match error {
                RequestError::IncompleteRequest(0) | RequestError::ConnectionError => {
                    self.go(ClientPhase::Closed, ConnectionRequest::Close)
                },
                _ => self.go(
                    ClientPhase::Responding { close: false },
                    ConnectionRequest::SendError { status: status_of(error) },
                ),
            },
            (ClientPhase::Forwarding, ConnectionEvent::Forwarded(forwarded)) => {
                if forwarded {
                    self.go(ClientPhase::Awaiting, ConnectionRequest::ReceiveResponse)
                } else {
                    self.give_up()
                }
            },
            (ClientPhase::Awaiting, ConnectionEvent::Answered(answered)) => {
                if answered {
                    self.go(
                        ClientPhase::Responding { close: false },
                        ConnectionRequest::SendResponse,
                    )
                } else {
                    self.give_up()
                }
            },
            (ClientPhase::Responding { close }, ConnectionEvent::Responded) => {
                if close {
                    self.go(ClientPhase::Closed, ConnectionRequest::Close)
                } else {
                    self.go(ClientPhase::Receiving, ConnectionRequest::ReceiveRequest)
                }
            },
            _ => self.go(ClientPhase::Closed, ConnectionRequest::Abort),
        }
    }

    /// The header that tells the upstream the client's address.
    pub fn forwarding_header(&self) -> (header: (String, String))
        ensures
            (header.0@, header.1@) == forwarding(self.client_ip@),
            header.0@ == "x-forwarded-for"@,
            header.1@ == self.client_ip@,
    {
        ("x-forwarded-for".to_owned(), self.client_ip.clone())
    }
}

/// What happens to a connection whose upstream has been found.
pub enum Move {
    Event(ConnectionEvent),
    /// The rate limiter's decision.
    Rate(bool),
}

/// What a move leads to.
pub open spec fn after_move(limited: bool, phase: ClientPhase, step: Move) -> ConnectionTurn {
    match step {
        Move::Event(event) => after_event(limited, phase, event),
        Move::Rate(accepted) => after_rate(phase, accepted),
    }
}

/// The phase after a row of moves on a connection that was about to receive a request.
pub open spec fn phase_after(limited: bool, moves: Seq<Move>) -> ClientPhase
    decreases moves.len(),
{
    if moves.len() == 0 {
        ClientPhase::Receiving
    } else {
        after_move(limited, phase_after(limited, moves.drop_last()), moves.last()).0
    }
}

/// What the last of a row of moves leads to being done.
pub open spec fn last_request(limited: bool, moves: Seq<Move>) -> ConnectionRequest {
    after_move(limited, phase_after(limited, moves.drop_last()), moves.last()).1
}

/// A request came in from a client that is still there, well-formed or not.
pub open spec fn asks_for_a_response(step: Move) -> bool {
    match step {
        Move::Event(ConnectionEvent::Received(Ok(()))) => true,
        Move::Event(ConnectionEvent::Received(Err(error))) => !client_is_gone(error),
        _ => false,
    }
}

/// The client is sent a response.
pub open spec fn sends_a_response(request: ConnectionRequest) -> bool {
    match request {
        ConnectionRequest::SendError { status: _ } => true,
        ConnectionRequest::SendErrorQuietly { status: _ } => true,
        ConnectionRequest::SendResponse => true,
        _ => false,
    }
}

/// How many requests came in.
pub open spec fn requests_received(moves: Seq<Move>) -> nat
    decreases moves.len(),
{
    if moves.len() == 0 {
        0
    } else {
        requests_received(moves.drop_last()) + if asks_for_a_response(moves.last()) {
            1nat
        } else {
            0
        }
    }
}

/// How many responses were sent.
pub open spec fn responses_sent(limited: bool, moves: Seq<Move>) -> nat
    decreases moves.len(),
{
    if moves.len() == 0 {
        0
    } else {
        responses_sent(limited, moves.drop_last()) + if sends_a_response(
            last_request(limited, moves),
        ) {
            1nat
        } else {
            0
        }
    }
}

/// The client waits for a response that has not been begun.
pub open spec fn owes_a_response(phase: ClientPhase) -> bool {
    phase is Limiting || phase is Forwarding || phase is Awaiting
}

/// No move was out of turn.
pub open spec fn orderly(limited: bool, moves: Seq<Move>) -> bool {
    forall|n: int|
        0 < n <= moves.len() ==> last_request(limited, #[trigger] moves.take(n))
            != ConnectionRequest::Abort
}

/// Every request is answered once: at any time as many responses have been sent as requests came
/// in, but for the one that is being dealt with.
pub proof fn law_every_request_is_answered_once(limited: bool, moves: Seq<Move>)
    requires
        orderly(limited, moves),
    ensures
        requests_received(moves) == responses_sent(limited, moves) + if owes_a_response(
            phase_after(limited, moves),
        ) {
            1nat
        } else {
            0
        },
    decreases moves.len(),
{
    if moves.len() > 0 {
        let shorter = moves.drop_last();
        assert(orderly(limited, shorter)) by {
            assert forall|n: int| 0 < n <= shorter.len() implies last_request(
                limited,
                #[trigger] shorter.take(n),
            ) != ConnectionRequest::Abort by {
                assert(shorter.take(n) =~= moves.take(n));
            }
        }
        law_every_request_is_answered_once(limited, shorter);
        assert(moves.take(moves.len() as int) =~= moves);
        assert(last_request(limited, moves) != ConnectionRequest::Abort);
    }
}

/// A request that the rate limiter refuses is answered with the status 429, is not forwarded, and
/// the connection is kept for the next one.
pub proof fn law_refused_request_is_answered_429(limited: bool)
    ensures
        after_rate(ClientPhase::Limiting, false) == (
            ClientPhase::Responding { close: false },
            ConnectionRequest::SendErrorQuietly { status: 429 },
        ),
        after_event(limited, ClientPhase::Responding { close: false }, ConnectionEvent::Responded)
            == (ClientPhase::Receiving, ConnectionRequest::ReceiveRequest),
{
}

/// Where requests are limited, none is forwarded that the rate limiter has not accepted.
pub proof fn law_only_accepted_requests_are_forwarded(phase: ClientPhase, step: Move)
    requires
        after_move(true, phase, step).1 == ConnectionRequest::Forward,
    ensures
        step == Move::Rate(true),
        phase == ClientPhase::Limiting,
{
}

/// Once an upstream has been found, the connection is closed only when the client is gone, or after
/// the client was told that the upstream failed.
pub proof fn law_close_follows_client_gone_or_bad_gateway(
    limited: bool,
    phase: ClientPhase,
    step: Move,
)
    requires
        after_move(limited, phase, step).1 == ConnectionRequest::Close,
    ensures
        phase == (ClientPhase::Responding { close: true }) || (step matches Move::Event(
            ConnectionEvent::Received(Err(error)),
        ) && client_is_gone(error)),
{
}

/// The connection is only ever to be closed after a response that says 502.
pub proof fn law_closing_response_is_bad_gateway(limited: bool, phase: ClientPhase, step: Move)
    requires
        after_move(limited, phase, step).0 == (ClientPhase::Responding { close: true }),
    ensures
        after_move(limited, phase, step).1 == (ConnectionRequest::SendError { status: 502 }),
{
}

/// How the choice of an upstream for a connection ends within `looks` looks, among upstreams whose
/// marks and whose readiness to take a connection do not change: the upstream that was dialed last
/// when the connection goes on to receive requests, or nothing when the client is told that there
/// is none.
pub open spec fn choice_end(
    limited: bool,
    phase: ClientPhase,
    flags: Seq<u8>,
    takes: spec_fn(int) -> bool,
    looks: nat,
) -> Option<Found>
    decreases looks,
{
    if looks == 0 {
        None
    } else {
        let (chosen, request) = after_flags(phase, flags);
        match request {
            ConnectionRequest::CheckFlags => choice_end(
                limited,
                chosen,
                flags,
                takes,
                (looks - 1) as nat,
            ),
            ConnectionRequest::Connect { ix } => {
                let event = ConnectionEvent::Connected(takes(ix as int));
                let (dialed, request) = after_event(limited, chosen, event);
                match request {
                    ConnectionRequest::ReceiveRequest => Some(Found::Upstream(ix as int)),
                    ConnectionRequest::CheckFlags => choice_end(
                        limited,
                        dialed,
                        flags,
                        takes,
                        (looks - 1) as nat,
                    ),
                    _ => Some(Found::Nothing),
                }
            },
            _ => Some(Found::Nothing),
        }
    }
}

/// The upstream that a connection ends up with is the one that the search finds, and the client is
/// told that there is none exactly when the search is given up.
pub proof fn law_connection_dials_what_the_search_finds(
    limited: bool,
    search: Search,
    flags: Seq<u8>,
    takes: spec_fn(int) -> bool,
    looks: nat,
)
    ensures
        choice_end(limited, ClientPhase::Choosing(search), flags, takes, looks) == search_end(
            search,
            flags,
            takes,
            looks,
        ),
    decreases looks,
{
    if looks > 0 {
        law_connection_dials_what_the_search_finds(
            limited,
            search.advanced(),
            flags,
            takes,
            (looks - 1) as nat,
        );
    }
}

/// A request that is received takes its course: where requests are limited the rate limiter is asked
/// about it, else it is forwarded at once.
pub proof fn law_received_request_is_forwarded_or_limited(limited: bool)
    ensures
        limited ==> after_event(
            limited,
            ClientPhase::Receiving,
            ConnectionEvent::Received(Ok(())),
        ) == (ClientPhase::Limiting, ConnectionRequest::CheckRate),
        !limited ==> after_event(
            limited,
            ClientPhase::Receiving,
            ConnectionEvent::Received(Ok(())),
        ) == (ClientPhase::Forwarding, ConnectionRequest::Forward),
        after_rate(ClientPhase::Limiting, true) == (
            ClientPhase::Forwarding,
            ConnectionRequest::Forward,
        ),
{
}

/// The moves of a request that is served: it is received, accepted where requests are limited,
/// forwarded and answered, and the response is sent.
pub open spec fn served(limited: bool) -> Seq<Move> {
    let received = seq![Move::Event(ConnectionEvent::Received(Ok(())))];
    let accepted = if limited {
        seq![Move::Rate(true)]
    } else {
        seq![]
    };
    received + accepted + seq![
        Move::Event(ConnectionEvent::Forwarded(true)),
        Move::Event(ConnectionEvent::Answered(true)),
        Move::Event(ConnectionEvent::Responded),
    ]
}

/// What is asked for, move by move, on a connection in this phase.
pub open spec fn asked(limited: bool, phase: ClientPhase, moves: Seq<Move>) -> Seq<ConnectionRequest>
    decreases moves.len(),
{
    if moves.len() == 0 {
        seq![]
    } else {
        let (next, request) = after_move(limited, phase, moves[0]);
        seq![request] + asked(limited, next, moves.skip(1))
    }
}

proof fn lemma_asked(limited: bool, phase: ClientPhase, step: Move, rest: Seq<Move>)
    ensures
        asked(limited, phase, seq![step] + rest) == seq![after_move(limited, phase, step).1]
            + asked(limited, after_move(limited, phase, step).0, rest),
{
    assert((seq![step] + rest).skip(1) =~= rest);
}

/// With or without a limit, a request that is forwarded and that the upstream answers is answered by
/// that response, and by nothing else; then the next request is received.
pub proof fn law_answered_request_gets_the_response(limited: bool)
    ensures
        asked(limited, ClientPhase::Receiving, served(limited)) == (if limited {
            seq![ConnectionRequest::CheckRate]
        } else {
            seq![]
        }) + seq![
            ConnectionRequest::Forward,
            ConnectionRequest::ReceiveResponse,
            ConnectionRequest::SendResponse,
            ConnectionRequest::ReceiveRequest,
        ],
{
    let end = Seq::<Move>::empty();
    let responded = Move::Event(ConnectionEvent::Responded);
    let answered = Move::Event(ConnectionEvent::Answered(true));
    let forwarded = Move::Event(ConnectionEvent::Forwarded(true));
    let received = Move::Event(ConnectionEvent::Received(Ok(())));
    lemma_asked(limited, ClientPhase::Responding { close: false }, responded, end);
    let rest3 = seq![responded] + end;
    lemma_asked(limited, ClientPhase::Awaiting, answered, rest3);
    let rest2 = seq![answered] + rest3;
    lemma_asked(limited, ClientPhase::Forwarding, forwarded, rest2);
    let rest1 = seq![forwarded] + rest2;
    if limited {
        lemma_asked(limited, ClientPhase::Limiting, Move::Rate(true), rest1);
        let rest0 = seq![Move::Rate(true)] + rest1;
        lemma_asked(limited, ClientPhase::Receiving, received, rest0);
        assert(served(limited) =~= seq![received] + rest0);
    } else {
        lemma_asked(limited, ClientPhase::Receiving, received, rest1);
        assert(served(limited) =~= seq![received] + rest1);
    }
    assert(asked(limited, ClientPhase::Receiving, served(limited)) =~= (if limited {
        seq![ConnectionRequest::CheckRate]
    } else {
        seq![]
    }) + seq![
        ConnectionRequest::Forward,
        ConnectionRequest::ReceiveResponse,
        ConnectionRequest::SendResponse,
        ConnectionRequest::ReceiveRequest,
    ]);
}

/// A response is sent on to the client exactly when the upstream has answered a request that is
/// waited for; the upstream's response is read exactly when such a request could be forwarded.
pub proof fn law_responses_come_from_the_upstream(limited: bool, phase: ClientPhase, step: Move)
    ensures
        after_move(limited, phase, step).1 == ConnectionRequest::SendResponse <==> phase
            == ClientPhase::Awaiting && step == Move::Event(ConnectionEvent::Answered(true)),
        after_move(limited, phase, step).1 == ConnectionRequest::ReceiveResponse <==> phase
            == ClientPhase::Forwarding && step == Move::Event(ConnectionEvent::Forwarded(true)),
        after_move(limited, phase, step).0 == ClientPhase::Awaiting ==> after_move(
            limited,
            phase,
            step,
        ).1 == ConnectionRequest::ReceiveResponse,
{
}

/// The client is told 502 exactly when the upstream failed: when it could not be sent the request or
/// gave no response, or when none took the connection. The connection is then closed.
pub proof fn law_bad_gateway_means_the_upstream_failed(
    limited: bool,
    phase: ClientPhase,
    step: Move,
)
    requires
        phase matches ClientPhase::Dialing(search) ==> search.wf(),
    ensures
        after_move(limited, phase, step) == (
            ClientPhase::Responding { close: true },
            ConnectionRequest::SendError { status: 502 },
        ) <==> {
            ||| phase == ClientPhase::Forwarding && step == Move::Event(
                ConnectionEvent::Forwarded(false),
            )
            ||| phase == ClientPhase::Awaiting && step == Move::Event(
                ConnectionEvent::Answered(false),
            )
            ||| phase matches ClientPhase::Dialing(search) && step == Move::Event(
                ConnectionEvent::Connected(false),
            ) && (search.current + 1) as int % search.len as int == search.start
        },
        after_move(limited, phase, step).1 == (ConnectionRequest::SendError { status: 502 })
            ==> after_move(limited, phase, step).0 == (ClientPhase::Responding { close: true }),
        after_event(
            limited,
            ClientPhase::Responding { close: true },
            ConnectionEvent::Responded,
        ) == (ClientPhase::Closed, ConnectionRequest::Close),
{
    if let ClientPhase::Dialing(search) = phase {
        vstd::arithmetic::div_mod::lemma_mod_bound(search.current + 1, search.len as int);
    }
}

/// A request that could not be read is answered by what was wrong with it, and the connection is
/// kept; but where the client is gone the connection is closed without a word.
pub proof fn law_unreadable_request_is_answered_by_its_error(limited: bool, bytes: usize)
    ensures
        ({
            let told = |error: RequestError|
                after_event(
                    limited,
                    ClientPhase::Receiving,
                    ConnectionEvent::Received(Err(error)),
                );
            let kept = ClientPhase::Responding { close: false };
            let closed = (ClientPhase::Closed, ConnectionRequest::Close);
            let bad = (kept, ConnectionRequest::SendError { status: 400 });
            &&& told(RequestError::IncompleteRequest(0)) == closed
            &&& told(RequestError::ConnectionError) == closed
            &&& bytes > 0 ==> told(RequestError::IncompleteRequest(bytes)) == bad
            &&& told(RequestError::MalformedRequest) == bad
            &&& told(RequestError::InvalidContentLength) == bad
            &&& told(RequestError::ContentLengthMismatch) == bad
            &&& told(RequestError::RequestBodyTooLarge) == (
                kept,
                ConnectionRequest::SendError { status: 413 },
            )
            &&& error_status(RequestError::ConnectionError) == 503
            &&& error_status(RequestError::IncompleteRequest(bytes)) == 400
        }),
{
}

/// The choice of an upstream: one that is marked inactive is passed over, any other is dialed; one
/// that takes the connection gets the requests, and after one that does not, the next is looked at,
/// unless that is where the search began.
pub proof fn law_upstreams_are_dialed_in_turn(limited: bool, search: Search, flags: Seq<u8>)
    requires
        search.wf(),
        flags.len() == search.len,
    ensures
        ({
            let next = (search.current + 1) as int % search.len as int;
            let further = Search { len: search.len, start: search.start, current: next as usize };
            let choosing = ClientPhase::Choosing(search);
            let dialing = ClientPhase::Dialing(search);
            &&& flags[search.current as int] == 0 ==> after_flags(choosing, flags) == (
                ClientPhase::Choosing(further),
                ConnectionRequest::CheckFlags,
            )
            &&& flags[search.current as int] != 0 ==> after_flags(choosing, flags) == (
                dialing,
                ConnectionRequest::Connect { ix: search.current },
            )
            &&& after_event(limited, dialing, ConnectionEvent::Connected(true)) == (
                ClientPhase::Receiving,
                ConnectionRequest::ReceiveRequest,
            )
            &&& next != search.start ==> after_event(
                limited,
                dialing,
                ConnectionEvent::Connected(false),
            ) == (ClientPhase::Choosing(further), ConnectionRequest::CheckFlags)
        }),
{
}

/// Anything that comes out of turn ends the connection: each phase takes the outcome of what it asked
/// for, and nothing else.
pub proof fn law_connection_takes_what_it_asked_for(
    limited: bool,
    phase: ClientPhase,
    event: ConnectionEvent,
    flags: Seq<u8>,
    accepted: bool,
)
    ensures
        ({
            let abort = (ClientPhase::Closed, ConnectionRequest::Abort);
            let expected = match phase {
                ClientPhase::Dialing(_) => event is Connected,
                ClientPhase::Receiving => event is Received,
                ClientPhase::Forwarding => event is Forwarded,
                ClientPhase::Awaiting => event is Answered,
                ClientPhase::Responding { close: _ } => event is Responded,
                _ => false,
            };
            &&& after_event(limited, phase, event) == abort <==> !expected
            &&& after_flags(phase, flags) == abort <==> !(phase is Choosing)
            &&& after_rate(phase, accepted) == abort <==> !(phase is Limiting)
        }),
{
}

/// A connection asks the rate limiter exactly where the rate limiter can refuse.
pub proof fn law_connection_is_limited_where_the_limiter_can_refuse(max: usize)
    ensures
        limits(max) <==> exists|window: Option<Window>, now: u128|
            !#[trigger] admits(max, window, now),
        limits(max) <==> max >= 1,
{
    if max >= 1 {
        assert(!admits(max, Some(Window { start: 0, count: max }), 0));
    }
}

/// The upstream is told the client's address under the name `x-forwarded-for`.
pub proof fn law_client_address_is_forwarded(client_ip: Seq<char>)
    ensures
        forwarding(client_ip).0.len() == 15,
        forwarding(client_ip).0 == seq!['x', '-', 'f', 'o', 'r', 'w', 'a', 'r', 'd', 'e', 'd', '-']
            + seq!['f', 'o', 'r'],
        forwarding(client_ip).1 == client_ip,
{
    reveal_strlit("x-forwarded-for");
    assert("x-forwarded-for"@ =~= seq![
        'x',
        '-',
        'f',
        'o',
        'r',
        'w',
        'a',
        'r',
        'd',
        'e',
        'd',
        '-',
    ] + seq!['f', 'o', 'r']);
}

/// A request is forwarded when its client has room or a new window, and is answered 429 exactly when
/// its client's window is full and not yet over. The client's address and its limit stay, and no
/// other client's window is touched.
pub proof fn law_full_window_is_answered_429(
    pre: Connection,
    before: RateLimiter,
    now: u128,
    after: RateLimiter,
    post: Connection,
    next: ConnectionRequest,
    other: Seq<char>,
)
    requires
        pre.phase is Limiting,
        pre.asks_the_limiter(before, now, after, post, next),
        other != pre.client_ip@,
    ensures
        ({
            let max = before.max_requests_per_minute;
            let windows = before.ip_request_count@;
            let ip = pre.client_ip@;
            let full = max > 0 && windows.contains_key(ip) && windows[ip].count >= max && now
                < windows[ip].start + 60_000_000_000;
            &&& full ==> next == (ConnectionRequest::SendErrorQuietly { status: 429 })
                && post.phase == (ClientPhase::Responding { close: false })
                && after.ip_request_count@ == windows
            &&& !full ==> next == ConnectionRequest::Forward && post.phase is Forwarding
            &&& post.client_ip == pre.client_ip && post.limited == pre.limited
            &&& after.max_requests_per_minute == max
            &&& window_of(after.ip_request_count@, other) == window_of(windows, other)
        }),
{
    let accepted = choose|accepted: bool|
        {
            &&& #[trigger] before.decides(pre.client_ip@, now, accepted, after)
            &&& pre.moves(after_rate(pre.phase, accepted), post, next)
        };
    law_limiter_decides(before, pre.client_ip@, now, accepted, after);
}

/// A turn changes what the connection waits for, and nothing else: which client it serves, and
/// whether its requests are limited, stay.
pub proof fn law_connection_keeps_its_client(
    pre: Connection,
    event: ConnectionEvent,
    flags: Seq<u8>,
    post: Connection,
    next: ConnectionRequest,
)
    requires
        pre.takes_event(event, post, next) || pre.looks_at(flags, post, next),
    ensures
        post.client_ip == pre.client_ip,
        post.limited == pre.limited,
{
}

/// A request that is received is forwarded at once where requests are not limited, and else goes to
/// the rate limiter. Once it is to be forwarded, limited or not, and the upstream takes and answers
/// it, the upstream's response is read and sent, and the next request is received.
pub proof fn law_connection_serves_a_request(
    received: Connection,
    c1: Connection,
    forwarding: Connection,
    c2: Connection,
    c3: Connection,
    c4: Connection,
    r1: ConnectionRequest,
    r2: ConnectionRequest,
    r3: ConnectionRequest,
    r4: ConnectionRequest,
)
    requires
        received.phase is Receiving,
        received.takes_event(ConnectionEvent::Received(Ok(())), c1, r1),
        forwarding.phase is Forwarding,
        forwarding.takes_event(ConnectionEvent::Forwarded(true), c2, r2),
        c2.takes_event(ConnectionEvent::Answered(true), c3, r3),
        c3.takes_event(ConnectionEvent::Responded, c4, r4),
    ensures
        received.limited ==> r1 == ConnectionRequest::CheckRate && c1.phase is Limiting,
        !received.limited ==> r1 == ConnectionRequest::Forward && c1.phase is Forwarding,
        r2 == ConnectionRequest::ReceiveResponse,
        r3 == ConnectionRequest::SendResponse,
        r4 == ConnectionRequest::ReceiveRequest,
        c4.phase is Receiving,
        c4.client_ip == forwarding.client_ip,
{
}

/// A connection begins with a look at the upstream where its search stands, which it dials at once if
/// that is marked active. It serves the client that came, under the limit that is set.
pub proof fn law_connection_begins_with_its_search(
    client_ip: Seq<char>,
    max: usize,
    search: Search,
    turn: (Connection, ConnectionRequest),
    flags: Seq<u8>,
)
    requires
        begins(client_ip, max, search, turn),
        search.wf(),
        flags.len() == search.len,
        flags[search.current as int] != 0,
    ensures
        turn.1 == ConnectionRequest::CheckFlags,
        after_flags(turn.0.phase, flags).1 == (ConnectionRequest::Connect { ix: search.current }),
        turn.0.client_ip@ == client_ip,
        turn.0.limited <==> max > 0,
{
}

} // verus!
