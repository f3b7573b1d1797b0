//! The state that all connections share.

use crate::balancebeam::health::ACTIVE;
use crate::balancebeam::limiter::{admits, window_of, RateLimiter, Window};
use crate::balancebeam::upstream::{search_end, Found, Search};
use vstd::prelude::*;

verus! {

/// What the load balancer is told when it is started.
#[derive(PartialEq, Eq, Debug)]
pub struct CmdOptions {
    /// IP/port to bind to.
    pub bind: String,
    /// Upstream hosts to forward requests to.
    pub upstream: Vec<String>,
    /// Perform active health checks on this interval (in seconds).
    pub active_health_check_interval: usize,
    /// Path to send request to for active health checks.
    pub active_health_check_path: String,
    /// Maximum number of requests to accept per IP per minute (0 = unlimited).
    pub max_requests_per_minute: usize,
}

/// What servers there are, which of them have failed, and what the clients have requested.
pub struct ProxyState {
    pub active_health_check_interval: usize,
    pub active_health_check_path: String,
    pub max_requests_per_minute: usize,
    /// Addresses of the servers.
    pub upstream_addresses: Vec<String>,
    /// For each server, whether it is marked active.
    pub flags: Vec<u8>,
    pub limiter: RateLimiter,
}

impl ProxyState {
    /// There is a server, and each one has a mark.
    pub open spec fn wf(self) -> bool {
        &&& self.upstream_addresses.len() > 0
        &&& self.flags.len() == self.upstream_addresses.len()
        &&& self.limiter.max_requests_per_minute == self.max_requests_per_minute
    }

    /// The state as the options ask for it, before anything has happened.
    pub open spec fn fresh(self, options: CmdOptions) -> bool {
        &&& self.wf()
        &&& self.active_health_check_interval == options.active_health_check_interval
        &&& self.active_health_check_path == options.active_health_check_path
        &&& self.max_requests_per_minute == options.max_requests_per_minute
        &&& self.upstream_addresses == options.upstream
        &&& forall|i: int| 0 <= i < self.flags.len() ==> #[trigger] self.flags@[i] == ACTIVE
        &&& self.limiter.ip_request_count@ == Map::<Seq<char>, Window>::empty()
    }

    /// Sets up the state. There must be at least one server; all are marked active at first.
    pub fn new(options: CmdOptions) -> (state: Option<ProxyState>)
        ensures
            state is None <==> options.upstream.len() == 0,
            state matches Some(state) ==> state.fresh(options),
            state matches Some(state) ==> {
                &&& state.wf()
                &&& state.active_health_check_interval == options.active_health_check_interval
                &&& state.active_health_check_path == options.active_health_check_path
                &&& state.max_requests_per_minute == options.max_requests_per_minute
                &&& state.upstream_addresses == options.upstream
                &&& forall|i: int| 0 <= i < state.flags.len() ==> #[trigger] state.flags@[i] == ACTIVE
                &&& state.limiter.ip_request_count@.is_empty()
            },
    {
        let len: usize = options.upstream.len();
        if len < 1 {
            return None;
        }
        let mut flags: Vec<u8> = Vec::new();
        while flags.len() < len
            invariant
                flags.len() <= len,
                forall|i: int| 0 <= i < flags.len() ==> #[trigger] flags@[i] == ACTIVE,
            decreases len - flags.len(),
        {
            flags.push(ACTIVE);
        }
        Some(
            ProxyState {
                active_health_check_interval: options.active_health_check_interval,
                active_health_check_path: options.active_health_check_path,
                max_requests_per_minute: options.max_requests_per_minute,
                upstream_addresses: options.upstream,
                flags,
                limiter: RateLimiter::new(options.max_requests_per_minute),
            },
        )
    }
}

/// In the beginning every upstream is tried: a search finds the upstream where it starts, whichever
/// that is, as soon as that one takes a connection.
pub proof fn law_every_upstream_is_tried_at_first(
    state: ProxyState,
    options: CmdOptions,
    start: usize,
    takes: spec_fn(int) -> bool,
)
    requires
        state.fresh(options),
        start < options.upstream.len(),
        takes(start as int),
    ensures
        search_end(
            Search { len: options.upstream.len(), start, current: start },
            state.flags@,
            takes,
            1,
        ) == Some(Found::Upstream(start as int)),
        state.flags.len() == options.upstream.len(),
        state.flags@[start as int] == 1,
{
}

/// In the beginning every client is admitted, and the limiter has the limit of the options.
pub proof fn law_every_client_is_admitted_at_first(
    state: ProxyState,
    options: CmdOptions,
    ip: Seq<char>,
    now: u128,
)
    requires
        state.fresh(options),
    ensures
        state.limiter.max_requests_per_minute == options.max_requests_per_minute,
        state.max_requests_per_minute == options.max_requests_per_minute,
        window_of(state.limiter.ip_request_count@, ip) is None,
        admits(
            state.limiter.max_requests_per_minute,
            window_of(state.limiter.ip_request_count@, ip),
            now,
        ),
{
}

/// The upstreams, the health checks and their path are those of the options.
pub proof fn law_state_is_as_the_options_say(state: ProxyState, options: CmdOptions)
    requires
        state.fresh(options),
    ensures
        state.upstream_addresses@ == options.upstream@,
        state.active_health_check_interval == options.active_health_check_interval,
        state.active_health_check_path@ == options.active_health_check_path@,
{
}

} // verus!
