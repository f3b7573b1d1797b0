use systems_toolkit::balancebeam::connection::{
    handle_connection, status_of, ClientPhase, Connection, ConnectionEvent, ConnectionRequest,
    RequestError,
};
use systems_toolkit::balancebeam::health::{
    probe, set_flag, HealthCheck, HealthEvent, HealthFault, HealthRequest,
};
use systems_toolkit::balancebeam::limiter::{RateLimiter, WINDOW_DURATION};
use systems_toolkit::balancebeam::proxy::{CmdOptions, ProxyState};
use systems_toolkit::balancebeam::upstream::{connect_to_upstream, Search};

const SECOND: u128 = 1_000_000_000;

#[test]
fn requests_are_limited_per_window() {
    assert_eq!(WINDOW_DURATION, 60 * SECOND);
    let mut limiter = RateLimiter::new(3);
    let times = [0, 1, 2, 3, 59];
    let accepted: Vec<bool> =
        times.iter().map(|t| limiter.accept("1.2.3.4", t * SECOND)).collect();
    assert_eq!(accepted, vec![true, true, true, false, false]);
    assert!(!limiter.accept("1.2.3.4", 60 * SECOND - 1));
    // The window is over after a minute.
    assert!(limiter.accept("1.2.3.4", 60 * SECOND));
    assert!(limiter.accept("1.2.3.4", 61 * SECOND));
    assert!(limiter.accept("1.2.3.4", 62 * SECOND));
    assert!(!limiter.accept("1.2.3.4", 63 * SECOND));
}

#[test]
fn a_minute_can_hold_twice_the_limit() {
    let mut limiter = RateLimiter::new(2);
    let times = [0, 59, 60, 61, 62];
    let accepted: Vec<bool> = times.iter().map(|t| limiter.accept("a", t * SECOND)).collect();
    assert_eq!(accepted, vec![true, true, true, true, false]);
}

#[test]
fn clients_are_limited_apart() {
    let mut limiter = RateLimiter::new(1);
    assert!(limiter.accept("a", 5));
    assert!(!limiter.accept("a", 6));
    assert!(limiter.accept("b", 6));
    assert!(!limiter.accept("b", 7));
}

#[test]
fn without_a_limit_nothing_is_counted() {
    let mut limiter = RateLimiter::new(0);
    for t in 0..1000 {
        assert!(limiter.accept("a", t));
    }
    assert!(limiter.ip_request_count.is_empty());
}

#[test]
fn a_clock_that_goes_back_opens_no_window() {
    let mut limiter = RateLimiter::new(1);
    assert!(limiter.accept("a", 100 * SECOND));
    assert!(!limiter.accept("a", 0));
}

#[test]
fn a_search_begins_at_any_upstream() {
    let mut seen = [false; 4];
    for _ in 0..400 {
        let search = connect_to_upstream(4);
        assert_eq!(search.len, 4);
        assert!(search.start < 4);
        assert_eq!(search.current, search.start);
        seen[search.start] = true;
    }
    assert_eq!(seen, [true; 4]);
    assert_eq!(connect_to_upstream(1), Search { len: 1, start: 0, current: 0 });
}

/// Searches among upstreams that do not change, and lists those that were tried.
fn search(start: usize, flags: Vec<u8>, takes: Vec<bool>) -> (Option<usize>, Vec<usize>) {
    let mut search = Search::starting_at(start, flags.len());
    let mut tried = Vec::new();
    loop {
        if let Some(ix) = search.look(&flags) {
            tried.push(ix);
            if takes[ix] {
                return (Some(ix), tried);
            }
            if search.refused() {
                return (None, tried);
            }
        }
    }
}

#[test]
fn the_first_usable_upstream_is_found() {
    assert_eq!(search(2, vec![1; 4], vec![true; 4]), (Some(2), vec![2]));
    assert_eq!(search(2, vec![1, 1, 0, 1], vec![true; 4]), (Some(3), vec![3]));
    assert_eq!(
        search(3, vec![0, 1, 1, 1], vec![true, false, true, false]),
        (Some(2), vec![3, 1, 2])
    );
}

#[test]
fn the_search_is_given_up_after_one_round() {
    assert_eq!(search(2, vec![1; 4], vec![false; 4]), (None, vec![2, 3, 0, 1]));
    assert_eq!(search(0, vec![1], vec![false]), (None, vec![0]));
}

#[test]
fn an_inactive_upstream_is_passed_over() {
    let mut search = Search::starting_at(1, 2);
    assert_eq!(search.look(&vec![0, 0]), None);
    assert_eq!(search.look(&vec![0, 0]), None);
    assert_eq!(search.current, 1);
    assert_eq!(search.look(&vec![0, 1]), Some(1));
}

#[test]
fn probes() {
    let probe = probe("/health", "10.0.0.1:80");
    assert_eq!(probe.method, "GET");
    assert_eq!(probe.uri, "/health");
    assert_eq!(probe.host, "10.0.0.1:80");
    assert!(probe.body.is_empty());
    assert_eq!(
        probe.host_header(),
        (String::from("Host"), String::from("10.0.0.1:80"))
    );
}

fn hosts(names: &[&str]) -> Vec<String> {
    names.iter().map(|n| n.to_string()).collect()
}

#[test]
fn a_round_of_health_checks() {
    let upstreams = hosts(&["a:1", "b:2", "c:3", "d:4"]);
    let mut flags = vec![0, 1, 1, 1];
    let (mut check, mut request) = HealthCheck::new(10);
    assert_eq!(request, HealthRequest::Tick { seconds: 10 });
    let mut log = Vec::new();
    let mut current = 0;
    let mut ticks = 0;
    while ticks < 2 {
        let event = match request {
            HealthRequest::Tick { seconds } => {
                assert_eq!(seconds, 10);
                ticks += 1;
                if ticks == 2 {
                    break;
                }
                HealthEvent::Ticked
            }
            HealthRequest::Connect { ix } => {
                current = ix;
                HealthEvent::Connected(ix != 1)
            }
            HealthRequest::Send { ix } => {
                assert_eq!(ix, current);
                HealthEvent::Sent(ix != 2)
            }
            HealthRequest::ReadStatus => {
                HealthEvent::Status(if current == 3 { None } else { Some(true) })
            }
            HealthRequest::Mark { ix, flag } => {
                set_flag(&mut flags, ix, flag);
                log.push((ix, flag));
                HealthEvent::Marked
            }
            HealthRequest::Abort(fault) => panic!("{:?}", fault),
        };
        let turn = check.step("/", &upstreams, event);
        check = turn.0;
        request = turn.1;
    }
    assert_eq!(log, vec![(0, 1), (1, 0), (2, 0), (3, 0)]);
    assert_eq!(flags, vec![1, 0, 0, 0]);
}

#[test]
fn a_status_that_is_not_success_marks_inactive() {
    let upstreams = hosts(&["a:1"]);
    let (check, _) = HealthCheck::new(1);
    let (check, _) = check.step("/", &upstreams, HealthEvent::Ticked);
    let (check, _) = check.step("/", &upstreams, HealthEvent::Connected(true));
    let (check, _) = check.step("/", &upstreams, HealthEvent::Sent(true));
    let (_, request) = check.step("/", &upstreams, HealthEvent::Status(Some(false)));
    assert_eq!(request, HealthRequest::Mark { ix: 0, flag: 0 });
}

#[test]
fn health_checks_need_a_period() {
    let (_, request) = HealthCheck::new(0);
    assert_eq!(request, HealthRequest::Abort(HealthFault::ZeroPeriod));
}

#[test]
fn health_checks_need_requests() {
    let (check, _) = HealthCheck::new(1);
    for (path, host, accepted) in [
        ("/", "a:1", true),
        ("/health?x=1", "a:1", true),
        ("not a uri", "a:1", false),
        ("", "a:1", false),
        ("/", "bad\nhost", false),
    ] {
        let (_, request) = check.step(path, &hosts(&[host]), HealthEvent::Ticked);
        let expected = if accepted {
            HealthRequest::Connect { ix: 0 }
        } else {
            HealthRequest::Abort(HealthFault::BadProbe)
        };
        assert_eq!(request, expected);
        assert_eq!(check.approach(0, accepted).1, expected);
    }
    let (_, request) = check.step("/", &hosts(&["a:1"]), HealthEvent::Marked);
    assert_eq!(request, HealthRequest::Abort(HealthFault::OutOfTurn));
}

#[test]
fn statuses_of_errors() {
    assert_eq!(status_of(RequestError::IncompleteRequest(5)), 400);
    assert_eq!(status_of(RequestError::MalformedRequest), 400);
    assert_eq!(status_of(RequestError::InvalidContentLength), 400);
    assert_eq!(status_of(RequestError::ContentLengthMismatch), 400);
    assert_eq!(status_of(RequestError::RequestBodyTooLarge), 413);
    assert_eq!(status_of(RequestError::ConnectionError), 503);
}

/// A connection whose upstream has been found.
fn connected(max: usize) -> Connection {
    let (mut connection, request) =
        handle_connection("9.9.9.9", max, Search::starting_at(0, 2));
    assert_eq!(request, ConnectionRequest::CheckFlags);
    assert_eq!(connection.check_flags(&vec![0, 1]), ConnectionRequest::CheckFlags);
    assert_eq!(connection.check_flags(&vec![0, 1]), ConnectionRequest::Connect { ix: 1 });
    let request = connection.step(ConnectionEvent::Connected(true));
    assert_eq!(request, ConnectionRequest::ReceiveRequest);
    connection
}

#[test]
fn a_request_is_forwarded_and_answered() {
    let mut connection = connected(0);
    for _ in 0..2 {
        assert_eq!(
            connection.step(ConnectionEvent::Received(Ok(()))),
            ConnectionRequest::Forward
        );
        assert_eq!(
            connection.forwarding_header(),
            (String::from("x-forwarded-for"), String::from("9.9.9.9"))
        );
        assert_eq!(
            connection.step(ConnectionEvent::Forwarded(true)),
            ConnectionRequest::ReceiveResponse
        );
        assert_eq!(
            connection.step(ConnectionEvent::Answered(true)),
            ConnectionRequest::SendResponse
        );
        assert_eq!(
            connection.step(ConnectionEvent::Responded),
            ConnectionRequest::ReceiveRequest
        );
    }
    let gone = ConnectionEvent::Received(Err(RequestError::IncompleteRequest(0)));
    assert_eq!(connection.step(gone), ConnectionRequest::Close);
    assert_eq!(connection.phase, ClientPhase::Closed);
}

#[test]
fn a_refused_request_is_answered_429() {
    let mut connection = connected(1);
    let mut limiter = RateLimiter::new(1);
    assert_eq!(connection.step(ConnectionEvent::Received(Ok(()))), ConnectionRequest::CheckRate);
    assert_eq!(connection.check_rate(&mut limiter, 0), ConnectionRequest::Forward);
    connection.step(ConnectionEvent::Forwarded(true));
    connection.step(ConnectionEvent::Answered(true));
    connection.step(ConnectionEvent::Responded);
    assert_eq!(connection.step(ConnectionEvent::Received(Ok(()))), ConnectionRequest::CheckRate);
    assert_eq!(
        connection.check_rate(&mut limiter, 1),
        ConnectionRequest::SendErrorQuietly { status: 429 }
    );
    assert_eq!(connection.step(ConnectionEvent::Responded), ConnectionRequest::ReceiveRequest);
}

#[test]
fn a_bad_request_is_answered_and_the_connection_kept() {
    let mut connection = connected(0);
    for (error, status) in [
        (RequestError::IncompleteRequest(1), 400),
        (RequestError::MalformedRequest, 400),
        (RequestError::RequestBodyTooLarge, 413),
    ] {
        assert_eq!(
            connection.step(ConnectionEvent::Received(Err(error))),
            ConnectionRequest::SendError { status }
        );
        assert_eq!(
            connection.step(ConnectionEvent::Responded),
            ConnectionRequest::ReceiveRequest
        );
    }
    let broken = ConnectionEvent::Received(Err(RequestError::ConnectionError));
    assert_eq!(connection.step(broken), ConnectionRequest::Close);
}

#[test]
fn a_failing_upstream_is_a_bad_gateway() {
    let mut connection = connected(0);
    connection.step(ConnectionEvent::Received(Ok(())));
    assert_eq!(
        connection.step(ConnectionEvent::Forwarded(false)),
        ConnectionRequest::SendError { status: 502 }
    );
    assert_eq!(connection.step(ConnectionEvent::Responded), ConnectionRequest::Close);

    let mut connection = connected(0);
    connection.step(ConnectionEvent::Received(Ok(())));
    connection.step(ConnectionEvent::Forwarded(true));
    assert_eq!(
        connection.step(ConnectionEvent::Answered(false)),
        ConnectionRequest::SendError { status: 502 }
    );
    assert_eq!(connection.step(ConnectionEvent::Responded), ConnectionRequest::Close);
}

#[test]
fn no_upstream_is_a_bad_gateway() {
    let (mut connection, _) = handle_connection("9.9.9.9", 0, Search::starting_at(1, 2));
    let flags = vec![1, 1];
    assert_eq!(connection.check_flags(&flags), ConnectionRequest::Connect { ix: 1 });
    assert_eq!(
        connection.step(ConnectionEvent::Connected(false)),
        ConnectionRequest::CheckFlags
    );
    assert_eq!(connection.check_flags(&flags), ConnectionRequest::Connect { ix: 0 });
    assert_eq!(
        connection.step(ConnectionEvent::Connected(false)),
        ConnectionRequest::SendError { status: 502 }
    );
    assert_eq!(connection.step(ConnectionEvent::Responded), ConnectionRequest::Close);
    assert_eq!(connection.step(ConnectionEvent::Responded), ConnectionRequest::Abort);
}

fn options(upstream: &[&str]) -> CmdOptions {
    CmdOptions {
        bind: String::from("0.0.0.0:1100"),
        upstream: hosts(upstream),
        active_health_check_interval: 7,
        active_health_check_path: String::from("/"),
        max_requests_per_minute: 5,
    }
}

#[test]
fn the_shared_state() {
    assert!(ProxyState::new(options(&[])).is_none());
    match ProxyState::new(options(&["a:1", "b:2"])) {
        Some(state) => {
            assert_eq!(state.upstream_addresses, vec!["a:1", "b:2"]);
            assert_eq!(state.flags, vec![1, 1]);
            assert_eq!(state.active_health_check_interval, 7);
            assert_eq!(state.active_health_check_path, "/");
            assert_eq!(state.max_requests_per_minute, 5);
            assert_eq!(state.limiter.max_requests_per_minute, 5);
        }
        None => panic!("no state"),
    }
}

#[test]
fn inactive_upstreams_are_not_tried() {
    assert_eq!(search(0, vec![1, 0, 1], vec![false; 3]), (None, vec![0, 2]));
    assert_eq!(search(1, vec![1, 0, 0], vec![false; 3]), (None, vec![0]));
}

#[test]
fn a_search_goes_on_past_an_inactive_last_upstream() {
    let flags = vec![1, 1, 0];
    let mut search = Search::starting_at(0, 3);
    let mut tried = Vec::new();
    for _ in 0..9 {
        if let Some(ix) = search.look(&flags) {
            tried.push(ix);
            assert!(!search.refused());
        }
    }
    assert_eq!(tried, vec![0, 1, 0, 1, 0, 1]);
}

#[test]
fn a_window_counts_what_was_admitted() {
    let mut limiter = RateLimiter::new(2);
    let window = |limiter: &RateLimiter| match limiter.ip_request_count.get("a") {
        Some(window) => (window.start / SECOND, window.count),
        None => panic!("no window"),
    };
    let expected = [
        (3, (3, 1)),
        (4, (3, 2)),
        (5, (3, 2)),
        (63, (63, 1)),
        (63, (63, 2)),
        (64, (63, 2)),
    ];
    for (time, state) in expected {
        limiter.accept("a", time * SECOND);
        assert_eq!(window(&limiter), state);
    }
}

#[test]
fn a_search_amid_changing_marks_overlooks_none() {
    let mut search = Search::starting_at(1, 3);
    assert_eq!(search.look(&vec![0, 1, 0]), Some(1));
    assert!(!search.refused());
    assert_eq!(search.look(&vec![1, 1, 0]), None);
    assert_eq!(search.look(&vec![1, 0, 1]), Some(0));
    assert!(search.refused());
}

#[test]
fn a_connection_dials_what_the_search_finds() {
    let flags = vec![0, 1, 1, 1];
    let takes = vec![true, true, false, false];
    for start in 0..4 {
        let (found, _) = search(start, flags.clone(), takes.clone());
        let (mut connection, mut request) =
            handle_connection("9.9.9.9", 0, Search::starting_at(start, 4));
        let mut dialed = None;
        while request != ConnectionRequest::ReceiveRequest {
            request = match request {
                ConnectionRequest::CheckFlags => connection.check_flags(&flags),
                ConnectionRequest::Connect { ix } => {
                    dialed = Some(ix);
                    connection.step(ConnectionEvent::Connected(takes[ix]))
                }
                other => panic!("{:?}", other),
            };
        }
        assert_eq!(dialed, found);
        assert_eq!(dialed, Some(1));
    }
}
