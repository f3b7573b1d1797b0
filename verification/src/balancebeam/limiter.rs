//! How many requests a client may make.

use vstd::hash_map::StringHashMap;
use vstd::prelude::*;

verus! {

/// The length of the window in which requests are counted, in nanoseconds: one minute.
pub const WINDOW_DURATION: u128 = 60_000_000_000;

/// A client's current window.
#[derive(Clone, Copy, PartialEq, Eq, Debug)]
pub struct Window {
    /// When it began, in nanoseconds on a clock that does not go back.
    pub start: u128,
    /// How many requests were admitted in it.
    pub count: usize,
}

/// How long after `start` it is at `now`.
pub open spec fn elapsed(start: u128, now: u128) -> int {
    if now >= start {
        now - start
    } else {
        0
    }
}

/// A request is admitted: any number of them where there is no limit; else where the client's
/// window is over, or holds fewer than `max` requests.
pub open spec fn admits(max: usize, window: Option<Window>, now: u128) -> bool {
    ||| max == 0
    ||| window is None
    ||| elapsed(window->0.start, now) >= WINDOW_DURATION
    ||| window->0.count < max
}

/// The client's window after a request. Where there is no limit, no windows are kept.
pub open spec fn next_window(max: usize, window: Option<Window>, now: u128) -> Option<Window> {
    if max == 0 {
        window
    } else {
        match window {
            None => Some(Window { start: now, count: 1 }),
            Some(Window { start, count }) => if elapsed(start, now) >= WINDOW_DURATION {
                Some(Window { start: now, count: 1 })
            } else if count < max {
                Some(Window { start, count: (count + 1) as usize })
            } else {
                Some(Window { start, count })
            },
        }
    }
}

/// The window of a client in a table of windows.
pub open spec fn window_of(windows: Map<Seq<char>, Window>, ip: Seq<char>) -> Option<Window> {
    if windows.contains_key(ip) {
        Some(windows[ip])
    } else {
        None
    }
}

/// The table of windows after a request by `ip`.
pub open spec fn after_request(
    max: usize,
    windows: Map<Seq<char>, Window>,
    ip: Seq<char>,
    now: u128,
) -> Map<Seq<char>, Window> {
    match next_window(max, window_of(windows, ip), now) {
        Some(window) => windows.insert(ip, window),
        None => windows,
    }
}

/// Counts the requests of each client in fixed windows of a minute.
pub struct RateLimiter {
    /// Maximum number of requests to accept per client and window (0 = unlimited).
    pub max_requests_per_minute: usize,
    pub ip_request_count: StringHashMap<Window>,
}

impl RateLimiter {
    /// A limiter that has seen no request yet.
    pub fn new(max_requests_per_minute: usize) -> (limiter: RateLimiter)
        ensures
            limiter.max_requests_per_minute == max_requests_per_minute,
            limiter.ip_request_count@ == Map::<Seq<char>, Window>::empty(),
    {
        RateLimiter { max_requests_per_minute, ip_request_count: StringHashMap::new() }
    }

    /// The limiter decides on a request from `ip` at `now`, and is `post` after that.
    pub open spec fn decides(
        self,
        ip: Seq<char>,
        now: u128,
        admitted: bool,
        post: RateLimiter,
    ) -> bool {
        let max = self.max_requests_per_minute;
        let windows = self.ip_request_count@;
        &&& admitted == admits(max, window_of(windows, ip), now)
        &&& post.max_requests_per_minute == max
        &&& post.ip_request_count@ == after_request(max, windows, ip, now)
    }

    /// Decides whether a request that comes from `ip` at `now` is admitted, and counts it if so.
    pub fn accept(&mut self, ip: &str, now: u128) -> (admitted: bool)
        ensures
            old(self).decides(ip@, now, admitted, *final(self)),
            admitted == admits(
                old(self).max_requests_per_minute,
                window_of(old(self).ip_request_count@, ip@),
                now,
            ),
            final(self).max_requests_per_minute == old(self).max_requests_per_minute,
            final(self).ip_request_count@ == after_request(
                old(self).max_requests_per_minute,
                old(self).ip_request_count@,
                ip@,
                now,
            ),
    {
        let max: usize = self.max_requests_per_minute;
        if max == 0 {
            assert(after_request(max, self.ip_request_count@, ip@, now)
                =~= self.ip_request_count@);
            return true;
        }
        let window: Window = match self.ip_request_count.get(ip) {
            None => Window { start: now, count: 0 },
            Some(window) => *window,
        };
        let waited: u128 = if now >= window.start {
            now - window.start
        } else {
            0
        };
        if waited >= WINDOW_DURATION {
            self.ip_request_count.insert(ip.to_owned(), Window { start: now, count: 1 });
            true
        } else if window.count >= max {
            assert(after_request(max, self.ip_request_count@, ip@, now)
                =~= self.ip_request_count@);
            false
        } else {
            self.ip_request_count.insert(
                ip.to_owned(),
                Window { start: window.start, count: window.count + 1 },
            );
            true
        }
    }
}

/// A request as the limiter sees it.
pub struct Arrival {
    pub ip: Seq<char>,
    pub now: u128,
}

/// The table of windows after a row of requests.
pub open spec fn windows_after(
    max: usize,
    windows: Map<Seq<char>, Window>,
    arrivals: Seq<Arrival>,
) -> Map<Seq<char>, Window>
    decreases arrivals.len(),
{
    if arrivals.len() == 0 {
        windows
    } else {
        let before = windows_after(max, windows, arrivals.drop_last());
        after_request(max, before, arrivals.last().ip, arrivals.last().now)
    }
}

/// The last of a row of requests is admitted.
pub open spec fn last_admitted(
    max: usize,
    windows: Map<Seq<char>, Window>,
    arrivals: Seq<Arrival>,
) -> bool {
    let before = windows_after(max, windows, arrivals.drop_last());
    admits(max, window_of(before, arrivals.last().ip), arrivals.last().now)
}

/// How many of a row of requests come from `ip`.
pub open spec fn requests_of(arrivals: Seq<Arrival>, ip: Seq<char>) -> nat
    decreases arrivals.len(),
{
    if arrivals.len() == 0 {
        0
    } else {
        requests_of(arrivals.drop_last(), ip) + if arrivals.last().ip == ip {
            1nat
        } else {
            0
        }
    }
}

/// How many of a row of requests come from `ip` no earlier than `from` and are admitted.
pub open spec fn admitted_since(
    max: usize,
    windows: Map<Seq<char>, Window>,
    arrivals: Seq<Arrival>,
    ip: Seq<char>,
    from: int,
) -> nat
    decreases arrivals.len(),
{
    if arrivals.len() == 0 {
        0
    } else {
        admitted_since(max, windows, arrivals.drop_last(), ip, from) + if arrivals.last().ip == ip
            && arrivals.last().now >= from && last_admitted(max, windows, arrivals) {
            1nat
        } else {
            0
        }
    }
}

/// Within one window, exactly the first `max` requests of a client are admitted: of those that
/// follow when `count` have been admitted already, as many as are left.
pub proof fn law_window_admits_exactly_max(
    max: usize,
    windows: Map<Seq<char>, Window>,
    arrivals: Seq<Arrival>,
    ip: Seq<char>,
)
    requires
        max > 0,
        windows.contains_key(ip),
        windows[ip].count <= max,
        forall|i: int|
            0 <= i < arrivals.len() && (#[trigger] arrivals[i]).ip == ip ==> elapsed(
                windows[ip].start,
                arrivals[i].now,
            ) < WINDOW_DURATION,
    ensures
        ({
            let n = requests_of(arrivals, ip);
            let left = (max - windows[ip].count) as nat;
            let admitted = admitted_since(max, windows, arrivals, ip, 0);
            let table = windows_after(max, windows, arrivals);
            &&& admitted == if n <= left {
                n
            } else {
                left
            }
            &&& table.contains_key(ip)
            &&& table[ip] == Window {
                start: windows[ip].start,
                count: (windows[ip].count + admitted) as usize,
            }
        }),
    decreases arrivals.len(),
{
    if arrivals.len() > 0 {
        let shorter = arrivals.drop_last();
        assert forall|i: int| 0 <= i < shorter.len() && (#[trigger] shorter[i]).ip
            == ip implies elapsed(windows[ip].start, shorter[i].now) < WINDOW_DURATION by {
            assert(arrivals[i] == shorter[i]);
        }
        law_window_admits_exactly_max(max, windows, shorter, ip);
        assert(arrivals.last() == arrivals[arrivals.len() - 1]);
    }
}

/// Without a limit every request is admitted, and nothing is recorded.
pub proof fn law_no_limit_admits_everything(
    windows: Map<Seq<char>, Window>,
    arrivals: Seq<Arrival>,
    ip: Seq<char>,
)
    ensures
        admitted_since(0, windows, arrivals, ip, 0) == requests_of(arrivals, ip),
        windows_after(0, windows, arrivals) == windows,
    decreases arrivals.len(),
{
    if arrivals.len() > 0 {
        law_no_limit_admits_everything(windows, arrivals.drop_last(), ip);
        let ip = arrivals.last().ip;
        assert(after_request(0, windows, ip, arrivals.last().now) =~= windows);
    }
}

/// The requests of other clients have no bearing on a client's window.
pub proof fn law_clients_are_counted_apart(
    max: usize,
    windows: Map<Seq<char>, Window>,
    ip: Seq<char>,
    other: Seq<char>,
    now: u128,
)
    requires
        other != ip,
    ensures
        window_of(after_request(max, windows, other, now), ip) == window_of(windows, ip),
{
}

/// The clock does not go back.
pub open spec fn in_order(arrivals: Seq<Arrival>) -> bool {
    forall|i: int, j: int|
        0 <= i <= j < arrivals.len() ==> (#[trigger] arrivals[i]).now <= (
        #[trigger] arrivals[j]).now
}

/// Nothing has been admitted since a time that has not come yet.
proof fn lemma_none_admitted_yet(
    max: usize,
    windows: Map<Seq<char>, Window>,
    arrivals: Seq<Arrival>,
    ip: Seq<char>,
    from: int,
)
    requires
        forall|i: int| 0 <= i < arrivals.len() ==> (#[trigger] arrivals[i]).now < from,
    ensures
        admitted_since(max, windows, arrivals, ip, from) == 0,
    decreases arrivals.len(),
{
    if arrivals.len() > 0 {
        let shorter = arrivals.drop_last();
        assert forall|i: int| 0 <= i < shorter.len() implies (#[trigger] shorter[i]).now < from by {
            assert(arrivals[i] == shorter[i]);
        }
        lemma_none_admitted_yet(max, windows, shorter, ip, from);
        assert(arrivals[arrivals.len() - 1] == arrivals.last());
    }
}

proof fn lemma_admitted_in_a_minute(
    max: usize,
    arrivals: Seq<Arrival>,
    ip: Seq<char>,
    from: int,
)
    requires
        max > 0,
        in_order(arrivals),
        forall|i: int|
            0 <= i < arrivals.len() ==> (#[trigger] arrivals[i]).now < from + WINDOW_DURATION,
    ensures
        ({
            let empty = Map::<Seq<char>, Window>::empty();
            let admitted = admitted_since(max, empty, arrivals, ip, from);
            match window_of(windows_after(max, empty, arrivals), ip) {
                None => admitted == 0,
                Some(window) => {
                    &&& window.count <= max
                    &&& window.start < from ==> admitted <= window.count
                    &&& window.start >= from ==> admitted <= max + window.count
                },
            }
        }),
    decreases arrivals.len(),
{
    if arrivals.len() > 0 {
        let empty = Map::<Seq<char>, Window>::empty();
        let shorter = arrivals.drop_last();
        let last = arrivals.last();
        assert(arrivals[arrivals.len() - 1] == last);
        assert forall|i: int| 0 <= i < shorter.len() implies (#[trigger] shorter[i]).now < from
            + WINDOW_DURATION by {
            assert(arrivals[i] == shorter[i]);
        }
        assert(in_order(shorter)) by {
            assert forall|i: int, j: int| 0 <= i <= j < shorter.len() implies (
            #[trigger] shorter[i]).now <= (#[trigger] shorter[j]).now by {
                assert(arrivals[i].now <= arrivals[j].now);
            }
        }
        lemma_admitted_in_a_minute(max, shorter, ip, from);
        let before = windows_after(max, empty, shorter);
        if last.ip != ip {
            law_clients_are_counted_apart(max, before, ip, last.ip, last.now);
        } else if last.now < from {
            assert forall|i: int| 0 <= i < arrivals.len() implies (#[trigger] arrivals[i]).now
                < from by {
                assert(arrivals[i].now <= arrivals[arrivals.len() - 1].now);
            }
            lemma_none_admitted_yet(max, empty, arrivals, ip, from);
        }
    }
}

/// However a minute is placed, at most twice `max` requests of a client are admitted in it: no more
/// than `max` in a window that is already open when it begins, and no more than `max` in the one
/// that opens within it.
pub proof fn law_any_minute_admits_at_most_twice_max(
    max: usize,
    arrivals: Seq<Arrival>,
    ip: Seq<char>,
    from: int,
)
    requires
        max > 0,
        in_order(arrivals),
        forall|i: int|
            0 <= i < arrivals.len() ==> (#[trigger] arrivals[i]).now < from + WINDOW_DURATION,
    ensures
        admitted_since(max, Map::<Seq<char>, Window>::empty(), arrivals, ip, from) <= 2 * max,
{
    lemma_admitted_in_a_minute(max, arrivals, ip, from);
}

/// What holds of a client's window after a row of requests: it began no later than the last of
/// them, it has counted what was admitted since, and nothing was admitted that comes after its end.
spec fn counts_its_own(
    max: usize,
    arrivals: Seq<Arrival>,
    ip: Seq<char>,
    window: Window,
) -> bool {
    let empty = Map::<Seq<char>, Window>::empty();
    &&& arrivals.len() > 0 && window.start <= arrivals.last().now
    &&& 1 <= window.count <= max
    &&& window.count == admitted_since(max, empty, arrivals, ip, window.start as int)
    &&& forall|from: int|
        from >= window.start + WINDOW_DURATION ==> #[trigger] admitted_since(
            max,
            empty,
            arrivals,
            ip,
            from,
        ) == 0
}

proof fn lemma_window_counts_its_own(max: usize, arrivals: Seq<Arrival>, ip: Seq<char>)
    requires
        max > 0,
        in_order(arrivals),
    ensures
        match window_of(windows_after(max, Map::<Seq<char>, Window>::empty(), arrivals), ip) {
            None => forall|from: int| #[trigger]
                admitted_since(
                    max,
                    Map::<Seq<char>, Window>::empty(),
                    arrivals,
                    ip,
                    from,
                ) == 0,
            Some(window) => counts_its_own(max, arrivals, ip, window),
        },
    decreases arrivals.len(),
{
    if arrivals.len() > 0 {
        let empty = Map::<Seq<char>, Window>::empty();
        let shorter = arrivals.drop_last();
        let last = arrivals.last();
        assert(arrivals[arrivals.len() - 1] == last);
        assert(in_order(shorter)) by {
            assert forall|i: int, j: int| 0 <= i <= j < shorter.len() implies (
            #[trigger] shorter[i]).now <= (#[trigger] shorter[j]).now by {
                assert(arrivals[i].now <= arrivals[j].now);
            }
        }
        if shorter.len() > 0 {
            assert(shorter.last() == arrivals[arrivals.len() - 2]);
            assert(shorter.last().now <= last.now);
        }
        lemma_window_counts_its_own(max, shorter, ip);
        let before = windows_after(max, empty, shorter);
        assert forall|from: int| #[trigger]
            admitted_since(max, empty, arrivals, ip, from) == admitted_since(
                max,
                empty,
                shorter,
                ip,
                from,
            ) + (if last.ip == ip && last.now >= from && last_admitted(max, empty, arrivals) {
                1nat
            } else {
                0
            }) by {}
        if last.ip != ip {
            law_clients_are_counted_apart(max, before, ip, last.ip, last.now);
        }
    }
}

/// From an empty table on, and with a clock that does not go back, every window has counted at
/// least one request and at most `max`, and its count is exactly the number of the client's
/// requests that were admitted since it began.
pub proof fn law_window_counts_what_was_admitted(max: usize, arrivals: Seq<Arrival>, ip: Seq<char>)
    requires
        max > 0,
        in_order(arrivals),
    ensures
        ({
            let empty = Map::<Seq<char>, Window>::empty();
            window_of(windows_after(max, empty, arrivals), ip) matches Some(window) ==> {
                &&& 1 <= window.count <= max
                &&& window.count == admitted_since(
                    max,
                    empty,
                    arrivals,
                    ip,
                    window.start as int,
                )
            }
        }),
{
    lemma_window_counts_its_own(max, arrivals, ip);
}

/// The first request of a client is admitted, and opens a window that starts now with one request in
/// it. No other client's window changes.
pub proof fn law_first_request_opens_a_window(
    max: usize,
    windows: Map<Seq<char>, Window>,
    ip: Seq<char>,
    now: u128,
)
    requires
        max > 0,
        !windows.contains_key(ip),
    ensures
        admits(max, window_of(windows, ip), now),
        after_request(max, windows, ip, now) == windows.insert(ip, Window { start: now, count: 1 }),
{
}

/// A request that comes a minute or more after its client's window began is admitted, however long
/// after and however many there were, and opens a new window that starts now with one request in
/// it.
pub proof fn law_window_is_over_after_a_minute(
    max: usize,
    windows: Map<Seq<char>, Window>,
    ip: Seq<char>,
    now: u128,
)
    requires
        max > 0,
        windows.contains_key(ip),
        now >= windows[ip].start + 60_000_000_000,
    ensures
        admits(max, window_of(windows, ip), now),
        after_request(max, windows, ip, now) == windows.insert(ip, Window { start: now, count: 1 }),
{
}

/// Before its client's window is over, a request is admitted exactly when the window holds fewer than
/// `max`. One that is admitted is counted and moves nothing else; one that is not leaves no trace.
pub proof fn law_window_admits_while_there_is_room(
    max: usize,
    windows: Map<Seq<char>, Window>,
    ip: Seq<char>,
    now: u128,
)
    requires
        max > 0,
        windows.contains_key(ip),
        now < windows[ip].start + 60_000_000_000,
    ensures
        ({
            let Window { start, count } = windows[ip];
            let table = after_request(max, windows, ip, now);
            &&& admits(max, window_of(windows, ip), now) <==> count < max
            &&& count < max ==> table == windows.insert(
                ip,
                Window { start, count: (count + 1) as usize },
            )
            &&& count >= max ==> table == windows
        }),
{
    assert(windows.insert(ip, windows[ip]) =~= windows);
}

/// Only differences in time matter: if all clocks are put forward alike, the same requests are
/// admitted.
pub proof fn law_only_time_differences_matter(
    max: usize,
    window: Option<Window>,
    now: u128,
    shift: nat,
)
    requires
        now + shift <= u128::MAX,
        window matches Some(window) ==> window.start + shift <= u128::MAX,
    ensures
        admits(max, window, now) == admits(
            max,
            match window {
                Some(window) => Some(
                    Window { start: (window.start + shift) as u128, count: window.count },
                ),
                None => None,
            },
            (now + shift) as u128,
        ),
{
}

/// What the limiter decides, and what it remembers of that: without a limit it admits everything and
/// remembers nothing; with one, a client's first request, or one that comes a minute or more after
/// its window began, is admitted and opens a window; any other is admitted exactly when there is
/// room in the window, and is then counted there. Nothing else changes.
pub proof fn law_limiter_decides(
    pre: RateLimiter,
    ip: Seq<char>,
    now: u128,
    admitted: bool,
    post: RateLimiter,
)
    requires
        pre.decides(ip, now, admitted, post),
    ensures
        post.max_requests_per_minute == pre.max_requests_per_minute,
        ({
            let max = pre.max_requests_per_minute;
            let windows = pre.ip_request_count@;
            let opened = windows.insert(ip, Window { start: now, count: 1 });
            if max == 0 {
                admitted && post.ip_request_count@ == windows
            } else if !windows.contains_key(ip) || now >= windows[ip].start + 60_000_000_000 {
                admitted && post.ip_request_count@ == opened
            } else if windows[ip].count < max {
                admitted && post.ip_request_count@ == windows.insert(
                    ip,
                    Window { start: windows[ip].start, count: (windows[ip].count + 1) as usize },
                )
            } else {
                !admitted && post.ip_request_count@ == windows
            }
        }),
{
    let max = pre.max_requests_per_minute;
    let windows = pre.ip_request_count@;
    if windows.contains_key(ip) {
        assert(windows.insert(ip, windows[ip]) =~= windows);
    }
    if max > 0 {
        if !windows.contains_key(ip) {
            law_first_request_opens_a_window(max, windows, ip, now);
        } else if now >= windows[ip].start + 60_000_000_000 {
            law_window_is_over_after_a_minute(max, windows, ip, now);
        } else {
            law_window_admits_while_there_is_room(max, windows, ip, now);
        }
    }
}

} // verus!
