//! Choosing the upstream server for a connection.

use rand::rngs::StdRng;
use rand::{Rng, SeedableRng};
use vstd::prelude::*;

verus! {

/// The random number generator of the crate `rand`.
#[verifier::external_type_specification]
#[verifier::external_body]
pub struct ExStdRng(StdRng);

/// `rand::SeedableRng::from_entropy`: a generator with a fresh seed. Nothing is said of the seed.
/// The call panics where the operating system gives no randomness, which no argument decides.
#[verifier::external_body]
fn rng_from_entropy() -> (rng: StdRng) {
    StdRng::from_entropy()
}

/// `rand::Rng::gen_range` on the range from 0 to `len`, which must not be empty: some number below
/// `len`. Which one it is, is left to chance.
#[verifier::external_body]
fn index_below(rng: &mut StdRng, len: usize) -> (index: usize)
    requires
        len > 0,
    ensures
        index < len,
{
    rng.gen_range(0..len)
}

/// The upstream after `index`, in a round of `len`.
pub open spec fn following(index: int, len: int) -> int {
    (index + 1) % len
}

/// The search for an upstream that takes a connection: round from one to the next, past those that
/// are marked inactive.
#[derive(Clone, Copy, PartialEq, Eq, Debug)]
pub struct Search {
    pub len: usize,
    /// Where the search began.
    pub start: usize,
    /// Where the search stands.
    pub current: usize,
}

/// Begins the search at a random upstream.
pub fn connect_to_upstream(len: usize) -> (search: Search)
    requires
        len > 0,
    ensures
        search.wf(),
        search.len == len,
        search.current == search.start,
{
    let mut rng: StdRng = rng_from_entropy();
    let start: usize = index_below(&mut rng, len);
    Search::starting_at(start, len)
}

impl Search {
    /// The search stands at one of the upstreams, and began at one.
    pub open spec fn wf(self) -> bool {
        self.start < self.len && self.current < self.len
    }

    /// The search one upstream further on.
    pub open spec fn advanced(self) -> Search {
        Search { current: following(self.current as int, self.len as int) as usize, ..self }
    }

    /// Begins the search at upstream `start` of `len`.
    pub fn starting_at(start: usize, len: usize) -> (search: Search)
        requires
            start < len,
        ensures
            search == (Search { len, start, current: start }),
            search.wf(),
    {
        Search { len, start, current: start }
    }

    fn advance(&mut self)
        requires
            old(self).wf(),
        ensures
            *final(self) == old(self).advanced(),
            final(self).wf(),
    {
        self.current = (self.current + 1) % self.len;
    }

    /// Looks at the upstream where the search stands: if it is marked active it is the one to
    /// connect to, else the search goes on to the next.
    pub fn look(&mut self, flags: &Vec<u8>) -> (candidate: Option<usize>)
        requires
            old(self).wf(),
            flags.len() == old(self).len,
        ensures
            final(self).wf(),
            if flags@[old(self).current as int] == 0 {
                candidate is None && *final(self) == old(self).advanced()
            } else {
                candidate == Some(old(self).current) && *final(self) == *old(self)
            },
    {
        if flags[self.current] == 0 {
            self.advance();
            None
        } else {
            Some(self.current)
        }
    }

    /// The upstream where the search stands took no connection: the search goes on to the next,
    /// unless that is where it began. Returns whether the search is given up.
    pub fn refused(&mut self) -> (given_up: bool)
        requires
            old(self).wf(),
        ensures
            final(self).wf(),
            *final(self) == old(self).advanced(),
            given_up <==> old(self).advanced().current == old(self).start,
    {
        self.advance();
        self.current == self.start
    }
}

/// How a search ends.
pub enum Found {
    Upstream(int),
    /// The search was given up.
    Nothing,
}

/// The end of a search within `looks` looks, among upstreams whose marks and whose readiness to
/// take a connection do not change.
pub open spec fn search_end(
    search: Search,
    flags: Seq<u8>,
    takes: spec_fn(int) -> bool,
    looks: nat,
) -> Option<Found>
    decreases looks,
{
    let current = search.current as int;
    if looks == 0 {
        None
    } else if flags[current] == 0 {
        search_end(search.advanced(), flags, takes, (looks - 1) as nat)
    } else if takes(current) {
        Some(Found::Upstream(current))
    } else if search.advanced().current == search.start {
        Some(Found::Nothing)
    } else {
        search_end(search.advanced(), flags, takes, (looks - 1) as nat)
    }
}

/// The upstream at distance `d` from where the search began.
pub open spec fn at_distance(search: Search, d: int) -> int {
    (search.start + d) % (search.len as int)
}

/// The upstream is marked active and takes a connection.
pub open spec fn usable(flags: Seq<u8>, takes: spec_fn(int) -> bool, index: int) -> bool {
    flags[index] != 0 && takes(index)
}

proof fn lemma_advanced(search: Search, d: int)
    requires
        search.wf(),
        0 <= d < search.len,
        search.current == at_distance(search, d),
    ensures
        search.advanced().wf(),
        search.advanced().start == search.start,
        search.advanced().len == search.len,
        search.advanced().current == at_distance(search, d + 1),
        search.advanced().current == search.start <==> d + 1 == search.len,
{
    let len = search.len as int;
    let start = search.start as int;
    if start + d < len {
        vstd::arithmetic::div_mod::lemma_small_mod((start + d) as nat, len as nat);
    } else {
        vstd::arithmetic::div_mod::lemma_small_mod((start + d - len) as nat, len as nat);
        vstd::arithmetic::div_mod::lemma_mod_add_multiples_vanish(start + d - len, len);
    }
    if start + d + 1 < len {
        vstd::arithmetic::div_mod::lemma_small_mod((start + d + 1) as nat, len as nat);
    } else {
        vstd::arithmetic::div_mod::lemma_small_mod((start + d + 1 - len) as nat, len as nat);
        vstd::arithmetic::div_mod::lemma_mod_add_multiples_vanish(start + d + 1 - len, len);
    }
    let current = search.current as int;
    if current + 1 < len {
        vstd::arithmetic::div_mod::lemma_small_mod((current + 1) as nat, len as nat);
    } else {
        vstd::arithmetic::div_mod::lemma_mod_self_0(len);
    }
}

proof fn lemma_search_finds(
    search: Search,
    flags: Seq<u8>,
    takes: spec_fn(int) -> bool,
    at: int,
    d: int,
)
    requires
        search.wf(),
        0 <= at <= d < search.len,
        search.current == at_distance(search, at),
        usable(flags, takes, at_distance(search, d)),
        forall|k: int| at <= k < d ==> !usable(flags, takes, #[trigger] at_distance(search, k)),
    ensures
        search_end(search, flags, takes, (d - at + 1) as nat) == Some(
            Found::Upstream(at_distance(search, d)),
        ),
    decreases d - at,
{
    if at < d {
        assert(!usable(flags, takes, at_distance(search, at)));
        lemma_advanced(search, at);
        let next = search.advanced();
        assert forall|k: int| at + 1 <= k < d implies !usable(
            flags,
            takes,
            #[trigger] at_distance(next, k),
        ) by {
            assert(at_distance(next, k) == at_distance(search, k));
        }
        assert(at_distance(next, d) == at_distance(search, d));
        lemma_search_finds(next, flags, takes, at + 1, d);
    }
}

/// The search ends at the first upstream, in the round from where it began, that is marked active
/// and takes a connection, and it does so before it has been round.
pub proof fn law_search_finds_the_first_usable_upstream(
    start: usize,
    len: usize,
    flags: Seq<u8>,
    takes: spec_fn(int) -> bool,
    d: int,
)
    requires
        start < len,
        flags.len() == len,
        0 <= d < len,
        usable(flags, takes, (start + d) % (len as int)),
        forall|k: int| 0 <= k < d ==> !usable(flags, takes, #[trigger] ((start + k) % (len as int))),
    ensures
        search_end(Search { len, start, current: start }, flags, takes, (d + 1) as nat) == Some(
            Found::Upstream((start + d) % (len as int)),
        ),
{
    let search = Search { len, start, current: start };
    vstd::arithmetic::div_mod::lemma_small_mod(start as nat, len as nat);
    assert forall|k: int| 0 <= k < d implies !usable(
        flags,
        takes,
        #[trigger] at_distance(search, k),
    ) by {
        assert(at_distance(search, k) == (start + k) % (len as int));
    }
    lemma_search_finds(search, flags, takes, 0, d);
}

proof fn lemma_search_fails(
    search: Search,
    flags: Seq<u8>,
    takes: spec_fn(int) -> bool,
    at: int,
)
    requires
        search.wf(),
        0 <= at < search.len,
        search.current == at_distance(search, at),
        forall|k: int|
            at <= k < search.len ==> !usable(flags, takes, #[trigger] at_distance(search, k)),
        flags[at_distance(search, search.len - 1)] != 0,
    ensures
        search_end(search, flags, takes, (search.len - at) as nat) == Some(Found::Nothing),
        forall|looks: nat|
            looks < search.len - at ==> #[trigger] search_end(search, flags, takes, looks) is None,
    decreases search.len - at,
{
    lemma_advanced(search, at);
    assert(!usable(flags, takes, at_distance(search, at)));
    if at + 1 < search.len {
        let next = search.advanced();
        assert forall|k: int| at + 1 <= k < next.len implies !usable(
            flags,
            takes,
            #[trigger] at_distance(next, k),
        ) by {
            assert(at_distance(next, k) == at_distance(search, k));
        }
        assert(at_distance(next, next.len - 1) == at_distance(search, search.len - 1));
        lemma_search_fails(next, flags, takes, at + 1);
        assert forall|looks: nat| looks < search.len - at implies #[trigger] search_end(
            search,
            flags,
            takes,
            looks,
        ) is None by {
            if looks > 0 {
                assert(search_end(next, flags, takes, (looks - 1) as nat) is None);
            }
        }
    }
}

/// Where no upstream is both marked active and ready, the search looks at each of them once and is
/// then given up, if the last one in the round is marked active.
pub proof fn law_search_is_given_up_after_one_round(
    start: usize,
    len: usize,
    flags: Seq<u8>,
    takes: spec_fn(int) -> bool,
)
    requires
        start < len,
        flags.len() == len,
        forall|i: int| 0 <= i < len ==> !usable(flags, takes, i),
        flags[(start + len - 1) % (len as int)] != 0,
    ensures
        search_end(Search { len, start, current: start }, flags, takes, len as nat) == Some(
            Found::Nothing,
        ),
        forall|looks: nat|
            looks < len ==> #[trigger] search_end(
                Search { len, start, current: start },
                flags,
                takes,
                looks,
            ) is None,
{
    let search = Search { len, start, current: start };
    vstd::arithmetic::div_mod::lemma_small_mod(start as nat, len as nat);
    assert forall|k: int| 0 <= k < len implies !usable(
        flags,
        takes,
        #[trigger] at_distance(search, k),
    ) by {
        vstd::arithmetic::div_mod::lemma_mod_bound(start + k, len as int);
    }
    lemma_search_fails(search, flags, takes, 0);
}

proof fn lemma_search_goes_on(
    search: Search,
    flags: Seq<u8>,
    takes: spec_fn(int) -> bool,
    at: int,
    looks: nat,
)
    requires
        search.wf(),
        0 <= at < search.len,
        search.current == at_distance(search, at),
        forall|k: int|
            0 <= k < search.len ==> !usable(flags, takes, #[trigger] at_distance(search, k)),
        flags[at_distance(search, search.len - 1)] == 0,
    ensures
        search_end(search, flags, takes, looks) is None,
    decreases looks,
{
    if looks > 0 {
        lemma_advanced(search, at);
        assert(!usable(flags, takes, at_distance(search, at)));
        let next = search.advanced();
        assert forall|k: int| 0 <= k < next.len implies !usable(
            flags,
            takes,
            #[trigger] at_distance(next, k),
        ) by {
            assert(at_distance(next, k) == at_distance(search, k));
        }
        assert(at_distance(next, next.len - 1) == at_distance(search, search.len - 1));
        vstd::arithmetic::div_mod::lemma_small_mod(search.start as nat, search.len as nat);
        lemma_search_goes_on(
            next,
            flags,
            takes,
            if at + 1 == search.len {
                0
            } else {
                at + 1
            },
            (looks - 1) as nat,
        );
    }
}

/// Where no upstream is both marked active and ready, and the last one in the round is marked
/// inactive, the search goes on until the marks or the upstreams change.
pub proof fn law_search_goes_on_past_an_inactive_last_upstream(
    start: usize,
    len: usize,
    flags: Seq<u8>,
    takes: spec_fn(int) -> bool,
    looks: nat,
)
    requires
        start < len,
        flags.len() == len,
        forall|i: int| 0 <= i < len ==> !usable(flags, takes, i),
        flags[(start + len - 1) % (len as int)] == 0,
    ensures
        search_end(Search { len, start, current: start }, flags, takes, looks) is None,
{
    let search = Search { len, start, current: start };
    vstd::arithmetic::div_mod::lemma_small_mod(start as nat, len as nat);
    assert forall|k: int| 0 <= k < len implies !usable(
        flags,
        takes,
        #[trigger] at_distance(search, k),
    ) by {
        vstd::arithmetic::div_mod::lemma_mod_bound(start + k, len as int);
    }
    lemma_search_goes_on(search, flags, takes, 0, looks);
}

/// A search never ends at an upstream that is marked inactive or that takes no connection.
pub proof fn law_search_finds_only_usable_upstreams(
    search: Search,
    flags: Seq<u8>,
    takes: spec_fn(int) -> bool,
    looks: nat,
)
    requires
        search.wf(),
        flags.len() == search.len,
    ensures
        search_end(search, flags, takes, looks) matches Some(Found::Upstream(index)) ==> 0 <= index
            < search.len && usable(flags, takes, index),
    decreases looks,
{
    if looks > 0 {
        assert(search.advanced().wf()) by {
            vstd::arithmetic::div_mod::lemma_mod_bound(search.current + 1, search.len as int);
        }
        law_search_finds_only_usable_upstreams(search.advanced(), flags, takes, (looks - 1) as nat);
    }
}

/// One look at the upstream where a search stands: the marks at that time, and whether the upstream
/// would take a connection then.
pub struct Look {
    pub flags: Seq<u8>,
    pub takes: bool,
}

/// The upstream where the search stands is passed over: it is marked inactive, or takes no
/// connection.
pub open spec fn passed_over(search: Search, look: Look) -> bool {
    look.flags[search.current as int] == 0 || !look.takes
}

/// The search is given up at this look.
pub open spec fn gives_up(search: Search, look: Look) -> bool {
    &&& look.flags[search.current as int] != 0
    &&& !look.takes
    &&& search.advanced().current == search.start
}

/// A search, look by look, that has found nothing yet. Marks and upstreams may change all the time.
pub open spec fn search_run(searches: Seq<Search>, looks: Seq<Look>) -> bool {
    &&& searches.len() == looks.len() > 0
    &&& searches[0].wf()
    &&& searches[0].current == searches[0].start
    &&& forall|i: int|
        0 <= i < looks.len() - 1 ==> {
            &&& passed_over(#[trigger] searches[i], looks[i])
            &&& !gives_up(searches[i], looks[i])
            &&& searches[i + 1] == searches[i].advanced()
        }
}

proof fn lemma_search_run(searches: Seq<Search>, looks: Seq<Look>, n: int)
    requires
        search_run(searches, looks),
        0 <= n < searches.len(),
    ensures
        searches[n].wf(),
        searches[n].start == searches[0].start,
        searches[n].len == searches[0].len,
        searches[n].current == at_distance(searches[0], n),
    decreases n,
{
    let len = searches[0].len as int;
    let start = searches[0].start as int;
    if n == 0 {
        vstd::arithmetic::div_mod::lemma_small_mod(start as nat, len as nat);
    } else {
        lemma_search_run(searches, looks, n - 1);
        assert(searches[n] == searches[n - 1].advanced());
        vstd::arithmetic::div_mod::lemma_mod_bound(searches[n - 1].current + 1, len);
        vstd::arithmetic::div_mod::lemma_add_mod_noop_right(1, start + n - 1, len);
    }
}

/// A search that is given up has overlooked none: every upstream was found inactive, or refused the
/// connection, at some look, also where marks and upstreams change while the search goes on.
pub proof fn law_search_that_is_given_up_overlooked_none(
    searches: Seq<Search>,
    looks: Seq<Look>,
    index: int,
)
    requires
        search_run(searches, looks),
        gives_up(searches.last(), looks.last()),
        0 <= index < searches[0].len,
    ensures
        exists|i: int|
            0 <= i < looks.len() && (#[trigger] searches[i]).current == index && passed_over(
                searches[i],
                looks[i],
            ),
{
    let first = searches[0];
    let len = first.len as int;
    let start = first.start as int;
    let n = looks.len() as int;
    lemma_search_run(searches, looks, n - 1);
    assert((start + n) % len == start) by {
        vstd::arithmetic::div_mod::lemma_mod_bound(searches[n - 1].current + 1, len);
        vstd::arithmetic::div_mod::lemma_add_mod_noop_right(1, start + n - 1, len);
    }
    assert(n >= len) by {
        if n < len {
            if start + n < len {
                vstd::arithmetic::div_mod::lemma_small_mod((start + n) as nat, len as nat);
            } else {
                vstd::arithmetic::div_mod::lemma_small_mod((start + n - len) as nat, len as nat);
                vstd::arithmetic::div_mod::lemma_mod_add_multiples_vanish(start + n - len, len);
            }
        }
    }
    let i = if index >= start {
        index - start
    } else {
        index - start + len
    };
    lemma_search_run(searches, looks, i);
    vstd::arithmetic::div_mod::lemma_small_mod(index as nat, len as nat);
    if index < start {
        vstd::arithmetic::div_mod::lemma_mod_add_multiples_vanish(index, len);
    }
    assert(searches[i].current == index);
    assert(passed_over(searches[i], looks[i]));
}

} // verus!
