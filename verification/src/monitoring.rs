//! Per-client rate limiting over a sliding window, the client key it is keyed
//! by, and the request classifications the middleware applies.

use vstd::prelude::*;
use std::collections::VecDeque;
use crate::clock::{instant_now, nanos_since};
use crate::metrics::MetricsStore;
use crate::text::{starts_with, str_eq, trim, trim_str};

verus! {

/// Nanoseconds in one second.
pub open spec fn nanos_per_sec() -> nat {
    1_000_000_000
}

/// A request at time `t` has left the window of length `window` at time `now`
/// (`Instant::duration_since` gives zero for a later `t`).
pub open spec fn expired(now: u128, t: u128, window: nat) -> bool {
    now >= t && now - t > window
}

/// The request times left after dropping the expired ones at the front.
pub open spec fn prune(times: Seq<u128>, now: u128, window: nat) -> Seq<u128>
    decreases times.len(),
{
    if times.len() > 0 && expired(now, times[0], window) {
        prune(times.drop_first(), now, window)
    } else {
        times
    }
}

/// Whether a request at `now` is allowed, and the request times kept afterwards.
pub open spec fn allow_outcome(times: Seq<u128>, now: u128, window: nat, max: nat) -> (bool, Seq<u128>) {
    let kept = prune(times, now, window);
    if kept.len() >= max {
        (false, kept)
    } else {
        (true, kept.push(now))
    }
}

/// One client's recent request times.
struct RateBucket {
    key: String,
    times: VecDeque<u128>,
}

spec fn bucket_map(bs: Seq<RateBucket>) -> Map<Seq<char>, Seq<u128>>
    decreases bs.len(),
{
    if bs.len() == 0 {
        Map::empty()
    } else {
        bucket_map(bs.drop_last()).insert(bs.last().key@, bs.last().times@)
    }
}

spec fn keys_distinct(bs: Seq<RateBucket>) -> bool {
    forall|i: int, j: int| 0 <= i < bs.len() && 0 <= j < bs.len() && i != j ==> bs[i].key@ != bs[j].key@
}

proof fn lemma_map_domain(bs: Seq<RateBucket>, k: Seq<char>)
    ensures
        bucket_map(bs).dom().contains(k) <==> exists|i: int| 0 <= i < bs.len() && bs[i].key@ == k,
    decreases bs.len(),
{
    if bs.len() > 0 {
        lemma_map_domain(bs.drop_last(), k);
        if bucket_map(bs).dom().contains(k) && bs.last().key@ != k {
            let i = choose|i: int| 0 <= i < bs.len() - 1 && bs.drop_last()[i].key@ == k;
            assert(bs[i].key@ == k);
        }
        if exists|i: int| 0 <= i < bs.len() && bs[i].key@ == k {
            let i = choose|i: int| 0 <= i < bs.len() && bs[i].key@ == k;
            if i < bs.len() - 1 {
                assert(bs.drop_last()[i].key@ == k);
            }
        }
    }
}

proof fn lemma_map_value(bs: Seq<RateBucket>, i: int)
    requires
        keys_distinct(bs),
        0 <= i < bs.len(),
    ensures
        bucket_map(bs).dom().contains(bs[i].key@),
        bucket_map(bs)[bs[i].key@] == bs[i].times@,
    decreases bs.len(),
{
    if i < bs.len() - 1 {
        lemma_map_value(bs.drop_last(), i);
        assert(bs.drop_last()[i] == bs[i]);
    }
}

proof fn lemma_map_update(bs: Seq<RateBucket>, i: int, b: RateBucket)
    requires
        keys_distinct(bs),
        0 <= i < bs.len(),
        b.key@ == bs[i].key@,
    ensures
        bucket_map(bs.update(i, b)) == bucket_map(bs).insert(b.key@, b.times@),
    decreases bs.len(),
{
    let bs2 = bs.update(i, b);
    if i == bs.len() - 1 {
        assert(bs2.drop_last() =~= bs.drop_last());
        assert(bucket_map(bs2) =~= bucket_map(bs).insert(b.key@, b.times@));
    } else {
        assert(bs2.drop_last() =~= bs.drop_last().update(i, b));
        lemma_map_update(bs.drop_last(), i, b);
        assert(bs.last().key@ != b.key@);
        assert(bucket_map(bs2) =~= bucket_map(bs).insert(b.key@, b.times@));
    }
}

/// The state of a `RateLimiter`: the allowance per window, the window length
/// in nanoseconds, each client's recent request times, and the latest request
/// time it has seen.
pub struct RateLimiterView {
    pub max_requests: nat,
    pub window_nanos: nat,
    pub buckets: Map<Seq<char>, Seq<u128>>,
    pub latest: nat,
}

impl RateLimiterView {
    /// The request times on record for `key` (none for a client never seen).
    pub open spec fn times_of(self, key: Seq<char>) -> Seq<u128> {
        if self.buckets.dom().contains(key) {
            self.buckets[key]
        } else {
            Seq::empty()
        }
    }

    /// No client has more request times on record than the allowance.
    pub open spec fn within_allowance(self) -> bool {
        forall|k: Seq<char>| #[trigger] self.buckets.dom().contains(k) ==> self.buckets[k].len() <= self.max_requests
    }
}

/// Allows each client at most `max_requests` requests within any window.
pub struct RateLimiter {
    max_requests: usize,
    window_nanos: u128,
    origin: std::time::Instant,
    buckets: Vec<RateBucket>,
    latest: u128,
}

impl View for RateLimiter {
    type V = RateLimiterView;

    closed spec fn view(&self) -> RateLimiterView {
        RateLimiterView {
            max_requests: self.max_requests as nat,
            window_nanos: self.window_nanos as nat,
            buckets: bucket_map(self.buckets@),
            latest: self.latest as nat,
        }
    }
}

impl RateLimiter {
    #[verifier::type_invariant]
    spec fn inv(self) -> bool {
        &&& keys_distinct(self.buckets@)
        &&& forall|i: int| 0 <= i < self.buckets@.len() ==> #[trigger] self.buckets@[i].times@.len() <= self.max_requests
    }

    /// A limiter that allows `max_requests` requests per client within any
    /// window of `window_nanos` nanoseconds, with no request on record.
    pub fn new(max_requests: usize, window_nanos: u128) -> (r: RateLimiter)
        ensures
            r@.max_requests == max_requests,
            r@.window_nanos == window_nanos,
            r@.buckets == Map::<Seq<char>, Seq<u128>>::empty(),
            r@.latest == 0,
    {
        RateLimiter {
            max_requests,
            window_nanos,
            origin: instant_now(),
            buckets: Vec::new(),
            latest: 0,
        }
    }

    /// Decides whether the request of client `key` made at `now` nanoseconds
    /// after the limiter was created is allowed, and records it if so.
    pub fn allow_at(&mut self, key: &str, now: u128) -> (allowed: bool)
        ensures
            ({
                let (b, kept) = allow_outcome(
                    old(self)@.times_of(key@),
                    now,
                    old(self)@.window_nanos,
                    old(self)@.max_requests,
                );
                &&& allowed == b
                &&& final(self)@.buckets == old(self)@.buckets.insert(key@, kept)
            }),
            final(self)@.max_requests == old(self)@.max_requests,
            final(self)@.window_nanos == old(self)@.window_nanos,
            final(self)@.latest == if now > old(self)@.latest { now as nat } else { old(self)@.latest },
            final(self)@.within_allowance(),
    {
        proof {
            use_type_invariant(&*self);
        }
        if now > self.latest {
            self.latest = now;
        }
        let mut buckets: Vec<RateBucket> = Vec::new();
        std::mem::swap(&mut buckets, &mut self.buckets);
        let n = buckets.len();
        let mut i: usize = 0;
        while i < n && !str_eq(buckets[i].key.as_str(), key)
            invariant
                n == buckets@.len(),
                i <= n,
                forall|j: int| 0 <= j < i ==> buckets@[j].key@ != key@,
            decreases n - i,
        {
            i = i + 1;
        }
        let ghost bs = buckets@;
        let allowed;
        if i == n {
            proof {
                lemma_map_domain(bs, key@);
            }
            let mut b = RateBucket { key: String::from_str(key), times: VecDeque::new() };
            let ghost times0 = b.times@;
            allowed = Self::record_request(&mut b.times, now, self.window_nanos, self.max_requests);
            proof {
                assert(times0 =~= Seq::<u128>::empty());
            }
            buckets.push(b);
            proof {
                assert(buckets@.drop_last() =~= bs);
            }
        } else {
            proof {
                lemma_map_value(bs, i as int);
            }
            let mut b = buckets.remove(i);
            allowed = Self::record_request(&mut b.times, now, self.window_nanos, self.max_requests);
            buckets.insert(i, b);
            proof {
                assert(buckets@ =~= bs.update(i as int, b));
                lemma_map_update(bs, i as int, b);
            }
        }
        proof {
            assert forall|k: Seq<char>| #[trigger] bucket_map(buckets@).dom().contains(k) implies bucket_map(buckets@)[k].len() <= self.max_requests by {
                lemma_map_domain(buckets@, k);
                let j = choose|j: int| 0 <= j < buckets@.len() && buckets@[j].key@ == k;
                lemma_map_value(buckets@, j);
            }
        }
        self.buckets = buckets;
        allowed
    }

    /// Applies `allow_outcome` to one client's request times.
    fn record_request(times: &mut VecDeque<u128>, now: u128, window: u128, max: usize) -> (allowed: bool)
        requires
            old(times)@.len() <= max,
        ensures
            (allowed, final(times)@) == allow_outcome(old(times)@, now, window as nat, max as nat),
            final(times)@.len() <= max,
    {
        while times.len() > 0 && now >= times[0] && now - times[0] > window
            invariant
                prune(times@, now, window as nat) == prune(old(times)@, now, window as nat),
                times@.len() <= old(times)@.len(),
            decreases times@.len(),
        {
            let ghost before = times@;
            times.pop_front();
            assert(times@ =~= before.drop_first());
        }
        if times.len() >= max {
            false
        } else {
            times.push_back(now);
            true
        }
    }

    /// Decides whether a request of client `key` made now is allowed, and
    /// records it if so. The clock reading is not promised: the outcome is
    /// that of `allow_outcome` at some time no earlier than the latest one the
    /// limiter has seen (std documents the clock as monotonic, so the reading
    /// is that time), which makes the times a limiter sees never decrease.
    pub fn allow(&mut self, key: &str) -> (allowed: bool)
        ensures
            exists|now: u128| {
                let (b, kept) = #[trigger] allow_outcome(
                    old(self)@.times_of(key@),
                    now,
                    old(self)@.window_nanos,
                    old(self)@.max_requests,
                );
                &&& now >= old(self)@.latest
                &&& final(self)@.latest == now
                &&& allowed == b
                &&& final(self)@.buckets == old(self)@.buckets.insert(key@, kept)
            },
            final(self)@.max_requests == old(self)@.max_requests,
            final(self)@.window_nanos == old(self)@.window_nanos,
            final(self)@.within_allowance(),
    {
        let reading = nanos_since(&self.origin);
        let now = if reading < self.latest { self.latest } else { reading };
        self.allow_at(key, now)
    }
}


/// Feeds requests made at the times `nows`, in order, to a client whose
/// record starts as `times`: the number of requests allowed, and the final record.
pub open spec fn run_requests(times: Seq<u128>, nows: Seq<u128>, window: nat, max: nat) -> (nat, Seq<u128>)
    decreases nows.len(),
{
    if nows.len() == 0 {
        (0, times)
    } else {
        let (granted, kept) = run_requests(times, nows.drop_last(), window, max);
        let (b, kept2) = allow_outcome(kept, nows.last(), window, max);
        (granted + if b { 1nat } else { 0nat }, kept2)
    }
}

/// The number of request times in `s` at or after `start`.
pub open spec fn count_since(s: Seq<u128>, start: u128) -> nat
    decreases s.len(),
{
    if s.len() == 0 {
        0
    } else {
        count_since(s.drop_last(), start) + if s.last() >= start { 1nat } else { 0nat }
    }
}

proof fn lemma_count_since_bounded(s: Seq<u128>, start: u128)
    ensures
        count_since(s, start) <= s.len(),
    decreases s.len(),
{
    if s.len() > 0 {
        lemma_count_since_bounded(s.drop_last(), start);
    }
}

proof fn lemma_count_since_first(s: Seq<u128>, start: u128)
    requires
        s.len() > 0,
    ensures
        count_since(s, start) == count_since(s.drop_first(), start) + if s[0] >= start { 1nat } else { 0nat },
    decreases s.len(),
{
    if s.len() > 1 {
        lemma_count_since_first(s.drop_last(), start);
        assert(s.drop_last().drop_first() =~= s.drop_first().drop_last());
    } else {
        assert(s.drop_first() =~= Seq::<u128>::empty());
        assert(s.drop_last() =~= Seq::<u128>::empty());
    }
}

proof fn lemma_prune_keeps_recent(s: Seq<u128>, now: u128, window: nat, start: u128)
    requires
        now <= start + window,
    ensures
        count_since(prune(s, now, window), start) == count_since(s, start),
        prune(s, now, window).len() <= s.len(),
    decreases s.len(),
{
    if s.len() > 0 && expired(now, s[0], window) {
        lemma_count_since_first(s, start);
        lemma_prune_keeps_recent(s.drop_first(), now, window, start);
    }
}

proof fn lemma_run_counts(times: Seq<u128>, nows: Seq<u128>, window: nat, max: nat, start: u128)
    requires
        times.len() <= max,
        forall|i: int| 0 <= i < nows.len() ==> start <= #[trigger] nows[i] && nows[i] <= start + window,
    ensures
        run_requests(times, nows, window, max).0 + count_since(times, start)
            == count_since(run_requests(times, nows, window, max).1, start),
        run_requests(times, nows, window, max).1.len() <= max,
    decreases nows.len(),
{
    if nows.len() > 0 {
        let prefix = nows.drop_last();
        assert forall|i: int| 0 <= i < prefix.len() implies start <= #[trigger] prefix[i] && prefix[i] <= start + window by {
            assert(prefix[i] == nows[i]);
        }
        lemma_run_counts(times, prefix, window, max, start);
        let kept = run_requests(times, prefix, window, max).1;
        let now = nows.last();
        assert(now == nows[nows.len() - 1]);
        lemma_prune_keeps_recent(kept, now, window, start);
        let pruned = prune(kept, now, window);
        if pruned.len() < max {
            assert(pruned.push(now).drop_last() =~= pruned);
        }
    }
}

/// Within one window a client is allowed at most `max` requests: whatever the
/// record it starts with (one the limiter can hold), among requests made at
/// times between `start` and `start + window`, at most `max` are allowed.
pub proof fn lemma_at_most_max_per_window(
    times: Seq<u128>,
    nows: Seq<u128>,
    window: nat,
    max: nat,
    start: u128,
)
    requires
        times.len() <= max,
        forall|i: int| 0 <= i < nows.len() ==> start <= #[trigger] nows[i] && nows[i] <= start + window,
    ensures
        run_requests(times, nows, window, max).0 <= max,
{
    lemma_run_counts(times, nows, window, max, start);
    lemma_count_since_bounded(run_requests(times, nows, window, max).1, start);
}


/// The times in `s` still inside the window at `now`, in order.
pub open spec fn recent(s: Seq<u128>, now: u128, window: nat) -> Seq<u128>
    decreases s.len(),
{
    if s.len() == 0 {
        s
    } else if expired(now, s[0], window) {
        recent(s.drop_first(), now, window)
    } else {
        seq![s[0]] + recent(s.drop_first(), now, window)
    }
}

/// The times of the requests at `nows` that a client with no record is
/// allowed, in order.
pub open spec fn granted_times(nows: Seq<u128>, window: nat, max: nat) -> Seq<u128>
    decreases nows.len(),
{
    if nows.len() == 0 {
        Seq::empty()
    } else {
        let before = granted_times(nows.drop_last(), window, max);
        let kept = run_requests(Seq::empty(), nows.drop_last(), window, max).1;
        if allow_outcome(kept, nows.last(), window, max).0 {
            before.push(nows.last())
        } else {
            before
        }
    }
}

/// The times never decrease.
pub open spec fn non_decreasing(s: Seq<u128>) -> bool {
    forall|i: int, j: int| 0 <= i <= j < s.len() ==> s[i] <= s[j]
}

proof fn lemma_recent_all(s: Seq<u128>, now: u128, window: nat)
    requires
        forall|i: int| 0 <= i < s.len() ==> !expired(now, #[trigger] s[i], window),
    ensures
        recent(s, now, window) == s,
    decreases s.len(),
{
    if s.len() > 0 {
        assert(!expired(now, s[0], window));
        let t = s.drop_first();
        assert forall|i: int| 0 <= i < t.len() implies !expired(now, #[trigger] t[i], window) by {
            assert(t[i] == s[i + 1]);
        }
        lemma_recent_all(t, now, window);
        assert(seq![s[0]] + t =~= s);
    }
}

proof fn lemma_recent_push(s: Seq<u128>, x: u128, now: u128, window: nat)
    ensures
        recent(s.push(x), now, window) == if expired(now, x, window) {
            recent(s, now, window)
        } else {
            recent(s, now, window).push(x)
        },
    decreases s.len(),
{
    if s.len() == 0 {
        assert(s.push(x).drop_first() =~= s);
        assert(seq![x] + s =~= s.push(x));
    } else {
        assert(s.push(x)[0] == s[0]);
        assert(s.push(x).drop_first() =~= s.drop_first().push(x));
        lemma_recent_push(s.drop_first(), x, now, window);
        if !expired(now, s[0], window) && !expired(now, x, window) {
            assert(seq![s[0]] + recent(s.drop_first(), now, window).push(x)
                =~= (seq![s[0]] + recent(s.drop_first(), now, window)).push(x));
        }
    }
}

/// Pruning at a later time what was recent at an earlier one leaves what is
/// recent at the later time, for times that never decrease.
proof fn lemma_prune_recent(s: Seq<u128>, a: u128, b: u128, window: nat)
    requires
        non_decreasing(s),
        a <= b,
    ensures
        prune(recent(s, a, window), b, window) == recent(s, b, window),
    decreases s.len(),
{
    if s.len() > 0 {
        let t = s.drop_first();
        assert(non_decreasing(t)) by {
            assert forall|i: int, j: int| 0 <= i <= j < t.len() implies t[i] <= t[j] by {
                assert(t[i] == s[i + 1] && t[j] == s[j + 1]);
            }
        }
        lemma_prune_recent(t, a, b, window);
        if !expired(a, s[0], window) {
            let r = seq![s[0]] + recent(t, a, window);
            assert(r[0] == s[0]);
            assert(r.drop_first() =~= recent(t, a, window));
            if !expired(b, s[0], window) {
                assert forall|i: int| 0 <= i < t.len() implies !expired(b, #[trigger] t[i], window) by {
                    assert(t[i] == s[i + 1]);
                    assert(s[0] <= s[i + 1]);
                }
                assert forall|i: int| 0 <= i < t.len() implies !expired(a, #[trigger] t[i], window) by {
                    assert(t[i] == s[i + 1]);
                    assert(s[0] <= s[i + 1]);
                }
                lemma_recent_all(t, a, window);
                lemma_recent_all(t, b, window);
            }
        }
    }
}

proof fn lemma_granted_bounded(nows: Seq<u128>, window: nat, max: nat, m: u128)
    requires
        forall|j: int| 0 <= j < nows.len() ==> #[trigger] nows[j] <= m,
    ensures
        forall|i: int| 0 <= i < granted_times(nows, window, max).len() ==> #[trigger] granted_times(nows, window, max)[i] <= m,
    decreases nows.len(),
{
    if nows.len() > 0 {
        let p = nows.drop_last();
        assert forall|j: int| 0 <= j < p.len() implies #[trigger] p[j] <= m by {
            assert(p[j] == nows[j]);
        }
        lemma_granted_bounded(p, window, max, m);
        assert(nows.last() == nows[nows.len() - 1]);
        let g = granted_times(nows, window, max);
        let gp = granted_times(p, window, max);
        assert forall|i: int| 0 <= i < g.len() implies #[trigger] g[i] <= m by {
            if i < gp.len() {
                assert(g[i] == gp[i]);
            } else {
                assert(g[i] == nows.last());
            }
        }
    }
}

proof fn lemma_granted_non_decreasing(nows: Seq<u128>, window: nat, max: nat)
    requires
        non_decreasing(nows),
    ensures
        non_decreasing(granted_times(nows, window, max)),
    decreases nows.len(),
{
    if nows.len() > 0 {
        let p = nows.drop_last();
        let x = nows.last();
        assert(non_decreasing(p)) by {
            assert forall|i: int, j: int| 0 <= i <= j < p.len() implies p[i] <= p[j] by {
                assert(p[i] == nows[i] && p[j] == nows[j]);
            }
        }
        lemma_granted_non_decreasing(p, window, max);
        assert forall|j: int| 0 <= j < p.len() implies #[trigger] p[j] <= x by {
            assert(p[j] == nows[j]);
            assert(x == nows[nows.len() - 1]);
        }
        lemma_granted_bounded(p, window, max, x);
    }
}

/// With a clock that never goes back, what the limiter keeps for a client is
/// exactly its allowed requests that are still inside the window.
proof fn lemma_kept_is_recent(nows: Seq<u128>, window: nat, max: nat)
    requires
        non_decreasing(nows),
        nows.len() > 0,
    ensures
        run_requests(Seq::empty(), nows, window, max).1 == recent(granted_times(nows, window, max), nows.last(), window),
    decreases nows.len(),
{
    let p = nows.drop_last();
    let x = nows.last();
    assert(non_decreasing(p)) by {
        assert forall|i: int, j: int| 0 <= i <= j < p.len() implies p[i] <= p[j] by {
            assert(p[i] == nows[i] && p[j] == nows[j]);
        }
    }
    let g = granted_times(p, window, max);
    let kept = run_requests(Seq::empty(), p, window, max).1;
    if p.len() == 0 {
        assert(kept =~= Seq::<u128>::empty());
        assert(g =~= Seq::<u128>::empty());
        lemma_recent_push(g, x, x, window);
    } else {
        lemma_kept_is_recent(p, window, max);
        lemma_granted_non_decreasing(p, window, max);
        assert(p.last() == nows[nows.len() - 2]);
        assert(x == nows[nows.len() - 1]);
        lemma_prune_recent(g, p.last(), x, window);
        lemma_recent_push(g, x, x, window);
    }
}

/// With a clock that never goes back, a client's request at `now` is allowed
/// exactly when fewer than `max` of its earlier allowed requests (those at
/// `nows`, from no record) lie within the window before `now`; a refused
/// request is not recorded.
pub proof fn lemma_sliding_window(nows: Seq<u128>, now: u128, window: nat, max: nat)
    requires
        non_decreasing(nows.push(now)),
    ensures
        allow_outcome(run_requests(Seq::empty(), nows, window, max).1, now, window, max).0
            == (recent(granted_times(nows, window, max), now, window).len() < max),
        granted_times(nows.push(now), window, max) == if recent(granted_times(nows, window, max), now, window).len() < max {
            granted_times(nows, window, max).push(now)
        } else {
            granted_times(nows, window, max)
        },
{
    let all = nows.push(now);
    assert(all.drop_last() =~= nows);
    assert(all.last() == now);
    assert(non_decreasing(nows)) by {
        assert forall|i: int, j: int| 0 <= i <= j < nows.len() implies nows[i] <= nows[j] by {
            assert(nows[i] == all[i] && nows[j] == all[j]);
        }
    }
    let g = granted_times(nows, window, max);
    if nows.len() == 0 {
        assert(g =~= Seq::<u128>::empty());
    } else {
        lemma_kept_is_recent(nows, window, max);
        lemma_granted_non_decreasing(nows, window, max);
        assert(nows.last() == all[nows.len() - 1]);
        assert(now == all[nows.len() as int]);
        lemma_prune_recent(g, nows.last(), now, window);
    }
}

/// A request header as the service reads it: absent, present but not text
/// (bytes other than visible ASCII and tab), or its text.
pub enum HeaderField {
    Absent,
    Opaque,
    Text(String),
}

/// The header's text, or `"unknown"` when it is absent or not text.
pub open spec fn text_or_unknown(h: HeaderField) -> Seq<char> {
    match h {
        HeaderField::Text(s) => s@,
        _ => "unknown"@,
    }
}

/// The part of `s` before its first comma (all of `s` when it has none).
pub open spec fn first_segment(s: Seq<char>) -> Seq<char>
    decreases s.len(),
{
    if s.len() == 0 || s[0] == ',' {
        Seq::empty()
    } else {
        seq![s[0]] + first_segment(s.drop_first())
    }
}

proof fn lemma_first_segment(s: Seq<char>, i: int)
    requires
        0 <= i <= s.len(),
        forall|k: int| 0 <= k < i ==> s[k] != ',',
        i == s.len() || s[i] == ',',
    ensures
        first_segment(s) == s.subrange(0, i),
    decreases i,
{
    if i > 0 {
        let rest = s.drop_first();
        assert forall|k: int| 0 <= k < i - 1 implies rest[k] != ',' by {
            assert(rest[k] == s[k + 1]);
        }
        if i < s.len() {
            assert(rest[i - 1] == s[i]);
        }
        lemma_first_segment(rest, i - 1);
        assert(s.subrange(0, i) =~= seq![s[0]] + rest.subrange(0, i - 1));
    } else {
        assert(s.subrange(0, 0) =~= Seq::<char>::empty());
    }
}

/// The key a client is rate limited by: the first address of
/// `X-Forwarded-For` and the `User-Agent`, each trimmed, joined by `|`.
pub open spec fn client_key_text(forwarded_for: HeaderField, user_agent: HeaderField) -> Seq<char> {
    trim(first_segment(text_or_unknown(forwarded_for))) + seq!['|'] + trim(text_or_unknown(user_agent))
}

fn header_text(h: &HeaderField) -> (s: &str)
    ensures
        s@ == text_or_unknown(*h),
{
    match h {
        HeaderField::Text(s) => s.as_str(),
        _ => "unknown",
    }
}

/// The rate-limiting key of a client, from its `X-Forwarded-For` and
/// `User-Agent` headers.
pub fn client_key(forwarded_for: &HeaderField, user_agent: &HeaderField) -> (k: String)
    ensures
        k@ == client_key_text(*forwarded_for, *user_agent),
{
    let ip_all = header_text(forwarded_for);
    let n = ip_all.unicode_len();
    let mut i: usize = 0;
    while i < n && ip_all.get_char(i) != ','
        invariant
            n == ip_all@.len(),
            i <= n,
            forall|k: int| 0 <= k < i ==> ip_all@[k] != ',',
        decreases n - i,
    {
        i = i + 1;
    }
    proof {
        lemma_first_segment(ip_all@, i as int);
    }
    let ip = trim_str(ip_all.substring_char(0, i));
    let agent = trim_str(header_text(user_agent));
    let mut k = String::from_str(ip);
    proof {
        reveal_strlit("|");
    }
    k.append("|");
    k.append(agent);
    k
}

/// Paths whose requests count as authentication requests: the five
/// authentication endpoints, each as the whole path or followed by `/`.
pub open spec fn is_auth_path_text(path: Seq<char>) -> bool {
    ||| path_is_under(path, "/login"@)
    ||| path_is_under(path, "/register"@)
    ||| path_is_under(path, "/refresh"@)
    ||| path_is_under(path, "/logout"@)
    ||| path_is_under(path, "/me"@)
}

pub open spec fn path_has_prefix(path: Seq<char>, prefix: Seq<char>) -> bool {
    prefix.len() <= path.len() && path.subrange(0, prefix.len() as int) == prefix
}

/// `path` is the endpoint itself or a path below it.
pub open spec fn path_is_under(path: Seq<char>, endpoint: Seq<char>) -> bool {
    path == endpoint || path_has_prefix(path, endpoint + "/"@)
}

fn is_under(path: &str, endpoint: &str, below: &str) -> (b: bool)
    requires
        below@ == endpoint@ + "/"@,
    ensures
        b == path_is_under(path@, endpoint@),
{
    str_eq(path, endpoint) || starts_with(path, below)
}

/// Whether a request to `path` is an authentication request.
pub fn is_auth_path(path: &str) -> (b: bool)
    ensures
        b == is_auth_path_text(path@),
{
    proof {
        reveal_strlit("/");
        reveal_strlit("/login");
        reveal_strlit("/login/");
        reveal_strlit("/register");
        reveal_strlit("/register/");
        reveal_strlit("/refresh");
        reveal_strlit("/refresh/");
        reveal_strlit("/logout");
        reveal_strlit("/logout/");
        reveal_strlit("/me");
        reveal_strlit("/me/");
        assert("/login/"@ =~= "/login"@ + "/"@);
        assert("/register/"@ =~= "/register"@ + "/"@);
        assert("/refresh/"@ =~= "/refresh"@ + "/"@);
        assert("/logout/"@ =~= "/logout"@ + "/"@);
        assert("/me/"@ =~= "/me"@ + "/"@);
    }
    is_under(path, "/login", "/login/") || is_under(path, "/register", "/register/")
        || is_under(path, "/refresh", "/refresh/") || is_under(path, "/logout", "/logout/")
        || is_under(path, "/me", "/me/")
}

/// The five authentication endpoints, and every path below one of them,
/// count as authentication requests; the service's other routes (`/`,
/// `/health`, `/metrics`, `/alerts`) and a path that merely begins with an
/// endpoint's letters (`/logins`, `/meow`) do not.
pub proof fn lemma_auth_request_paths(rest: Seq<char>)
    ensures
        is_auth_path_text("/login"@),
        is_auth_path_text("/register"@),
        is_auth_path_text("/refresh"@),
        is_auth_path_text("/logout"@),
        is_auth_path_text("/me"@),
        is_auth_path_text("/login/"@ + rest),
        is_auth_path_text("/register/"@ + rest),
        is_auth_path_text("/refresh/"@ + rest),
        is_auth_path_text("/logout/"@ + rest),
        is_auth_path_text("/me/"@ + rest),
        !is_auth_path_text("/"@),
        !is_auth_path_text("/health"@),
        !is_auth_path_text("/metrics"@),
        !is_auth_path_text("/alerts"@),
        !is_auth_path_text("/logins"@),
        !is_auth_path_text("/meow"@),
{
    reveal_strlit("/");
    reveal_strlit("/login");
    reveal_strlit("/login/");
    reveal_strlit("/register");
    reveal_strlit("/register/");
    reveal_strlit("/refresh");
    reveal_strlit("/refresh/");
    reveal_strlit("/logout");
    reveal_strlit("/logout/");
    reveal_strlit("/me");
    reveal_strlit("/me/");
    reveal_strlit("/health");
    reveal_strlit("/metrics");
    reveal_strlit("/alerts");
    reveal_strlit("/logins");
    reveal_strlit("/meow");
    assert("/login/"@ =~= "/login"@ + "/"@);
    assert("/register/"@ =~= "/register"@ + "/"@);
    assert("/refresh/"@ =~= "/refresh"@ + "/"@);
    assert("/logout/"@ =~= "/logout"@ + "/"@);
    assert("/me/"@ =~= "/me"@ + "/"@);
    assert(("/login/"@ + rest).subrange(0, 7) =~= "/login/"@);
    assert(("/register/"@ + rest).subrange(0, 10) =~= "/register/"@);
    assert(("/refresh/"@ + rest).subrange(0, 9) =~= "/refresh/"@);
    assert(("/logout/"@ + rest).subrange(0, 8) =~= "/logout/"@);
    assert(("/me/"@ + rest).subrange(0, 4) =~= "/me/"@);
    assert("/metrics"@.subrange(0, 4)[3] != "/me/"@[3]);
    assert("/meow"@.subrange(0, 4)[3] != "/me/"@[3]);
    assert("/logins"@.subrange(0, 7)[6] != "/login/"@[6]);
    assert("/metrics"@ != "/me"@ && "/meow"@ != "/me"@ && "/logins"@ != "/login"@);
    assert("/health"@[1] != "/login"@[1] && "/health"@[1] != "/register"@[1] && "/health"@[1] != "/logout"@[1]);
    assert("/alerts"@[1] != "/login"@[1] && "/alerts"@[1] != "/register"@[1] && "/alerts"@[1] != "/me"@[1]);
}

/// Paths that the rate limiter lets through without counting.
pub open spec fn is_exempt_path_text(path: Seq<char>) -> bool {
    path == "/health"@ || path == "/"@
}

/// Whether requests to `path` bypass the rate limiter.
pub fn is_rate_limit_exempt(path: &str) -> (b: bool)
    ensures
        b == is_exempt_path_text(path@),
{
    str_eq(path, "/health") || str_eq(path, "/")
}

/// Whether a response status counts as an error (client or server error).
pub fn is_error_status(status: u16) -> (b: bool)
    ensures
        b == (400 <= status <= 599),
{
    400 <= status && status <= 599
}

/// The headers added to every response, as (name, value) pairs.
pub open spec fn security_header_pairs() -> Seq<(Seq<char>, Seq<char>)> {
    seq![
        ("x-content-type-options"@, "nosniff"@),
        ("x-frame-options"@, "DENY"@),
        ("referrer-policy"@, "no-referrer"@),
        ("permissions-policy"@, "geolocation=(), microphone=(), camera=()"@),
    ]
}

/// The security headers added to every response, in order.
pub fn security_headers() -> (h: Vec<(String, String)>)
    ensures
        h@.len() == security_header_pairs().len(),
        forall|i: int| 0 <= i < h@.len() ==> (#[trigger] h@[i]).0@ == security_header_pairs()[i].0
            && h@[i].1@ == security_header_pairs()[i].1,
{
    let mut h: Vec<(String, String)> = Vec::new();
    h.push((String::from_str("x-content-type-options"), String::from_str("nosniff")));
    h.push((String::from_str("x-frame-options"), String::from_str("DENY")));
    h.push((String::from_str("referrer-policy"), String::from_str("no-referrer")));
    h.push(
        (
            String::from_str("permissions-policy"),
            String::from_str("geolocation=(), microphone=(), camera=()"),
        ),
    );
    h
}

impl RateLimiter {
    /// The rate-limiting step of a request to `path` from client `key`:
    /// exempt paths pass without being recorded; other requests go through `allow`.
    pub fn check_request(&mut self, path: &str, key: &str) -> (allowed: bool)
        ensures
            is_exempt_path_text(path@) ==> allowed && final(self)@ == old(self)@,
            !is_exempt_path_text(path@) ==> exists|now: u128| {
                let (b, kept) = #[trigger] allow_outcome(
                    old(self)@.times_of(key@),
                    now,
                    old(self)@.window_nanos,
                    old(self)@.max_requests,
                );
                &&& now >= old(self)@.latest
                &&& final(self)@.latest == now
                &&& allowed == b
                &&& final(self)@.buckets == old(self)@.buckets.insert(key@, kept)
            },
            final(self)@.max_requests == old(self)@.max_requests,
            final(self)@.window_nanos == old(self)@.window_nanos,
    {
        if is_rate_limit_exempt(path) {
            true
        } else {
            self.allow(key)
        }
    }
}

impl MetricsStore {
    /// Counts an incoming request to `path`, and an authentication request when
    /// the path is one.
    pub fn record_request(&mut self, path: &str)
        requires
            old(self)@.requests_total < u64::MAX,
            is_auth_path_text(path@) ==> old(self)@.auth_requests_total < u64::MAX,
        ensures
            final(self)@ == (crate::metrics::MetricsView {
                requests_total: old(self)@.requests_total + 1,
                auth_requests_total: if is_auth_path_text(path@) {
                    old(self)@.auth_requests_total + 1
                } else {
                    old(self)@.auth_requests_total
                },
                ..old(self)@
            }),
            final(self)@.consistent(),
            path@ == "/login"@ || path@ == "/register"@ || path@ == "/refresh"@ || path@ == "/logout"@
                || path@ == "/me"@ ==> final(self)@.auth_requests_total == old(self)@.auth_requests_total + 1,
    {
        self.increment_requests();
        if is_auth_path(path) {
            self.increment_auth_requests();
        }
    }

    /// Counts the response to a request: an error when its status is a client
    /// or server error.
    pub fn record_response(&mut self, status: u16)
        requires
            old(self)@.errors_total < u64::MAX,
        ensures
            400 <= status <= 599 ==> final(self)@ == (crate::metrics::MetricsView {
                errors_total: old(self)@.errors_total + 1,
                auth_errors_total: old(self)@.auth_errors_total + 1,
                alerts_total: if old(self)@.errors_total + 1 >= old(self)@.error_threshold {
                    old(self)@.alerts_total + 1
                } else {
                    old(self)@.alerts_total
                },
                ..old(self)@
            }),
            !(400 <= status <= 599) ==> final(self)@ == old(self)@,
    {
        if is_error_status(status) {
            self.increment_errors();
        }
    }
}

} // verus!
