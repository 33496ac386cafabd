//! A sliding-window rate limit per client address: at most `MAX_REQUESTS`
//! requests in any `WINDOW_MS` milliseconds.

use vstd::prelude::*;
use crate::table::StrMap;

verus! {

/// Requests a client may make within one window.
pub const MAX_REQUESTS: usize = 100;

/// The length of the window: one minute, in milliseconds.
pub const WINDOW_MS: u64 = 60_000;

/// The request at time `t` still counts at `now`: less than a window has
/// passed (a `t` later than `now` counts as no time passed).
pub open spec fn in_window(t: u64, now: u64) -> bool {
    (if now >= t { now - t } else { 0 }) < WINDOW_MS
}

pub open spec fn window_pred(now: u64) -> spec_fn(u64) -> bool {
    |t: u64| in_window(t, now)
}

/// The requests of a client that still count at `now`.
pub open spec fn recent(ts: Seq<u64>, now: u64) -> Seq<u64> {
    ts.filter(window_pred(now))
}

/// The requests of `ip` in the table `m` that still count at `now`.
pub open spec fn recent_of(m: Map<Seq<char>, Seq<u64>>, ip: Seq<char>, now: u64) -> Seq<u64> {
    if m.contains_key(ip) { recent(m[ip], now) } else { Seq::empty() }
}

/// A request of `ip` at `now` is allowed: fewer than `MAX_REQUESTS` of its
/// requests still count.
pub open spec fn allowed(m: Map<Seq<char>, Seq<u64>>, ip: Seq<char>, now: u64) -> bool {
    recent_of(m, ip, now).len() < MAX_REQUESTS
}

/// The table after a request of `ip` at `now`: its expired requests are
/// dropped, and the request is kept if it was allowed.
pub open spec fn after_request(m: Map<Seq<char>, Seq<u64>>, ip: Seq<char>, now: u64) -> Map<Seq<char>, Seq<u64>> {
    if allowed(m, ip, now) {
        m.insert(ip, recent_of(m, ip, now).push(now))
    } else {
        m.insert(ip, recent_of(m, ip, now))
    }
}

/// The table with every client's expired requests dropped, and the clients
/// left with none forgotten.
pub open spec fn cleaned(m: Map<Seq<char>, Seq<u64>>, now: u64) -> Map<Seq<char>, Seq<u64>> {
    Map::new(
        |k: Seq<char>| m.contains_key(k) && recent(m[k], now).len() > 0,
        |k: Seq<char>| recent(m[k], now),
    )
}

/// No client holds more than `MAX_REQUESTS` requests.
pub open spec fn bounded(m: Map<Seq<char>, Seq<u64>>) -> bool {
    forall|k: Seq<char>| #[trigger] m.contains_key(k) ==> m[k].len() <= MAX_REQUESTS
}

/// The requests that each client made recently.
pub struct RateLimiter {
    requests: StrMap<Vec<u64>>,
}

/// The timestamps held in a table of vectors.
pub open spec fn stamps(m: Map<Seq<char>, Vec<u64>>) -> Map<Seq<char>, Seq<u64>> {
    m.map_values(|v: Vec<u64>| v@)
}

impl View for RateLimiter {
    type V = Map<Seq<char>, Seq<u64>>;

    closed spec fn view(&self) -> Map<Seq<char>, Seq<u64>> {
        stamps(self.requests@)
    }
}

/// Keeps the requests that still count at `now`.
fn keep_recent(ts: &Vec<u64>, now: u64) -> (r: Vec<u64>)
    ensures r@ == recent(ts@, now),
{
    let mut r: Vec<u64> = Vec::new();
    let n = ts.len();
    let mut i: usize = 0;
    proof { reveal(Seq::filter); }
    assert(ts@.take(0).filter(window_pred(now)) =~= Seq::<u64>::empty());
    while i < n
        invariant
            n == ts@.len(),
            i <= n,
            r@ == ts@.take(i as int).filter(window_pred(now)),
        decreases n - i,
    {
        let t = ts[i];
        proof {
            assert(ts@.take(i + 1) =~= ts@.take(i as int).push(t));
            ts@.take(i as int).lemma_filter_push(t, window_pred(now));
        }
        let age = if now >= t { now - t } else { 0 };
        if age < WINDOW_MS {
            r.push(t);
        }
        i = i + 1;
    }
    assert(ts@.take(n as int) =~= ts@);
    r
}

proof fn lemma_recent_len(ts: Seq<u64>, now: u64)
    ensures recent(ts, now).len() <= ts.len(),
{
    ts.lemma_filter_len(window_pred(now));
}

impl RateLimiter {
    /// A limiter that has seen no request.
    pub fn new() -> (r: Self)
        ensures r@ == Map::<Seq<char>, Seq<u64>>::empty(),
    {
        let r = RateLimiter { requests: StrMap::new() };
        assert(r@ =~= Map::<Seq<char>, Seq<u64>>::empty());
        r
    }

    /// Whether a request of `ip` at `now` may go through; an allowed request
    /// is counted.
    pub fn check_rate_limit(&mut self, ip: &str, now: u64) -> (r: bool)
        ensures
            r == allowed(old(self)@, ip@, now),
            final(self)@ == after_request(old(self)@, ip@, now),
    {
        let mut kept = match self.requests.get(ip) {
            Some(ts) => keep_recent(ts, now),
            None => Vec::new(),
        };
        assert(kept@ == recent_of(old(self)@, ip@, now));
        let ok = kept.len() < MAX_REQUESTS;
        if ok {
            kept.push(now);
        }
        self.requests.insert(String::from_str(ip), kept);
        assert(self@ =~= after_request(old(self)@, ip@, now));
        ok
    }

    /// Drops every request older than the window, and forgets the clients
    /// left with none.
    pub fn clean_old_rate_limits(&mut self, now: u64)
        ensures final(self)@ == cleaned(old(self)@, now),
    {
        let ghost m = self@;
        let keys = self.requests.keys();
        let n = keys.len();
        let mut i: usize = 0;
        while i < n
            invariant
                n == keys@.len(),
                i <= n,
                forall|a: int, b: int| 0 <= a < n && 0 <= b < n && a != b ==> keys@[a]@ != keys@[b]@,
                forall|k: Seq<char>| m.contains_key(k) ==> exists|a: int| 0 <= a < n && #[trigger] keys@[a]@ == k,
                forall|a: int| 0 <= a < n ==> m.contains_key(#[trigger] keys@[a]@),
                self@ == Map::new(
                    |k: Seq<char>| m.contains_key(k) && (processed(keys@, i as int, k) ==> recent(m[k], now).len() > 0),
                    |k: Seq<char>| if processed(keys@, i as int, k) { recent(m[k], now) } else { m[k] },
                ),
            decreases n - i,
        {
            let k = &keys[i];
            let ghost before = self@;
            assert(m.contains_key(k@));
            assert(before.contains_key(k@) && before[k@] == m[k@]) by {
                assert(!processed(keys@, i as int, k@)) by {
                    if processed(keys@, i as int, k@) {
                        let a = choose|a: int| 0 <= a < i && keys@[a]@ == k@;
                        assert(keys@[a]@ != keys@[i as int]@);
                    }
                }
            }
            let kept = match self.requests.get(k.as_str()) {
                Some(ts) => keep_recent(ts, now),
                None => Vec::new(),
            };
            assert(!processed(keys@, i as int, k@)) by {
                if processed(keys@, i as int, k@) {
                    let a = choose|a: int| 0 <= a < i && keys@[a]@ == k@;
                    assert(keys@[a]@ != keys@[i as int]@);
                }
            }
            assert(kept@ == recent(m[k@], now));
            if kept.len() == 0 {
                self.requests.remove(k.as_str());
                assert(self@ =~= before.remove(k@));
            } else {
                let ghost kv = kept@;
                self.requests.insert(k.clone(), kept);
                assert(self@ =~= before.insert(k@, kv));
            }
            assert forall|x: Seq<char>| processed(keys@, i + 1, x) == (processed(keys@, i as int, x) || x == k@) by {
                if processed(keys@, i + 1, x) {
                    let a = choose|a: int| 0 <= a < i + 1 && keys@[a]@ == x;
                    if a < i { assert(processed(keys@, i as int, x)); }
                }
                if x == k@ { assert(keys@[i as int]@ == x); }
                if processed(keys@, i as int, x) {
                    let a = choose|a: int| 0 <= a < i && keys@[a]@ == x;
                    assert(0 <= a < i + 1 && keys@[a]@ == x);
                }
            }
            assert(self@ =~= Map::new(
                |x: Seq<char>| m.contains_key(x) && (processed(keys@, i + 1, x) ==> recent(m[x], now).len() > 0),
                |x: Seq<char>| if processed(keys@, i + 1, x) { recent(m[x], now) } else { m[x] },
            ));
            i = i + 1;
        }
        assert forall|x: Seq<char>| m.contains_key(x) implies processed(keys@, n as int, x) by {
            let a = choose|a: int| 0 <= a < n && #[trigger] keys@[a]@ == x;
        }
        assert(self@ =~= cleaned(m, now));
    }
}

/// `k` is among the first `i` keys.
pub open spec fn processed(keys: Seq<String>, i: int, k: Seq<char>) -> bool {
    exists|a: int| 0 <= a < i && keys[a]@ == k
}

/// A request is refused exactly when `MAX_REQUESTS` requests of the same client
/// already count in the window, and a refused request is not counted.
pub proof fn law_refused_only_at_limit(m: Map<Seq<char>, Seq<u64>>, ip: Seq<char>, now: u64)
    requires bounded(m),
    ensures
        !allowed(m, ip, now) ==> recent_of(m, ip, now).len() == MAX_REQUESTS,
        !allowed(m, ip, now) ==> after_request(m, ip, now)[ip] == recent_of(m, ip, now),
{
    if m.contains_key(ip) {
        lemma_recent_len(m[ip], now);
    }
}

/// No client ever holds more than `MAX_REQUESTS` counted requests: the bound
/// survives every request and every clean-up.
pub proof fn law_limit_never_exceeded(m: Map<Seq<char>, Seq<u64>>, ip: Seq<char>, now: u64)
    requires bounded(m),
    ensures
        bounded(after_request(m, ip, now)),
        bounded(cleaned(m, now)),
{
    if m.contains_key(ip) {
        lemma_recent_len(m[ip], now);
    }
    assert forall|k: Seq<char>| #[trigger] cleaned(m, now).contains_key(k) implies cleaned(m, now)[k].len() <= MAX_REQUESTS by {
        lemma_recent_len(m[k], now);
    }
}

/// Requests of one client never use up another client's allowance.
pub proof fn law_clients_limited_separately(m: Map<Seq<char>, Seq<u64>>, ip: Seq<char>, other: Seq<char>, now: u64, later: u64)
    requires ip != other,
    ensures allowed(after_request(m, ip, now), other, later) == allowed(m, other, later),
{
}

/// Cleaning up changes no client's verdict at the same time.
pub proof fn law_cleanup_keeps_verdicts(m: Map<Seq<char>, Seq<u64>>, ip: Seq<char>, now: u64)
    ensures allowed(cleaned(m, now), ip, now) == allowed(m, ip, now),
{
    if m.contains_key(ip) {
        let r = recent(m[ip], now);
        assert(recent(r, now) =~= r) by {
            reveal(Seq::filter);
            lemma_filter_idempotent(m[ip], now);
        }
    }
}

proof fn lemma_filter_idempotent(ts: Seq<u64>, now: u64)
    ensures recent(recent(ts, now), now) == recent(ts, now),
    decreases ts.len(),
{
    reveal(Seq::filter);
    if ts.len() > 0 {
        lemma_filter_idempotent(ts.drop_last(), now);
        let p = window_pred(now);
        assert(ts == ts.drop_last().push(ts.last()));
        ts.drop_last().lemma_filter_push(ts.last(), p);
        let r0 = recent(ts.drop_last(), now);
        if p(ts.last()) {
            r0.lemma_filter_push(ts.last(), p);
        }
    }
}


/// The requests of `ip` that the table `m` holds.
pub open spec fn history(m: Map<Seq<char>, Seq<u64>>, ip: Seq<char>) -> Seq<u64> {
    if m.contains_key(ip) { m[ip] } else { Seq::empty() }
}

/// Requests made at or after `lo`.
pub open spec fn since_pred(lo: u64) -> spec_fn(u64) -> bool {
    |t: u64| t >= lo
}

/// Requests of `ip` at the times `ts`, one after another: the table after
/// them, and how many of them were allowed.
pub open spec fn run_requests(m: Map<Seq<char>, Seq<u64>>, ip: Seq<char>, ts: Seq<u64>) -> (Map<Seq<char>, Seq<u64>>, nat)
    decreases ts.len(),
{
    if ts.len() == 0 {
        (m, 0)
    } else {
        let prev = run_requests(m, ip, ts.drop_last());
        let t = ts.last();
        (after_request(prev.0, ip, t), if allowed(prev.0, ip, t) { prev.1 + 1 } else { prev.1 })
    }
}

/// Filtering by a test that implies `p` after filtering by `p` is filtering
/// by that test alone.
proof fn lemma_filter_within(s: Seq<u64>, p: spec_fn(u64) -> bool, q: spec_fn(u64) -> bool)
    requires forall|x: u64| #[trigger] q(x) ==> p(x),
    ensures s.filter(p).filter(q) == s.filter(q),
    decreases s.len(),
{
    if s.len() > 0 {
        let init = s.drop_last();
        lemma_filter_within(init, p, q);
        assert(s == init.push(s.last()));
        init.lemma_filter_push(s.last(), p);
        init.lemma_filter_push(s.last(), q);
        if p(s.last()) {
            init.filter(p).lemma_filter_push(s.last(), q);
        }
    } else {
        assert(s.filter(p) =~= s) by { reveal(Seq::filter); }
    }
}

proof fn lemma_run_counts(m: Map<Seq<char>, Seq<u64>>, ip: Seq<char>, ts: Seq<u64>, lo: u64)
    requires
        forall|i: int| 0 <= i < ts.len() ==> lo <= #[trigger] ts[i] && ts[i] - lo < WINDOW_MS,
    ensures
        run_requests(m, ip, ts).1 <= history(run_requests(m, ip, ts).0, ip).filter(since_pred(lo)).len(),
        run_requests(m, ip, ts).1 <= MAX_REQUESTS,
    decreases ts.len(),
{
    if ts.len() > 0 {
        let init = ts.drop_last();
        assert forall|i: int| 0 <= i < init.len() implies lo <= #[trigger] init[i] && init[i] - lo < WINDOW_MS by {
            assert(init[i] == ts[i]);
        }
        lemma_run_counts(m, ip, init, lo);
        let prev = run_requests(m, ip, init);
        let t = ts.last();
        assert(t == ts[ts.len() - 1]);
        let h = history(prev.0, ip);
        let r = recent_of(prev.0, ip, t);
        assert(r == h.filter(window_pred(t))) by {
            if !prev.0.contains_key(ip) {
                reveal(Seq::filter);
                assert(h.filter(window_pred(t)) =~= Seq::<u64>::empty());
            }
        }
        assert forall|x: u64| #[trigger] since_pred(lo)(x) implies window_pred(t)(x) by {}
        lemma_filter_within(h, window_pred(t), since_pred(lo));
        r.lemma_filter_len(since_pred(lo));
        let next = run_requests(m, ip, ts);
        if allowed(prev.0, ip, t) {
            assert(history(next.0, ip) == r.push(t));
            r.lemma_filter_push(t, since_pred(lo));
        } else {
            assert(history(next.0, ip) == r);
        }
    }
}

/// However many requests one client sends within one window, at most
/// `MAX_REQUESTS` of them are allowed.
pub proof fn law_at_most_max_per_window(m: Map<Seq<char>, Seq<u64>>, ip: Seq<char>, ts: Seq<u64>)
    requires
        ts.len() > 0,
        forall|i: int, j: int| 0 <= i <= j < ts.len() ==> ts[i] <= ts[j],
        ts.last() - ts[0] < WINDOW_MS,
    ensures run_requests(m, ip, ts).1 <= MAX_REQUESTS,
{
    assert forall|i: int| 0 <= i < ts.len() implies ts[0] <= #[trigger] ts[i] && ts[i] - ts[0] < WINDOW_MS by {
        assert(ts[i] <= ts[ts.len() - 1]);
    }
    lemma_run_counts(m, ip, ts, ts[0]);
}
} // verus!
