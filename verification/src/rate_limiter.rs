//! Rate limiting of panel update requests, per panel and directory.
//!
//! The decision for one request is a function of the limiter's table, the
//! request's key and the current time; the application owns the clock, the
//! channels and the timers, and performs what the decision says.

use vstd::prelude::*;
use crate::text::{copy_string, str_eq};

verus! {

/// Key for rate limiting: the panel's id and the directory path.
pub struct RateLimitKey {
    panel_id: u64,
    path: String,
}

impl View for RateLimitKey {
    type V = (u64, Seq<char>);

    closed spec fn view(&self) -> (u64, Seq<char>) {
        (self.panel_id, self.path@)
    }
}

impl RateLimitKey {
    pub fn new(panel_id: u64, path: String) -> (r: Self)
        ensures
            r@ == (panel_id, path@),
    {
        RateLimitKey { panel_id, path }
    }

    /// Whether two keys name the same panel and path.
    pub fn same_as(&self, other: &RateLimitKey) -> (r: bool)
        ensures
            r == (self@ == other@),
    {
        self.panel_id == other.panel_id && str_eq(self.path.as_str(), other.path.as_str())
    }

    pub fn copy(&self) -> (r: Self)
        ensures
            r@ == self@,
    {
        RateLimitKey { panel_id: self.panel_id, path: copy_string(&self.path) }
    }
}

/// The limiter's record for one key, times in milliseconds.
#[derive(Debug, Clone, Copy, PartialEq, Eq)]
pub struct LimitState {
    /// When the last request was let through.
    pub last_allowed: u64,
    /// Whether a delayed request is pending.
    pub has_pending: bool,
}

/// What to do with one request.
#[derive(Debug, Clone, Copy, PartialEq, Eq)]
pub struct Decision {
    /// Send the request now.
    pub send_now: bool,
    /// Send the request once the interval has passed.
    pub schedule_delayed: bool,
}

/// Milliseconds from `last` to `now`; zero when `now` is earlier.
pub open spec fn elapsed(now: u64, last: u64) -> int {
    if now >= last {
        now - last
    } else {
        0
    }
}

/// The table after one request for `k` at time `now`, and the decision: the
/// first request of a key goes through at once; later ones go through once
/// `interval` has passed since the last one that did; within the interval
/// the first request is delayed and any further one dropped.
pub open spec fn rate_step(
    m: Map<(u64, Seq<char>), LimitState>,
    interval: u64,
    k: (u64, Seq<char>),
    now: u64,
) -> (Map<(u64, Seq<char>), LimitState>, Decision) {
    if !m.contains_key(k) {
        (
            m.insert(k, LimitState { last_allowed: now, has_pending: false }),
            Decision { send_now: true, schedule_delayed: false },
        )
    } else if elapsed(now, m[k].last_allowed) >= interval {
        (
            m.insert(k, LimitState { last_allowed: now, has_pending: false }),
            Decision { send_now: true, schedule_delayed: false },
        )
    } else if m[k].has_pending {
        (m, Decision { send_now: false, schedule_delayed: false })
    } else {
        (
            m.insert(k, LimitState { last_allowed: m[k].last_allowed, has_pending: true }),
            Decision { send_now: false, schedule_delayed: true },
        )
    }
}

/// The table once the delayed request for `k` has been sent at `now`.
pub open spec fn delayed_done(
    m: Map<(u64, Seq<char>), LimitState>,
    k: (u64, Seq<char>),
    now: u64,
) -> Map<(u64, Seq<char>), LimitState> {
    if m.contains_key(k) {
        m.insert(k, LimitState { last_allowed: now, has_pending: false })
    } else {
        m
    }
}

/// The table of the first `n` keys and states.
pub open spec fn table(ks: Seq<(u64, Seq<char>)>, vs: Seq<LimitState>, n: nat) -> Map<
    (u64, Seq<char>),
    LimitState,
>
    decreases n,
{
    if n == 0 {
        Map::empty()
    } else {
        table(ks, vs, (n - 1) as nat).insert(ks[n - 1], vs[n - 1])
    }
}

/// No key occurs twice.
pub open spec fn unique_keys(ks: Seq<(u64, Seq<char>)>) -> bool {
    forall|i: int, j: int| 0 <= i < j < ks.len() ==> ks[i] != ks[j]
}

proof fn lemma_table_lookup(ks: Seq<(u64, Seq<char>)>, vs: Seq<LimitState>, n: nat, i: int)
    requires
        unique_keys(ks),
        n <= ks.len(),
        n <= vs.len(),
        0 <= i < n,
    ensures
        table(ks, vs, n).contains_key(ks[i]),
        table(ks, vs, n)[ks[i]] == vs[i],
    decreases n,
{
    if i < n - 1 {
        lemma_table_lookup(ks, vs, (n - 1) as nat, i);
    }
}

proof fn lemma_table_absent(ks: Seq<(u64, Seq<char>)>, vs: Seq<LimitState>, n: nat, k: (u64, Seq<char>))
    requires
        n <= ks.len(),
        forall|i: int| 0 <= i < n ==> ks[i] != k,
    ensures
        !table(ks, vs, n).contains_key(k),
    decreases n,
{
    if n > 0 {
        lemma_table_absent(ks, vs, (n - 1) as nat, k);
    }
}

proof fn lemma_table_update(ks: Seq<(u64, Seq<char>)>, vs: Seq<LimitState>, n: nat, i: int, v: LimitState)
    requires
        unique_keys(ks),
        n <= ks.len(),
        n <= vs.len(),
        0 <= i < n,
    ensures
        table(ks, vs.update(i, v), n) == table(ks, vs, n).insert(ks[i], v),
    decreases n,
{
    if i < n - 1 {
        lemma_table_update(ks, vs, (n - 1) as nat, i, v);
        assert(table(ks, vs.update(i, v), n) =~= table(ks, vs, n).insert(ks[i], v));
    } else {
        lemma_table_prefix(ks, vs, vs.update(i, v), (n - 1) as nat);
        assert(table(ks, vs.update(i, v), n) =~= table(ks, vs, n).insert(ks[i], v));
    }
}

proof fn lemma_table_prefix(ks: Seq<(u64, Seq<char>)>, vs: Seq<LimitState>, ws: Seq<LimitState>, n: nat)
    requires
        n <= ks.len(),
        n <= vs.len(),
        n <= ws.len(),
        forall|i: int| 0 <= i < n ==> vs[i] == ws[i],
    ensures
        table(ks, vs, n) == table(ks, ws, n),
    decreases n,
{
    if n > 0 {
        lemma_table_prefix(ks, vs, ws, (n - 1) as nat);
    }
}

proof fn lemma_table_keys_prefix(ks: Seq<(u64, Seq<char>)>, js: Seq<(u64, Seq<char>)>, vs: Seq<LimitState>, n: nat)
    requires
        n <= ks.len(),
        n <= js.len(),
        n <= vs.len(),
        forall|i: int| 0 <= i < n ==> ks[i] == js[i],
    ensures
        table(ks, vs, n) == table(js, vs, n),
    decreases n,
{
    if n > 0 {
        lemma_table_keys_prefix(ks, js, vs, (n - 1) as nat);
    }
}

/// A request is never both sent at once and scheduled for later; a key's
/// first request is always sent at once; a key with a pending delayed
/// request never gets a second one scheduled.
pub proof fn law_decisions_are_exclusive(
    m: Map<(u64, Seq<char>), LimitState>,
    interval: u64,
    k: (u64, Seq<char>),
    now: u64,
)
    ensures
        !(rate_step(m, interval, k, now).1.send_now && rate_step(m, interval, k, now).1.schedule_delayed),
        !m.contains_key(k) ==> rate_step(m, interval, k, now).1.send_now,
        m.contains_key(k) && m[k].has_pending ==> !rate_step(m, interval, k, now).1.schedule_delayed,
{
}

/// A request only touches its own key's record.
pub proof fn law_other_keys_untouched(
    m: Map<(u64, Seq<char>), LimitState>,
    interval: u64,
    k: (u64, Seq<char>),
    other: (u64, Seq<char>),
    now: u64,
)
    requires
        other != k,
    ensures
        rate_step(m, interval, k, now).0.contains_key(other) == m.contains_key(other),
        m.contains_key(other) ==> rate_step(m, interval, k, now).0[other] == m[other],
        delayed_done(m, k, now).contains_key(other) == m.contains_key(other),
        m.contains_key(other) ==> delayed_done(m, k, now)[other] == m[other],
{
}

/// Once a request is sent at `t1`, a request for the same key at `t2`, with
/// `t1 <= t2 < t1 + interval`, is not sent at once but delayed, and a third
/// one in the same window is dropped.
pub proof fn law_no_second_send_within_interval(
    m: Map<(u64, Seq<char>), LimitState>,
    interval: u64,
    k: (u64, Seq<char>),
    t1: u64,
    t2: u64,
    t3: u64,
)
    requires
        rate_step(m, interval, k, t1).1.send_now,
        t1 <= t2 <= t3,
        t3 < t1 + interval,
    ensures
        ({
            let m1 = rate_step(m, interval, k, t1).0;
            let s2 = rate_step(m1, interval, k, t2);
            let s3 = rate_step(s2.0, interval, k, t3);
            &&& !s2.1.send_now && s2.1.schedule_delayed
            &&& !s3.1.send_now && !s3.1.schedule_delayed
        }),
{
}

/// Once the delayed request is sent, the next request after a full interval
/// goes through at once.
pub proof fn law_delayed_send_reopens_after_interval(
    m: Map<(u64, Seq<char>), LimitState>,
    interval: u64,
    k: (u64, Seq<char>),
    t: u64,
    later: u64,
)
    requires
        m.contains_key(k),
        later >= t + interval,
    ensures
        rate_step(delayed_done(m, k, t), interval, k, later).1.send_now,
        !delayed_done(m, k, t)[k].has_pending,
{
}

/// Rate limiter for panel update requests.
pub struct RateLimiter {
    interval: u64,
    keys: Vec<RateLimitKey>,
    states: Vec<LimitState>,
}

impl RateLimiter {
    /// The keys, as plain values.
    pub closed spec fn key_views(&self) -> Seq<(u64, Seq<char>)> {
        self.keys@.map_values(|k: RateLimitKey| k@)
    }

    /// The limiter's table: the state of every key seen so far.
    pub closed spec fn spec_table(&self) -> Map<(u64, Seq<char>), LimitState> {
        table(self.key_views(), self.states@, self.keys@.len())
    }

    pub closed spec fn spec_interval(&self) -> u64 {
        self.interval
    }

    /// One state per key, no key twice.
    pub closed spec fn wf(&self) -> bool {
        &&& self.keys@.len() == self.states@.len()
        &&& unique_keys(self.key_views())
    }

    /// A limiter with an empty table.
    pub fn new(interval_ms: u64) -> (r: Self)
        ensures
            r.wf(),
            r.spec_interval() == interval_ms,
            r.spec_table() == Map::<(u64, Seq<char>), LimitState>::empty(),
    {
        let r = RateLimiter { interval: interval_ms, keys: Vec::new(), states: Vec::new() };
        assert(r.spec_table() =~= Map::<(u64, Seq<char>), LimitState>::empty());
        r
    }

    /// Minimum interval between two updates of the same key, in milliseconds.
    pub fn interval(&self) -> (r: u64)
        ensures
            r == self.spec_interval(),
    {
        self.interval
    }

    /// Where `key` stands in the table, if it is there.
    fn find(&self, key: &RateLimitKey) -> (r: Option<usize>)
        requires
            self.wf(),
        ensures
            match r {
                Some(i) => i < self.keys@.len() && self.key_views()[i as int] == key@,
                None => forall|i: int| 0 <= i < self.keys@.len() ==> self.key_views()[i] != key@,
            },
    {
        let mut i: usize = 0;
        while i < self.keys.len()
            invariant
                i <= self.keys@.len(),
                forall|j: int| 0 <= j < i ==> self.key_views()[j] != key@,
            decreases self.keys@.len() - i,
        {
            if self.keys[i].same_as(key) {
                return Some(i);
            }
            i = i + 1;
        }
        None
    }

    /// Decides on one request for `key` at time `now_ms` and records it.
    pub fn check_rate_limit(&mut self, key: &RateLimitKey, now_ms: u64) -> (r: Decision)
        requires
            old(self).wf(),
        ensures
            final(self).wf(),
            final(self).spec_interval() == old(self).spec_interval(),
            (final(self).spec_table(), r) == rate_step(
                old(self).spec_table(),
                old(self).spec_interval(),
                key@,
                now_ms,
            ),
    {
        let ghost ks = self.key_views();
        let ghost n = self.keys@.len();
        match self.find(key) {
            None => {
                proof {
                    lemma_table_absent(ks, self.states@, n, key@);
                }
                let fresh = LimitState { last_allowed: now_ms, has_pending: false };
                self.keys.push(key.copy());
                self.states.push(fresh);
                proof {
                    let ks2 = self.key_views();
                    assert(ks2 =~= ks.push(key@));
                    lemma_table_keys_prefix(ks2, ks, old(self).states@, n);
                    lemma_table_prefix(ks2, old(self).states@, self.states@, n);
                    assert(self.spec_table() =~= old(self).spec_table().insert(key@, fresh));
                }
                Decision { send_now: true, schedule_delayed: false }
            },
            Some(i) => {
                proof {
                    lemma_table_lookup(ks, self.states@, n, i as int);
                }
                let st = self.states[i];
                let elapsed: u64 = if now_ms >= st.last_allowed {
                    now_ms - st.last_allowed
                } else {
                    0
                };
                if elapsed >= self.interval {
                    let fresh = LimitState { last_allowed: now_ms, has_pending: false };
                    self.states.set(i, fresh);
                    proof {
                        lemma_table_update(ks, old(self).states@, n, i as int, fresh);
                    }
                    Decision { send_now: true, schedule_delayed: false }
                } else if st.has_pending {
                    Decision { send_now: false, schedule_delayed: false }
                } else {
                    let pending = LimitState { last_allowed: st.last_allowed, has_pending: true };
                    self.states.set(i, pending);
                    proof {
                        lemma_table_update(ks, old(self).states@, n, i as int, pending);
                    }
                    Decision { send_now: false, schedule_delayed: true }
                }
            },
        }
    }

    /// Records that the delayed request for `key` was sent at `now_ms`.
    pub fn mark_delayed_executed(&mut self, key: &RateLimitKey, now_ms: u64)
        requires
            old(self).wf(),
        ensures
            final(self).wf(),
            final(self).spec_interval() == old(self).spec_interval(),
            final(self).spec_table() == delayed_done(old(self).spec_table(), key@, now_ms),
    {
        let ghost ks = self.key_views();
        let ghost n = self.keys@.len();
        match self.find(key) {
            None => {
                proof {
                    lemma_table_absent(ks, self.states@, n, key@);
                }
            },
            Some(i) => {
                proof {
                    lemma_table_lookup(ks, self.states@, n, i as int);
                }
                let fresh = LimitState { last_allowed: now_ms, has_pending: false };
                self.states.set(i, fresh);
                proof {
                    lemma_table_update(ks, old(self).states@, n, i as int, fresh);
                }
            },
        }
    }
}

} // verus!
