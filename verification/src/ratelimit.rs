//! Per-endpoint request pacing: a virtual-scheduling token bucket
//! (one cell per request) with sustained rate `rate` requests per
//! second and burst capacity `rate`.
//!
//! The limiter only computes, from its state and the current monotonic
//! clock reading, how long the caller must still wait before its
//! request may leave; the caller performs the actual sleep. The model
//! is exact integer arithmetic over nanoseconds, so the pacing bound
//! (`lemma_gcra_window_bound`) is a theorem about every run.

use vstd::prelude::*;
use crate::text::str_eq;

verus! {

/// Earliest instant at which the next request may leave: the
/// theoretical arrival time pulled back by the burst tolerance.
pub open spec fn gcra_ready(tat: int, tolerance: int) -> int {
    if tat - tolerance > 0 {
        tat - tolerance
    } else {
        0
    }
}

/// How long a request arriving at `now` must wait.
pub open spec fn gcra_wait(tat: int, tolerance: int, now: int) -> int {
    let r = gcra_ready(tat, tolerance);
    if r > now {
        r - now
    } else {
        0
    }
}

/// The instant at which a request arriving at `now` actually leaves.
pub open spec fn gcra_grant(tat: int, tolerance: int, now: int) -> int {
    now + gcra_wait(tat, tolerance, now)
}

/// The theoretical arrival time after that request leaves.
pub open spec fn gcra_next_tat(tat: int, period: int, tolerance: int, now: int) -> int {
    let g = gcra_grant(tat, tolerance, now);
    (if g > tat {
        g
    } else {
        tat
    }) + period
}

/// Clamp to the range of `u64`.
pub open spec fn sat64(x: int) -> int {
    if x > u64::MAX {
        u64::MAX as int
    } else {
        x
    }
}

/// The emission interval for `rate` requests per second, in
/// nanoseconds.
pub open spec fn spec_period(rate: int) -> int {
    1_000_000_000int / rate
}

/// The burst tolerance for `rate` requests per second: `rate` cells of
/// burst capacity.
pub open spec fn spec_tolerance(rate: int) -> int {
    spec_period(rate) * (rate - 1)
}

/// Token-bucket state for one endpoint. All times are nanoseconds on
/// the caller's monotonic clock.
#[derive(Debug, Clone, Copy)]
pub struct RateLimiter {
    period_nanos: u64,
    tolerance_nanos: u64,
    tat_nanos: u64,
}

impl RateLimiter {
    pub closed spec fn spec_period_nanos(&self) -> int {
        self.period_nanos as int
    }

    pub closed spec fn spec_tolerance_nanos(&self) -> int {
        self.tolerance_nanos as int
    }

    pub closed spec fn spec_tat(&self) -> int {
        self.tat_nanos as int
    }

    /// A fresh limiter for `rate_per_second` requests per second.
    pub fn new(rate_per_second: u32) -> (r: RateLimiter)
        requires
            rate_per_second >= 1,
        ensures
            r.spec_period_nanos() == spec_period(rate_per_second as int),
            r.spec_tolerance_nanos() == spec_tolerance(rate_per_second as int),
            r.spec_tat() == 0,
    {
        let rate = rate_per_second as u64;
        let period = 1_000_000_000u64 / rate;
        proof {
            vstd::arithmetic::div_mod::lemma_fundamental_div_mod(1_000_000_000, rate as int);
            assert(period * rate <= 1_000_000_000) by (nonlinear_arith)
                requires
                    rate >= 1,
                    period == 1_000_000_000 as int / rate as int,
                    1_000_000_000 as int == rate as int * (1_000_000_000 as int / rate as int) + 1_000_000_000 as int % rate as int,
                    1_000_000_000 as int % rate as int >= 0,
            ;
            assert(period * (rate - 1) <= 1_000_000_000) by (nonlinear_arith)
                requires
                    rate >= 1,
                    period >= 0,
                    period * rate <= 1_000_000_000,
            ;
        }
        let tolerance = period * (rate - 1);
        RateLimiter { period_nanos: period, tolerance_nanos: tolerance, tat_nanos: 0 }
    }

    /// Admit one request arriving at `now_nanos`: return how long the
    /// caller must wait before sending, and advance the state as if
    /// the request leaves exactly when the wait elapses.
    pub fn acquire_at(&mut self, now_nanos: u64) -> (wait: u64)
        ensures
            final(self).spec_period_nanos() == old(self).spec_period_nanos(),
            final(self).spec_tolerance_nanos() == old(self).spec_tolerance_nanos(),
            wait as int == gcra_wait(
                old(self).spec_tat(),
                old(self).spec_tolerance_nanos(),
                now_nanos as int,
            ),
            final(self).spec_tat() == sat64(
                gcra_next_tat(
                    old(self).spec_tat(),
                    old(self).spec_period_nanos(),
                    old(self).spec_tolerance_nanos(),
                    now_nanos as int,
                ),
            ),
    {
        let ready = if self.tat_nanos > self.tolerance_nanos {
            self.tat_nanos - self.tolerance_nanos
        } else {
            0
        };
        let wait = if ready > now_nanos {
            ready - now_nanos
        } else {
            0
        };
        let grant = now_nanos + wait;
        let base = if grant > self.tat_nanos {
            grant
        } else {
            self.tat_nanos
        };
        self.tat_nanos = if base > u64::MAX - self.period_nanos {
            u64::MAX
        } else {
            base + self.period_nanos
        };
        wait
    }
}

/// The theoretical arrival time before the `k`-th request of a run
/// whose requests arrive at `times`.
pub open spec fn gcra_run_tat(
    tat0: int,
    period: int,
    tolerance: int,
    times: Seq<int>,
    k: int,
) -> int
    decreases k,
{
    if k <= 0 {
        tat0
    } else {
        gcra_next_tat(gcra_run_tat(tat0, period, tolerance, times, k - 1), period, tolerance, times[k - 1])
    }
}

/// The instant at which the `k`-th request of the run leaves.
pub open spec fn gcra_grant_at(
    tat0: int,
    period: int,
    tolerance: int,
    times: Seq<int>,
    k: int,
) -> int {
    gcra_grant(gcra_run_tat(tat0, period, tolerance, times, k), tolerance, times[k])
}

proof fn lemma_gcra_tat_after_grant(
    tat0: int,
    period: int,
    tolerance: int,
    times: Seq<int>,
    i: int,
    j: int,
)
    requires
        0 <= i < j,
    ensures
        gcra_run_tat(tat0, period, tolerance, times, j) >= gcra_grant_at(
            tat0,
            period,
            tolerance,
            times,
            i,
        ) + (j - i) * period,
    decreases j - i,
{
    if j == i + 1 {
        assert((j - i) * period == period) by (nonlinear_arith)
            requires
                j == i + 1,
        ;
    } else {
        lemma_gcra_tat_after_grant(tat0, period, tolerance, times, i, j - 1);
        assert((j - i) * period == (j - 1 - i) * period + period) by (nonlinear_arith);
    }
}

/// Pacing law: any two requests of one run leave at least
/// `(j - i) * period - tolerance` nanoseconds apart. With period
/// `1e9/rate` and tolerance `(rate - 1) * period` this is the
/// token-bucket guarantee: after the burst allowance, requests leave
/// at most `rate` per second.
pub proof fn lemma_gcra_spacing(
    tat0: int,
    period: int,
    tolerance: int,
    times: Seq<int>,
    i: int,
    j: int,
)
    requires
        0 <= i < j,
        tolerance >= 0,
    ensures
        gcra_grant_at(tat0, period, tolerance, times, j) >= gcra_grant_at(
            tat0,
            period,
            tolerance,
            times,
            i,
        ) + (j - i) * period - tolerance,
{
    lemma_gcra_tat_after_grant(tat0, period, tolerance, times, i, j);
}

/// Window law: when the `i`-th and `j`-th requests of one run both
/// leave inside a window of `w` nanoseconds, then
/// `(j - i) * period < w + tolerance` — so any 1-second window sees at
/// most `rate` steady-state grants plus the burst allowance.
pub proof fn lemma_gcra_window_bound(
    tat0: int,
    period: int,
    tolerance: int,
    times: Seq<int>,
    i: int,
    j: int,
    a: int,
    w: int,
)
    requires
        0 <= i <= j,
        tolerance >= 0,
        a <= gcra_grant_at(tat0, period, tolerance, times, i),
        gcra_grant_at(tat0, period, tolerance, times, j) < a + w,
    ensures
        (j - i) * period < w + tolerance,
{
    if i < j {
        lemma_gcra_spacing(tat0, period, tolerance, times, i, j);
    } else {
        assert((j - i) * period == 0) by (nonlinear_arith)
            requires
                i == j,
        ;
    }
}

/// One endpoint's limiter, keyed by the exact endpoint string.
struct LimiterEntry {
    key: String,
    limiter: RateLimiter,
}

/// The per-endpoint rate limiters of one prober: one token bucket per
/// endpoint base URL, created on first use, all sharing the same
/// configured rate.
pub struct EndpointRateLimiters {
    entries: Vec<LimiterEntry>,
    rate: u32,
}

impl EndpointRateLimiters {
    spec fn lookup(entries: Seq<LimiterEntry>, k: Seq<char>) -> Option<RateLimiter>
        decreases entries.len(),
    {
        if entries.len() == 0 {
            None
        } else if entries[0].key@ == k {
            Some(entries[0].limiter)
        } else {
            Self::lookup(entries.drop_first(), k)
        }
    }

    /// The limiter currently held for endpoint `k`, if any.
    pub closed spec fn spec_limiter(&self, k: Seq<char>) -> Option<RateLimiter> {
        Self::lookup(self.entries@, k)
    }

    pub closed spec fn spec_rate(&self) -> int {
        self.rate as int
    }

    /// Every limiter was built for the configured rate.
    pub closed spec fn wf(&self) -> bool {
        &&& self.rate >= 1
        &&& forall|i: int|
            0 <= i < self.entries@.len() ==> (#[trigger] self.entries@[i].limiter).spec_period_nanos()
                == spec_period(self.rate as int) && self.entries@[i].limiter.spec_tolerance_nanos()
                == spec_tolerance(self.rate as int)
    }

    /// A fresh, empty limiter map for `default_rate_per_second`.
    pub fn new(default_rate_per_second: u32) -> (r: EndpointRateLimiters)
        requires
            default_rate_per_second >= 1,
        ensures
            r.wf(),
            r.spec_rate() == default_rate_per_second as int,
            forall|k: Seq<char>| r.spec_limiter(k) is None,
    {
        EndpointRateLimiters { entries: Vec::new(), rate: default_rate_per_second }
    }

    /// Admit one request for `endpoint` at clock reading `now_nanos`:
    /// the limiter for `endpoint` is created at first touch, then
    /// advanced one step; every other endpoint's limiter is untouched.
    /// Returns how long the caller must sleep before sending.
    pub fn acquire_at(&mut self, endpoint: &str, now_nanos: u64) -> (wait: u64)
        requires
            old(self).wf(),
        ensures
            final(self).wf(),
            final(self).spec_rate() == old(self).spec_rate(),
            ({
                let tat0 = match old(self).spec_limiter(endpoint@) {
                    Some(l) => l.spec_tat(),
                    None => 0,
                };
                let per = spec_period(old(self).spec_rate());
                let tol = spec_tolerance(old(self).spec_rate());
                &&& wait as int == gcra_wait(tat0, tol, now_nanos as int)
                &&& match final(self).spec_limiter(endpoint@) {
                    Some(l) => l.spec_tat() == sat64(
                        gcra_next_tat(tat0, per, tol, now_nanos as int),
                    ),
                    None => false,
                }
            }),
            forall|k: Seq<char>|
                k != endpoint@ ==> final(self).spec_limiter(k) == old(self).spec_limiter(k),
    {
        let n = self.entries.len();
        proof {
            assert(self.entries@.subrange(0, n as int) =~= self.entries@);
        }
        let mut i: usize = 0;
        while i < n
            invariant
                *self == *old(self),
                old(self).wf(),
                n == self.entries@.len(),
                i <= n,
                Self::lookup(self.entries@.subrange(i as int, n as int), endpoint@)
                    == self.spec_limiter(endpoint@),
                forall|t: int| 0 <= t < i ==> self.entries@[t].key@ != endpoint@,
            decreases n - i,
        {
            let ghost s0 = self.entries@;
            proof {
                assert(s0.subrange(i as int, n as int).drop_first() =~= s0.subrange(
                    i as int + 1,
                    n as int,
                ));
                assert(s0.subrange(i as int, n as int)[0] == s0[i as int]);
            }
            if str_eq(self.entries[i].key.as_str(), endpoint) {
                proof {
                    assert(self.spec_limiter(endpoint@) == Some(s0[i as int].limiter));
                }
                let w = self.entries[i].limiter.acquire_at(now_nanos);
                proof {
                    let e2 = self.entries@[i as int];
                    assert(self.entries@ == s0.update(i as int, e2));
                    lemma_lookup_update(s0, i as int, e2, endpoint@);
                    assert forall|t: int| 0 <= t < self.entries@.len() implies (
                    #[trigger] self.entries@[t].limiter).spec_period_nanos() == spec_period(
                        self.rate as int,
                    ) && self.entries@[t].limiter.spec_tolerance_nanos() == spec_tolerance(
                        self.rate as int,
                    ) by {
                        if t != i as int {
                            assert(self.entries@[t] == s0[t]);
                        }
                    }
                }
                return w;
            }
            i = i + 1;
        }
        proof {
            assert(self.entries@.subrange(n as int, n as int) =~= Seq::<LimiterEntry>::empty());
        }
        let mut lim = RateLimiter::new(self.rate);
        let w = lim.acquire_at(now_nanos);
        let ghost s0 = self.entries@;
        self.entries.push(LimiterEntry { key: endpoint.to_owned(), limiter: lim });
        proof {
            let e2 = self.entries@.last();
            assert(self.entries@ == s0.push(e2));
            lemma_lookup_push(s0, e2, endpoint@);
            assert forall|t: int| 0 <= t < self.entries@.len() implies (
            #[trigger] self.entries@[t].limiter).spec_period_nanos() == spec_period(
                self.rate as int,
            ) && self.entries@[t].limiter.spec_tolerance_nanos() == spec_tolerance(
                self.rate as int,
            ) by {
                if t < self.entries@.len() - 1 {
                    assert(self.entries@[t] == s0[t]);
                }
            }
        }
        w
    }
}

proof fn lemma_lookup_update(s: Seq<LimiterEntry>, i: int, e: LimiterEntry, k: Seq<char>)
    requires
        0 <= i < s.len(),
        e.key@ == s[i].key@,
        s[i].key@ == k,
        forall|t: int| 0 <= t < i ==> s[t].key@ != k,
    ensures
        EndpointRateLimiters::lookup(s.update(i, e), k) == Some(e.limiter),
        forall|k2: Seq<char>|
            k2 != k ==> EndpointRateLimiters::lookup(s.update(i, e), k2)
                == EndpointRateLimiters::lookup(s, k2),
    decreases i,
{
    if i == 0 {
        assert forall|k2: Seq<char>| k2 != k implies EndpointRateLimiters::lookup(
            s.update(0, e),
            k2,
        ) == EndpointRateLimiters::lookup(s, k2) by {
            assert(s.update(0, e)[0] == e);
            assert(s.update(0, e).drop_first() =~= s.drop_first());
            assert(EndpointRateLimiters::lookup(s.update(0, e), k2)
                == EndpointRateLimiters::lookup(s.drop_first(), k2));
            assert(EndpointRateLimiters::lookup(s, k2) == EndpointRateLimiters::lookup(
                s.drop_first(),
                k2,
            ));
        }
    } else {
        assert forall|t: int| 0 <= t < i - 1 implies s.drop_first()[t].key@ != k by {
            assert(s.drop_first()[t] == s[t + 1]);
        }
        lemma_lookup_update(s.drop_first(), i - 1, e, k);
        assert(s.update(i, e).drop_first() =~= s.drop_first().update(i - 1, e));
        assert(s.update(i, e)[0] == s[0]);
        assert(s[0].key@ != k);
        assert(EndpointRateLimiters::lookup(s.update(i, e), k) == Some(e.limiter));
        assert forall|k2: Seq<char>| k2 != k implies EndpointRateLimiters::lookup(
            s.update(i, e),
            k2,
        ) == EndpointRateLimiters::lookup(s, k2) by {
            if s[0].key@ == k2 {
                assert(EndpointRateLimiters::lookup(s.update(i, e), k2) == Some(s[0].limiter));
                assert(EndpointRateLimiters::lookup(s, k2) == Some(s[0].limiter));
            } else {
                assert(EndpointRateLimiters::lookup(s.update(i, e), k2)
                    == EndpointRateLimiters::lookup(s.drop_first().update(i - 1, e), k2));
                assert(EndpointRateLimiters::lookup(s, k2) == EndpointRateLimiters::lookup(
                    s.drop_first(),
                    k2,
                ));
            }
        }
    }
}

proof fn lemma_lookup_push(s: Seq<LimiterEntry>, e: LimiterEntry, k: Seq<char>)
    requires
        forall|t: int| 0 <= t < s.len() ==> s[t].key@ != k,
    ensures
        EndpointRateLimiters::lookup(s.push(e), k) == if e.key@ == k {
            Some(e.limiter)
        } else {
            Option::<RateLimiter>::None
        },
        forall|k2: Seq<char>|
            k2 != e.key@ ==> EndpointRateLimiters::lookup(s.push(e), k2)
                == EndpointRateLimiters::lookup(s, k2),
    decreases s.len(),
{
    if s.len() == 0 {
        assert(s.push(e)[0] == e);
        assert(s.push(e).drop_first() =~= Seq::<LimiterEntry>::empty());
        assert(EndpointRateLimiters::lookup(s.push(e).drop_first(), k) is None);
        assert forall|k2: Seq<char>| k2 != e.key@ implies EndpointRateLimiters::lookup(
            s.push(e),
            k2,
        ) == EndpointRateLimiters::lookup(s, k2) by {
            assert(EndpointRateLimiters::lookup(s.push(e).drop_first(), k2) is None);
        }
    } else {
        assert forall|t: int| 0 <= t < s.drop_first().len() implies s.drop_first()[t].key@
            != k by {
            assert(s.drop_first()[t] == s[t + 1]);
        }
        lemma_lookup_push(s.drop_first(), e, k);
        assert(s.push(e)[0] == s[0]);
        assert(s.push(e).drop_first() =~= s.drop_first().push(e));
        assert(s[0].key@ != k);
        assert(EndpointRateLimiters::lookup(s.push(e), k) == EndpointRateLimiters::lookup(
            s.drop_first().push(e),
            k,
        ));
        assert forall|k2: Seq<char>| k2 != e.key@ implies EndpointRateLimiters::lookup(
            s.push(e),
            k2,
        ) == EndpointRateLimiters::lookup(s, k2) by {
            if s[0].key@ == k2 {
                assert(EndpointRateLimiters::lookup(s.push(e), k2) == Some(s[0].limiter));
                assert(EndpointRateLimiters::lookup(s, k2) == Some(s[0].limiter));
            } else {
                assert(EndpointRateLimiters::lookup(s.push(e), k2)
                    == EndpointRateLimiters::lookup(s.drop_first().push(e), k2));
                assert(EndpointRateLimiters::lookup(s, k2) == EndpointRateLimiters::lookup(
                    s.drop_first(),
                    k2,
                ));
            }
        }
    }
}

} // verus!
