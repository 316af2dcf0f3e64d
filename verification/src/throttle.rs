//! Budgets for repeated warnings: which occurrences of a recurring warning
//! get logged. The caller does the logging and supplies the clock.

use vstd::prelude::*;

verus! {

/// How many hits one [`WarnThrottle`] logs per window.
pub const MAX_DEPTH_REPORTS: usize = 5;

/// How long (in seconds) a [`WarnThrottle`] stays quiet before its budget
/// refills.
pub const WARN_WINDOW_SECS: u64 = 300;

/// Appended to the last message a [`WarnThrottle`] logs in a window.
pub open spec fn window_suppression_note() -> Seq<char> {
    " Further reports from here suppressed until the next window."@
}

/// Appended to the last message [`throttled_warn`] logs for a counter.
pub open spec fn lifetime_suppression_note() -> Seq<char> {
    " Further reports suppressed."@
}

/// The state of a [`WarnThrottle`]: its budget per window, the reports
/// counted in the current window, and when that window started.
pub struct ThrottleModel {
    pub limit: nat,
    pub reports: nat,
    pub window_started: int,
}

/// A window that started at `start` is over at time `now`.
pub open spec fn window_expired(start: int, now: int) -> bool {
    now - start >= WARN_WINDOW_SECS
}

/// The state once the window has been refilled, if it was over at `now`.
pub open spec fn refreshed(m: ThrottleModel, now: int) -> ThrottleModel {
    if window_expired(m.window_started, now) {
        ThrottleModel { limit: m.limit, reports: 0, window_started: now }
    } else {
        m
    }
}

/// One warning at time `now`: whether it is logged and the state after it.
/// The report is counted whether or not it is logged; it is logged while the
/// window's budget is not spent.
pub open spec fn throttle_step(m: ThrottleModel, now: int) -> (ThrottleModel, bool) {
    let r = refreshed(m, now);
    (
        ThrottleModel {
            limit: r.limit,
            reports: if r.reports >= usize::MAX {
                0
            } else {
                r.reports + 1
            },
            window_started: r.window_started,
        },
        r.reports < r.limit,
    )
}

/// How many of the warnings at times `times`, in order, get logged.
pub open spec fn logged_count(m: ThrottleModel, times: Seq<int>) -> nat
    decreases times.len(),
{
    if times.len() == 0 {
        0
    } else {
        let (next, logged) = throttle_step(m, times[0]);
        (if logged {
            1nat
        } else {
            0nat
        }) + logged_count(next, times.drop_first())
    }
}

/// A warn budget that refills every [`WARN_WINDOW_SECS`], for warnings that
/// can recur over a long-running server's lifetime.
pub struct WarnThrottle {
    limit: usize,
    reports: usize,
    window_started_secs: u64,
}

impl WarnThrottle {
    pub closed spec fn model(&self) -> ThrottleModel {
        ThrottleModel {
            limit: self.limit as nat,
            reports: self.reports as nat,
            window_started: self.window_started_secs as int,
        }
    }

    /// A throttle that logs `limit` reports per window.
    pub fn new(limit: usize) -> (t: WarnThrottle)
        ensures
            t.model() == (ThrottleModel { limit: limit as nat, reports: 0, window_started: 0 }),
    {
        WarnThrottle { limit, reports: 0, window_started_secs: 0 }
    }

    /// Count one report at time `now_secs` (seconds since the process
    /// started) and say whether to log it: `Some(suffix)` when it is logged
    /// with `suffix` appended (the suppression note on the window's last
    /// logged report, empty otherwise), `None` when the window's budget is
    /// spent (see [`throttle_step`]).
    pub fn warn(&mut self, now_secs: u64) -> (r: Option<&'static str>)
        ensures
            (final(self).model(), r is Some) == throttle_step(old(self).model(), now_secs as int),
            r matches Some(s) ==> s@ == (if refreshed(old(self).model(), now_secs as int).reports + 1
                == old(self).model().limit {
                window_suppression_note()
            } else {
                ""@
            }),
    {
        if now_secs >= self.window_started_secs && now_secs - self.window_started_secs
            >= WARN_WINDOW_SECS {
            self.window_started_secs = now_secs;
            self.reports = 0;
        }
        let seen = self.reports;
        self.reports = if seen == usize::MAX {
            0
        } else {
            seen + 1
        };
        if seen >= self.limit {
            return None;
        }
        if seen + 1 == self.limit {
            Some(" Further reports from here suppressed until the next window.")
        } else {
            Some("")
        }
    }
}

/// Within one window a throttle logs at most its budget: of any warnings
/// raised before the window is over, at most `limit - reports` are logged
/// (as long as the report counter does not wrap around).
pub proof fn law_at_most_limit_per_window(m: ThrottleModel, times: Seq<int>)
    requires
        m.reports + times.len() <= usize::MAX,
        forall|i: int| 0 <= i < times.len() ==> !window_expired(m.window_started, #[trigger] times[i]),
    ensures
        logged_count(m, times) <= if m.reports <= m.limit {
            m.limit - m.reports
        } else {
            0
        },
    decreases times.len(),
{
    if times.len() > 0 {
        let (next, logged) = throttle_step(m, times[0]);
        assert forall|i: int| 0 <= i < times.drop_first().len() implies !window_expired(
            next.window_started,
            #[trigger] times.drop_first()[i],
        ) by {
            assert(times.drop_first()[i] == times[i + 1]);
        }
        law_at_most_limit_per_window(next, times.drop_first());
    }
}

/// Which of the warnings at times `times`, in order, get logged.
pub open spec fn logged_flags(m: ThrottleModel, times: Seq<int>) -> Seq<bool>
    decreases times.len(),
{
    if times.len() == 0 {
        Seq::empty()
    } else {
        let (next, logged) = throttle_step(m, times[0]);
        seq![logged] + logged_flags(next, times.drop_first())
    }
}

/// Within one window exactly the first reports up to the budget are logged:
/// of the warnings raised before the window is over, warning `k` (counting
/// from 0) is logged iff `reports + k < limit` (as long as the report
/// counter does not wrap around).
pub proof fn law_exactly_the_budget_is_logged(m: ThrottleModel, times: Seq<int>)
    requires
        m.reports + times.len() <= usize::MAX,
        forall|i: int| 0 <= i < times.len() ==> !window_expired(m.window_started, #[trigger] times[i]),
    ensures
        logged_flags(m, times).len() == times.len(),
        forall|k: int| 0 <= k < times.len() ==> #[trigger] logged_flags(m, times)[k] == (m.reports + k < m.limit),
    decreases times.len(),
{
    if times.len() > 0 {
        let (next, logged) = throttle_step(m, times[0]);
        assert forall|i: int| 0 <= i < times.drop_first().len() implies !window_expired(
            next.window_started,
            #[trigger] times.drop_first()[i],
        ) by {
            assert(times.drop_first()[i] == times[i + 1]);
        }
        law_exactly_the_budget_is_logged(next, times.drop_first());
        let rest = logged_flags(next, times.drop_first());
        assert forall|k: int| 0 <= k < times.len() implies #[trigger] logged_flags(m, times)[k] == (m.reports
            + k < m.limit) by {
            if k > 0 {
                assert(logged_flags(m, times)[k] == rest[k - 1]);
            }
        }
    }
}

/// A window opened by a warning: when the first warning finds the window
/// over, it and the warnings after it in the new window are logged exactly
/// while fewer than `limit` of them came before: warning `k` (counting from
/// 0) is logged iff `k < limit`. With a fresh throttle, any first warning at
/// least a window after the start behaves so.
pub proof fn law_first_limit_of_a_window_are_logged(m: ThrottleModel, times: Seq<int>)
    requires
        times.len() > 0,
        times.len() <= usize::MAX,
        window_expired(m.window_started, times[0]),
        forall|i: int| 1 <= i < times.len() ==> !window_expired(times[0], #[trigger] times[i]),
    ensures
        logged_flags(m, times).len() == times.len(),
        forall|k: int| 0 <= k < times.len() ==> #[trigger] logged_flags(m, times)[k] == (k < m.limit),
{
    let (next, logged) = throttle_step(m, times[0]);
    let rest = times.drop_first();
    assert forall|i: int| 0 <= i < rest.len() implies !window_expired(next.window_started, #[trigger] rest[i]) by {
        assert(rest[i] == times[i + 1]);
    }
    law_exactly_the_budget_is_logged(next, rest);
    assert forall|k: int| 0 <= k < times.len() implies #[trigger] logged_flags(m, times)[k] == (k < m.limit) by {
        if k > 0 {
            assert(logged_flags(m, times)[k] == logged_flags(next, rest)[k - 1]);
        }
    }
}

/// Once a window is over, the budget refills: the next warning is logged
/// (for any budget of at least one), whatever was spent before.
pub proof fn law_window_refills(m: ThrottleModel, now: int)
    requires
        window_expired(m.window_started, now),
        m.limit > 0,
    ensures
        throttle_step(m, now).1,
        throttle_step(m, now).0.reports == 1,
        throttle_step(m, now).0.window_started == now,
{
}

/// Count one report through `counter` and say whether to log it: the first
/// `limit` reports through a counter are logged, the last of them with the
/// suppression note (see [`lifetime_suppression_note`]); later ones are not.
/// The counter wraps around after `usize::MAX` reports, as an atomic counter
/// does.
pub fn throttled_warn(counter: &mut usize, limit: usize) -> (r: Option<&'static str>)
    ensures
        *final(counter) == if *old(counter) == usize::MAX {
            0
        } else {
            *old(counter) + 1
        },
        r is Some <==> *old(counter) < limit,
        r matches Some(s) ==> s@ == (if *old(counter) + 1 == limit {
            lifetime_suppression_note()
        } else {
            ""@
        }),
{
    let seen = *counter;
    *counter = if seen == usize::MAX {
        0
    } else {
        seen + 1
    };
    if seen >= limit {
        return None;
    }
    if seen + 1 == limit {
        Some(" Further reports suppressed.")
    } else {
        Some("")
    }
}

/// The value of a fresh counter after `n` reports through it.
pub open spec fn counter_after(n: nat) -> int
    decreases n,
{
    if n == 0 {
        0
    } else {
        let c = counter_after((n - 1) as nat);
        if c == usize::MAX {
            0
        } else {
            c + 1
        }
    }
}

/// A fresh counter counts reports exactly until it wraps: after `n <=
/// usize::MAX` reports it holds `n`, so (by [`throttled_warn`]'s contract)
/// report number `n` is logged iff `n < limit`: exactly the first `limit`
/// reports are.
pub proof fn law_counter_counts_reports(n: nat)
    requires
        n <= usize::MAX,
    ensures
        counter_after(n) == n,
    decreases n,
{
    if n > 0 {
        law_counter_counts_reports((n - 1) as nat);
    }
}

} // verus!
