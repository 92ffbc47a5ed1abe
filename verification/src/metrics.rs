//! Request and error counters with a threshold alert, and their Prometheus text form.

use vstd::prelude::*;
use crate::text::{dec, push_decimal};

verus! {

/// The counters of a `MetricsStore`.
pub struct MetricsView {
    pub requests_total: nat,
    pub errors_total: nat,
    pub alerts_total: nat,
    pub auth_requests_total: nat,
    pub auth_errors_total: nat,
    pub error_threshold: nat,
}

/// Number of alerts raised after `errors` errors: one for each error that
/// brought the error count to `threshold` or above.
pub open spec fn alerts_for(errors: nat, threshold: nat) -> nat {
    if threshold <= 1 {
        errors
    } else if errors >= threshold {
        (errors - threshold + 1) as nat
    } else {
        0
    }
}

impl MetricsView {
    /// Whether the error count has reached the alert threshold.
    pub open spec fn alerting(self) -> bool {
        self.errors_total >= self.error_threshold
    }

    /// The invariant every store keeps.
    pub open spec fn consistent(self) -> bool {
        &&& self.auth_errors_total == self.errors_total
        &&& self.alerts_total == alerts_for(self.errors_total, self.error_threshold)
    }
}

pub struct MetricsStore {
    requests_total: u64,
    errors_total: u64,
    alerts_total: u64,
    auth_requests_total: u64,
    auth_errors_total: u64,
    error_threshold: u64,
}

impl View for MetricsStore {
    type V = MetricsView;

    closed spec fn view(&self) -> MetricsView {
        MetricsView {
            requests_total: self.requests_total as nat,
            errors_total: self.errors_total as nat,
            alerts_total: self.alerts_total as nat,
            auth_requests_total: self.auth_requests_total as nat,
            auth_errors_total: self.auth_errors_total as nat,
            error_threshold: self.error_threshold as nat,
        }
    }
}

/// The Prometheus exposition text for the given counter values.
pub open spec fn render_text(requests: nat, auth_requests: nat, errors: nat, alerts: nat) -> Seq<char> {
    "# HELP auth_requests_total Total number of handled requests\n# TYPE auth_requests_total counter\nauth_requests_total "@
        + dec(requests)
        + "\n# HELP auth_auth_requests_total Total number of auth requests\n# TYPE auth_auth_requests_total counter\nauth_auth_requests_total "@
        + dec(auth_requests)
        + "\n# HELP auth_errors_total Total number of client/server errors\n# TYPE auth_errors_total counter\nauth_errors_total "@
        + dec(errors)
        + "\n# HELP auth_alerts_total Total number of alert events\n# TYPE auth_alerts_total counter\nauth_alerts_total "@
        + dec(alerts)
        + "\n"@
}

impl MetricsStore {
    #[verifier::type_invariant]
    spec fn inv(self) -> bool {
        self@.consistent()
    }

    /// A store with all counters at zero and the given alert threshold.
    pub fn new_with_threshold(threshold: u64) -> (m: MetricsStore)
        ensures
            m@ == (MetricsView {
                requests_total: 0,
                errors_total: 0,
                alerts_total: 0,
                auth_requests_total: 0,
                auth_errors_total: 0,
                error_threshold: threshold as nat,
            }),
            m@.consistent(),
    {
        MetricsStore {
            requests_total: 0,
            errors_total: 0,
            alerts_total: 0,
            auth_requests_total: 0,
            auth_errors_total: 0,
            error_threshold: threshold,
        }
    }

    /// Counts one handled request.
    pub fn increment_requests(&mut self)
        requires
            old(self)@.requests_total < u64::MAX,
        ensures
            final(self)@ == (MetricsView { requests_total: old(self)@.requests_total + 1, ..old(self)@ }),
            final(self)@.consistent(),
    {
        proof {
            use_type_invariant(&*self);
        }
        self.requests_total = self.requests_total + 1;
    }

    /// Counts one authentication request.
    pub fn increment_auth_requests(&mut self)
        requires
            old(self)@.auth_requests_total < u64::MAX,
        ensures
            final(self)@ == (MetricsView {
                auth_requests_total: old(self)@.auth_requests_total + 1,
                ..old(self)@
            }),
            final(self)@.consistent(),
    {
        proof {
            use_type_invariant(&*self);
        }
        self.auth_requests_total = self.auth_requests_total + 1;
    }

    /// Counts one error response; raises an alert when the error count is at
    /// or above the threshold afterwards.
    pub fn increment_errors(&mut self)
        requires
            old(self)@.errors_total < u64::MAX,
        ensures
            final(self)@ == (MetricsView {
                errors_total: old(self)@.errors_total + 1,
                auth_errors_total: old(self)@.auth_errors_total + 1,
                alerts_total: if old(self)@.errors_total + 1 >= old(self)@.error_threshold {
                    old(self)@.alerts_total + 1
                } else {
                    old(self)@.alerts_total
                },
                ..old(self)@
            }),
            final(self)@.consistent(),
    {
        proof {
            use_type_invariant(&*self);
        }
        let errors_total = self.errors_total + 1;
        let alerts_total = if errors_total >= self.error_threshold {
            self.alerts_total + 1
        } else {
            self.alerts_total
        };
        *self = MetricsStore {
            requests_total: self.requests_total,
            errors_total,
            alerts_total,
            auth_requests_total: self.auth_requests_total,
            auth_errors_total: self.auth_errors_total + 1,
            error_threshold: self.error_threshold,
        };
    }

    /// Whether the error count has reached the alert threshold.
    pub fn maybe_alert(&self) -> (b: bool)
        ensures
            b == self@.alerting(),
            self@.consistent(),
    {
        proof {
            use_type_invariant(self);
        }
        self.errors_total >= self.error_threshold
    }

    pub fn alerts_total(&self) -> (n: u64)
        ensures
            n == self@.alerts_total,
    {
        self.alerts_total
    }

    pub fn requests_total(&self) -> (n: u64)
        ensures
            n == self@.requests_total,
    {
        self.requests_total
    }

    pub fn auth_requests_total(&self) -> (n: u64)
        ensures
            n == self@.auth_requests_total,
    {
        self.auth_requests_total
    }

    pub fn errors_total(&self) -> (n: u64)
        ensures
            n == self@.errors_total,
    {
        self.errors_total
    }

    /// The counters in the Prometheus text exposition format.
    pub fn render(&self) -> (s: String)
        ensures
            s@ == render_text(
                self@.requests_total,
                self@.auth_requests_total,
                self@.errors_total,
                self@.alerts_total,
            ),
    {
        let mut s = String::from_str(
            "# HELP auth_requests_total Total number of handled requests\n# TYPE auth_requests_total counter\nauth_requests_total ",
        );
        push_decimal(&mut s, self.requests_total);
        s.append(
            "\n# HELP auth_auth_requests_total Total number of auth requests\n# TYPE auth_auth_requests_total counter\nauth_auth_requests_total ",
        );
        push_decimal(&mut s, self.auth_requests_total);
        s.append(
            "\n# HELP auth_errors_total Total number of client/server errors\n# TYPE auth_errors_total counter\nauth_errors_total ",
        );
        push_decimal(&mut s, self.errors_total);
        s.append(
            "\n# HELP auth_alerts_total Total number of alert events\n# TYPE auth_alerts_total counter\nauth_alerts_total ",
        );
        push_decimal(&mut s, self.alerts_total);
        s.append("\n");
        s
    }
}

impl Default for MetricsStore {
    fn default() -> (m: MetricsStore)
        ensures
            m@ == (MetricsView {
                requests_total: 0,
                errors_total: 0,
                alerts_total: 0,
                auth_requests_total: 0,
                auth_errors_total: 0,
                error_threshold: 0,
            }),
            m@.consistent(),
    {
        MetricsStore::new_with_threshold(0)
    }
}

/// In every consistent state (every store is in one, see the constructors'
/// and operations' contracts) one alert was counted for each error that left the
/// error count at or above the threshold: so never more alerts than errors.
pub proof fn lemma_alerts_bounded_by_errors(v: MetricsView)
    requires
        v.consistent(),
    ensures
        v.alerts_total <= v.errors_total,
        v.errors_total >= v.error_threshold && v.error_threshold > 0 ==> v.alerts_total == v.errors_total - v.error_threshold + 1,
        v.errors_total < v.error_threshold ==> v.alerts_total == 0,
{
}

/// Once a store is alerting it stays alerting: no operation lowers the error
/// count or changes the threshold.
pub proof fn lemma_alerting_persists(before: MetricsView, after: MetricsView)
    requires
        before.alerting(),
        after.error_threshold == before.error_threshold,
        after.errors_total >= before.errors_total,
    ensures
        after.alerting(),
{
}

} // verus!
