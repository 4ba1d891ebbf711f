//! A circuit breaker per model.
//!
//! Time is handed in, in milliseconds of a clock that never goes back.

use vstd::prelude::*;

verus! {

/// When a breaker opens, and when it closes again.
#[derive(Debug, Clone, Copy, PartialEq, Eq, Structural)]
pub struct CircuitBreakerConfig {
    /// How many failures in a row open it.
    pub failure_threshold: u32,
    /// How many probe successes close it.
    pub success_threshold: u32,
    /// How long it stays open before a probe.
    pub timeout_secs: u64,
}

pub open spec fn default_breaker() -> CircuitBreakerConfig {
    CircuitBreakerConfig { failure_threshold: 3, success_threshold: 2, timeout_secs: 60 }
}

impl Default for CircuitBreakerConfig {
    fn default() -> (r: Self)
        ensures
            r == default_breaker(),
    {
        CircuitBreakerConfig { failure_threshold: 3, success_threshold: 2, timeout_secs: 60 }
    }
}

#[derive(Debug, Clone, Copy, PartialEq, Eq, Structural)]
pub enum CircuitState {
    /// Requests pass.
    Closed,
    /// Requests do not pass until the timeout is over.
    Open,
    /// One probe at a time passes.
    HalfOpen,
}

/// The breaker of one model.
#[derive(Debug, Clone, Copy, PartialEq, Eq, Structural)]
pub struct CircuitBreaker {
    pub config: CircuitBreakerConfig,
    pub state: CircuitState,
    /// Failures in a row.
    pub failures: u32,
    /// Probes that succeeded since it was half open.
    pub successes: u32,
    /// When it was opened.
    pub opened_at: u64,
    /// Whether a probe is in flight.
    pub probing: bool,
}

/// One more, up to the largest number there is.
pub open spec fn one_more(n: u32) -> u32 {
    if n == u32::MAX {
        n
    } else {
        (n + 1) as u32
    }
}

fn count_one(n: u32) -> (r: u32)
    ensures
        r == one_more(n),
{
    if n == u32::MAX {
        n
    } else {
        n + 1
    }
}

impl CircuitBreaker {
    /// How long ago it was opened, in milliseconds.
    pub open spec fn open_for(self, now: u64) -> int {
        if now < self.opened_at {
            0
        } else {
            now - self.opened_at
        }
    }

    pub open spec fn may_probe(self, now: u64) -> bool {
        self.state == CircuitState::Open && self.open_for(now) >= self.config.timeout_secs * 1000
    }

    pub open spec fn fresh(config: CircuitBreakerConfig) -> CircuitBreaker {
        CircuitBreaker {
            config,
            state: CircuitState::Closed,
            failures: 0,
            successes: 0,
            opened_at: 0,
            probing: false,
        }
    }

    pub open spec fn opened(self, now: u64) -> CircuitBreaker {
        CircuitBreaker {
            state: CircuitState::Open,
            opened_at: now,
            successes: 0,
            probing: false,
            ..self
        }
    }

    /// After a success.
    pub open spec fn succeeded(self) -> CircuitBreaker {
        match self.state {
            CircuitState::HalfOpen => {
                let probed = CircuitBreaker {
                    successes: one_more(self.successes),
                    failures: 0,
                    probing: false,
                    ..self
                };
                if probed.successes >= self.config.success_threshold {
                    CircuitBreaker::fresh(self.config)
                } else {
                    probed
                }
            },
            _ => CircuitBreaker { failures: 0, ..self },
        }
    }

    /// After a failure.
    pub open spec fn failed(self, now: u64) -> CircuitBreaker {
        let counted = CircuitBreaker { failures: one_more(self.failures), ..self };
        match self.state {
            CircuitState::HalfOpen => counted.opened(now),
            CircuitState::Closed if counted.failures >= self.config.failure_threshold => counted.opened(now),
            _ => counted,
        }
    }

    /// Whether a request passes, and what is left.
    pub open spec fn passed(self, now: u64) -> (bool, CircuitBreaker) {
        match self.state {
            CircuitState::Closed => (true, self),
            CircuitState::Open => if self.may_probe(now) {
                (
                    true,
                    CircuitBreaker {
                        state: CircuitState::HalfOpen,
                        successes: 0,
                        probing: true,
                        ..self
                    },
                )
            } else {
                (false, self)
            },
            CircuitState::HalfOpen => (!self.probing, CircuitBreaker { probing: true, ..self }),
        }
    }

    pub open spec fn remaining_secs(self, now: u64) -> int {
        if self.state == CircuitState::Open && self.open_for(now) < self.config.timeout_secs * 1000 {
            self.config.timeout_secs - self.open_for(now) / 1000
        } else {
            0
        }
    }

    pub fn new(config: CircuitBreakerConfig) -> (r: CircuitBreaker)
        ensures
            r == CircuitBreaker::fresh(config),
    {
        CircuitBreaker {
            config,
            state: CircuitState::Closed,
            failures: 0,
            successes: 0,
            opened_at: 0,
            probing: false,
        }
    }

    pub fn state(&self) -> (r: CircuitState)
        ensures
            r == self.state,
    {
        self.state
    }

    pub fn consecutive_failures(&self) -> (r: u32)
        ensures
            r == self.failures,
    {
        self.failures
    }

    fn elapsed(&self, now: u64) -> (r: u64)
        ensures
            r == self.open_for(now),
    {
        if now < self.opened_at {
            0
        } else {
            now - self.opened_at
        }
    }

    /// Whether it is open and has waited out its timeout.
    pub fn can_probe(&self, now: u64) -> (r: bool)
        ensures
            r == self.may_probe(now),
    {
        self.state == CircuitState::Open && self.elapsed(now) as u128 >= self.config.timeout_secs as u128 * 1000
    }

    /// Seconds left before a probe may pass, 0 when it is not open.
    pub fn open_remaining_secs(&self, now: u64) -> (r: u64)
        ensures
            r == self.remaining_secs(now),
    {
        let elapsed = self.elapsed(now);
        if self.state == CircuitState::Open && (elapsed as u128) < self.config.timeout_secs as u128 * 1000 {
            self.config.timeout_secs - elapsed / 1000
        } else {
            0
        }
    }

    pub fn record_success(&mut self)
        ensures
            *final(self) == old(self).succeeded(),
    {
        if self.state == CircuitState::HalfOpen {
            self.successes = count_one(self.successes);
            self.failures = 0;
            self.probing = false;
            if self.successes >= self.config.success_threshold {
                *self = CircuitBreaker::new(self.config);
            }
        } else {
            self.failures = 0;
        }
    }

    pub fn record_failure(&mut self, now: u64)
        ensures
            *final(self) == old(self).failed(now),
    {
        self.failures = count_one(self.failures);
        if self.state == CircuitState::HalfOpen || (self.state == CircuitState::Closed && self.failures
            >= self.config.failure_threshold) {
            self.state = CircuitState::Open;
            self.opened_at = now;
            self.successes = 0;
            self.probing = false;
        }
    }

    /// Whether a request may be sent now. An open breaker that has waited out its
    /// timeout becomes half open and lets this one through as its probe.
    pub fn allow_request(&mut self, now: u64) -> (r: bool)
        ensures
            (r, *final(self)) == old(self).passed(now),
    {
        match self.state {
            CircuitState::Closed => true,
            CircuitState::Open => {
                if self.can_probe(now) {
                    self.state = CircuitState::HalfOpen;
                    self.successes = 0;
                    self.probing = true;
                    true
                } else {
                    false
                }
            },
            CircuitState::HalfOpen => {
                let free = !self.probing;
                self.probing = true;
                free
            },
        }
    }

    /// Give the probe permit back without recording health.
    pub fn release_half_open_permit(&mut self)
        ensures
            *final(self) == (CircuitBreaker { probing: false, ..*old(self) }),
    {
        self.probing = false;
    }

    pub fn reset(&mut self)
        ensures
            *final(self) == CircuitBreaker::fresh(old(self).config),
    {
        *self = CircuitBreaker::new(self.config);
    }
}

/// A half open breaker lets one probe through at a time: once a request has
/// passed it, no other passes before an outcome is recorded or the permit is given
/// back.
pub proof fn one_probe_at_a_time(b: CircuitBreaker, now: u64, later: u64)
    requires
        b.state == CircuitState::HalfOpen || b.may_probe(now),
    ensures
        b.passed(now).1.state == CircuitState::HalfOpen,
        !b.passed(now).1.passed(later).0,
        (CircuitBreaker { probing: false, ..b.passed(now).1 }).passed(later).0,
{
}

/// A breaker that has closed again needs as many failures as a new one to open.
pub proof fn recovery_starts_over(b: CircuitBreaker)
    requires
        b.state == CircuitState::HalfOpen,
        b.succeeded().state == CircuitState::Closed,
    ensures
        b.succeeded() == CircuitBreaker::fresh(b.config),
{
}

} // verus!
