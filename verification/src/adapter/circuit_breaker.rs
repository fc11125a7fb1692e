//! The circuit breaker guarding a dependency (named-entity service, vault, upstream): it
//! counts outcomes over a window, opens when the failure ratio reaches the threshold, and
//! lets one trial through after the open period.
use vstd::prelude::*;

verus! {

/// State of a circuit breaker.
#[derive(Clone, Copy, Debug, PartialEq, Eq, Structural)]
pub enum CircuitState {
    Closed,
    Open,
    HalfOpen,
}

/// A circuit breaker: the threshold ratio of failures in thousandths, the window of
/// outcomes, the open period; and the state, the counts of the current window and when
/// it opened (milliseconds since the epoch).
pub struct CircuitBreaker {
    pub failure_ratio_permille: u32,
    pub window: usize,
    pub open_seconds: u64,
    pub state: CircuitState,
    pub failures: u32,
    pub total: u32,
    pub opened_at_ms: u64,
}

/// The window reached: `total` outcomes counted, at least the window (taken as 32 bits).
pub open spec fn window_full(total: u32, window: usize) -> bool {
    total >= (window as u32)
}

/// The failures reach the threshold ratio of the outcomes.
pub open spec fn ratio_reached(failures: u32, total: u32, permille: u32) -> bool {
    1000 * failures >= permille * total
}

impl CircuitBreaker {
    pub fn new(failure_ratio_permille: u32, window: usize, open_seconds: u64) -> (r: CircuitBreaker)
        ensures
            r.failure_ratio_permille == failure_ratio_permille,
            r.window == window,
            r.open_seconds == open_seconds,
            r.state == CircuitState::Closed,
            r.failures == 0,
            r.total == 0,
            r.opened_at_ms == 0,
    {
        CircuitBreaker {
            failure_ratio_permille,
            window,
            open_seconds,
            state: CircuitState::Closed,
            failures: 0,
            total: 0,
            opened_at_ms: 0,
        }
    }

    pub fn state(&self) -> (r: CircuitState)
        ensures
            r == self.state,
    {
        self.state
    }

    /// May a request go through at `now_ms`? A closed or half-open breaker lets it; an
    /// open one lets it (and turns half-open) once the open period has passed.
    pub fn allow(&mut self, now_ms: u64) -> (r: bool)
        requires
            old(self).open_seconds * 1000 <= u64::MAX,
        ensures
            match old(self).state {
                CircuitState::Open => {
                    let elapsed = if now_ms >= old(self).opened_at_ms {
                        now_ms - old(self).opened_at_ms
                    } else {
                        0
                    };
                    &&& r == (elapsed >= old(self).open_seconds * 1000)
                    &&& *final(self) == if r {
                        CircuitBreaker { state: CircuitState::HalfOpen, ..*old(self) }
                    } else {
                        *old(self)
                    }
                },
                _ => r && *final(self) == *old(self),
            },
    {
        match self.state {
            CircuitState::Closed => true,
            CircuitState::HalfOpen => true,
            CircuitState::Open => {
                let elapsed = now_ms.saturating_sub(self.opened_at_ms);
                if elapsed >= self.open_seconds * 1000 {
                    self.state = CircuitState::HalfOpen;
                    true
                } else {
                    false
                }
            },
        }
    }

    /// Records the outcome of a request at `now_ms`. When the window is full its counts
    /// start again, and the breaker opens if the failures reached the threshold ratio.
    pub fn record(&mut self, success: bool, now_ms: u64)
        ensures
            ({
                let total = old(self).total.wrapping_add(1);
                let failures = if success {
                    old(self).failures
                } else {
                    old(self).failures.wrapping_add(1)
                };
                &&& final(self).failure_ratio_permille == old(self).failure_ratio_permille
                &&& final(self).window == old(self).window
                &&& final(self).open_seconds == old(self).open_seconds
                &&& if window_full(total, old(self).window) {
                    &&& final(self).total == 0
                    &&& final(self).failures == 0
                    &&& if ratio_reached(failures, total, old(self).failure_ratio_permille) {
                        final(self).state == CircuitState::Open && final(self).opened_at_ms == now_ms
                    } else {
                        final(self).state == old(self).state && final(self).opened_at_ms == old(self).opened_at_ms
                    }
                } else {
                    &&& final(self).total == total
                    &&& final(self).failures == failures
                    &&& final(self).state == old(self).state
                    &&& final(self).opened_at_ms == old(self).opened_at_ms
                }
            }),
    {
        let total = self.total.wrapping_add(1);
        self.total = total;
        if !success {
            self.failures = self.failures.wrapping_add(1);
        }
        if total >= self.window as u32 {
            let failures = self.failures;
            self.failures = 0;
            self.total = 0;
            let p = self.failure_ratio_permille as u64;
            let t = total as u64;
            assert(p * t <= 0xFFFF_FFFF * 0xFFFF_FFFF) by (nonlinear_arith)
                requires
                    p <= 0xFFFF_FFFF,
                    t <= 0xFFFF_FFFF,
            ;
            if 1000 * (failures as u64) >= p * t {
                self.opened_at_ms = now_ms;
                self.state = CircuitState::Open;
            }
        }
    }
}

} // verus!
