//! Reconnection with exponential backoff.
//!
//! The delays are 1, 2, 4, 8 and 16 seconds, then 30. After more than a minute
//! without an attempt they start over.

use crate::bridge::{clock_nanos, clock_start};
use crate::state_manager::{elapsed, SECOND};
use vstd::prelude::*;

verus! {

/// The greatest delay in seconds.
pub const MAX_BACKOFF: u64 = 30;

/// The model of a `ReconnectManager`.
pub struct ReconnectView {
    pub backoff: int,
    pub last_disconnect: Option<int>,
    pub attempts: int,
}

impl ReconnectView {
    /// Backoff and attempts at their start.
    pub open spec fn reset(self) -> ReconnectView {
        ReconnectView { backoff: 1, attempts: 0, ..self }
    }

    /// More than sixty whole seconds since the last attempt.
    pub open spec fn stable(self, now: int) -> bool {
        self.last_disconnect is Some && elapsed(now, self.last_disconnect->0) / SECOND as int > 60
    }

    /// The manager as the next attempt finds it.
    pub open spec fn refreshed(self, now: int) -> ReconnectView {
        if self.stable(now) {
            self.reset()
        } else {
            self
        }
    }

    /// The delay of an attempt at `now`, in seconds.
    pub open spec fn delay(self, now: int) -> int {
        self.refreshed(now).backoff
    }

    /// The manager after an attempt at `now`.
    pub open spec fn attempted(self, now: int) -> ReconnectView {
        let d = self.delay(now);
        ReconnectView {
            backoff: if d * 2 < MAX_BACKOFF {
                d * 2
            } else {
                MAX_BACKOFF as int
            },
            last_disconnect: Some(now),
            attempts: crate::state_manager::bump(self.refreshed(now).attempts),
        }
    }
}

/// Spaces out reconnection attempts.
pub struct ReconnectManager {
    backoff: u64,
    last_disconnect: Option<u64>,
    attempt_count: u32,
    clock: std::time::Instant,
}

impl View for ReconnectManager {
    type V = ReconnectView;

    closed spec fn view(&self) -> ReconnectView {
        ReconnectView {
            backoff: self.backoff as int,
            last_disconnect: match self.last_disconnect {
                Some(t) => Some(t as int),
                None => None,
            },
            attempts: self.attempt_count as int,
        }
    }
}

impl ReconnectManager {
    #[verifier::type_invariant]
    spec fn bounded(self) -> bool {
        1 <= self.backoff <= MAX_BACKOFF
    }

    /// A manager before its first attempt.
    pub fn new() -> (r: Self)
        ensures
            r@ == (ReconnectView { backoff: 1, last_disconnect: None, attempts: 0 }),
    {
        ReconnectManager {
            backoff: 1,
            last_disconnect: None,
            attempt_count: 0,
            clock: clock_start(),
        }
    }

    /// The delay before the next attempt, in seconds.
    pub fn next_delay(&mut self) -> (r: u64)
        ensures
            1 <= r <= MAX_BACKOFF,
            exists|now: u64|
                r == #[trigger] old(self)@.delay(now as int) && final(self)@
                    == old(self)@.attempted(now as int),
    {
        let now: u64 = clock_nanos(&self.clock);
        self.next_delay_at(now)
    }

    /// The delay before an attempt at `now`, in seconds.
    pub fn next_delay_at(&mut self, now: u64) -> (r: u64)
        ensures
            1 <= r <= MAX_BACKOFF,
            r == old(self)@.delay(now as int),
            final(self)@ == old(self)@.attempted(now as int),
    {
        proof {
            use_type_invariant(&*self);
        }
        if let Some(last) = self.last_disconnect {
            if now.saturating_sub(last) / SECOND > 60 {
                self.backoff = 1;
                self.attempt_count = 0;
            }
        }
        let delay: u64 = self.backoff;
        let doubled: u64 = delay * 2;
        self.backoff = if doubled < MAX_BACKOFF {
            doubled
        } else {
            MAX_BACKOFF
        };
        self.last_disconnect = Some(now);
        self.attempt_count = self.attempt_count.saturating_add(1);
        delay
    }

    /// Starts over after a successful reconnection.
    pub fn reset(&mut self)
        ensures
            final(self)@ == old(self)@.reset(),
    {
        self.backoff = 1;
        self.attempt_count = 0;
    }

    /// The current backoff in seconds.
    pub fn current_backoff(&self) -> (r: u64)
        ensures
            r == self@.backoff,
            1 <= r <= MAX_BACKOFF,
    {
        proof {
            use_type_invariant(self);
        }
        self.backoff
    }

    /// The attempts since the last reset.
    pub fn attempts(&self) -> (r: u32)
        ensures
            r == self@.attempts,
    {
        self.attempt_count
    }
}

impl Default for ReconnectManager {
    fn default() -> (r: Self)
        ensures
            r@ == (ReconnectView { backoff: 1, last_disconnect: None, attempts: 0 }),
    {
        Self::new()
    }
}

/// The manager after `n` attempts in quick succession.
pub open spec fn after_attempts(v: ReconnectView, now: int, n: nat) -> ReconnectView
    decreases n,
{
    if n == 0 {
        v
    } else {
        after_attempts(v, now, (n - 1) as nat).attempted(now)
    }
}

/// Law: quick attempts wait 1, 2, 4, 8, 16 and then always 30 seconds.
pub proof fn law_backoff_sequence(v: ReconnectView, now: int, n: nat)
    requires
        v.backoff == 1,
        !v.stable(now),
    ensures
        after_attempts(v, now, n).delay(now) == (if n == 0 {
            1int
        } else if n == 1 {
            2
        } else if n == 2 {
            4
        } else if n == 3 {
            8
        } else if n == 4 {
            16
        } else {
            30
        }),
        !after_attempts(v, now, n).stable(now),
    decreases n,
{
    if n > 0 {
        law_backoff_sequence(v, now, (n - 1) as nat);
    }
}

/// Law: after more than a minute the next attempt waits one second again.
pub proof fn law_backoff_resets(v: ReconnectView, then: int, now: int)
    requires
        now >= then + 61 * SECOND,
    ensures
        v.attempted(then).delay(now) == 1,
        v.attempted(then).attempted(now).attempts == 1,
{
}

/// Law: the delay doubles with each attempt, up to thirty seconds, and starts from one
/// second again once more than a minute has passed since the last; attempts are counted
/// likewise.
pub proof fn law_delays_double(v: ReconnectView, now: int)
    requires
        1 <= v.backoff <= 30,
        0 <= v.attempts < u32::MAX,
        v.last_disconnect matches Some(t) ==> t <= now,
    ensures
        ({
            let quiet = v.last_disconnect is Some && now - v.last_disconnect->0 >= 61_000_000_000;
            let w = v.attempted(now);
            &&& w.last_disconnect == Some(now)
            &&& quiet ==> v.delay(now) == 1 && w.backoff == 2 && w.attempts == 1
            &&& !quiet ==> v.delay(now) == v.backoff && w.attempts == v.attempts + 1
            &&& !quiet && v.backoff * 2 < 30 ==> w.backoff == v.backoff * 2
            &&& !quiet && v.backoff * 2 >= 30 ==> w.backoff == 30
        }),
        v.reset().backoff == 1 && v.reset().attempts == 0 && v.reset().last_disconnect
            == v.last_disconnect,
{
}

} // verus!
