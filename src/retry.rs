//! Bounded retry with exponential backoff for remote calls: how long to wait
//! after a failed attempt, or whether to give up.

use vstd::prelude::*;

verus! {

/// Attempts made by default for one remote call, the first one included.
pub const DEFAULT_ATTEMPTS: u32 = 5;

/// Wait after the first failed attempt, by default, in milliseconds.
pub const DEFAULT_BASE_DELAY_MS: u64 = 500;

/// Longest wait between attempts, by default, in milliseconds.
pub const DEFAULT_MAX_DELAY_MS: u64 = 8000;

/// Time allowed to one attempt of a remote call, by default, in milliseconds.
pub const DEFAULT_CALL_TIMEOUT_MS: u64 = 30000;

/// Wait after failed attempt `attempt` (counted from 0): the base doubled
/// once per earlier attempt, never above the cap.
pub open spec fn backoff(base: int, attempt: nat, cap: int) -> int
    decreases attempt,
{
    if attempt == 0 {
        if base <= cap {
            base
        } else {
            cap
        }
    } else {
        let d = 2 * backoff(base, (attempt - 1) as nat, cap);
        if d <= cap {
            d
        } else {
            cap
        }
    }
}

/// How often, and with what pauses, a remote call is tried.
#[derive(Debug, Clone, Copy, PartialEq, Eq)]
pub struct RetryPolicy {
    pub max_attempts: u32,
    pub base_delay_ms: u64,
    pub max_delay_ms: u64,
    /// Time allowed to one attempt before it counts as a transport failure.
    pub call_timeout_ms: u64,
}

impl RetryPolicy {
    /// The policy used for chain and content-store calls.
    pub fn remote_default() -> (r: RetryPolicy)
        ensures
            r.max_attempts == DEFAULT_ATTEMPTS,
            r.base_delay_ms == DEFAULT_BASE_DELAY_MS,
            r.max_delay_ms == DEFAULT_MAX_DELAY_MS,
            r.call_timeout_ms == DEFAULT_CALL_TIMEOUT_MS,
    {
        RetryPolicy {
            max_attempts: DEFAULT_ATTEMPTS,
            base_delay_ms: DEFAULT_BASE_DELAY_MS,
            max_delay_ms: DEFAULT_MAX_DELAY_MS,
            call_timeout_ms: DEFAULT_CALL_TIMEOUT_MS,
        }
    }

    /// After failed attempt `attempt` (counted from 0), the wait before the
    /// next attempt, or `None` to give up: a failure that retrying cannot
    /// mend, or the last allowed attempt, ends the call.
    pub fn next_delay(&self, attempt: u32, retryable: bool) -> (r: Option<u64>)
        ensures
            !retryable || attempt + 1 >= self.max_attempts ==> r is None,
            retryable && attempt + 1 < self.max_attempts ==> r == Some(
                backoff(self.base_delay_ms as int, attempt as nat, self.max_delay_ms as int) as u64,
            ),
    {
        if !retryable || attempt as u64 + 1 >= self.max_attempts as u64 {
            return None;
        }
        let cap = self.max_delay_ms;
        let mut d: u64 = if self.base_delay_ms <= cap {
            self.base_delay_ms
        } else {
            cap
        };
        let mut i: u32 = 0;
        while i < attempt
            invariant
                i <= attempt,
                d <= cap,
                d as int == backoff(self.base_delay_ms as int, i as nat, cap as int),
            decreases attempt - i,
        {
            d = if d <= cap / 2 {
                2 * d
            } else {
                cap
            };
            i = i + 1;
        }
        Some(d)
    }
}

} // verus!
