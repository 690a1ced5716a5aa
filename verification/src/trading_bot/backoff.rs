//! Delays after failures.

use vstd::prelude::*;

verus! {

/// The delay after the first failure, but for the variation.
pub const FAILURE_BACKOFF_BASE_MILLISECONDS: u64 = 500;

/// The longest delay after failures.
pub const FAILURE_BACKOFF_MAX_MILLISECONDS: u64 = 15_000;

/// Attempts to fetch an order book.
pub const BOOK_REST_RETRY_ATTEMPTS: usize = 3;

/// The delay before the second attempt to fetch an order book.
pub const BOOK_REST_RETRY_BASE_MILLISECONDS: u64 = 250;

/// The longest delay between attempts to fetch an order book.
pub const BOOK_REST_RETRY_MAX_MILLISECONDS: u64 = 1_000;

/// How often in a row something failed.
#[derive(Clone, Copy, Debug, PartialEq, Eq, Structural)]
pub struct FailureBackoff {
    pub consecutive_failures: u32,
}

/// The delay after a failure that follows `failures` others: doubling, with a deterministic
/// variation, and at most [`FAILURE_BACKOFF_MAX_MILLISECONDS`].
pub open spec fn delay_after_failures(failures: u32) -> nat {
    let base = if failures == 0 {
        500nat
    } else if failures == 1 {
        1_000
    } else if failures == 2 {
        2_000
    } else if failures == 3 {
        4_000
    } else if failures == 4 {
        8_000
    } else {
        15_000
    };
    let count = if failures < u32::MAX {
        failures + 1
    } else {
        failures as int
    };
    let delay = base + (count * 137) % 251;
    if delay < FAILURE_BACKOFF_MAX_MILLISECONDS {
        delay as nat
    } else {
        FAILURE_BACKOFF_MAX_MILLISECONDS as nat
    }
}

impl Default for FailureBackoff {
    fn default() -> (r: FailureBackoff)
        ensures
            r.consecutive_failures == 0,
    {
        FailureBackoff { consecutive_failures: 0 }
    }
}

impl FailureBackoff {
    /// Forgets the failures.
    pub fn reset(&mut self)
        ensures
            final(self).consecutive_failures == 0,
    {
        self.consecutive_failures = 0;
    }

    /// Counts a failure and gives the delay after it.
    pub fn next_delay_milliseconds(&mut self) -> (r: u64)
        ensures
            r == delay_after_failures(old(self).consecutive_failures),
            final(self).consecutive_failures == if old(self).consecutive_failures < u32::MAX {
                old(self).consecutive_failures + 1
            } else {
                u32::MAX as int
            },
    {
        let exponent: u32 = if self.consecutive_failures < 5 {
            self.consecutive_failures
        } else {
            5
        };
        let mut base: u64 = FAILURE_BACKOFF_BASE_MILLISECONDS;
        let mut k: u32 = 0;
        while k < exponent
            invariant
                k <= exponent <= 5,
                base == if k == 0 {
                    500int
                } else if k == 1 {
                    1_000
                } else if k == 2 {
                    2_000
                } else if k == 3 {
                    4_000
                } else if k == 4 {
                    8_000
                } else {
                    16_000
                },
            decreases exponent - k,
        {
            base = base * 2;
            k = k + 1;
        }
        if base > FAILURE_BACKOFF_MAX_MILLISECONDS {
            base = FAILURE_BACKOFF_MAX_MILLISECONDS;
        }
        self.consecutive_failures = self.consecutive_failures.saturating_add(1);
        let jitter: u64 = (self.consecutive_failures as u64 * 137) % 251;
        if base + jitter < FAILURE_BACKOFF_MAX_MILLISECONDS {
            base + jitter
        } else {
            FAILURE_BACKOFF_MAX_MILLISECONDS
        }
    }
}

/// Delays never shrink while failures go on, and stay between half a second and fifteen.
pub proof fn backoff_grows(failures: u32)
    requires
        failures < u32::MAX,
    ensures
        delay_after_failures(failures) <= delay_after_failures((failures + 1) as u32),
        500 <= delay_after_failures(failures) <= FAILURE_BACKOFF_MAX_MILLISECONDS,
{
}

/// The delay after attempt number `attempt` to fetch an order book; nothing after the last.
pub fn book_retry_delay(attempt: usize) -> (r: Option<u64>)
    requires
        attempt >= 1,
    ensures
        r == if attempt == 1 {
            Some(250u64)
        } else if attempt == 2 {
            Some(500u64)
        } else {
            None
        },
{
    if attempt >= BOOK_REST_RETRY_ATTEMPTS {
        return None;
    }
    let delay: u64 = if attempt == 1 {
        BOOK_REST_RETRY_BASE_MILLISECONDS
    } else {
        BOOK_REST_RETRY_BASE_MILLISECONDS * 2
    };
    if delay < BOOK_REST_RETRY_MAX_MILLISECONDS {
        Some(delay)
    } else {
        Some(BOOK_REST_RETRY_MAX_MILLISECONDS)
    }
}

/// Delays start at half a second and double from failure to failure up to fifteen seconds, each
/// with less than 251 milliseconds on top and none above the limit.
pub proof fn backoff_doubles(failures: u32)
    requires
        failures < u32::MAX,
    ensures
        ({
            let top = (failures + 1) * 137 % 251;
            &&& failures == 0 ==> delay_after_failures(failures) == 500 + top
            &&& failures == 1 ==> delay_after_failures(failures) == 2 * 500 + top
            &&& failures == 2 ==> delay_after_failures(failures) == 4 * 500 + top
            &&& failures == 3 ==> delay_after_failures(failures) == 8 * 500 + top
            &&& failures == 4 ==> delay_after_failures(failures) == 16 * 500 + top
            &&& failures >= 5 ==> delay_after_failures(failures) == 15_000
        }),
{
}

} // verus!
