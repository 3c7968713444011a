//! Token-bucket admission controller.
//!
//! A bucket holds at most `capacity` tokens. Admitting a request
//! consumes one token; a refill task raises the count by `amount`
//! once per period, saturating at `capacity`. The bucket never
//! blocks: an empty bucket denies the request outright.

use vstd::prelude::*;

verus! {

/// The smaller of two token counts.
pub open spec fn min64(a: u64, b: u64) -> u64 {
    if a < b {
        a
    } else {
        b
    }
}

/// Outcome of one consume attempt on a bucket holding `tokens`:
/// the new count and whether the request was admitted.
pub open spec fn spec_consume(tokens: u64) -> (u64, bool) {
    if tokens > 0 {
        ((tokens - 1) as u64, true)
    } else {
        (0u64, false)
    }
}

/// Token count after one refill of `amount`, saturating at `capacity`.
pub open spec fn spec_refill(tokens: u64, amount: u64, capacity: u64) -> u64 {
    if tokens + amount <= capacity {
        (tokens + amount) as u64
    } else {
        capacity
    }
}

/// Remaining tokens and number of admitted requests after `n`
/// consume attempts in a row, with no refill in between.
pub open spec fn spec_consume_run(tokens: u64, n: nat) -> (u64, nat)
    decreases n,
{
    if n == 0 {
        (tokens, 0nat)
    } else {
        let (rest, admitted) = spec_consume_run(tokens, (n - 1) as nat);
        let (next, ok) = spec_consume(rest);
        if ok {
            (next, admitted + 1)
        } else {
            (next, admitted)
        }
    }
}

/// Of `n` consume attempts against `tokens` tokens, exactly
/// `min(n, tokens)` are admitted, and the admitted ones drain the
/// bucket down to `tokens - min(n, tokens)` - in any interleaving,
/// since each attempt either takes one token or takes nothing.
pub proof fn lemma_consume_run(tokens: u64, n: nat)
    ensures
        spec_consume_run(tokens, n).1 == if n <= tokens {
            n
        } else {
            tokens as nat
        },
        spec_consume_run(tokens, n).0 == if n <= tokens {
            tokens - n
        } else {
            0
        },
    decreases n,
{
    if n > 0 {
        lemma_consume_run(tokens, (n - 1) as nat);
    }
}

/// A bucket drained by `capacity` consumes denies the next request;
/// one refill then makes `amount` tokens, capped at `capacity`,
/// available again.
pub proof fn lemma_token_bucket_exhaustion(capacity: u64, amount: u64)
    ensures
        spec_consume_run(capacity, capacity as nat).0 == 0,
        spec_consume_run(capacity, capacity as nat).1 == capacity,
        spec_consume(0).1 == false,
        spec_refill(0, amount, capacity) == min64(amount, capacity),
{
    lemma_consume_run(capacity, capacity as nat);
}

/// Per-route admission controller: a capped count of permits,
/// drained one per admitted request and replenished on a timer.
/// This is the bucket's state machine; the caller owns the timer
/// that drives `refill` and must abort it when the bucket is
/// dropped.
pub struct TokenBucket {
    /// Tokens available right now. Invariant: at most `capacity`.
    tokens: u64,
    /// Refill period, in seconds.
    period_seconds: u64,
    /// Tokens added per period.
    amount: u64,
    /// Ceiling on `tokens`.
    capacity: u64,
}

impl TokenBucket {
    /// The bucket never holds more than its capacity.
    pub closed spec fn wf(&self) -> bool {
        self.tokens <= self.capacity
    }

    pub closed spec fn spec_tokens(&self) -> u64 {
        self.tokens
    }

    pub closed spec fn spec_amount(&self) -> u64 {
        self.amount
    }

    pub closed spec fn spec_capacity(&self) -> u64 {
        self.capacity
    }

    pub closed spec fn spec_period_seconds(&self) -> u64 {
        self.period_seconds
    }

    /// A fresh bucket starts empty: the first period's refill
    /// provides the initial permits.
    pub fn new(period_seconds: u64, amount: u64, capacity: u64) -> (bucket: TokenBucket)
        ensures
            bucket.wf(),
            bucket.spec_tokens() == 0,
            bucket.spec_period_seconds() == period_seconds,
            bucket.spec_amount() == amount,
            bucket.spec_capacity() == capacity,
    {
        TokenBucket { tokens: 0, period_seconds, amount, capacity }
    }

    /// Take one token if any is available; never waits. Returns
    /// whether the request is admitted.
    pub fn consume(&mut self) -> (admitted: bool)
        requires
            old(self).wf(),
        ensures
            final(self).wf(),
            (final(self).spec_tokens(), admitted) == spec_consume(old(self).spec_tokens()),
            final(self).spec_amount() == old(self).spec_amount(),
            final(self).spec_capacity() == old(self).spec_capacity(),
            final(self).spec_period_seconds() == old(self).spec_period_seconds(),
    {
        match consume_next(self.tokens) {
            Some(next) => {
                self.tokens = next;
                true
            },
            None => false,
        }
    }

    /// One wake of the refill task: raise the count by `amount`,
    /// saturating at `capacity`.
    pub fn refill(&mut self)
        requires
            old(self).wf(),
        ensures
            final(self).wf(),
            final(self).spec_tokens() == spec_refill(
                old(self).spec_tokens(),
                old(self).spec_amount(),
                old(self).spec_capacity(),
            ),
            final(self).spec_amount() == old(self).spec_amount(),
            final(self).spec_capacity() == old(self).spec_capacity(),
            final(self).spec_period_seconds() == old(self).spec_period_seconds(),
    {
        self.tokens = refill_next(self.tokens, self.amount, self.capacity);
    }
}

/// The value a compare-and-swap consume loop must install over a
/// counter read as `prev`, or nothing when the bucket is empty and
/// the request is denied.
pub fn consume_next(prev: u64) -> (r: Option<u64>)
    ensures
        (match r {
            Some(next) => prev > 0 && next == prev - 1,
            None => prev == 0,
        }),
{
    if prev > 0 {
        Some(prev - 1)
    } else {
        None
    }
}

/// The value a compare-and-swap refill loop must install over a
/// counter read as `prev`.
pub fn refill_next(prev: u64, amount: u64, capacity: u64) -> (r: u64)
    ensures
        r == spec_refill(prev, amount, capacity),
        prev <= capacity ==> prev <= r <= capacity,
{
    if prev <= capacity && capacity - prev >= amount {
        prev + amount
    } else {
        capacity
    }
}

} // verus!
