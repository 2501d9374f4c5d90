//! Token-bucket rate limiter used to let packets through or drop them per process.
//!
//! The bucket holds one second of traffic at its rate. Balances are kept
//! exactly, in *bit-nanoseconds*: a byte is `8 * 10^9` units, and a bucket of
//! `rate_bps` bits/sec gains `rate_bps` units per elapsed nanosecond, so its
//! capacity (one second of bytes, `rate_bps / 8`) is `rate_bps * 10^9` units.

use vstd::prelude::*;
use crate::clock::{instant_now, ticks_since};

verus! {

/// Units per byte.
pub const UNITS_PER_BYTE: u128 = 8_000_000_000;

/// Units per bit/sec of rate held at full capacity (one second).
pub const NANOS_PER_SEC: u128 = 1_000_000_000;

/// The abstract state of a bucket.
pub struct BucketState {
    /// Rate in bits/sec.
    pub rate: nat,
    /// Maximum balance (one second of bytes) in units.
    pub capacity: nat,
    /// Current balance in units.
    pub tokens: nat,
    /// Clock reading (nanoseconds since the bucket's origin) of the last refill.
    pub last: nat,
}

/// The balance after refilling up to clock reading `now`: the time elapsed
/// since the last refill earns `rate` units per nanosecond, up to capacity.
pub open spec fn refilled(b: BucketState, now: nat) -> nat {
    if now > b.last {
        let earned = b.tokens + (now - b.last) * b.rate;
        if earned > b.capacity { b.capacity } else { earned as nat }
    } else {
        b.tokens
    }
}

pub open spec fn refill_time(b: BucketState, now: nat) -> nat {
    if now > b.last { now } else { b.last }
}

pub open spec fn capacity_for(rate_bps: nat) -> nat {
    rate_bps * (NANOS_PER_SEC as nat)
}

/// A classic token bucket. One token == one byte.
pub struct TokenBucket {
    rate: u64,
    capacity: u128,
    tokens: u128,
    last: u64,
    origin: std::time::Instant,
}

impl View for TokenBucket {
    type V = BucketState;

    closed spec fn view(&self) -> BucketState {
        BucketState {
            rate: self.rate as nat,
            capacity: self.capacity as nat,
            tokens: self.tokens as nat,
            last: self.last as nat,
        }
    }
}

impl TokenBucket {
    #[verifier::type_invariant]
    closed spec fn inv(self) -> bool {
        &&& self.capacity == capacity_for(self.rate as nat)
        &&& self.tokens <= self.capacity
    }

    /// Well-formedness as seen from outside: capacity is one second of rate
    /// and the balance never exceeds it.
    pub open spec fn wf_state(b: BucketState) -> bool {
        b.capacity == capacity_for(b.rate) && b.tokens <= b.capacity
    }

    /// Create a full bucket allowing `rate_bps` bits/sec (`rate_bps / 8`
    /// bytes/sec), with its own clock origin.
    pub fn new(rate_bps: u64) -> (b: Self)
        ensures
            b@.rate == rate_bps,
            b@.capacity == capacity_for(rate_bps as nat),
            b@.tokens == b@.capacity,
            b@.last == 0,
            Self::wf_state(b@),
    {
        let cap = rate_bps as u128 * NANOS_PER_SEC;
        TokenBucket { rate: rate_bps, capacity: cap, tokens: cap, last: 0, origin: instant_now() }
    }

    fn refill_at(&mut self, now: u64)
        ensures
            final(self)@.tokens == refilled(old(self)@, now as nat),
            final(self)@.last == refill_time(old(self)@, now as nat),
            final(self)@.rate == old(self)@.rate,
            final(self)@.capacity == old(self)@.capacity,
            final(self).origin == old(self).origin,
    {
        proof {
            use_type_invariant(&*self);
        }
        if now > self.last {
            let elapsed = (now - self.last) as u128;
            let rate = self.rate as u128;
            assert(elapsed * rate <= 0xffff_ffff_ffff_ffff * 0xffff_ffff_ffff_ffffu128)
                by (nonlinear_arith)
                requires
                    elapsed <= 0xffff_ffff_ffff_ffff,
                    rate <= 0xffff_ffff_ffff_ffff,
            ;
            let earned = elapsed * rate;
            let room = self.capacity - self.tokens;
            let tokens = if earned > room { self.capacity } else { self.tokens + earned };
            *self = TokenBucket {
                rate: self.rate,
                capacity: self.capacity,
                tokens,
                last: now,
                origin: self.origin,
            };
        }
    }

    /// Attempt to consume `n` bytes at clock reading `now`: refill, then take
    /// `n` bytes if the balance covers them. Returns `true` if permitted.
    pub fn try_consume_at(&mut self, n: usize, now: u64) -> (ok: bool)
        ensures
            ok == (refilled(old(self)@, now as nat) >= n * UNITS_PER_BYTE),
            final(self)@.tokens == if ok {
                (refilled(old(self)@, now as nat) - n * UNITS_PER_BYTE) as nat
            } else {
                refilled(old(self)@, now as nat)
            },
            final(self)@.last == refill_time(old(self)@, now as nat),
            final(self)@.rate == old(self)@.rate,
            final(self)@.capacity == old(self)@.capacity,
            TokenBucket::wf_state(final(self)@),
    {
        self.refill_at(now);
        let need = n as u128 * UNITS_PER_BYTE;
        proof {
            use_type_invariant(&*self);
        }
        if self.tokens >= need {
            *self = TokenBucket {
                rate: self.rate,
                capacity: self.capacity,
                tokens: self.tokens - need,
                last: self.last,
                origin: self.origin,
            };
            true
        } else {
            false
        }
    }

    /// Attempt to consume `n` bytes now. Returns `true` if permitted; the
    /// outcome is that of [`TokenBucket::try_consume_at`] at some clock reading
    /// no earlier than any before it can be told apart from.
    pub fn try_consume(&mut self, n: usize) -> (ok: bool)
        ensures
            exists|now: nat|
                #![trigger refilled(old(self)@, now)]
                ok == (refilled(old(self)@, now) >= n * UNITS_PER_BYTE) && final(self)@.tokens
                    == (if ok {
                    (refilled(old(self)@, now) - n * UNITS_PER_BYTE) as nat
                } else {
                    refilled(old(self)@, now)
                }) && final(self)@.last == refill_time(old(self)@, now),
            final(self)@.rate == old(self)@.rate,
            final(self)@.capacity == old(self)@.capacity,
            TokenBucket::wf_state(final(self)@),
    {
        let now = ticks_since(&self.origin);
        self.try_consume_at(n, now)
    }

    /// Update the rate limit at clock reading `now`: refill at the old rate,
    /// then switch to the new rate, keeping the balance proportionally (the
    /// same share of a second of traffic) and clamped to the new capacity.
    pub fn set_rate_at(&mut self, rate_bps: u64, now: u64)
        ensures
            final(self)@.rate == rate_bps,
            final(self)@.capacity == capacity_for(rate_bps as nat),
            final(self)@.tokens == rescaled(refilled(old(self)@, now as nat), old(self)@.rate, rate_bps as nat),
            final(self)@.last == refill_time(old(self)@, now as nat),
            TokenBucket::wf_state(final(self)@),
    {
        self.refill_at(now);
        proof {
            use_type_invariant(&*self);
        }
        let cap = rate_bps as u128 * NANOS_PER_SEC;
        let old_rate = self.rate as u128;
        let new_rate = rate_bps as u128;
        let tokens = if old_rate == 0 {
            if self.tokens > cap { cap } else { self.tokens }
        } else {
            let t = self.tokens;
            let q = t / old_rate;
            let r = t % old_rate;
            proof {
                lemma_rescale(t as nat, old_rate as nat, new_rate as nat);
                assert(q <= NANOS_PER_SEC) by (nonlinear_arith)
                    requires
                        q * old_rate <= t,
                        t <= old_rate * NANOS_PER_SEC,
                        old_rate > 0,
                ;
                assert(q * new_rate <= NANOS_PER_SEC * 0xffff_ffff_ffff_ffffu128) by (nonlinear_arith)
                    requires
                        q <= NANOS_PER_SEC,
                        new_rate <= 0xffff_ffff_ffff_ffff,
                ;
                assert(r * new_rate <= 0xffff_ffff_ffff_ffff * 0xffff_ffff_ffff_ffffu128) by (nonlinear_arith)
                    requires
                        r < old_rate,
                        old_rate <= 0xffff_ffff_ffff_ffff,
                        new_rate <= 0xffff_ffff_ffff_ffff,
                ;
            }
            let frac = (r * new_rate) / old_rate;
            proof {
                vstd::arithmetic::div_mod::lemma_fundamental_div_mod((r * new_rate) as int, old_rate as int);
                assert(frac <= new_rate) by (nonlinear_arith)
                    requires
                        old_rate * frac <= r * new_rate,
                        r < old_rate,
                        old_rate > 0,
                ;
            }
            let scaled = q * new_rate + frac;
            if scaled > cap { cap } else { scaled }
        };
        *self = TokenBucket {
            rate: rate_bps,
            capacity: cap,
            tokens,
            last: self.last,
            origin: self.origin,
        };
    }

    /// Update the rate limit now, keeping the balance proportionally (clamped
    /// to the new capacity).
    pub fn set_rate(&mut self, rate_bps: u64)
        ensures
            final(self)@.rate == rate_bps,
            final(self)@.capacity == capacity_for(rate_bps as nat),
            exists|now: nat|
                #![trigger refilled(old(self)@, now)]
                final(self)@.tokens == rescaled(refilled(old(self)@, now), old(self)@.rate, rate_bps as nat)
                    && final(self)@.last == refill_time(old(self)@, now),
            TokenBucket::wf_state(final(self)@),
    {
        let now = ticks_since(&self.origin);
        self.set_rate_at(rate_bps, now)
    }
}

/// The balance `tokens` of a bucket at rate `old_rate` carried over to rate
/// `new_rate`: scaled by `new_rate / old_rate` (rounded down) and clamped to
/// the new capacity. A bucket of rate 0 has no share to keep: its balance
/// is carried over as it is, clamped to the new capacity.
pub open spec fn rescaled(tokens: nat, old_rate: nat, new_rate: nat) -> nat {
    if old_rate == 0 {
        if tokens > capacity_for(new_rate) { capacity_for(new_rate) } else { tokens }
    } else {
        let scaled = tokens * new_rate / old_rate;
        if scaled > capacity_for(new_rate) { capacity_for(new_rate) } else { scaled as nat }
    }
}

proof fn lemma_rescale(t: nat, o: nat, n: nat)
    requires
        o > 0,
    ensures
        (t * n) / o == (t / o) * n + ((t % o) * n) / o,
        (t / o) * o <= t,
        t % o < o,
{
    vstd::arithmetic::div_mod::lemma_fundamental_div_mod(t as int, o as int);
    let q = (t / o) as int;
    let r = (t % o) as int;
    assert(t * n == q * n * o + r * n) by (nonlinear_arith)
        requires
            t == o * q + r,
    ;
    vstd::arithmetic::div_mod::lemma_hoist_over_denominator(r * n, q * n, o);
}

/// Convenience: a fresh bucket for `rate_bps` (the burst duration is not used:
/// the burst is always one second of traffic).
pub fn bucket_for_duration(rate_bps: u64, _burst: std::time::Duration) -> (b: TokenBucket)
    ensures
        b@.rate == rate_bps,
        b@.capacity == capacity_for(rate_bps as nat),
        b@.tokens == b@.capacity,
        b@.last == 0,
{
    TokenBucket::new(rate_bps)
}

} // verus!
