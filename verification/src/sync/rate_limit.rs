//! Rate limiting for noisy, possibly hostile, streams of events.
use crate::time::Duration;
use crate::time::Instant;
use vstd::prelude::*;

verus! {

/// Whether `n` is a power of two.
pub open spec fn is_power_of_two(n: int) -> bool {
    exists|k: nat| #[trigger] vstd::arithmetic::power2::pow2(k) == n
}

fn test_power_of_two(n: u64) -> (r: bool)
    ensures
        r == is_power_of_two(n as int),
{
    let mut p: u128 = 1;
    let ghost mut k: nat = 0;
    proof {
        vstd::arithmetic::power2::lemma2_to64();
    }
    while p < n as u128
        invariant
            p == vstd::arithmetic::power2::pow2(k),
            p <= 2 * 0xffff_ffff_ffff_ffff,
            forall|j: nat| j < k ==> #[trigger] vstd::arithmetic::power2::pow2(j) < n,
        decreases 2 * 0xffff_ffff_ffff_ffff - p,
    {
        proof {
            vstd::arithmetic::power2::lemma_pow2_unfold(k + 1);
            vstd::arithmetic::power2::lemma_pow2_pos(k);
        }
        p = p * 2;
        proof {
            k = k + 1;
        }
    }
    proof {
        if p != n {
            assert forall|j: nat| #[trigger] vstd::arithmetic::power2::pow2(j) != n by {
                if j > k {
                    vstd::arithmetic::power2::lemma_pow2_strictly_increases(k, j);
                }
            }
        }
    }
    p == n as u128
}

/// Counts occurrences and says which are worth a log line: the first, and then every
/// one that doubles the count.
#[derive(Clone, Copy, Debug, PartialEq, Eq, Structural)]
pub struct RateLimitedCounter(pub u64);

impl Default for RateLimitedCounter {
    fn default() -> (r: Self)
        ensures
            r.0 == 0,
    {
        RateLimitedCounter(0)
    }
}

impl PartialEq<u64> for RateLimitedCounter {
    fn eq(&self, other: &u64) -> (r: bool) {
        self.0 == *other
    }
}

impl vstd::std_specs::cmp::PartialEqSpecImpl<u64> for RateLimitedCounter {
    open spec fn obeys_eq_spec() -> bool {
        true
    }

    open spec fn eq_spec(&self, other: &u64) -> bool {
        self.0 == *other
    }
}

impl PartialOrd<u64> for RateLimitedCounter {
    fn partial_cmp(&self, other: &u64) -> (r: Option<core::cmp::Ordering>) {
        if self.0 < *other {
            Some(core::cmp::Ordering::Less)
        } else if self.0 > *other {
            Some(core::cmp::Ordering::Greater)
        } else {
            Some(core::cmp::Ordering::Equal)
        }
    }
}

impl vstd::std_specs::cmp::PartialOrdSpecImpl<u64> for RateLimitedCounter {
    open spec fn obeys_partial_cmp_spec() -> bool {
        true
    }

    open spec fn partial_cmp_spec(&self, other: &u64) -> Option<core::cmp::Ordering> {
        if self.0 < *other {
            Some(core::cmp::Ordering::Less)
        } else if self.0 > *other {
            Some(core::cmp::Ordering::Greater)
        } else {
            Some(core::cmp::Ordering::Equal)
        }
    }
}

impl RateLimitedCounter {
    /// Counts one occurrence; true where it is worth a log line.
    pub fn observe(&mut self) -> (r: bool)
        ensures
            final(self).0 == old(self).0.saturating_add(1),
            r == is_power_of_two(final(self).0 as int),
    {
        self.0 = self.0.saturating_add(1);
        test_power_of_two(self.0)
    }

    /// How many occurrences were counted.
    pub fn count(self) -> (r: u64)
        ensures
            r == self.0,
    {
        self.0
    }
}

/// What a [`TokenBucket`] holds.
pub struct TokensView {
    pub tokens: u32,
    pub last_refill: Instant,
    pub burst: u32,
    pub refill_interval: Duration,
}

impl TokensView {
    /// How many whole refill intervals passed by `now`; an interval of zero counts as a
    /// millisecond.
    pub open spec fn intervals(self, now: Instant) -> int {
        let interval = self.refill_interval.nanos as int;
        now.spec_since(self.last_refill).nanos as int / (if interval >= 1 { interval } else { 1_000_000 })
    }

    /// The intervals credited: all of them, or a full burst where they are too many to
    /// count.
    pub open spec fn credited(self, now: Instant) -> u32 {
        let n = self.intervals(now);
        if n <= u32::MAX { n as u32 } else { self.burst }
    }

    /// The bucket refilled for the intervals that passed.
    pub open spec fn refilled(self, now: Instant) -> TokensView {
        if self.intervals(now) > 0 {
            let sum = self.tokens.saturating_add(self.credited(now));
            let advance = self.refill_interval.nanos * self.credited(now);
            TokensView {
                tokens: if sum <= self.burst { sum } else { self.burst },
                last_refill: self.last_refill.spec_plus(
                    Duration { nanos: if advance <= u64::MAX { advance as u64 } else { u64::MAX } },
                ),
                ..self
            }
        } else {
            self
        }
    }

    /// The bucket after one attempt to take a token.
    pub open spec fn taken(self, now: Instant) -> TokensView {
        let full = self.refilled(now);
        if full.tokens == 0 { full } else { TokensView { tokens: (full.tokens - 1) as u32, ..full } }
    }
}

/// A token bucket: up to `burst` tokens at once, one more per refill interval.
pub struct TokenBucket {
    tokens: u32,
    last_refill: Instant,
    burst: u32,
    refill_interval: Duration,
}

impl View for TokenBucket {
    type V = TokensView;

    closed spec fn view(&self) -> TokensView {
        TokensView {
            tokens: self.tokens,
            last_refill: self.last_refill,
            burst: self.burst,
            refill_interval: self.refill_interval,
        }
    }
}

impl TokenBucket {
    #[verifier::type_invariant]
    spec fn wf(self) -> bool {
        self.tokens <= self.burst
    }

    /// A full bucket.
    pub fn new(burst: u32, refill_interval: Duration, now: Instant) -> (r: Self)
        ensures
            r@ == (TokensView { tokens: burst, last_refill: now, burst, refill_interval }),
    {
        TokenBucket { tokens: burst, last_refill: now, burst, refill_interval }
    }

    /// Takes a token where one is left.
    pub fn try_take(&mut self, now: Instant) -> (r: bool)
        ensures
            r == (old(self)@.refilled(now).tokens > 0),
            final(self)@ == old(self)@.taken(now),
            final(self)@.tokens <= final(self)@.burst,
    {
        proof {
            use_type_invariant(&*self);
        }
        let interval: u64 = if self.refill_interval.nanos >= 1 { self.refill_interval.nanos } else { 1_000_000 };
        let intervals: u64 = now.since(self.last_refill).nanos / interval;
        if intervals > 0 {
            let credited: u32 = if intervals <= u32::MAX as u64 { intervals as u32 } else { self.burst };
            let sum: u32 = self.tokens.saturating_add(credited);
            self.tokens = if sum <= self.burst { sum } else { self.burst };
            proof {
                assert(0 <= self.refill_interval.nanos * credited <= 0xffff_ffff_ffff_ffff * 0xffff_ffff)
                    by (nonlinear_arith)
                    requires
                        0 <= self.refill_interval.nanos <= 0xffff_ffff_ffff_ffff,
                        0 <= credited <= 0xffff_ffff,
                ;
            }
            let advance: u128 = self.refill_interval.nanos as u128 * credited as u128;
            let nanos: u64 = if advance <= u64::MAX as u128 { advance as u64 } else { u64::MAX };
            self.last_refill = self.last_refill.plus(Duration { nanos });
        }
        if self.tokens == 0 {
            false
        } else {
            self.tokens = self.tokens - 1;
            true
        }
    }
}

} // verus!
