//! Request rate limits per system: a token bucket for each, refilled continuously at the
//! system's rate of requests per second, holding at most one second's worth. Tokens are
//! counted in millionths and time in microseconds.
use vstd::prelude::*;

use crate::domain::type_map::StrMap;

verus! {

/// Millionths of a token in one token.
pub const UNIT: u128 = 1_000_000;

/// A system's bucket: its size and content in millionths of a token, its refill rate in
/// millionths per microsecond (the requests per second), and when it was last refilled.
#[derive(Clone, Copy, Debug, PartialEq, Eq, Structural)]
pub struct Bucket {
    pub capacity: u128,
    pub tokens: u128,
    pub rate: u64,
    pub last_us: u64,
}

/// A full bucket for `rps` requests per second.
pub open spec fn fresh_bucket(rps: u64, now_us: u64) -> Bucket {
    Bucket { capacity: (rps * UNIT) as u128, tokens: (rps * UNIT) as u128, rate: rps, last_us: now_us }
}

/// The content of a bucket refilled up to `now_us` (time that runs backwards adds nothing).
pub open spec fn refilled(b: Bucket, now_us: u64) -> int {
    let elapsed = if now_us >= b.last_us {
        now_us - b.last_us
    } else {
        0
    };
    let t = b.tokens + elapsed * b.rate;
    if t < b.capacity {
        t
    } else {
        b.capacity as int
    }
}

/// The bucket after one request at `now_us`: refilled, less one token when it holds one.
pub open spec fn taken(b: Bucket, now_us: u64) -> Bucket {
    let t = refilled(b, now_us);
    Bucket { tokens: (if t >= UNIT { t - UNIT } else { t }) as u128, last_us: now_us, ..b }
}

/// A request at `now_us` is let through.
pub open spec fn admits(b: Bucket, now_us: u64) -> bool {
    refilled(b, now_us) >= UNIT
}

/// The bucket after `k` requests at the same instant.
pub open spec fn taken_times(b: Bucket, now_us: u64, k: nat) -> Bucket
    decreases k,
{
    if k == 0 {
        b
    } else {
        taken(taken_times(b, now_us, (k - 1) as nat), now_us)
    }
}

/// At one instant, a system first seen with `rps` requests per second has exactly `rps`
/// requests let through: the first `rps` are admitted and the next one is refused.
pub proof fn law_burst_of_rps(rps: u64, now_us: u64, k: nat)
    requires
        rps > 0,
        k <= rps,
    ensures
        taken_times(fresh_bucket(rps, now_us), now_us, k).tokens == (rps - k) * UNIT,
        taken_times(fresh_bucket(rps, now_us), now_us, k).last_us == now_us,
        taken_times(fresh_bucket(rps, now_us), now_us, k).capacity == rps * UNIT,
        taken_times(fresh_bucket(rps, now_us), now_us, k).rate == rps,
        admits(taken_times(fresh_bucket(rps, now_us), now_us, k), now_us) == (k < rps),
    decreases k,
{
    let b0 = fresh_bucket(rps, now_us);
    assert(rps * UNIT <= 0xffff_ffff_ffff_ffffu64 * 1_000_000) by (nonlinear_arith)
        requires
            rps <= 0xffff_ffff_ffff_ffffu64,
    ;
    assert(b0.capacity == rps * UNIT);
    if k > 0 {
        law_burst_of_rps(rps, now_us, (k - 1) as nat);
        let prev = taken_times(b0, now_us, (k - 1) as nat);
        assert((rps - (k - 1)) * UNIT == (rps - k) * UNIT + UNIT) by (nonlinear_arith);
        assert((rps - (k - 1)) * UNIT <= rps * UNIT) by (nonlinear_arith)
            requires
                k >= 1,
        ;
        assert((rps - k) * UNIT >= 0) by (nonlinear_arith)
            requires
                k <= rps,
        ;
        assert(0 * prev.rate == 0);
        assert(refilled(prev, now_us) == prev.tokens);
        assert(taken_times(b0, now_us, k) == taken(prev, now_us));
    }
    let bk = taken_times(b0, now_us, k);
    assert(0 * bk.rate == 0);
    assert((rps - k) * UNIT <= rps * UNIT) by (nonlinear_arith)
        requires
            k >= 0,
    ;
    assert(refilled(bk, now_us) == bk.tokens);
    assert(k < rps <==> (rps - k) * UNIT >= UNIT) by (nonlinear_arith)
        requires
            k <= rps,
    ;
}

/// The buckets of the systems seen so far.
pub struct RateLimiter {
    pub buckets: StrMap<Bucket>,
}

impl RateLimiter {
    pub open spec fn wf(&self) -> bool {
        &&& self.buckets.wf()
        &&& forall|t: Seq<char>| #[trigger] self.buckets.get_spec(t) matches Some(b) ==> b.tokens <= b.capacity
            && b.capacity == b.rate * UNIT && b.rate > 0
    }

    pub fn new() -> (r: RateLimiter)
        ensures
            r.wf(),
            forall|t: Seq<char>| r.buckets.get_spec(t) is None,
    {
        RateLimiter { buckets: StrMap::new() }
    }

    /// Takes a token from the system's bucket (made full on first use with `rps`), after
    /// refilling it; with none left the answer is how long until one is, in microseconds
    /// (rounded up). A rate of zero means no limit and changes nothing.
    pub fn check(&mut self, system_id: &str, rps: u64, now_us: u64) -> (r: Result<(), u64>)
        requires
            old(self).wf(),
        ensures
            final(self).wf(),
            rps == 0 ==> r is Ok && *final(self) == *old(self),
            rps > 0 ==> ({
                let b = match old(self).buckets.get_spec(system_id@) {
                    Some(b) => b,
                    None => fresh_bucket(rps, now_us),
                };
                let t = refilled(b, now_us);
                &&& final(self).buckets.get_spec(system_id@) == Some(taken(b, now_us))
                &&& forall|x: Seq<char>| x != system_id@ ==> #[trigger] final(self).buckets.get_spec(x)
                    == old(self).buckets.get_spec(x)
                &&& admits(b, now_us) ==> r is Ok
                &&& !admits(b, now_us) ==> r == Err::<(), u64>(((UNIT - t + b.rate - 1) / b.rate as int) as u64)
            }),
    {
        if rps == 0 {
            return Ok(());
        }
        let key = system_id.to_string();
        let b: Bucket = match self.buckets.get(&key) {
            Some(b) => *b,
            None => {
                let cap: u128 = (rps as u128) * UNIT;
                Bucket { capacity: cap, tokens: cap, rate: rps, last_us: now_us }
            },
        };
        assert(b.tokens <= b.capacity && b.capacity == b.rate * UNIT && b.rate > 0);
        let elapsed: u64 = if now_us >= b.last_us {
            now_us - b.last_us
        } else {
            0
        };
        let el: u128 = elapsed as u128;
        let rt: u128 = b.rate as u128;
        assert(el * rt <= 0xffff_ffff_ffff_ffffu128 * 0xffff_ffff_ffff_ffffu128) by (nonlinear_arith)
            requires
                el <= 0xffff_ffff_ffff_ffffu128,
                rt <= 0xffff_ffff_ffff_ffffu128,
        ;
        let add: u128 = el * rt;
        let t: u128 = if add < b.capacity - b.tokens {
            b.tokens + add
        } else {
            b.capacity
        };
        assert(t == refilled(b, now_us));
        let (tokens, r) = if t >= UNIT {
            (t - UNIT, Ok(()))
        } else {
            let wait: u128 = (UNIT - t + rt - 1) / rt;
            assert(wait <= UNIT) by (nonlinear_arith)
                requires
                    rt >= 1,
                    t < UNIT,
                    wait == (UNIT - t + rt - 1) / (rt as int),
            ;
            (t, Err(wait as u64))
        };
        self.buckets.insert(key, Bucket { tokens, last_us: now_us, ..b });
        r
    }
}

} // verus!
