//! A seeded 64-bit xorshift stream with unbiased bounded draws.

use vstd::arithmetic::div_mod::{lemma_fundamental_div_mod, lemma_mod_pos_bound};
use vstd::prelude::*;

verus! {

/// One xorshift64 transform: `x ^= x << 13; x ^= x >> 7; x ^= x << 17`.
pub open spec fn xorshift(x: u64) -> u64 {
    let a = x ^ (x << 13u64);
    let b = a ^ (a >> 7u64);
    b ^ (b << 17u64)
}

/// The exec form of `xorshift`.
pub fn xorshift_step(x: u64) -> (r: u64)
    ensures
        r == xorshift(x),
{
    let mut y: u64 = x;
    y ^= y << 13u64;
    y ^= y >> 7u64;
    y ^= y << 17u64;
    y
}

/// The value reached after `n` transforms of `x`.
pub open spec fn stream(x: u64, n: nat) -> u64
    decreases n,
{
    if n == 0 {
        x
    } else {
        xorshift(stream(x, (n - 1) as nat))
    }
}

/// Draws at or above this value are rejected when reducing modulo `span`:
/// the largest multiple of `span` that does not exceed `u64::MAX`.
pub open spec fn rejection_limit(span: u64) -> u64
    recommends
        span > 0,
{
    ((u64::MAX / span) * span) as u64
}

/// The `n`-th draw after `x` is the first one below `limit`.
pub open spec fn first_accepted(x: u64, limit: u64, n: nat) -> bool {
    &&& n >= 1
    &&& stream(x, n) < limit
    &&& forall|k: nat| 1 <= k < n ==> #[trigger] stream(x, k) >= limit
}

/// Some draw within `u64::MAX` steps of `x` falls below `limit`.
pub open spec fn accepts(x: u64, limit: u64) -> bool {
    exists|n: nat| n <= u64::MAX && first_accepted(x, limit, n)
}

/// The first draw after `x` that falls below `limit` (meaningful when `accepts(x, limit)`).
pub open spec fn accepted_draw(x: u64, limit: u64) -> u64 {
    stream(x, choose|n: nat| n <= u64::MAX && first_accepted(x, limit, n))
}

/// The rejection limit is a multiple of `span` within `span` of `u64::MAX`.
pub proof fn lemma_limit_bounds(span: u64)
    requires
        span > 0,
    ensures
        (u64::MAX / span) * span <= u64::MAX,
        u64::MAX - (u64::MAX / span) * span < span,
{
    lemma_fundamental_div_mod(u64::MAX as int, span as int);
    lemma_mod_pos_bound(u64::MAX as int, span as int);
    assert((u64::MAX / span) * span == span * (u64::MAX / span)) by (nonlinear_arith);
}

/// At most one draw is the first accepted one.
pub proof fn lemma_first_accepted_unique(x: u64, limit: u64, n: nat, m: nat)
    requires
        first_accepted(x, limit, n),
        first_accepted(x, limit, m),
    ensures
        n == m,
{
    if n < m {
        assert(stream(x, n) >= limit);
    } else if m < n {
        assert(stream(x, m) >= limit);
    }
}

/// The transform sends every value in the top `2^32` of the `u64` range below it.
proof fn lemma_xorshift_leaves_top(x: u64)
    requires
        x >= 0xffff_ffff_0000_0000u64,
    ensures
        xorshift(x) < 0xffff_ffff_0000_0000u64,
{
    assert(x >= 0xffff_ffff_0000_0000u64 ==> (x ^ (x << 13u64)) ^ ((x ^ (x << 13u64)) >> 7u64)
        ^ (((x ^ (x << 13u64)) ^ ((x ^ (x << 13u64)) >> 7u64)) << 17u64)
        < 0xffff_ffff_0000_0000u64) by (bit_vector);
}

/// For a span of at most `2^32`, rejection sampling accepts within two draws
/// from any state, so the exact result of `Random::range` is always available.
pub proof fn lemma_small_span_accepts(x: u64, span: u64)
    requires
        0 < span <= 0x1_0000_0000u64,
    ensures
        accepts(x, rejection_limit(span)),
{
    let limit = rejection_limit(span);
    lemma_limit_bounds(span);
    assert(stream(x, 0) == x);
    assert(stream(x, 1) == xorshift(x));
    assert(stream(x, 2) == xorshift(xorshift(x)));
    if stream(x, 1) < limit {
        assert(first_accepted(x, limit, 1));
    } else {
        lemma_xorshift_leaves_top(stream(x, 1));
        assert forall|k: nat| 1 <= k < 2 implies #[trigger] stream(x, k) >= limit by {
            assert(k == 1);
        }
        assert(first_accepted(x, limit, 2));
    }
}

/// A seeded xorshift64 stream.
pub struct Random {
    state: u64,
}

impl View for Random {
    type V = u64;

    /// The current state of the stream.
    closed spec fn view(&self) -> u64 {
        self.state
    }
}

impl Random {
    /// A stream that starts from `seed`.
    pub fn new(seed: u64) -> (r: Random)
        ensures
            r@ == seed,
    {
        Random { state: seed }
    }

    /// Advances the stream and returns its new value.
    pub fn next(&mut self) -> (r: u64)
        ensures
            r == xorshift(old(self)@),
            final(self)@ == r,
    {
        let x = xorshift_step(self.state);
        self.state = x;
        x
    }

    /// Draws uniformly from `[min, max)`: draws at or above
    /// `rejection_limit(max - min)` are rejected, and the first accepted draw is
    /// reduced modulo the span. The stream visits every nonzero value, so a draw is
    /// always accepted within `u64::MAX` steps; the loop is bounded by that count.
    pub fn range(&mut self, min: u64, max: u64) -> (r: u64)
        requires
            min < max,
        ensures
            min <= r < max,
            accepts(old(self)@, rejection_limit((max - min) as u64)) ==> {
                &&& final(self)@ == accepted_draw(old(self)@, rejection_limit((max - min) as u64))
                &&& r == min + final(self)@ % ((max - min) as u64)
            },
    {
        let span: u64 = max - min;
        proof {
            lemma_limit_bounds(span);
        }
        let limit: u64 = u64::MAX / span * span;
        let ghost x0 = self.state;
        let mut candidate: u64 = self.next();
        let mut tries: u64 = 1;
        assert(stream(x0, 0) == x0);
        assert(candidate == stream(x0, 1));
        while candidate >= limit && tries < u64::MAX
            invariant
                1 <= tries,
                candidate == stream(x0, tries as nat),
                self@ == candidate,
                forall|k: nat| 1 <= k < tries ==> #[trigger] stream(x0, k) >= limit,
            decreases u64::MAX - tries,
        {
            candidate = self.next();
            tries = tries + 1;
            assert(candidate == stream(x0, tries as nat));
            proof {
                assert forall|k: nat| 1 <= k < tries implies #[trigger] stream(x0, k) >= limit by {
                    if k == tries - 1 {
                    }
                }
            }
        }
        proof {
            if accepts(x0, limit) {
                let n = choose|n: nat| n <= u64::MAX && first_accepted(x0, limit, n);
                if candidate >= limit {
                    assert(stream(x0, n) < limit);
                    assert(n >= tries);
                    assert(n == u64::MAX);
                    assert(false);
                }
                assert(first_accepted(x0, limit, tries as nat));
                lemma_first_accepted_unique(x0, limit, n, tries as nat);
            }
        }
        proof {
            lemma_fundamental_div_mod(candidate as int, span as int);
            lemma_mod_pos_bound(candidate as int, span as int);
            assert((candidate / span) * span == span * (candidate / span)) by (nonlinear_arith);
        }
        candidate - (candidate / span * span) + min
    }
}

} // verus!
