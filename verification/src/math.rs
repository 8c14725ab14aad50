//! Integer helpers: floor division on signed values, facts about quotients
//! and remainders, and the integer square root.

use vstd::prelude::*;
use vstd::arithmetic::div_mod::{
    lemma_fundamental_div_mod, lemma_fundamental_div_mod_converse, lemma_mod_bound,
};

verus! {

/// `q` is the quotient of `x` by `d`, rounded towards negative infinity.
pub proof fn lemma_floor_div_unique(x: int, d: int, q: int)
    requires
        d > 0,
        q * d <= x < (q + 1) * d,
    ensures
        x / d == q,
{
    assert((q + 1) * d == q * d + d) by (nonlinear_arith);
    assert(q * d == d * q) by (nonlinear_arith);
    lemma_fundamental_div_mod_converse(x, d, q, x - q * d);
}

/// How quotient and remainder by `w` move when the dividend grows by one.
pub proof fn lemma_div_mod_step(t: int, w: int)
    requires
        t >= 0,
        w > 0,
    ensures
        0 <= t % w < w,
        t % w + 1 == w ==> (t + 1) / w == t / w + 1 && (t + 1) % w == 0,
        t % w + 1 < w ==> (t + 1) / w == t / w && (t + 1) % w == t % w + 1,
        t == (t / w) * w + t % w,
        0 <= t / w,
{
    lemma_fundamental_div_mod(t, w);
    lemma_mod_bound(t, w);
    lemma_fundamental_div_mod(t + 1, w);
    lemma_mod_bound(t + 1, w);
    let q = t / w;
    let r = t % w;
    assert(w * q == q * w) by (nonlinear_arith);
    assert((q + 1) * w == q * w + w) by (nonlinear_arith);
    assert(w * (q + 1) == q * w + w) by (nonlinear_arith);
    assert((q + 1 + 1) * w == q * w + w + w) by (nonlinear_arith);
    if r + 1 == w {
        lemma_floor_div_unique(t + 1, w, q + 1);
    } else {
        lemma_floor_div_unique(t + 1, w, q);
    }
    if q < 0 {
        assert(q * w <= -w) by (nonlinear_arith)
            requires
                q <= -1,
                w > 0,
        ;
    }
}

/// A multiple of `d` leaves no remainder, and divides back to its factor.
pub proof fn lemma_multiple_mod(k: int, d: int)
    requires
        d > 0,
    ensures
        (k * d) % d == 0,
        (k * d) / d == k,
{
    assert(k * d <= k * d < (k + 1) * d) by (nonlinear_arith)
        requires
            d > 0,
    ;
    lemma_floor_div_unique(k * d, d, k);
    lemma_fundamental_div_mod(k * d, d);
    assert(d * k == k * d) by (nonlinear_arith);
}

/// The sum of two multiples of `d` is a multiple of `d`.
pub proof fn lemma_sum_of_multiples(a: int, b: int, d: int)
    requires
        d > 0,
        a % d == 0,
        b % d == 0,
    ensures
        (a + b) % d == 0,
{
    lemma_fundamental_div_mod(a, d);
    lemma_fundamental_div_mod(b, d);
    let k = a / d + b / d;
    assert(a + b == k * d) by (nonlinear_arith)
        requires
            a == d * (a / d),
            b == d * (b / d),
            k == a / d + b / d,
    ;
    lemma_multiple_mod(k, d);
}

/// The quotient of `a` by a positive `b`, rounded towards negative infinity.
pub fn div_floor(a: i128, b: i128) -> (q: i128)
    requires
        b > 0,
    ensures
        q == a as int / b as int,
{
    if a >= 0 {
        a / b
    } else {
        // a < 0: floor(a / b) == -1 - floor((-a - 1) / b), and -a - 1 == -(a + 1).
        let n: i128 = -(a + 1);
        let t: i128 = n / b;
        proof {
            lemma_fundamental_div_mod(n as int, b as int);
            lemma_mod_bound(n as int, b as int);
            let q = -1 - t as int;
            let r = (n as int) % (b as int);
            assert(n as int == b as int * (t as int) + r);
            assert(b as int * (t as int) == (t as int) * (b as int)) by (nonlinear_arith);
            assert(q * (b as int) == -(b as int) - (t as int) * (b as int)) by (nonlinear_arith)
                requires
                    q == -1 - t as int,
            ;
            assert((q + 1) * (b as int) == -((t as int) * (b as int))) by (nonlinear_arith)
                requires
                    q == -1 - t as int,
            ;
            lemma_floor_div_unique(a as int, b as int, q);
        }
        -1 - t
    }
}

/// `r` is the integer square root of `n`: the greatest value whose square
/// does not exceed `n`.
pub open spec fn is_isqrt(n: int, r: int) -> bool {
    0 <= r && r * r <= n < (r + 1) * (r + 1)
}

/// The integer square root of `n`.
pub open spec fn isqrt(n: int) -> int {
    choose|r: int| is_isqrt(n, r)
}

/// At most one value is the integer square root of `n`.
pub proof fn lemma_isqrt_unique(n: int, r1: int, r2: int)
    requires
        is_isqrt(n, r1),
        is_isqrt(n, r2),
    ensures
        r1 == r2,
{
    if r1 < r2 {
        assert((r1 + 1) * (r1 + 1) <= r2 * r2) by (nonlinear_arith)
            requires
                0 <= r1,
                r1 + 1 <= r2,
        ;
    } else if r2 < r1 {
        assert((r2 + 1) * (r2 + 1) <= r1 * r1) by (nonlinear_arith)
            requires
                0 <= r2,
                r2 + 1 <= r1,
        ;
    }
}

/// The integer square root of a 64-bit value, found by bisection.
pub fn isqrt_u64(n: u64) -> (r: u32)
    ensures
        is_isqrt(n as int, r as int),
        r as int == isqrt(n as int),
{
    let mut lo: u64 = 0;
    let mut hi: u64 = 0x1_0000_0000;
    assert(0x1_0000_0000int * 0x1_0000_0000int > n as int) by (nonlinear_arith)
        requires
            n <= u64::MAX,
    ;
    while hi - lo > 1
        invariant
            0 <= lo < hi <= 0x1_0000_0000,
            lo * lo <= n,
            n < hi * hi,
        decreases hi - lo,
    {
        let mid: u64 = lo + (hi - lo) / 2;
        assert(mid * mid < 0x1_0000_0000int * 0x1_0000_0000int) by (nonlinear_arith)
            requires
                0 <= mid < 0x1_0000_0000,
        ;
        if mid * mid <= n {
            lo = mid;
        } else {
            hi = mid;
        }
    }
    proof {
        assert(hi == lo + 1);
        assert(is_isqrt(n as int, lo as int));
        let w = isqrt(n as int);
        assert(is_isqrt(n as int, w));
        lemma_isqrt_unique(n as int, lo as int, w);
    }
    lo as u32
}

/// Every natural number has an integer square root.
pub proof fn lemma_isqrt_exists(n: int)
    requires
        n >= 0,
    ensures
        is_isqrt(n, isqrt(n)),
    decreases n,
{
    if n == 0 {
        assert(is_isqrt(0, 0));
    } else {
        lemma_isqrt_exists(n - 1);
        let r = isqrt(n - 1);
        if (r + 1) * (r + 1) <= n {
            assert((r + 2) * (r + 2) > (r + 1) * (r + 1)) by (nonlinear_arith)
                requires
                    r >= 0,
            ;
            assert(is_isqrt(n, r + 1));
        } else {
            assert(is_isqrt(n, r));
        }
    }
}

} // verus!
