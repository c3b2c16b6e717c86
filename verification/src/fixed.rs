//! Fixed-point scalars for the world model.
//!
//! A scalar is an `i64` counting millionths of a world unit (`SCALE` ticks
//! per unit), kept inside the symmetric range `[FP_MIN, FP_MAX]`.  Additions
//! saturate at the range bounds, so a runaway trajectory pins to the edge of
//! the world instead of overflowing; this is the model's stand-in for the
//! unchecked growth the simplified force law allows.

use vstd::prelude::*;
use vstd::arithmetic::div_mod::{lemma_div_is_ordered, lemma_div_multiples_vanish};

verus! {

/// Number of fixed-point ticks in one world unit: a scalar `v` stands for
/// the real quantity `v / SCALE`.
pub const SCALE: i64 = 1_000_000;

/// Largest representable scalar (one thousand million world units).
pub const FP_MAX: i64 = 1_000_000_000_000_000;

/// Smallest representable scalar.
pub const FP_MIN: i64 = -1_000_000_000_000_000;

/// A scalar the world accepts: within the saturation bounds.
pub open spec fn fp_in_range(x: int) -> bool {
    FP_MIN <= x <= FP_MAX
}

/// Saturation: the nearest representable scalar to `x`.
pub open spec fn fp_clamp(x: int) -> int {
    if x > FP_MAX {
        FP_MAX as int
    } else if x < FP_MIN {
        FP_MIN as int
    } else {
        x
    }
}

/// The square of `x`.
pub open spec fn sq(x: int) -> int {
    x * x
}

/// The absolute value of `x`.
pub open spec fn abs_val(x: int) -> int {
    if x < 0 {
        -x
    } else {
        x
    }
}

/// Division that rounds toward zero, as machine division of signed
/// integers does (`/` on `int` rounds toward negative infinity instead).
pub open spec fn div_trunc(a: int, b: int) -> int {
    if a >= 0 {
        a / b
    } else {
        -((-a) / b)
    }
}

/// Saturating addition of two in-range scalars.
pub fn fp_sat_add(a: i64, b: i64) -> (r: i64)
    requires
        fp_in_range(a as int),
        fp_in_range(b as int),
    ensures
        r as int == fp_clamp(a + b),
{
    let s: i64 = a + b;
    if s > FP_MAX {
        FP_MAX
    } else if s < FP_MIN {
        FP_MIN
    } else {
        s
    }
}

/// Largest `r` not above `limit` whose square is at most `n`; the helper
/// behind `isqrt`.
pub open spec fn isqrt_from(n: int, limit: int) -> int
    decreases limit,
{
    if limit <= 0 {
        0
    } else if limit * limit <= n {
        limit
    } else {
        isqrt_from(n, limit - 1)
    }
}

/// The integer square root of `n`: the largest `r` with `r * r <= n`.
pub open spec fn isqrt(n: int) -> int {
    isqrt_from(n, n)
}

proof fn lemma_isqrt_from(n: int, limit: int)
    requires
        0 <= n,
        0 <= limit,
        n < (limit + 1) * (limit + 1),
    ensures
        0 <= isqrt_from(n, limit),
        sq(isqrt_from(n, limit)) <= n,
        n < sq(isqrt_from(n, limit) + 1),
    decreases limit,
{
    if limit <= 0 {
        assert(n < 1) by (nonlinear_arith)
            requires n < (limit + 1) * (limit + 1), limit == 0;
    } else if limit * limit <= n {
    } else {
        lemma_isqrt_from(n, limit - 1);
    }
}

/// `isqrt(n)` is the integer square root of `n`: its square is at most
/// `n`, and the next square is beyond `n`.
pub proof fn lemma_isqrt(n: int)
    requires
        0 <= n,
    ensures
        0 <= isqrt(n),
        sq(isqrt(n)) <= n,
        n < sq(isqrt(n) + 1),
{
    assert(n < (n + 1) * (n + 1)) by (nonlinear_arith)
        requires 0 <= n;
    lemma_isqrt_from(n, n);
}

/// Any `r` whose square brackets `n` is `isqrt(n)`.
pub proof fn lemma_isqrt_unique(n: int, r: int)
    requires
        0 <= r,
        sq(r) <= n,
        n < sq(r + 1),
    ensures
        r == isqrt(n),
{
    lemma_isqrt(n);
    let s = isqrt(n);
    if r < s {
        assert((r + 1) * (r + 1) <= s * s) by (nonlinear_arith)
            requires 0 <= r, r < s;
    }
    if s < r {
        assert((s + 1) * (s + 1) <= r * r) by (nonlinear_arith)
            requires 0 <= s, s < r;
    }
}

/// Anything whose square is at most `n` is at most `isqrt(n)`.
pub proof fn lemma_isqrt_at_least(n: int, a: int)
    requires
        0 <= a,
        sq(a) <= n,
    ensures
        a <= isqrt(n),
{
    lemma_isqrt(n);
    let s = isqrt(n);
    if s < a {
        assert((s + 1) * (s + 1) <= a * a) by (nonlinear_arith)
            requires 0 <= s, s < a;
    }
}

/// Integer square root by bisection.
pub fn isqrt_u128(n: u128) -> (r: u128)
    ensures
        r as int == isqrt(n as int),
        sq(r as int) <= n as int,
        (n as int) < sq(r as int + 1),
        r <= 0xffff_ffff_ffff_ffff,
{
    let mut lo: u128 = 0;
    let mut hi: u128 = 18_446_744_073_709_551_616;
    proof {
        assert((hi as int) * (hi as int) > n as int) by (nonlinear_arith)
            requires hi as int == 18_446_744_073_709_551_616, n <= u128::MAX;
    }
    while lo + 1 < hi
        invariant
            lo < hi,
            hi <= 18_446_744_073_709_551_616,
            sq(lo as int) <= n as int,
            (n as int) < sq(hi as int),
        decreases hi - lo,
    {
        let mid: u128 = lo + (hi - lo) / 2;
        proof {
            assert((mid as int) * (mid as int) < 0x1_0000_0000_0000_0000_0000_0000_0000_0000int)
                by (nonlinear_arith)
                requires 0 <= mid as int, (mid as int) < 18_446_744_073_709_551_616;
        }
        if mid * mid <= n {
            lo = mid;
        } else {
            hi = mid;
        }
    }
    proof {
        lemma_isqrt_unique(n as int, lo as int);
    }
    lo
}

/// `c * d / r`, rounded toward zero: scales the ratio `d / r` (at most one
/// in magnitude) up to the magnitude `c`.
pub fn mul_ratio(c: u64, d: i64, r: u128) -> (q: i64)
    requires
        0 < r,
        c <= 1_000_000_000,
        abs_val(d as int) <= r as int,
    ensures
        q as int == div_trunc(c as int * d as int, r as int),
        abs_val(q as int) <= c as int,
{
    let da: u128 = if d < 0 {
        (-(d as i128)) as u128
    } else {
        d as u128
    };
    assert(da as int == abs_val(d as int));
    proof {
        assert(c as int * da as int <= 0x2000_0000_0000_0000_0000_0000int) by (nonlinear_arith)
            requires
                0 <= c as int <= 1_000_000_000,
                0 <= da as int <= 0x8000_0000_0000_0000;
    }
    let num: u128 = (c as u128) * da;
    proof {
        assert(num as int <= c as int * r as int) by (nonlinear_arith)
            requires
                num as int == c as int * da as int,
                da as int <= r as int,
                0 <= c as int,
                0 < r as int;
        lemma_div_is_ordered(num as int, c as int * r as int, r as int);
        lemma_div_multiples_vanish(c as int, r as int);
        assert(c as int * r as int == r as int * c as int) by (nonlinear_arith);
    }
    let qa: u128 = num / r;
    assert(qa <= c);
    let q: i64 = if d < 0 {
        -(qa as i64)
    } else {
        qa as i64
    };
    proof {
        if d < 0 {
            assert(c as int * d as int == -(c as int * da as int)) by (nonlinear_arith)
                requires da as int == -(d as int);
        }
    }
    q
}

} // verus!
