//! Integer helpers behind the fixed-point arithmetic of the simulation.

use vstd::arithmetic::div_mod::{lemma_basic_div, lemma_div_denominator, lemma_div_non_zero};
use vstd::arithmetic::power2::{
    lemma2_to64, lemma_pow2_pos, lemma_pow2_strictly_increases, lemma_pow2_unfold, pow2,
};
use vstd::prelude::*;

verus! {

/// The smaller of two integers.
pub open spec fn min_int(a: int, b: int) -> int {
    if a <= b {
        a
    } else {
        b
    }
}

/// The larger of two integers.
pub open spec fn max_int(a: int, b: int) -> int {
    if a >= b {
        a
    } else {
        b
    }
}

/// The distance of an integer from zero.
pub open spec fn abs_int(a: int) -> int {
    if a < 0 {
        -a
    } else {
        a
    }
}

/// `v` moved into the interval from `-limit` to `limit`.
pub open spec fn saturate(v: int, limit: int) -> int {
    if v < -limit {
        -limit
    } else if v > limit {
        limit
    } else {
        v
    }
}

/// The quotient of `a` by a positive `b`, rounded toward zero.
pub open spec fn div_toward_zero(a: int, b: int) -> int {
    if a >= 0 {
        a / b
    } else {
        -((-a) / b)
    }
}

/// `base` times two to the power `k`; for a negative `k` the quotient by two
/// to the power `-k`, rounded down.
pub open spec fn scale_pow2(base: nat, k: int) -> nat {
    if k >= 0 {
        base * pow2(k as nat)
    } else {
        base / pow2((-k) as nat)
    }
}

/// `r` is the integer square root of `m`: the largest integer whose square
/// does not exceed `m`.
pub open spec fn is_isqrt(m: int, r: int) -> bool {
    0 <= r && r * r <= m < (r + 1) * (r + 1)
}

/// The integer square root of a non-negative `m`.
pub open spec fn isqrt(m: int) -> int {
    choose|r: int| is_isqrt(m, r)
}

/// A number has at most one integer square root.
pub proof fn lemma_isqrt_unique(m: int, a: int, b: int)
    requires
        is_isqrt(m, a),
        is_isqrt(m, b),
    ensures
        a == b,
{
    if a < b {
        assert((a + 1) * (a + 1) <= b * b) by (nonlinear_arith)
            requires
                0 <= a,
                a + 1 <= b,
        ;
    } else if b < a {
        assert((b + 1) * (b + 1) <= a * a) by (nonlinear_arith)
            requires
                0 <= b,
                b + 1 <= a,
        ;
    }
}

/// Whatever meets [`is_isqrt`] is the value of [`isqrt`].
pub proof fn lemma_isqrt_is(m: int, r: int)
    requires
        is_isqrt(m, r),
    ensures
        isqrt(m) == r,
{
    lemma_isqrt_unique(m, r, isqrt(m));
}

/// The product of two bounded numbers is bounded by the product of the
/// bounds.
pub proof fn lemma_product_bound(x: int, y: int, bx: int, by: int)
    by (nonlinear_arith)
    requires
        -bx <= x <= bx,
        -by <= y <= by,
    ensures
        -(bx * by) <= x * y <= bx * by,
{
}

/// A quotient rounded toward zero has the sign of its numerator, or is zero.
pub proof fn lemma_quotient_keeps_sign(a: int, b: int)
    requires
        b > 0,
    ensures
        a >= 0 ==> div_toward_zero(a, b) >= 0,
        a <= 0 ==> div_toward_zero(a, b) <= 0,
        div_toward_zero(a, b) > 0 ==> a > 0,
        div_toward_zero(a, b) < 0 ==> a < 0,
{
    if a >= 0 {
        vstd::arithmetic::div_mod::lemma_div_pos_is_pos(a, b);
    } else {
        vstd::arithmetic::div_mod::lemma_div_pos_is_pos(-a, b);
    }
}

/// What rounding toward zero leaves over is smaller than the divisor and has
/// the sign of the numerator.
pub proof fn lemma_rounding_remainder(a: int, n: int)
    requires
        n > 0,
    ensures
        -n < a - div_toward_zero(a, n) * n < n,
        a >= 0 ==> 0 <= a - div_toward_zero(a, n) * n,
        a <= 0 ==> a - div_toward_zero(a, n) * n <= 0,
{
    if a >= 0 {
        let q = a / n;
        vstd::arithmetic::div_mod::lemma_fundamental_div_mod(a, n);
        vstd::arithmetic::div_mod::lemma_mod_bound(a, n);
        assert(n * q == q * n) by (nonlinear_arith);
    } else {
        let q = (-a) / n;
        vstd::arithmetic::div_mod::lemma_fundamental_div_mod(-a, n);
        vstd::arithmetic::div_mod::lemma_mod_bound(-a, n);
        assert(n * q == q * n && (-q) * n == -(q * n)) by (nonlinear_arith);
    }
}

/// Every non-negative number has an integer square root.
pub proof fn lemma_isqrt_exists(m: int)
    requires
        0 <= m,
    ensures
        is_isqrt(m, isqrt(m)),
    decreases m,
{
    if m == 0 {
        assert(is_isqrt(0, 0));
    } else {
        lemma_isqrt_exists(m - 1);
        let r = isqrt(m - 1);
        if (r + 1) * (r + 1) <= m {
            assert((r + 2) * (r + 2) > (r + 1) * (r + 1)) by (nonlinear_arith)
                requires
                    r >= 0,
            ;
            assert(is_isqrt(m, r + 1));
        } else {
            assert(is_isqrt(m, r));
        }
    }
}

/// The integer square root of a number that is at least `k * k` is at least `k`.
pub proof fn lemma_isqrt_at_least(m: int, k: int)
    requires
        0 <= k,
        k * k <= m,
    ensures
        k <= isqrt(m),
{
    assert(0 <= k * k) by (nonlinear_arith);
    lemma_isqrt_exists(m);
    let r = isqrt(m);
    if r < k {
        assert((r + 1) * (r + 1) <= k * k) by (nonlinear_arith)
            requires
                0 <= r,
                r + 1 <= k,
        ;
    }
}

/// Computes the integer square root by bisection.
pub fn integer_sqrt(m: u128) -> (r: u64)
    ensures
        is_isqrt(m as int, r as int),
        r as int == isqrt(m as int),
{
    let mut lo: u128 = 0;
    let mut hi: u128 = 0x1_0000_0000_0000_0000;
    assert(hi * hi > m) by (nonlinear_arith)
        requires
            hi == 0x1_0000_0000_0000_0000,
            m <= u128::MAX,
    ;
    while hi - lo > 1
        invariant
            lo < hi <= 0x1_0000_0000_0000_0000,
            lo * lo <= m,
            m < hi * hi,
        decreases hi - lo,
    {
        let mid = lo + (hi - lo) / 2;
        assert(mid * mid < 0x1_0000_0000_0000_0000 * 0x1_0000_0000_0000_0000) by (nonlinear_arith)
            requires
                0 <= mid < 0x1_0000_0000_0000_0000,
        ;
        if mid * mid <= m {
            lo = mid;
        } else {
            hi = mid;
        }
    }
    proof {
        lemma_isqrt_is(m as int, lo as int);
    }
    lo as u64
}

/// Divides a signed number by a positive one, rounding toward zero.
pub fn div_round_zero(a: i128, b: i128) -> (q: i128)
    requires
        b > 0,
        a > i128::MIN,
    ensures
        q == div_toward_zero(a as int, b as int),
        abs_int(q as int) <= abs_int(a as int),
{
    if a >= 0 {
        proof {
            vstd::arithmetic::div_mod::lemma_div_basics_5(a as int, b as int);
            vstd::arithmetic::div_mod::lemma_div_pos_is_pos(a as int, b as int);
        }
        a / b
    } else {
        proof {
            vstd::arithmetic::div_mod::lemma_div_basics_5(-a as int, b as int);
            vstd::arithmetic::div_mod::lemma_div_pos_is_pos(-a as int, b as int);
        }
        -((-a) / b)
    }
}

/// Scales `base` by two to the power `k`, stopping at `cap`.
pub fn scale_by_pow2(base: u64, k: i128, cap: u64) -> (r: u64)
    requires
        base <= cap <= 0x4000_0000_0000_0000,
    ensures
        r as int == min_int(scale_pow2(base as nat, k as int) as int, cap as int),
{
    if k >= 0 {
        let mut cur: u64 = base;
        let mut i: i128 = 0;
        proof {
            assert(pow2(0) == 1) by {
                lemma2_to64();
            }
            assert(base * 1 == base);
        }
        while i < k && cur != 0 && cur < cap
            invariant
                0 <= i <= k,
                base <= cap <= 0x4000_0000_0000_0000,
                cur as int == min_int((base * pow2(i as nat)) as int, cap as int),
            decreases k - i,
        {
            proof {
                let p = pow2(i as nat);
                lemma_pow2_unfold((i + 1) as nat);
                assert(base * (2 * p) == 2 * (base * p)) by (nonlinear_arith);
            }
            cur = if cur >= cap - cur {
                cap
            } else {
                cur * 2
            };
            i += 1;
        }
        proof {
            if i < k {
                let pi = pow2(i as nat);
                let pk = pow2(k as nat);
                lemma_pow2_pos(i as nat);
                lemma_pow2_strictly_increases(i as nat, k as nat);
                if cur == 0 {
                    if base != 0 {
                        assert(base * pi > 0) by (nonlinear_arith)
                            requires
                                base > 0,
                                pi > 0,
                        ;
                    }
                    assert(base * pk == 0) by (nonlinear_arith)
                        requires
                            base == 0,
                    ;
                } else {
                    assert(base * pk >= base * pi) by (nonlinear_arith)
                        requires
                            pk >= pi,
                            base >= 0,
                    ;
                }
            }
        }
        cur
    } else {
        let n: i128 = if k < -64 {
            64
        } else {
            -k
        };
        let mut cur: u64 = base;
        let mut i: i128 = 0;
        proof {
            lemma2_to64();
            assert(pow2(i as nat) == 1);
            assert((base as int) / 1 == base as int);
        }
        while i < n && cur != 0
            invariant
                0 <= i <= n,
                cur as int == (base as int) / (pow2(i as nat) as int),
            decreases n - i,
        {
            proof {
                let p = pow2(i as nat);
                lemma_pow2_pos(i as nat);
                lemma_pow2_unfold((i + 1) as nat);
                lemma_div_denominator(base as int, p as int, 2);
                assert(p * 2 == 2 * p);
            }
            cur = cur / 2;
            i += 1;
        }
        proof {
            let pi = pow2(i as nat);
            let pk = pow2((-k) as nat);
            lemma_pow2_pos(i as nat);
            if i < -k {
                lemma_pow2_strictly_increases(i as nat, (-k) as nat);
                if cur != 0 {
                    // The loop ran to its end at 64 halvings, which leave nothing.
                    assert(pow2(64) == 0x1_0000_0000_0000_0000);
                    lemma_basic_div(base as int, pi as int);
                } else if base >= pi {
                    lemma_div_non_zero(base as int, pi as int);
                }
                lemma_basic_div(base as int, pk as int);
            }
        }
        cur
    }
}

} // verus!
