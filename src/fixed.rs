//! Fixed-point conventions shared by the whole pipeline.
//!
//! Colors, clip-space coordinates, barycentric weights, texture coordinates
//! and depths are integers scaled by `ONE` (16 fractional bits).
use vstd::prelude::*;

verus! {

/// The fixed-point value of 1.0.
pub const ONE: i64 = 65536;

/// Clamps `x` into `[lo, hi]`.
pub open spec fn clamp_spec(x: int, lo: int, hi: int) -> int {
    if x < lo {
        lo
    } else if x > hi {
        hi
    } else {
        x
    }
}

/// Division rounding toward negative infinity (`/` on `int` with a positive
/// divisor is exactly that).
pub open spec fn floor_div_spec(n: int, d: int) -> int {
    n / d
}

/// Division rounding toward zero, as Rust's `/` does.
pub open spec fn trunc_div_spec(n: int, d: int) -> int {
    if n >= 0 {
        n / d
    } else {
        -((-n) / d)
    }
}

/// Division rounding toward positive infinity.
pub open spec fn ceil_div_spec(n: int, d: int) -> int {
    -((-n) / d)
}

pub fn clamp_i64(x: i64, lo: i64, hi: i64) -> (r: i64)
    requires
        lo <= hi,
    ensures
        r == clamp_spec(x as int, lo as int, hi as int),
{
    if x < lo {
        lo
    } else if x > hi {
        hi
    } else {
        x
    }
}

pub proof fn lemma_floor_div_negative(m: int, d: int, q: int, rem: int)
    requires
        m > 0,
        d > 0,
        q == m / d,
        rem == m % d,
    ensures
        rem == 0 ==> (-m) / d == -q,
        rem != 0 ==> (-m) / d == -q - 1,
        0 <= q <= m,
        rem != 0 ==> q + 1 <= m,
        rem == 0 ==> q >= 1,
{
    vstd::arithmetic::div_mod::lemma_fundamental_div_mod(m, d);
    assert(0 <= rem < d);
    assert(0 <= q <= m) by (nonlinear_arith)
        requires m == d * q + rem, 0 <= rem < d, d > 0, m > 0;
    assert(rem == 0 ==> q >= 1) by (nonlinear_arith)
        requires m == d * q + rem, 0 <= rem < d, d > 0, m > 0;
    assert(rem != 0 ==> q + 1 <= m) by (nonlinear_arith)
        requires m == d * q + rem, 0 <= rem < d, d > 0, m > 0;
    if rem == 0 {
        assert(-m == d * (-q)) by (nonlinear_arith)
            requires m == d * q + rem, rem == 0;
        vstd::arithmetic::div_mod::lemma_div_multiples_vanish_fancy(-q, 0, d);
    } else {
        assert(-m == d * (-q - 1) + (d - rem)) by (nonlinear_arith)
            requires m == d * q + rem;
        vstd::arithmetic::div_mod::lemma_div_multiples_vanish_fancy(-q - 1, d - rem, d);
    }
}

/// `n / d` rounded toward negative infinity.
pub fn floor_div(n: i64, d: i64) -> (r: i64)
    requires
        d > 0,
        n > i64::MIN,
    ensures
        r == floor_div_spec(n as int, d as int),
        n >= 0 ==> 0 <= r <= n,
        n < 0 ==> n <= r < 0,
{
    if n >= 0 {
        assert(n / d <= n) by (nonlinear_arith)
            requires n >= 0, d > 0;
        n / d
    } else {
        let m: i64 = -n;
        let q: i64 = m / d;
        let rem: i64 = m % d;
        proof {
            lemma_floor_div_negative(m as int, d as int, q as int, rem as int);
        }
        if rem == 0 {
            -q
        } else {
            -q - 1
        }
    }
}

/// `n / d` rounded toward positive infinity.
pub fn ceil_div(n: i64, d: i64) -> (r: i64)
    requires
        d > 0,
        n > i64::MIN,
    ensures
        r == ceil_div_spec(n as int, d as int),
{
    -floor_div(-n, d)
}

/// `n / d` rounded toward zero.
pub fn trunc_div(n: i64, d: i64) -> (r: i64)
    requires
        d > 0,
        n > i64::MIN,
    ensures
        r == trunc_div_spec(n as int, d as int),
{
    if n >= 0 {
        n / d
    } else {
        -((-n) / d)
    }
}

/// `n` modulo `d`, in `[0, d)`.
pub fn floor_mod(n: i64, d: i64) -> (r: i64)
    requires
        d > 0,
        n > i64::MIN,
    ensures
        r == (n as int) % (d as int),
        0 <= r < d,
{
    if n >= 0 {
        n % d
    } else {
        let m: i64 = -n;
        let q: i64 = m / d;
        let rem: i64 = m % d;
        proof {
            vstd::arithmetic::div_mod::lemma_fundamental_div_mod(m as int, d as int);
        }
        if rem == 0 {
            proof {
                assert(n == (-q) * d + 0) by (nonlinear_arith)
                    requires m == d * q + rem, rem == 0, n == -m;
                vstd::arithmetic::div_mod::lemma_fundamental_div_mod_converse(n as int, d as int, -q, 0);
            }
            0
        } else {
            proof {
                assert(n == (-q - 1) * d + (d - rem)) by (nonlinear_arith)
                    requires m == d * q + rem, n == -m;
                vstd::arithmetic::div_mod::lemma_fundamental_div_mod_converse(
                    n as int,
                    d as int,
                    -q - 1,
                    d - rem,
                );
            }
            d - rem
        }
    }
}

} // verus!
