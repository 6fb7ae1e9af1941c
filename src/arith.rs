use vstd::arithmetic::div_mod::lemma_fundamental_div_mod;
use vstd::prelude::*;

verus! {

/// The smallest `q` with `q * d >= x`, for `x >= 0` and `d > 0`.
pub open spec fn ceil_div(x: int, d: int) -> int {
    (x + d - 1) / d
}

/// `ceil_div(x, d)` is `b` exactly when `x` lies in `((b - 1) * d, b * d]`.
pub proof fn lemma_ceil_div_exact(x: int, d: int, b: int)
    requires
        d > 0,
        b >= 1,
        (b - 1) * d < x,
        x <= b * d,
    ensures
        ceil_div(x, d) == b,
{
    let y = x + d - 1;
    lemma_fundamental_div_mod(y, d);
    let q = y / d;
    let r = y % d;
    assert(0 <= r < d);
    assert(y == d * q + r);
    assert(q == b) by (nonlinear_arith)
        requires
            y == d * q + r,
            0 <= r < d,
            (b - 1) * d < x,
            x <= b * d,
            y == x + d - 1,
            d > 0,
    ;
}

/// Past a multiple of `d`, the ceiling quotient is past the multiplier.
pub proof fn lemma_ceil_div_above(x: int, d: int, q: int)
    requires
        d > 0,
        q >= 0,
        q * d < x,
    ensures
        q < ceil_div(x, d),
{
    let y = x + d - 1;
    lemma_fundamental_div_mod(y, d);
    let p = y / d;
    let r = y % d;
    assert(p > q) by (nonlinear_arith)
        requires
            y == d * p + r,
            0 <= r < d,
            q * d < x,
            y == x + d - 1,
            d > 0,
    ;
}

/// At or below a multiple of `d`, the ceiling quotient is at most the multiplier.
pub proof fn lemma_ceil_div_below(x: int, d: int, q: int)
    requires
        d > 0,
        q >= 0,
        x <= q * d,
    ensures
        ceil_div(x, d) <= q,
{
    let y = x + d - 1;
    lemma_fundamental_div_mod(y, d);
    let p = y / d;
    let r = y % d;
    assert(p <= q) by (nonlinear_arith)
        requires
            y == d * p + r,
            0 <= r < d,
            x <= q * d,
            y == x + d - 1,
            d > 0,
    ;
}

/// `ceil_div(x, d)` multiples of `d` reach `x`.
pub proof fn lemma_ceil_div_covers(x: int, d: int)
    requires
        d > 0,
    ensures
        ceil_div(x, d) * d >= x,
{
    let y = x + d - 1;
    lemma_fundamental_div_mod(y, d);
    let p = y / d;
    let r = y % d;
    assert(p * d >= x) by (nonlinear_arith)
        requires
            y == d * p + r,
            0 <= r < d,
            y == x + d - 1,
    ;
}

/// A ceiling quotient of a non-negative number is non-negative, and zero only for zero.
pub proof fn lemma_ceil_div_nonneg(x: int, d: int)
    requires
        d > 0,
        x >= 0,
    ensures
        ceil_div(x, d) >= 0,
        x == 0 ==> ceil_div(x, d) == 0,
        x > 0 ==> ceil_div(x, d) >= 1,
{
    if x > 0 {
        lemma_ceil_div_above(x, d, 0);
    } else {
        lemma_ceil_div_exact_zero(d);
    }
}

proof fn lemma_ceil_div_exact_zero(d: int)
    requires
        d > 0,
    ensures
        (d - 1) / d == 0,
{
    lemma_fundamental_div_mod(d - 1, d);
    let q = (d - 1) / d;
    let r = (d - 1) % d;
    assert(q == 0) by (nonlinear_arith)
        requires
            d - 1 == d * q + r,
            0 <= r < d,
    ;
}

} // verus!
