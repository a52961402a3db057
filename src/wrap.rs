//! Two's-complement wrap-around of integers into the range of `i64`.
//!
//! Integer literals are not checked for overflow: the scanner accumulates
//! digits with wrapping arithmetic, so a literal out of range stands for the
//! value it wraps to.
use vstd::arithmetic::div_mod::{lemma_fundamental_div_mod, lemma_fundamental_div_mod_converse};
use vstd::prelude::*;

verus! {

pub open spec fn two_pow_64() -> int {
    0x1_0000_0000_0000_0000
}

/// The `i64` that `x` wraps to.
pub open spec fn wrap_i64(x: int) -> int {
    let m = x % two_pow_64();
    if m > i64::MAX {
        m - two_pow_64()
    } else {
        m
    }
}

/// Wrapping ignores whole multiples of 2^64.
pub proof fn lemma_wrap_shift(x: int, k: int)
    ensures
        wrap_i64(x + k * two_pow_64()) == wrap_i64(x),
{
    let r = two_pow_64();
    lemma_fundamental_div_mod(x, r);
    let q = x / r;
    let m = x % r;
    assert(x + k * r == (q + k) * r + m) by (nonlinear_arith)
        requires
            x == r * q + m,
    ;
    lemma_fundamental_div_mod_converse(x + k * r, r, q + k, m);
}

/// A value in the range of `i64` wraps to itself.
pub proof fn lemma_wrap_small(x: int)
    requires
        i64::MIN <= x <= i64::MAX,
    ensures
        wrap_i64(x) == x,
{
    let r = two_pow_64();
    if x >= 0 {
        lemma_fundamental_div_mod_converse(x, r, 0, x);
    } else {
        lemma_fundamental_div_mod_converse(x, r, -1, x + r);
    }
}

/// What wrapping moves `x` by is a whole multiple of 2^64.
pub proof fn lemma_wrap_offset(x: int) -> (k: int)
    ensures
        wrap_i64(x) == x + k * two_pow_64(),
        i64::MIN <= wrap_i64(x) <= i64::MAX,
{
    let r = two_pow_64();
    lemma_fundamental_div_mod(x, r);
    let q = x / r;
    if x % r > i64::MAX {
        -q - 1
    } else {
        -q
    }
}

/// One step of decimal accumulation commutes with wrapping.
pub proof fn lemma_wrap_digit_step(v: int, d: int)
    ensures
        wrap_i64(10 * wrap_i64(v) + d) == wrap_i64(10 * v + d),
{
    let k = lemma_wrap_offset(v);
    assert(10 * wrap_i64(v) + d == (10 * v + d) + (10 * k) * two_pow_64());
    lemma_wrap_shift(10 * v + d, 10 * k);
}

/// Negation commutes with wrapping.
pub proof fn lemma_wrap_neg(v: int)
    ensures
        wrap_i64(-wrap_i64(v)) == wrap_i64(-v),
{
    let k = lemma_wrap_offset(v);
    assert(-wrap_i64(v) == -v + (-k) * two_pow_64());
    lemma_wrap_shift(-v, -k);
}

/// `a * 10 + d` in wrapping `i64` arithmetic.
pub proof fn lemma_wrapping_mul_add(a: i64, d: i64)
    requires
        0 <= d <= 9,
    ensures
        a.wrapping_mul(10).wrapping_add(d) as int == wrap_i64(10 * a + d),
{
    let p = a.wrapping_mul(10);
    let ka = lemma_wrap_offset(10 * a);
    assert(p as int == wrap_i64(10 * a));
    let s = p.wrapping_add(d);
    if p + d > i64::MAX {
        assert(s == p + d - two_pow_64());
        lemma_wrap_shift(p + d, -1);
        lemma_wrap_small(s as int);
    } else {
        lemma_wrap_small(p + d);
    }
    assert(10 * a + d + ka * two_pow_64() == p + d);
    lemma_wrap_shift(10 * a + d, ka);
}

/// `0 - a` in wrapping `i64` arithmetic.
pub proof fn lemma_wrapping_neg(a: i64)
    ensures
        0i64.wrapping_sub(a) as int == wrap_i64(-a),
{
    if a == i64::MIN {
        lemma_wrap_shift(-a, -1);
        lemma_wrap_small(a as int);
    } else {
        lemma_wrap_small(-a);
    }
}

} // verus!
