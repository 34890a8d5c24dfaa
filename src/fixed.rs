use vstd::arithmetic::div_mod::{
    lemma_fundamental_div_mod, lemma_fundamental_div_mod_converse,
};
use vstd::prelude::*;

verus! {

/// Luminance is carried in thousandths: full white is `LUMA_MAX`.
pub const LUMA_MAX: u32 = 255000;

/// Clamps a luminance (in thousandths) into `[0, LUMA_MAX]`.
pub open spec fn clamp_luma(v: int) -> int {
    if v < 0 {
        0
    } else if v > LUMA_MAX {
        LUMA_MAX as int
    } else {
        v
    }
}

/// `n / d` rounded to the nearest integer, halves rounded up.
pub open spec fn round_div(n: int, d: int) -> int {
    if d > 0 {
        (2 * n + d) / (2 * d)
    } else {
        (-2 * n - d) / (-2 * d)
    }
}

pub fn clamp_luma_exec(v: i128) -> (r: u32)
    ensures
        r == clamp_luma(v as int),
{
    if v < 0 {
        0
    } else if v > LUMA_MAX as i128 {
        LUMA_MAX
    } else {
        v as u32
    }
}

proof fn lemma_floor_div_neg(a: int, d: int)
    requires
        a > 0,
        d > 0,
    ensures
        (-a) / d == -((a + d - 1) / d),
        1 <= (a + d - 1) / d <= a,
{
    let m = (a + d - 1) / d;
    let r = (a + d - 1) % d;
    lemma_fundamental_div_mod(a + d - 1, d);
    assert(0 <= r < d) by {
        vstd::arithmetic::div_mod::lemma_mod_bound(a + d - 1, d);
    }
    assert(-a == (-m) * d + (d - 1 - r)) by (nonlinear_arith)
        requires
            a + d - 1 == d * m + r,
    ;
    lemma_fundamental_div_mod_converse(-a, d, -m, d - 1 - r);
    assert(1 <= m <= a) by (nonlinear_arith)
        requires
            a + d - 1 == d * m + r,
            0 <= r < d,
            d >= 1,
            a >= 1,
    ;
}

/// A non-negative quotient stays below `k` when the dividend is below `k * d`.
pub proof fn lemma_div_below(n: int, d: int, k: int)
    requires
        0 <= n < k * d,
        d > 0,
    ensures
        0 <= n / d < k,
{
    lemma_fundamental_div_mod(n, d);
    vstd::arithmetic::div_mod::lemma_mod_bound(n, d);
    let q = n / d;
    assert(0 <= q < k) by (nonlinear_arith)
        requires
            n == d * q + n % d,
            0 <= n % d < d,
            0 <= n < k * d,
    ;
}

/// Floor division by a positive divisor.
pub fn floor_div(n: i128, d: i128) -> (r: i128)
    requires
        d > 0,
        -0x1_0000_0000_0000_0000_0000 <= n <= 0x1_0000_0000_0000_0000_0000,
        d <= 0x1_0000_0000_0000_0000_0000,
    ensures
        r == n / d,
        n >= 0 ==> 0 <= r <= n,
        n < 0 ==> n <= r < 0,
{
    if n >= 0 {
        let q = (n as u128) / (d as u128);
        proof {
            let qq = (n as int) / (d as int);
            let rr = (n as int) % (d as int);
            lemma_fundamental_div_mod(n as int, d as int);
            vstd::arithmetic::div_mod::lemma_mod_bound(n as int, d as int);
            assert(0 <= qq <= n) by (nonlinear_arith)
                requires
                    n == d * qq + rr,
                    0 <= rr < d,
                    d >= 1,
                    n >= 0,
            ;
        }
        q as i128
    } else {
        let a = (-n) as u128;
        let m = (a + (d as u128) - 1) / (d as u128);
        proof {
            lemma_floor_div_neg(a as int, d as int);
            vstd::arithmetic::div_mod::lemma_div_is_ordered_by_denominator(
                a + d - 1,
                1,
                d as int,
            );
        }
        -(m as i128)
    }
}

/// `n / d` rounded to the nearest integer, for a positive divisor.
pub fn round_div_exec(n: i128, d: i128) -> (r: i128)
    requires
        d > 0,
        -0x1_0000_0000_0000_0000 <= n <= 0x1_0000_0000_0000_0000,
        d <= 0x1_0000_0000_0000_0000,
    ensures
        r == round_div(n as int, d as int),
        -0x4_0000_0000_0000_0000 <= r <= 0x4_0000_0000_0000_0000,
{
    floor_div(2 * n + d, 2 * d)
}

} // verus!
