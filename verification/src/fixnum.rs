//! Small exact-integer kernels: integer square root, a bounded hyperbolic
//! tangent, the logit/logistic pair for vegetarian efficiency, rounding
//! helpers, and the stable hash that turns a lineage id into a colour.
//!
//! All values are fixed point: "milli" means thousandths of a unit.

use vstd::prelude::*;

verus! {

/// Floor of the real square root: the unique `r` with `r * r <= n < (r + 1) * (r + 1)`.
pub fn isqrt_u64(n: u64) -> (r: u64)
    ensures
        r * r <= n,
        n < (r + 1) * (r + 1),
{
    let mut lo: u64 = 0;
    let mut hi: u64 = 4294967296;
    // Invariant: lo * lo <= n < hi * hi, so the answer lies in [lo, hi).
    while lo + 1 < hi
        invariant
            lo < hi,
            hi <= 4294967296,
            lo * lo <= n,
            n < hi * hi,
        decreases hi - lo,
    {
        let mid: u64 = lo + (hi - lo) / 2;
        assert(mid * mid <= u64::MAX) by (nonlinear_arith)
            requires mid < 4294967296;
        if mid * mid <= n {
            lo = mid;
        } else {
            hi = mid;
        }
    }
    lo
}

/// Hyperbolic tangent in thousandths: argument and result are milli-units.
/// A Pade form `x(27 + x^2) / (27 + 9 x^2)` on `[-3, 3]`, saturated at
/// `1` outside; the form equals `1` exactly at `x == 3`.
pub open spec fn tanh_milli_spec(p: int) -> int {
    if p >= 3000 {
        1000
    } else if p <= -3000 {
        -1000
    } else if p >= 0 {
        (p * (27000000 + p * p)) / (27000000 + 9 * (p * p))
    } else {
        -(((-p) * (27000000 + p * p)) / (27000000 + 9 * (p * p)))
    }
}

proof fn lemma_tanh_pos_bound(p: int)
    requires
        0 <= p <= 3000,
    ensures
        0 <= p * (27000000 + p * p) <= 1000 * (27000000 + 9 * (p * p)),
{
    // num <= 1000 * den is equivalent to (p - 3000)^3 <= 0.
    assert(p * (27000000 + p * p) <= 1000 * (27000000 + 9 * (p * p))) by (nonlinear_arith)
        requires 0 <= p <= 3000;
    assert(0 <= p * (27000000 + p * p)) by (nonlinear_arith)
        requires 0 <= p;
}

pub fn tanh_milli(p: i64) -> (r: i64)
    ensures
        r == tanh_milli_spec(p as int),
        -1000 <= r <= 1000,
        p == 0 ==> r == 0,
{
    if p >= 3000 {
        1000
    } else if p <= -3000 {
        -1000
    } else {
        let a: i64 = if p >= 0 { p } else { -p };
        proof {
            assert(a * a == p * p) by (nonlinear_arith)
                requires a == p || a == -p;
            lemma_tanh_pos_bound(a as int);
            assert(a * a <= 9000000) by (nonlinear_arith)
                requires 0 <= a < 3000;
        }
        let sq: i64 = a * a;
        let num: i64 = a * (27000000 + sq);
        proof {
            assert(num <= 3000 * 36000000) by (nonlinear_arith)
                requires 0 <= a < 3000, num == a * (27000000 + a * a), a * a <= 9000000;
        }
        let den: i64 = 27000000 + 9 * sq;
        proof {
            assert(0 <= num / den <= 1000) by (nonlinear_arith)
                requires 0 <= num <= 1000 * den, den > 0;
        }
        let t: i64 = num / den;
        if p >= 0 { t } else { -t }
    }
}

/// The logit map for vegetarian efficiency, in milli-units on both sides:
/// a strictly increasing piecewise-linear fit of `ln(v / (1000 - v))`
/// (itself in thousandths) for `v` in `[1, 999]`, odd around `v == 500`.
pub open spec fn logit_half_spec(d: int) -> int {
    if d <= 100 {
        (d * 405) / 100
    } else if d <= 200 {
        405 + ((d - 100) * 442) / 100
    } else if d <= 300 {
        847 + ((d - 200) * 539) / 100
    } else if d <= 400 {
        1386 + ((d - 300) * 811) / 100
    } else if d <= 450 {
        2197 + ((d - 400) * 747) / 50
    } else if d <= 480 {
        2944 + ((d - 450) * 948) / 30
    } else if d <= 495 {
        3892 + ((d - 480) * 1401) / 15
    } else {
        5293 + ((d - 495) * 1614) / 4
    }
}

pub open spec fn logit_milli_spec(v: int) -> int {
    if v >= 500 {
        logit_half_spec(v - 500)
    } else {
        -logit_half_spec(500 - v)
    }
}

/// Largest magnitude the logit of an efficiency in `[1, 999]` can take.
pub const LOGIT_LIMIT: i64 = 6907;

fn logit_half(d: u32) -> (r: i64)
    requires
        d <= 499,
    ensures
        r == logit_half_spec(d as int),
        0 <= r <= 6907,
{
    let x: i64 = d as i64;
    if d <= 100 {
        (x * 405) / 100
    } else if d <= 200 {
        405 + ((x - 100) * 442) / 100
    } else if d <= 300 {
        847 + ((x - 200) * 539) / 100
    } else if d <= 400 {
        1386 + ((x - 300) * 811) / 100
    } else if d <= 450 {
        2197 + ((x - 400) * 747) / 50
    } else if d <= 480 {
        2944 + ((x - 450) * 948) / 30
    } else if d <= 495 {
        3892 + ((x - 480) * 1401) / 15
    } else {
        5293 + ((x - 495) * 1614) / 4
    }
}

pub fn logit_milli(v: u32) -> (r: i64)
    requires
        1 <= v <= 999,
    ensures
        r == logit_milli_spec(v as int),
        -LOGIT_LIMIT <= r <= LOGIT_LIMIT,
        v == 500 ==> r == 0,
{
    if v >= 500 {
        logit_half(v - 500)
    } else {
        -logit_half(500 - v)
    }
}

/// The logistic map back from logit space to an efficiency in `[1, 999]`
/// milli-units: the piecewise-linear inverse of `logit_half_spec`,
/// saturating where the logit lies beyond `LOGIT_LIMIT`.
pub open spec fn logistic_half_spec(l: int) -> int {
    if l <= 405 {
        (l * 100) / 405
    } else if l <= 847 {
        100 + ((l - 405) * 100) / 442
    } else if l <= 1386 {
        200 + ((l - 847) * 100) / 539
    } else if l <= 2197 {
        300 + ((l - 1386) * 100) / 811
    } else if l <= 2944 {
        400 + ((l - 2197) * 50) / 747
    } else if l <= 3892 {
        450 + ((l - 2944) * 30) / 948
    } else if l <= 5293 {
        480 + ((l - 3892) * 15) / 1401
    } else if l < 6907 {
        495 + ((l - 5293) * 4) / 1614
    } else {
        499
    }
}

pub open spec fn logistic_milli_spec(l: int) -> int {
    if l >= 0 {
        500 + logistic_half_spec(l)
    } else {
        500 - logistic_half_spec(-l)
    }
}

fn logistic_half(l: i64) -> (r: u32)
    requires
        0 <= l,
    ensures
        r == logistic_half_spec(l as int),
        r <= 499,
{
    if l <= 405 {
        ((l * 100) / 405) as u32
    } else if l <= 847 {
        (100 + ((l - 405) * 100) / 442) as u32
    } else if l <= 1386 {
        (200 + ((l - 847) * 100) / 539) as u32
    } else if l <= 2197 {
        (300 + ((l - 1386) * 100) / 811) as u32
    } else if l <= 2944 {
        (400 + ((l - 2197) * 50) / 747) as u32
    } else if l <= 3892 {
        (450 + ((l - 2944) * 30) / 948) as u32
    } else if l <= 5293 {
        (480 + ((l - 3892) * 15) / 1401) as u32
    } else if l < 6907 {
        (495 + ((l - 5293) * 4) / 1614) as u32
    } else {
        499
    }
}

pub fn logistic_milli(l: i64) -> (r: u32)
    ensures
        r == logistic_milli_spec(l as int),
        1 <= r <= 999,
        l == 0 ==> r == 500,
{
    if l >= 0 {
        500 + logistic_half(l)
    } else if l <= -6907 {
        1
    } else {
        500 - logistic_half(-l)
    }
}

/// Nearest-integer division by a thousand, halves rounded away from zero:
/// how a real-valued product in micro-units is read back in milli-units.
pub open spec fn round_milli_spec(p: int) -> int {
    if p >= 0 {
        (p + 500) / 1000
    } else {
        -((-p + 500) / 1000)
    }
}

pub fn round_milli(p: i64) -> (r: i64)
    requires
        -1000000000000000000 <= p <= 1000000000000000000,
    ensures
        r == round_milli_spec(p as int),
{
    if p >= 0 {
        (p + 500) / 1000
    } else {
        -((-p + 500) / 1000)
    }
}

/// A stable mix of a lineage id into a colour in `[0, 1000]` milli-units.
/// Any deterministic hash serves here; this one mixes the two 32-bit halves
/// with odd multipliers and folds the result onto the colour range.
pub open spec fn color_of_fam_spec(fam: u64) -> int {
    ((((fam % 4294967296) * 668265263 + (fam / 4294967296) * 374761393) as u64
        ^ ((((fam % 4294967296) * 668265263 + (fam / 4294967296) * 374761393) as u64) >> 31))
        % 1001) as int
}

pub fn color_of_fam(fam: u64) -> (c: u32)
    ensures
        c == color_of_fam_spec(fam),
        c <= 1000,
{
    let lo: u64 = fam % 4294967296;
    let hi: u64 = fam / 4294967296;
    let h: u64 = lo * 668265263 + hi * 374761393;
    let m: u64 = h ^ (h >> 31);
    (m % 1001) as u32
}

} // verus!
