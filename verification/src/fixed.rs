//! Fixed-point scalar arithmetic.
//!
//! Every scalar the spring subsystem handles — coordinates, velocities,
//! stiffness, damping, rest length, step duration, impulses — is an `i64`
//! counting steps of `1 / SCALE` of a unit. Products and quotients are
//! scaled back down with truncation toward zero, so the arithmetic is
//! exact whenever the mathematical result lands on the grid.

use vstd::prelude::*;

verus! {

/// Fixed-point steps per whole unit.
pub const SCALE: i64 = 1000;

/// Largest magnitude accepted for positions, velocities, spring parameters
/// and the step duration, in fixed-point steps (one thousand whole units).
pub const MAX_MAG: i64 = 1_000_000;

/// Bound on one spring's impulse per component per tick; follows from
/// `MAX_MAG` through the force pipeline.
pub const MAX_IMPULSE: i64 = 20_000_000_000_000;

/// Most springs a single tick will evaluate.
pub const MAX_SPRINGS: usize = 100_000;

/// An impulse accumulator no larger than this in magnitude cannot overflow
/// within one tick: `ACC_START + 2 * MAX_SPRINGS * MAX_IMPULSE <= i64::MAX`.
pub const ACC_START: i64 = 4_000_000_000_000_000_000;

/// Removal of the scale factor, truncating toward zero.
pub open spec fn scale_down_s(p: int) -> int {
    if p >= 0 {
        p / (SCALE as int)
    } else {
        -((-p) / (SCALE as int))
    }
}

/// Fixed-point product: the mathematical product, scaled back down.
pub open spec fn fx_mul_s(a: int, b: int) -> int {
    scale_down_s(a * b)
}

/// Fixed-point quotient `d / l` for positive `l`, truncating toward zero.
pub open spec fn fx_div_s(d: int, l: int) -> int {
    if d >= 0 {
        (d * (SCALE as int)) / l
    } else {
        -(((-d) * (SCALE as int)) / l)
    }
}

/// `r` is the integer square root (floor) of `n`.
pub open spec fn is_sqrt_floor(n: int, r: int) -> bool {
    0 <= r && r * r <= n && n < (r + 1) * (r + 1)
}

/// The integer square root (floor) of `n`; well defined for `n >= 0` by
/// `lemma_sqrt_floor_unique`.
pub open spec fn sqrt_floor(n: int) -> int {
    choose|r: int| is_sqrt_floor(n, r)
}

/// Two integer square roots of the same number coincide, so `sqrt_floor`
/// names the witness uniquely.
pub proof fn lemma_sqrt_floor_unique(n: int, r: int)
    requires
        is_sqrt_floor(n, r),
    ensures
        sqrt_floor(n) == r,
{
    let s = choose|s: int| is_sqrt_floor(n, s);
    assert(is_sqrt_floor(n, s));
    if s < r {
        assert((s + 1) * (s + 1) <= r * r) by (nonlinear_arith)
            requires
                0 <= s,
                s + 1 <= r,
        ;
    }
    if r < s {
        assert((r + 1) * (r + 1) <= s * s) by (nonlinear_arith)
            requires
                0 <= r,
                r + 1 <= s,
        ;
    }
}

/// Scaling down never grows a magnitude bound.
pub proof fn lemma_scale_down_mag(p: int, m: int)
    requires
        -m <= p <= m,
        0 <= m,
    ensures
        -(m / (SCALE as int)) <= scale_down_s(p) <= m / (SCALE as int),
        -m <= scale_down_s(p) <= m,
{
    if p >= 0 {
        vstd::arithmetic::div_mod::lemma_div_pos_is_pos(p, SCALE as int);
        vstd::arithmetic::div_mod::lemma_div_is_ordered(p, m, SCALE as int);
        vstd::arithmetic::div_mod::lemma_div_is_ordered_by_denominator(p, 1, SCALE as int);
        assert(p / 1int == p) by (nonlinear_arith);
    } else {
        vstd::arithmetic::div_mod::lemma_div_pos_is_pos(-p, SCALE as int);
        vstd::arithmetic::div_mod::lemma_div_is_ordered(-p, m, SCALE as int);
        vstd::arithmetic::div_mod::lemma_div_is_ordered_by_denominator(-p, 1, SCALE as int);
        assert((-p) / 1int == -p) by (nonlinear_arith);
    }
    vstd::arithmetic::div_mod::lemma_div_pos_is_pos(m, SCALE as int);
    vstd::arithmetic::div_mod::lemma_div_is_ordered_by_denominator(m, 1, SCALE as int);
    assert(m / 1int == m) by (nonlinear_arith);
}

/// The scaled product of nonnegative factors is nonnegative, and zero
/// factors give exactly zero.
pub proof fn lemma_fx_mul_sign(a: int, b: int)
    ensures
        a >= 0 && b >= 0 ==> fx_mul_s(a, b) >= 0,
        a <= 0 && b >= 0 ==> fx_mul_s(a, b) <= 0,
        a >= 0 && b <= 0 ==> fx_mul_s(a, b) <= 0,
        a == 0 || b == 0 ==> fx_mul_s(a, b) == 0,
{
    assert(a >= 0 && b >= 0 ==> a * b >= 0) by (nonlinear_arith);
    assert(a <= 0 && b >= 0 ==> a * b <= 0) by (nonlinear_arith);
    assert(a >= 0 && b <= 0 ==> a * b <= 0) by (nonlinear_arith);
    assert(a == 0 || b == 0 ==> a * b == 0) by (nonlinear_arith);
    if a * b >= 0 {
        vstd::arithmetic::div_mod::lemma_div_pos_is_pos(a * b, SCALE as int);
    } else {
        vstd::arithmetic::div_mod::lemma_div_pos_is_pos(-(a * b), SCALE as int);
    }
}

/// Magnitude bound for a scaled product of bounded factors.
pub proof fn lemma_fx_mul_mag(a: int, b: int, ma: int, mb: int)
    requires
        -ma <= a <= ma,
        -mb <= b <= mb,
        0 <= ma,
        0 <= mb,
    ensures
        -(ma * mb) <= a * b <= ma * mb,
        -(ma * mb) <= fx_mul_s(a, b) <= ma * mb,
        -((ma * mb) / (SCALE as int)) <= fx_mul_s(a, b) <= (ma * mb) / (SCALE as int),
{
    assert(-(ma * mb) <= a * b <= ma * mb) by (nonlinear_arith)
        requires
            -ma <= a <= ma,
            -mb <= b <= mb,
            0 <= ma,
            0 <= mb,
    ;
    assert(ma * mb >= 0) by (nonlinear_arith)
        requires
            0 <= ma,
            0 <= mb,
    ;
    lemma_scale_down_mag(a * b, ma * mb);
}

/// Exec removal of the scale factor; exact per `scale_down_s`.
pub fn scale_down(p: i64) -> (r: i64)
    requires
        -i64::MAX <= p,
    ensures
        r == scale_down_s(p as int),
{
    if p >= 0 {
        p / SCALE
    } else {
        let q: i64 = (-p) / SCALE;
        proof {
            vstd::arithmetic::div_mod::lemma_div_pos_is_pos(-(p as int), SCALE as int);
        }
        -q
    }
}

/// Exec fixed-point product; exact per `fx_mul_s`.
pub fn fx_mul(a: i64, b: i64) -> (r: i64)
    requires
        -i64::MAX <= a * b <= i64::MAX,
    ensures
        r == fx_mul_s(a as int, b as int),
{
    let p: i64 = a * b;
    scale_down(p)
}

/// Exec fixed-point quotient for `|d| <= l`; exact per `fx_div_s`, and the
/// result is a fraction of at most one whole unit.
pub fn fx_div(d: i64, l: i64) -> (r: i64)
    requires
        0 < l,
        -l <= d <= l,
        l * SCALE <= i64::MAX,
    ensures
        r == fx_div_s(d as int, l as int),
        -SCALE <= r <= SCALE,
{
    proof {
        assert(-(l * (SCALE as int)) <= d * (SCALE as int) <= l * (SCALE as int))
            by (nonlinear_arith)
            requires
                -l <= d <= l,
                0 < l,
        ;
        assert((l * (SCALE as int)) / (l as int) == SCALE as int) by (nonlinear_arith)
            requires
                0 < l,
        ;
    }
    if d >= 0 {
        let m: i64 = d * SCALE;
        let q: i64 = m / l;
        proof {
            vstd::arithmetic::div_mod::lemma_div_pos_is_pos(m as int, l as int);
            vstd::arithmetic::div_mod::lemma_div_is_ordered(
                m as int,
                l * (SCALE as int),
                l as int,
            );
        }
        q
    } else {
        let m: i64 = (-d) * SCALE;
        let q: i64 = m / l;
        proof {
            vstd::arithmetic::div_mod::lemma_div_pos_is_pos(m as int, l as int);
            vstd::arithmetic::div_mod::lemma_div_is_ordered(
                m as int,
                l * (SCALE as int),
                l as int,
            );
        }
        -q
    }
}

/// Exec integer square root for the range the spring geometry can reach.
pub fn isqrt(n: i64) -> (r: i64)
    requires
        0 <= n <= 80_000_000_000_000,
    ensures
        is_sqrt_floor(n as int, r as int),
        r == sqrt_floor(n as int),
        0 <= r <= 9_000_000,
{
    let mut lo: i64 = 0;
    let mut hi: i64 = 9_000_000;
    proof {
        assert(9_000_000int * 9_000_000int > n) by (nonlinear_arith)
            requires
                n <= 80_000_000_000_000,
        ;
    }
    while lo + 1 < hi
        invariant
            0 <= lo < hi <= 9_000_000,
            lo * lo <= n,
            n < hi * hi,
            0 <= n,
        decreases hi - lo,
    {
        let mid: i64 = lo + (hi - lo) / 2;
        proof {
            assert(lo < mid < hi);
            assert(mid * mid <= 9_000_000int * 9_000_000int) by (nonlinear_arith)
                requires
                    0 <= mid <= 9_000_000,
            ;
        }
        if mid * mid <= n {
            lo = mid;
        } else {
            hi = mid;
        }
    }
    proof {
        assert(hi == lo + 1);
        lemma_sqrt_floor_unique(n as int, lo as int);
    }
    lo
}

} // verus!
