//! Fixed-point transcendental helpers: sine and cosine (for the rotation
//! transform and procedural textures), arctangent and arccosine (for sphere
//! surface coordinates), and a logarithm (for free-flight sampling).
//!
//! Each function is a rational approximation with an exact spec mirror; at
//! the quadrant boundaries sine and cosine return the exact values, so a
//! whole-turn rotation is exactly the identity.

use vstd::prelude::*;

verus! {

use crate::fixed::{
    fx_wf, fxadd, fxsub, fxmul, fxdiv, fxmod, fxabs, fxsqrt, fx_add, fx_sub, fx_mul, fx_div,
    fx_mod, fx_abs, fx_sqrt, lemma_fxmul_bounded, lemma_fxmul_nonneg, lemma_fxmul_nonpos,
    lemma_fxdiv_ratio, lemma_fxmul_square_nonneg, FX_ONE, };

/// Pi in the fixed-point scale.
pub const PI_FX: i64 = 205887;

/// Half pi in the fixed-point scale.
pub const HALF_PI_FX: i64 = 102943;

/// A full turn in the fixed-point scale.
pub const TWO_PI_FX: i64 = 2 * PI_FX;

/// A full turn in fixed-point degrees.
pub const DEG_FULL_FX: i64 = 360 * FX_ONE;

/// A quarter turn in fixed-point degrees.
pub const DEG_QUARTER_FX: i64 = 90 * FX_ONE;

/// Radians per degree in the fixed-point scale.
pub const RAD_PER_DEG_FX: i64 = 1143;

/// Natural log of two in the fixed-point scale.
pub const LN2_FX: i64 = 45426;

/// The rational sine approximation on `[0, pi]`: `16t(pi-t) / (5pi^2 - 4t(pi-t))`.
/// Exactly zero at both endpoints.
pub open spec fn spec_sin_half(t: int) -> int {
    let p = fxmul(t, fxsub(PI_FX as int, t));
    let num = 16 * p;
    let den = 5 * fxmul(PI_FX as int, PI_FX as int) - 4 * p;
    if den <= 0 {
        0
    } else {
        fxdiv(num, den)
    }
}

/// Sine of an angle in fixed-point radians.
pub open spec fn spec_sin(x: int) -> int {
    let m = fxmod(x, TWO_PI_FX as int);
    if m <= PI_FX as int {
        spec_sin_half(m)
    } else {
        -spec_sin_half(m - PI_FX as int)
    }
}

/// Cosine of an angle in fixed-point radians.
pub open spec fn spec_cos(x: int) -> int {
    spec_sin(fxadd(x, HALF_PI_FX as int))
}

/// Sine of an angle given in fixed-point degrees; exact at quadrant turns.
pub open spec fn spec_sin_deg(a: int) -> int {
    let m = fxmod(a, DEG_FULL_FX as int);
    if m == 0 {
        0
    } else if m == DEG_QUARTER_FX as int {
        FX_ONE as int
    } else if m == 2 * DEG_QUARTER_FX as int {
        0
    } else if m == 3 * DEG_QUARTER_FX as int {
        -FX_ONE as int
    } else {
        spec_sin(fxmul(m, RAD_PER_DEG_FX as int))
    }
}

/// Cosine of an angle given in fixed-point degrees; exact at quadrant turns.
pub open spec fn spec_cos_deg(a: int) -> int {
    let m = fxmod(a, DEG_FULL_FX as int);
    if m == 0 {
        FX_ONE as int
    } else if m == DEG_QUARTER_FX as int {
        0
    } else if m == 2 * DEG_QUARTER_FX as int {
        -FX_ONE as int
    } else if m == 3 * DEG_QUARTER_FX as int {
        0
    } else {
        spec_cos(fxmul(m, RAD_PER_DEG_FX as int))
    }
}

/// Arctangent on `[0, 1]`: `z * (pi/4 + 0.273 * (1 - z))`.
pub open spec fn spec_atan_unit(z: int) -> int {
    fxmul(z, fxadd(51471, fxmul(17891, fxsub(FX_ONE as int, z))))
}

/// Four-quadrant arctangent of `y / x`.
pub open spec fn spec_atan2(y: int, x: int) -> int {
    if x == 0 && y == 0 {
        0
    } else {
        let ax = fxabs(x);
        let ay = fxabs(y);
        let base = if ay <= ax {
            spec_atan_unit(fxdiv(ay, ax))
        } else {
            HALF_PI_FX as int - spec_atan_unit(fxdiv(ax, ay))
        };
        if x >= 0 && y >= 0 {
            base
        } else if x < 0 && y >= 0 {
            PI_FX as int - base
        } else if x < 0 {
            base - PI_FX as int
        } else {
            -base
        }
    }
}

/// Arccosine via `acos(y) = atan2(sqrt(1 - y^2), y)`.
pub open spec fn spec_acos(y: int) -> int {
    spec_atan2(fxsqrt(fxabs(fxsub(FX_ONE as int, fxmul(y, y)))), y)
}

/// The series part of the logarithm, for `u` in `[1/2, 1)`:
/// `ln(u) = 2z(1 + z^2/3 + z^4/5)` with `z = (u - 1)/(u + 1)`.
pub open spec fn spec_ln_series(u: int) -> int {
    let z = fxdiv(u - FX_ONE as int, u + FX_ONE as int);
    let z2 = fxmul(z, z);
    let z4 = fxmul(z2, z2);
    let term = fxadd(
        FX_ONE as int,
        fxadd(fxdiv(z2, 3 * FX_ONE as int), fxdiv(z4, 5 * FX_ONE as int)),
    );
    fxmul(2 * z, term)
}

/// Natural log of `u / FX_ONE` for `0 < u < FX_ONE`: normalize into
/// `[1/2, 1)` by doubling, then evaluate the series.
pub open spec fn spec_ln_unit(u: int) -> int
    recommends
        1 <= u < FX_ONE as int,
    decreases FX_ONE - u,
{
    if u < 1 {
        0
    } else if u < 32768 {
        spec_ln_unit(2 * u) - LN2_FX as int
    } else {
        spec_ln_series(u)
    }
}

/// The rational sine approximation, executable side.
fn sin_half(t: i64) -> (r: i64)
    requires
        0 <= t <= PI_FX,
    ensures
        r == spec_sin_half(t as int),
        fx_wf(r),
{
    let q = fx_sub(PI_FX, t);
    proof {
        lemma_fxmul_bounded(t as int, q as int, PI_FX as int, PI_FX as int, 650000);
    }
    let p = fx_mul(t, q);
    proof {
        lemma_fxmul_bounded(PI_FX as int, PI_FX as int, PI_FX as int, PI_FX as int, 650000);
        lemma_fxmul_nonneg(t as int, q as int);
    }
    let pi2 = fx_mul(PI_FX, PI_FX);
    let num = 16 * p;
    let den = 5 * pi2 - 4 * p;
    if den <= 0 {
        0
    } else {
        fx_div(num, den)
    }
}

/// Sine of fixed-point radians.
pub fn fx_sin(x: i64) -> (r: i64)
    requires
        fx_wf(x),
    ensures
        r == spec_sin(x as int),
        fx_wf(r),
{
    let m = fx_mod(x, TWO_PI_FX);
    if m <= PI_FX {
        sin_half(m)
    } else {
        -sin_half(m - PI_FX)
    }
}

/// Cosine of fixed-point radians.
pub fn fx_cos(x: i64) -> (r: i64)
    requires
        fx_wf(x),
    ensures
        r == spec_cos(x as int),
        fx_wf(r),
{
    fx_sin(fx_add(x, HALF_PI_FX))
}

/// Sine of fixed-point degrees, exact at quadrant turns.
pub fn fx_sin_deg(a: i64) -> (r: i64)
    requires
        fx_wf(a),
    ensures
        r == spec_sin_deg(a as int),
        fx_wf(r),
{
    let m = fx_mod(a, DEG_FULL_FX);
    if m == 0 {
        0
    } else if m == DEG_QUARTER_FX {
        FX_ONE
    } else if m == 2 * DEG_QUARTER_FX {
        0
    } else if m == 3 * DEG_QUARTER_FX {
        -FX_ONE
    } else {
        proof {
            lemma_fxmul_bounded(
                m as int,
                RAD_PER_DEG_FX as int,
                DEG_FULL_FX as int,
                RAD_PER_DEG_FX as int,
                420000,
            );
        }
        fx_sin(fx_mul(m, RAD_PER_DEG_FX))
    }
}

/// Cosine of fixed-point degrees, exact at quadrant turns.
pub fn fx_cos_deg(a: i64) -> (r: i64)
    requires
        fx_wf(a),
    ensures
        r == spec_cos_deg(a as int),
        fx_wf(r),
{
    let m = fx_mod(a, DEG_FULL_FX);
    if m == 0 {
        FX_ONE
    } else if m == DEG_QUARTER_FX {
        0
    } else if m == 2 * DEG_QUARTER_FX {
        -FX_ONE
    } else if m == 3 * DEG_QUARTER_FX {
        0
    } else {
        proof {
            lemma_fxmul_bounded(
                m as int,
                RAD_PER_DEG_FX as int,
                DEG_FULL_FX as int,
                RAD_PER_DEG_FX as int,
                420000,
            );
        }
        fx_cos(fx_mul(m, RAD_PER_DEG_FX))
    }
}

/// Arctangent on the unit interval, executable side.
fn atan_unit(z: i64) -> (r: i64)
    requires
        0 <= z <= FX_ONE,
    ensures
        r == spec_atan_unit(z as int),
        0 <= r <= 69362,
{
    let w = fx_sub(FX_ONE, z);
    proof {
        lemma_fxmul_bounded(17891 as int, w as int, 17891, FX_ONE as int, 17891);
        assert((17891 as int) * (w as int) >= 0) by (nonlinear_arith)
            requires
                w as int >= 0,
        ;
        lemma_fxmul_nonneg(17891 as int, w as int);
    }
    let inner = fx_add(51471, fx_mul(17891, w));
    proof {
        lemma_fxmul_bounded(z as int, inner as int, FX_ONE as int, 69362, 69362);
        assert((z as int) * (inner as int) >= 0) by (nonlinear_arith)
            requires
                z as int >= 0,
                inner as int >= 0,
        ;
        lemma_fxmul_nonneg(z as int, inner as int);
    }
    let res = fx_mul(z, inner);
    res
}

/// Four-quadrant arctangent.
pub fn fx_atan2(y: i64, x: i64) -> (r: i64)
    requires
        fx_wf(y),
        fx_wf(x),
    ensures
        r == spec_atan2(y as int, x as int),
        fx_wf(r),
{
    if x == 0 && y == 0 {
        return 0;
    }
    let ax = fx_abs(x);
    let ay = fx_abs(y);
    let base = if ay <= ax {
        proof {
            lemma_fxdiv_ratio(ay as int, ax as int);
        }
        atan_unit(fx_div(ay, ax))
    } else {
        proof {
            lemma_fxdiv_ratio(ax as int, ay as int);
        }
        fx_sub(HALF_PI_FX, atan_unit(fx_div(ax, ay)))
    };
    if x >= 0 && y >= 0 {
        base
    } else if x < 0 && y >= 0 {
        fx_sub(PI_FX, base)
    } else if x < 0 {
        fx_sub(base, PI_FX)
    } else {
        -base
    }
}

/// Arccosine.
pub fn fx_acos(y: i64) -> (r: i64)
    requires
        fx_wf(y),
    ensures
        r == spec_acos(y as int),
        fx_wf(r),
{
    proof {
        lemma_fxmul_square_nonneg(y as int);
    }
    let y2 = fx_mul(y, y);
    let s = fx_sqrt(fx_abs(fx_sub(FX_ONE, y2)));
    fx_atan2(s, y)
}

/// Natural log of a unit-interval draw; always nonpositive.
pub fn fx_ln_unit(u: i64) -> (r: i64)
    requires
        1 <= u < FX_ONE,
    ensures
        r == spec_ln_unit(u as int),
        r <= 0,
        fx_wf(r),
{
    let mut v = u;
    let mut k: i64 = 0;
    proof {
        vstd::arithmetic::power2::lemma2_to64();
    }
    while v < 32768
        invariant
            1 <= v < FX_ONE,
            0 <= k <= 16,
            (v as int) >= vstd::arithmetic::power2::pow2(k as nat),
            spec_ln_unit(u as int) == spec_ln_unit(v as int) - k * LN2_FX as int,
        decreases FX_ONE - v,
    {
        proof {
            vstd::arithmetic::power2::lemma2_to64();
            if k >= 15 {
                vstd::arithmetic::power2::lemma_pow2_adds(15, (k - 15) as nat);
                assert(vstd::arithmetic::power2::pow2((k) as nat) >= vstd::arithmetic::power2::pow2(
                    15,
                )) by (nonlinear_arith)
                    requires
                        vstd::arithmetic::power2::pow2(k as nat) == vstd::arithmetic::power2::pow2(
                            15,
                        ) * vstd::arithmetic::power2::pow2((k - 15) as nat),
                        vstd::arithmetic::power2::pow2((k - 15) as nat) >= 1,
                        vstd::arithmetic::power2::pow2(15) >= 0,
                ;
                assert(false);
            }
            assert(vstd::arithmetic::power2::pow2((k + 1) as nat) == 2 * vstd::arithmetic::power2::pow2(k as nat)) by {
                vstd::arithmetic::power2::lemma_pow2_adds(k as nat, 1);
            }
        }
        v = 2 * v;
        k = k + 1;
    }
    let z = fx_div(fx_sub(v, FX_ONE), fx_add(v, FX_ONE));
    proof {
        crate::fixed::lemma_fxdiv_ratio_abs((v as int) - FX_ONE as int, (v as int) + FX_ONE as int);
        lemma_fxmul_bounded(z as int, z as int, FX_ONE as int + 1, FX_ONE as int + 1, FX_ONE as int + 3);
        lemma_fxmul_square_nonneg(z as int);
    }
    let z2 = fx_mul(z, z);
    proof {
        lemma_fxmul_bounded(
            z2 as int,
            z2 as int,
            FX_ONE as int + 3,
            FX_ONE as int + 3,
            FX_ONE as int + 7,
        );
        lemma_fxmul_square_nonneg(z2 as int);
    }
    let z4 = fx_mul(z2, z2);
    proof {
        vstd::arithmetic::div_mod::lemma_div_pos_is_pos(z2 as int * FX_ONE as int, 3 * FX_ONE as int);
        vstd::arithmetic::div_mod::lemma_div_pos_is_pos(z4 as int * FX_ONE as int, 5 * FX_ONE as int);
        assert(z2 as int * FX_ONE as int >= 0) by (nonlinear_arith)
            requires
                z2 as int >= 0,
        ;
        assert(z4 as int * FX_ONE as int >= 0) by (nonlinear_arith)
            requires
                z4 as int >= 0,
        ;
        lemma_fxdiv_ratio(z2 as int, 3 * FX_ONE as int);
        lemma_fxdiv_ratio(z4 as int, 5 * FX_ONE as int);
    }
    let term = fx_add(FX_ONE, fx_add(fx_div(z2, 3 * FX_ONE), fx_div(z4, 5 * FX_ONE)));
    proof {
        // z is nonpositive since v < FX_ONE, so the product with the
        // nonnegative series factor is nonpositive.
        assert(((v as int) - FX_ONE as int) * (FX_ONE as int) <= 0) by (nonlinear_arith)
            requires
                v < FX_ONE,
        ;
        crate::fixed::lemma_fdiv_nonpos_num(
            ((v as int) - FX_ONE as int) * (FX_ONE as int),
            (v as int) + FX_ONE as int,
        );
        assert(z <= 0);
        assert((2 * z as int) * (term as int) <= 0) by (nonlinear_arith)
            requires
                z <= 0,
                term as int >= 0,
        ;
        lemma_fxmul_nonpos(2 * z as int, term as int);
        // The series factor lies in [FX_ONE, 3 * FX_ONE] and |2z| is at most
        // 2 * FX_ONE + 2, so the product stays far from saturation.
        lemma_fxmul_bounded(
            2 * z as int,
            term as int,
            2 * FX_ONE as int + 2,
            3 * FX_ONE as int,
            458752,
        );
    }
    let series = fx_mul(2 * z, term);
    series - k * LN2_FX
}

} // verus!
