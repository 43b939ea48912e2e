//! The fixed-point scalar that the whole renderer computes with.
//!
//! A scalar is an `i64` holding `value * FX_ONE`, so one real unit is
//! `FX_ONE` raw steps. Every operation saturates its result at `FX_MAX`,
//! which keeps all intermediate products inside `u128` and gives each
//! executable function an exact mathematical mirror.

use vstd::prelude::*;

verus! {

use vstd::arithmetic::div_mod::{lemma_fundamental_div_mod, lemma_fundamental_div_mod_converse};

/// One real unit: every scalar is an `i64` holding `value * FX_ONE`.
pub const FX_ONE: i64 = 65536;

/// Largest magnitude a scalar may carry; operations saturate here.
pub const FX_MAX: i64 = 0x4000_0000_0000;

/// A well-formed scalar stays inside the saturation bound.
pub open spec fn fx_wf(a: i64) -> bool {
    -FX_MAX <= a <= FX_MAX
}

/// Saturate an unbounded mathematical value into the representable range.
pub open spec fn sat(x: int) -> int {
    if x > FX_MAX as int {
        FX_MAX as int
    } else if x < -(FX_MAX as int) {
        -(FX_MAX as int)
    } else {
        x
    }
}

/// Floor division: rounds toward negative infinity for either sign of `b`.
pub open spec fn fdiv(a: int, b: int) -> int
    recommends
        b != 0,
{
    if b < 0 {
        (-a) / (-b)
    } else {
        a / b
    }
}

pub open spec fn fxadd(a: int, b: int) -> int {
    sat(a + b)
}

pub open spec fn fxsub(a: int, b: int) -> int {
    sat(a - b)
}

pub open spec fn fxmul(a: int, b: int) -> int {
    sat(fdiv(a * b, FX_ONE as int))
}

pub open spec fn fxdiv(a: int, b: int) -> int
    recommends
        b != 0,
{
    sat(fdiv(a * (FX_ONE as int), b))
}

pub open spec fn fxmin(a: int, b: int) -> int {
    if a < b {
        a
    } else {
        b
    }
}

pub open spec fn fxmax(a: int, b: int) -> int {
    if a > b {
        a
    } else {
        b
    }
}

pub open spec fn fxabs(a: int) -> int {
    if a < 0 {
        -a
    } else {
        a
    }
}

/// Clamp `x` into `[lo, hi]`.
pub open spec fn fxclamp(x: int, lo: int, hi: int) -> int {
    if x < lo {
        lo
    } else if x > hi {
        hi
    } else {
        x
    }
}

/// Floor division of `-p` by `d` in terms of the division of `p` by `d`.
pub proof fn lemma_neg_div(p: int, d: int)
    requires
        p >= 0,
        d > 0,
    ensures
        (-p) / d == if p % d == 0 {
            -(p / d)
        } else {
            -(p / d) - 1
        },
{
    lemma_fundamental_div_mod(p, d);
    let q = p / d;
    let r = p % d;
    assert(p == d * q + r);
    if r == 0 {
        assert(-p == (-q) * d + 0) by (nonlinear_arith)
            requires
                p == d * q + r,
                r == 0,
        ;
        lemma_fundamental_div_mod_converse(-p, d, -q, 0);
    } else {
        assert(-p == (-q - 1) * d + (d - r)) by (nonlinear_arith)
            requires
                p == d * q + r,
        ;
        lemma_fundamental_div_mod_converse(-p, d, -q - 1, d - r);
    }
}

/// Saturating addition.
pub fn fx_add(a: i64, b: i64) -> (r: i64)
    requires
        fx_wf(a),
        fx_wf(b),
    ensures
        r == fxadd(a as int, b as int),
        fx_wf(r),
{
    let s = a + b;
    if s > FX_MAX {
        FX_MAX
    } else if s < -FX_MAX {
        -FX_MAX
    } else {
        s
    }
}

/// Saturating subtraction.
pub fn fx_sub(a: i64, b: i64) -> (r: i64)
    requires
        fx_wf(a),
        fx_wf(b),
    ensures
        r == fxsub(a as int, b as int),
        fx_wf(r),
{
    let s = a - b;
    if s > FX_MAX {
        FX_MAX
    } else if s < -FX_MAX {
        -FX_MAX
    } else {
        s
    }
}

/// Negation: exact inside the symmetric representable range.
pub fn fx_neg(a: i64) -> (r: i64)
    requires
        fx_wf(a),
    ensures
        r == -a,
        fx_wf(r),
{
    -a
}

/// Divide a nonnegative product by a positive divisor, with the sign of the
/// original operands applied afterwards, rounding toward negative infinity.
fn signed_floor_quotient(mag_num: u128, mag_den: u128, neg: bool) -> (r: i64)
    requires
        mag_den > 0,
    ensures
        r == sat(
            if neg {
                fdiv(-(mag_num as int), mag_den as int)
            } else {
                fdiv(mag_num as int, mag_den as int)
            },
        ),
        fx_wf(r),
{
    let q = mag_num / mag_den;
    let rem = mag_num % mag_den;
    if neg {
        proof {
            lemma_neg_div(mag_num as int, mag_den as int);
        }
        if q >= FX_MAX as u128 {
            -FX_MAX
        } else {
            let qc = if rem != 0 {
                q + 1
            } else {
                q
            };
            -(qc as i64)
        }
    } else {
        if q > FX_MAX as u128 {
            FX_MAX
        } else {
            q as i64
        }
    }
}

/// Magnitude of a well-formed scalar, as an unsigned wide value.
fn fx_magnitude(a: i64) -> (r: u128)
    requires
        fx_wf(a),
    ensures
        r == fxabs(a as int),
{
    if a < 0 {
        (-a) as u128
    } else {
        a as u128
    }
}

/// Saturating fixed-point multiplication: `a * b / FX_ONE`, floored.
pub fn fx_mul(a: i64, b: i64) -> (r: i64)
    requires
        fx_wf(a),
        fx_wf(b),
    ensures
        r == fxmul(a as int, b as int),
        fx_wf(r),
{
    let neg = (a < 0) != (b < 0);
    let ma = fx_magnitude(a);
    let mb = fx_magnitude(b);
    proof {
        assert((ma as int) * (mb as int) <= (FX_MAX as int) * (FX_MAX as int)) by (nonlinear_arith)
            requires
                0 <= ma as int <= FX_MAX as int,
                0 <= mb as int <= FX_MAX as int,
        ;
    }
    let p = ma * mb;
    proof {
        lemma_abs_product(a as int, b as int);
    }
    signed_floor_quotient(p, FX_ONE as u128, neg)
}

/// Saturating fixed-point division: `a * FX_ONE / b`, floored.
pub fn fx_div(a: i64, b: i64) -> (r: i64)
    requires
        fx_wf(a),
        fx_wf(b),
        b != 0,
    ensures
        r == fxdiv(a as int, b as int),
        fx_wf(r),
{
    let neg = (a < 0) != (b < 0);
    let ma = fx_magnitude(a);
    let mb = fx_magnitude(b);
    proof {
        assert((ma as int) * (FX_ONE as int) <= (FX_MAX as int) * (FX_ONE as int))
            by (nonlinear_arith)
            requires
                0 <= ma as int <= FX_MAX as int,
        ;
    }
    let num = ma * (FX_ONE as u128);
    proof {
        lemma_abs_product(a as int, FX_ONE as int);
        lemma_fdiv_signs(a as int * FX_ONE as int, b as int);
    }
    signed_floor_quotient(num, mb, neg)
}

/// The magnitude of a product is the product of the magnitudes.
proof fn lemma_abs_product(a: int, b: int)
    ensures
        fxabs(a * b) == fxabs(a) * fxabs(b),
        (a * b < 0) <==> ((a < 0) != (b < 0) && a != 0 && b != 0),
{
    if a >= 0 && b >= 0 {
        assert(a * b >= 0) by (nonlinear_arith)
            requires
                a >= 0,
                b >= 0,
        ;
        if a > 0 && b > 0 {
            assert(a * b > 0) by (nonlinear_arith)
                requires
                    a > 0,
                    b > 0,
            ;
        }
    } else if a <= 0 && b <= 0 {
        assert(a * b >= 0 && a * b == (-a) * (-b)) by (nonlinear_arith)
            requires
                a <= 0,
                b <= 0,
        ;
    } else if a < 0 {
        assert(a * b <= 0 && -(a * b) == (-a) * b) by (nonlinear_arith)
            requires
                a < 0,
                b >= 0,
        ;
        if b > 0 {
            assert(a * b < 0) by (nonlinear_arith)
                requires
                    a < 0,
                    b > 0,
            ;
        }
    } else {
        assert(a * b <= 0 && -(a * b) == a * (-b)) by (nonlinear_arith)
            requires
                a > 0,
                b <= 0,
        ;
        if b < 0 {
            assert(a * b < 0) by (nonlinear_arith)
                requires
                    a > 0,
                    b < 0,
            ;
        }
    }
}

/// Floor division by a negative divisor equals floor division of the negated
/// numerator by the negated divisor.
pub proof fn lemma_fdiv_signs(n: int, b: int)
    requires
        b != 0,
    ensures
        fdiv(n, b) == if (n < 0) != (b < 0) {
            fdiv(-fxabs(n), fxabs(b))
        } else {
            fdiv(fxabs(n), fxabs(b))
        },
{
}

pub fn fx_min(a: i64, b: i64) -> (r: i64)
    ensures
        r == fxmin(a as int, b as int),
{
    if a < b {
        a
    } else {
        b
    }
}

pub fn fx_max(a: i64, b: i64) -> (r: i64)
    ensures
        r == fxmax(a as int, b as int),
{
    if a > b {
        a
    } else {
        b
    }
}

pub fn fx_abs(a: i64) -> (r: i64)
    requires
        fx_wf(a),
    ensures
        r == fxabs(a as int),
        fx_wf(r),
{
    if a < 0 {
        -a
    } else {
        a
    }
}

pub fn fx_clamp(x: i64, lo: i64, hi: i64) -> (r: i64)
    ensures
        r == fxclamp(x as int, lo as int, hi as int),
{
    if x < lo {
        lo
    } else if x > hi {
        hi
    } else {
        x
    }
}

/// The integer square root, as a mathematical function.
pub open spec fn sqrt_floor(n: int) -> int
    decreases n,
{
    if n <= 0 {
        0
    } else {
        let r = sqrt_floor(n - 1);
        if (r + 1) * (r + 1) <= n {
            r + 1
        } else {
            r
        }
    }
}

/// `sqrt_floor` really is the floor of the square root.
pub proof fn lemma_sqrt_floor(n: int)
    requires
        n >= 0,
    ensures
        0 <= sqrt_floor(n),
        sqrt_floor(n) * sqrt_floor(n) <= n,
        n < (sqrt_floor(n) + 1) * (sqrt_floor(n) + 1),
    decreases n,
{
    if n > 0 {
        lemma_sqrt_floor(n - 1);
        let r = sqrt_floor(n - 1);
        if (r + 1) * (r + 1) <= n {
            assert(n < (r + 2) * (r + 2)) by (nonlinear_arith)
                requires
                    n - 1 < (r + 1) * (r + 1),
                    r >= 0,
            ;
        }
    }
}

/// Any value between consecutive squares pins down the square root.
proof fn lemma_sqrt_unique(n: int, r: int)
    requires
        n >= 0,
        r >= 0,
        r * r <= n,
        n < (r + 1) * (r + 1),
    ensures
        r == sqrt_floor(n),
{
    lemma_sqrt_floor(n);
    let s = sqrt_floor(n);
    assert(r == s) by (nonlinear_arith)
        requires
            r >= 0,
            s >= 0,
            r * r <= n,
            n < (r + 1) * (r + 1),
            s * s <= n,
            n < (s + 1) * (s + 1),
    ;
}

/// Integer square root of a wide unsigned value, by bisection.
fn isqrt_u128(n: u128) -> (r: u128)
    ensures
        r == sqrt_floor(n as int),
{
    if n == 0 {
        proof {
            lemma_sqrt_unique(0, 0);
        }
        return 0;
    }
    if n < 4 {
        proof {
            lemma_sqrt_unique(n as int, 1);
        }
        return 1;
    }
    let mut lo: u128 = 1;
    let mut hi: u128 = if n < 0x1_0000_0000_0000_0000 {
        n
    } else {
        0x1_0000_0000_0000_0000
    };
    proof {
        if n < 0x1_0000_0000_0000_0000 {
            assert((n as int) * (n as int) > n as int) by (nonlinear_arith)
                requires
                    n >= 2,
            ;
        } else {
            assert((0x1_0000_0000_0000_0000 as int) * 0x1_0000_0000_0000_0000 > n as int)
                by (nonlinear_arith)
                requires
                    n <= u128::MAX,
            ;
        }
    }
    while lo + 1 < hi
        invariant
            1 <= lo < hi,
            n >= 4,
            lo * lo <= n,
            (hi as int) * (hi as int) > n as int,
            hi <= 0x1_0000_0000_0000_0000,
        decreases hi - lo,
    {
        let mid = lo + (hi - lo) / 2;
        assert(lo < mid < hi);
        proof {
            assert((mid as int) * (mid as int) <= u128::MAX) by (nonlinear_arith)
                requires
                    0 <= mid as int <= 0xFFFF_FFFF_FFFF_FFFFu128,
            ;
        }
        if mid * mid <= n {
            lo = mid;
        } else {
            hi = mid;
        }
    }
    proof {
        assert((lo + 1) * (lo + 1) > n as int);
        lemma_sqrt_unique(n as int, lo as int);
    }
    lo
}

/// Fixed-point square root of a nonnegative scalar.
pub open spec fn fxsqrt(a: int) -> int
    recommends
        a >= 0,
{
    sqrt_floor(a * (FX_ONE as int))
}

/// Fixed-point square root: exact floor of the scaled square root.
pub fn fx_sqrt(a: i64) -> (r: i64)
    requires
        fx_wf(a),
        a >= 0,
    ensures
        r == fxsqrt(a as int),
        fx_wf(r),
        r >= 0,
{
    let n = (a as u128) * (FX_ONE as u128);
    let r = isqrt_u128(n);
    proof {
        lemma_sqrt_floor(n as int);
        assert(r * r <= n as int);
        assert((0x1_0000_0000 as int) * 0x1_0000_0000 > n as int) by (nonlinear_arith)
            requires
                n as int <= (FX_MAX as int) * (FX_ONE as int),
        ;
        assert(r < 0x1_0000_0000) by (nonlinear_arith)
            requires
                r >= 0,
                r * r <= n as int,
                (n as int) < (0x1_0000_0000 as int) * 0x1_0000_0000,
        ;
    }
    r as i64
}

/// A fixed-point product with a unit-interval factor stays within `[0, d]`.
pub proof fn lemma_fxmul_unit_bound(u: int, d: int)
    requires
        0 <= u <= FX_ONE as int,
        0 <= d <= FX_MAX as int,
    ensures
        0 <= fxmul(u, d) <= d,
{
    let s = FX_ONE as int;
    assert(0 <= u * d && u * d <= s * d) by (nonlinear_arith)
        requires
            0 <= u <= s,
            0 <= d,
    ;
    vstd::arithmetic::div_mod::lemma_div_is_ordered(u * d, s * d, s);
    vstd::arithmetic::div_mod::lemma_div_multiples_vanish(d, s);
    vstd::arithmetic::div_mod::lemma_div_pos_is_pos(u * d, s);
}

/// The fixed-point square of any scalar is nonnegative.
pub proof fn lemma_fxmul_square_nonneg(a: int)
    ensures
        fxmul(a, a) >= 0,
{
    assert(a * a >= 0) by (nonlinear_arith);
    vstd::arithmetic::div_mod::lemma_div_pos_is_pos(a * a, FX_ONE as int);
}

/// One wide fused step: `sat(floor((a*b - c*d) / FX_ONE))`, with the products
/// taken at full precision before the difference is scaled back down.
pub open spec fn fxmulsub(a: int, b: int, c: int, d: int) -> int {
    sat(fdiv(a * b - c * d, FX_ONE as int))
}

/// Fused multiply-subtract: keeps the two products at full precision, so the
/// quadratic discriminant does not saturate on intermediate squares.
pub fn fx_mul_sub(a: i64, b: i64, c: i64, d: i64) -> (r: i64)
    requires
        fx_wf(a),
        fx_wf(b),
        fx_wf(c),
        fx_wf(d),
    ensures
        r == fxmulsub(a as int, b as int, c as int, d as int),
        fx_wf(r),
{
    proof {
        assert((a as int) * (b as int) <= (FX_MAX as int) * (FX_MAX as int) && (a as int) * (
        b as int) >= -((FX_MAX as int) * (FX_MAX as int)) && (c as int) * (d as int) <= (
        FX_MAX as int) * (FX_MAX as int) && (c as int) * (d as int) >= -((FX_MAX as int) * (
        FX_MAX as int))) by (nonlinear_arith)
            requires
                -(FX_MAX as int) <= a as int <= FX_MAX as int,
                -(FX_MAX as int) <= b as int <= FX_MAX as int,
                -(FX_MAX as int) <= c as int <= FX_MAX as int,
                -(FX_MAX as int) <= d as int <= FX_MAX as int,
        ;
    }
    let p1 = (a as i128) * (b as i128);
    let p2 = (c as i128) * (d as i128);
    let m = p1 - p2;
    let neg = m < 0;
    let mag: u128 = if m < 0 {
        (-m) as u128
    } else {
        m as u128
    };
    signed_floor_quotient(mag, FX_ONE as u128, neg)
}

/// `a` reduced into `[0, m)` by subtracting the right multiple of `m`.
pub open spec fn fxmod(a: int, m: int) -> int
    recommends
        m > 0,
{
    a - fdiv(a, m) * m
}

/// Floor-modulus: the representative of `a` in `[0, m)`.
pub fn fx_mod(a: i64, m: i64) -> (r: i64)
    requires
        fx_wf(a),
        0 < m <= FX_MAX,
    ensures
        r == fxmod(a as int, m as int),
        0 <= r < m,
{
    proof {
        lemma_fundamental_div_mod(a as int, m as int);
        if a < 0 {
            lemma_neg_div(-(a as int), m as int);
            lemma_fundamental_div_mod(-(a as int), m as int);
        }
    }
    if a >= 0 {
        let r = ((a as u128) % (m as u128)) as i64;
        proof {
            assert((m as int) * ((a as int) / (m as int)) == ((a as int) / (m as int)) * (
            m as int)) by (nonlinear_arith);
        }
        r
    } else {
        let p = (-a) as u128;
        let pm = p % (m as u128);
        proof {
            let pa = -(a as int);
            let mi = m as int;
            assert(pa == mi * (pa / mi) + pa % mi);
            if pa % mi == 0 {
                assert((-(pa / mi)) * mi == -(mi * (pa / mi))) by (nonlinear_arith);
            } else {
                assert((-(pa / mi) - 1) * mi == -(mi * (pa / mi)) - mi) by (nonlinear_arith);
            }
        }
        if pm == 0 {
            0
        } else {
            m - (pm as i64)
        }
    }
}

/// A fixed-point product of two factors whose signs agree is nonnegative.
pub proof fn lemma_fxmul_nonneg(a: int, b: int)
    requires
        a * b >= 0,
    ensures
        fxmul(a, b) >= 0,
{
    vstd::arithmetic::div_mod::lemma_div_pos_is_pos(a * b, FX_ONE as int);
}

/// A symmetric bound on a fixed-point product, from a bound on the raw product.
pub proof fn lemma_fxmul_range(a: int, b: int, bound: int)
    requires
        fxabs(a) * fxabs(b) <= bound * (FX_ONE as int),
        0 <= bound <= FX_MAX as int,
    ensures
        -bound <= fxmul(a, b) <= bound,
{
    let s = FX_ONE as int;
    lemma_abs_product(a, b);
    let p = a * b;
    assert(-(bound * s) <= p <= bound * s);
    if p >= 0 {
        vstd::arithmetic::div_mod::lemma_div_is_ordered(p, bound * s, s);
        vstd::arithmetic::div_mod::lemma_div_multiples_vanish(bound, s);
        vstd::arithmetic::div_mod::lemma_div_pos_is_pos(p, s);
    } else {
        lemma_neg_div(-p, s);
        vstd::arithmetic::div_mod::lemma_div_is_ordered(-p, bound * s, s);
        vstd::arithmetic::div_mod::lemma_div_multiples_vanish(bound, s);
        vstd::arithmetic::div_mod::lemma_div_pos_is_pos(-p, s);
    }
}

/// Dividing a smaller magnitude by a larger one stays within one unit.
pub proof fn lemma_fxdiv_ratio(a: int, b: int)
    requires
        0 <= a <= b,
        0 < b,
    ensures
        0 <= fxdiv(a, b) <= FX_ONE as int,
{
    let s = FX_ONE as int;
    assert(a * s <= b * s) by (nonlinear_arith)
        requires
            a <= b,
            s > 0,
    ;
    assert(0 <= a * s) by (nonlinear_arith)
        requires
            0 <= a,
            s > 0,
    ;
    vstd::arithmetic::div_mod::lemma_div_is_ordered(a * s, b * s, b);
    vstd::arithmetic::div_mod::lemma_div_pos_is_pos(a * s, b);
    assert((b * s) / b == s) by {
        vstd::arithmetic::div_mod::lemma_div_multiples_vanish(s, b);
        assert(b * s == s * b) by (nonlinear_arith);
    }
}

/// A fixed-point product of factors with opposing signs is nonpositive.
pub proof fn lemma_fxmul_nonpos(a: int, b: int)
    requires
        a * b <= 0,
    ensures
        fxmul(a, b) <= 0,
{
    let s = FX_ONE as int;
    let p = a * b;
    if p == 0 {
        assert(fdiv(0, s) == 0);
    } else {
        lemma_neg_div(-p, s);
        vstd::arithmetic::div_mod::lemma_div_pos_is_pos(-p, s);
    }
}

/// Floor division with a nonpositive numerator and positive divisor is nonpositive.
pub proof fn lemma_fdiv_nonpos_num(a: int, b: int)
    requires
        a <= 0,
        b > 0,
    ensures
        fdiv(a, b) <= 0,
{
    if a == 0 {
    } else {
        lemma_neg_div(-a, b);
        vstd::arithmetic::div_mod::lemma_div_pos_is_pos(-a, b);
    }
}

/// Dividing a magnitude bounded by the divisor stays within one unit on
/// either side (the floor can undershoot by one step on the negative side).
pub proof fn lemma_fxdiv_ratio_abs(a: int, b: int)
    requires
        fxabs(a) <= b,
        0 < b,
    ensures
        -(FX_ONE as int) - 1 <= fxdiv(a, b) <= FX_ONE as int,
{
    let s = FX_ONE as int;
    if a >= 0 {
        lemma_fxdiv_ratio(a, b);
    } else {
        assert((-a) * s <= b * s) by (nonlinear_arith)
            requires
                -a <= b,
                s > 0,
        ;
        assert(0 <= (-a) * s) by (nonlinear_arith)
            requires
                0 <= -a,
                s > 0,
        ;
        vstd::arithmetic::div_mod::lemma_div_is_ordered((-a) * s, b * s, b);
        vstd::arithmetic::div_mod::lemma_div_pos_is_pos((-a) * s, b);
        assert((b * s) / b == s) by {
            vstd::arithmetic::div_mod::lemma_div_multiples_vanish(s, b);
            assert(b * s == s * b) by (nonlinear_arith);
        }
        lemma_neg_div((-a) * s, b);
        assert(a * s == -((-a) * s)) by (nonlinear_arith);
    }
}

/// A fixed-point product bound from individual magnitude bounds.
pub proof fn lemma_fxmul_bounded(a: int, b: int, am: int, bm: int, bound: int)
    requires
        fxabs(a) <= am,
        fxabs(b) <= bm,
        am * bm <= bound * (FX_ONE as int),
        0 <= bound <= FX_MAX as int,
    ensures
        -bound <= fxmul(a, b) <= bound,
{
    assert(fxabs(a) * fxabs(b) <= am * bm) by (nonlinear_arith)
        requires
            0 <= fxabs(a) <= am,
            0 <= fxabs(b) <= bm,
    ;
    lemma_fxmul_range(a, b, bound);
}

/// Fixed-point division is monotone in the numerator.
pub proof fn lemma_fxdiv_monotone_num(a: int, b: int, d: int)
    requires
        a <= b,
        d > 0,
    ensures
        fxdiv(a, d) <= fxdiv(b, d),
{
    let s = FX_ONE as int;
    assert(a * s <= b * s) by (nonlinear_arith)
        requires
            a <= b,
            s > 0,
    ;
    vstd::arithmetic::div_mod::lemma_div_is_ordered(a * s, b * s, d);
}

/// Scaling by a factor and dividing it out again cannot grow the value.
pub proof fn lemma_fxdiv_fxmul_le(x: int, m: int)
    requires
        0 <= x <= FX_MAX as int,
        0 < m <= FX_MAX as int,
    ensures
        0 <= fxdiv(fxmul(x, m), m) <= x,
{
    let s = FX_ONE as int;
    assert(0 <= x * m) by (nonlinear_arith)
        requires
            0 <= x,
            0 <= m,
    ;
    vstd::arithmetic::div_mod::lemma_div_pos_is_pos(x * m, s);
    let f = (x * m) / s;
    let p = fxmul(x, m);
    assert(0 <= p <= f);
    vstd::arithmetic::div_mod::lemma_fundamental_div_mod(x * m, s);
    vstd::arithmetic::div_mod::lemma_mod_bound(x * m, s);
    assert(f * s <= x * m) by (nonlinear_arith)
        requires
            x * m == s * f + (x * m) % s,
            (x * m) % s >= 0,
    ;
    assert(p * s <= f * s) by (nonlinear_arith)
        requires
            p <= f,
            s > 0,
    ;
    vstd::arithmetic::div_mod::lemma_div_is_ordered(p * s, x * m, m);
    assert((x * m) / m == x) by {
        vstd::arithmetic::div_mod::lemma_div_multiples_vanish(x, m);
        assert(x * m == m * x) by (nonlinear_arith);
    }
    vstd::arithmetic::div_mod::lemma_div_pos_is_pos(p * s, m);
}

/// Floor division of a negative numerator by a positive divisor lands in
/// `[a - 1, -1]`.
pub proof fn lemma_fdiv_neg_range(a: int, b: int)
    requires
        a < 0,
        b > 0,
    ensures
        a - 1 <= fdiv(a, b) <= -1,
{
    let p = -a;
    lemma_neg_div(p, b);
    vstd::arithmetic::div_mod::lemma_div_pos_is_pos(p, b);
    vstd::arithmetic::div_mod::lemma_div_nonincreasing(p, b);
    if p % b == 0 {
        let q = p / b;
        if q == 0 {
            lemma_fundamental_div_mod(p, b);
            assert(false);
        }
    }
}

/// The integer square root of a perfect square is its root.
pub proof fn lemma_sqrt_square(a: int)
    requires
        a >= 0,
    ensures
        sqrt_floor(a * a) == a,
{
    assert(a * a >= 0) by (nonlinear_arith)
        requires
            a >= 0,
    ;
    assert(a * a < (a + 1) * (a + 1)) by (nonlinear_arith)
        requires
            a >= 0,
    ;
    lemma_sqrt_floor(a * a);
    let s = sqrt_floor(a * a);
    assert(a == s) by (nonlinear_arith)
        requires
            a >= 0,
            s >= 0,
            s * s <= a * a,
            a * a < (s + 1) * (s + 1),
    ;
}

/// A zero factor scales anything to zero.
pub proof fn lemma_fxmul_zero(a: int)
    ensures
        fxmul(a, 0) == 0,
        fxmul(0, a) == 0,
{
    assert(a * 0 == 0) by (nonlinear_arith);
    assert(0 * a == 0) by (nonlinear_arith);
    vstd::arithmetic::div_mod::lemma_div_multiples_vanish(0, FX_ONE as int);
    assert((FX_ONE as int) * 0 == 0) by (nonlinear_arith);
}

/// A unit factor is the identity on representable scalars.
pub proof fn lemma_fxmul_one(a: int)
    requires
        -(FX_MAX as int) <= a <= FX_MAX as int,
    ensures
        fxmul(a, FX_ONE as int) == a,
        fxmul(FX_ONE as int, a) == a,
{
    let s = FX_ONE as int;
    vstd::arithmetic::div_mod::lemma_div_multiples_vanish(a, s);
    assert(a * s == s * a) by (nonlinear_arith);
}

/// Exact division: when the numerator is exactly a representable multiple
/// of the divisor, the saturated floor division returns that multiple.
pub proof fn lemma_sat_fdiv_exact(x: int, d: int, q: int)
    requires
        d > 0,
        x == q * d,
        -(FX_MAX as int) <= q <= FX_MAX as int,
    ensures
        sat(fdiv(x, d)) == q,
{
    lemma_fundamental_div_mod_converse(x, d, q, 0);
}

} // verus!
