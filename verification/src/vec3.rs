//! The three-component vector used for points, directions and colors.
//!
//! Every arithmetic method has an exact spec mirror over the fixed-point
//! scalar model, so callers can reason about results componentwise.

use vstd::prelude::*;

verus! {

use crate::fixed::{
    fx_wf, fxadd, fxsub, fxmul, fxdiv, fxmin, fxmax, fxsqrt, fx_add, fx_sub, fx_mul, fx_div,
    fx_min, fx_max, fx_sqrt, fx_abs, fxabs, lemma_fxmul_unit_bound, lemma_fxmul_square_nonneg,
    FX_ONE, };
use crate::rng::{rng_step, rng_unit, Rng};

#[derive(Clone, Copy, PartialEq, Eq, Structural, Debug)]
pub struct Vec3 {
    pub x: i64,
    pub y: i64,
    pub z: i64,
}

impl Vec3 {
    /// All three components stay inside the representable scalar range.
    pub open spec fn wf(self) -> bool {
        fx_wf(self.x) && fx_wf(self.y) && fx_wf(self.z)
    }

    pub open spec fn spec_zero() -> Vec3 {
        Vec3 { x: 0, y: 0, z: 0 }
    }

    pub open spec fn spec_add(self, o: Vec3) -> Vec3 {
        Vec3 {
            x: fxadd(self.x as int, o.x as int) as i64,
            y: fxadd(self.y as int, o.y as int) as i64,
            z: fxadd(self.z as int, o.z as int) as i64,
        }
    }

    pub open spec fn spec_sub(self, o: Vec3) -> Vec3 {
        Vec3 {
            x: fxsub(self.x as int, o.x as int) as i64,
            y: fxsub(self.y as int, o.y as int) as i64,
            z: fxsub(self.z as int, o.z as int) as i64,
        }
    }

    pub open spec fn spec_neg(self) -> Vec3 {
        Vec3 { x: -self.x as i64, y: -self.y as i64, z: -self.z as i64 }
    }

    pub open spec fn spec_mul(self, o: Vec3) -> Vec3 {
        Vec3 {
            x: fxmul(self.x as int, o.x as int) as i64,
            y: fxmul(self.y as int, o.y as int) as i64,
            z: fxmul(self.z as int, o.z as int) as i64,
        }
    }

    pub open spec fn spec_div(self, o: Vec3) -> Vec3 {
        Vec3 {
            x: fxdiv(self.x as int, o.x as int) as i64,
            y: fxdiv(self.y as int, o.y as int) as i64,
            z: fxdiv(self.z as int, o.z as int) as i64,
        }
    }

    pub open spec fn spec_scale(self, s: i64) -> Vec3 {
        Vec3 {
            x: fxmul(self.x as int, s as int) as i64,
            y: fxmul(self.y as int, s as int) as i64,
            z: fxmul(self.z as int, s as int) as i64,
        }
    }

    pub open spec fn spec_div_scalar(self, s: i64) -> Vec3 {
        Vec3 {
            x: fxdiv(self.x as int, s as int) as i64,
            y: fxdiv(self.y as int, s as int) as i64,
            z: fxdiv(self.z as int, s as int) as i64,
        }
    }

    pub open spec fn spec_dot(self, o: Vec3) -> i64 {
        fxadd(
            fxadd(fxmul(self.x as int, o.x as int), fxmul(self.y as int, o.y as int)),
            fxmul(self.z as int, o.z as int),
        ) as i64
    }

    pub open spec fn spec_cross(self, o: Vec3) -> Vec3 {
        Vec3 {
            x: fxsub(fxmul(self.y as int, o.z as int), fxmul(self.z as int, o.y as int)) as i64,
            y: fxsub(fxmul(self.z as int, o.x as int), fxmul(self.x as int, o.z as int)) as i64,
            z: fxsub(fxmul(self.x as int, o.y as int), fxmul(self.y as int, o.x as int)) as i64,
        }
    }

    pub open spec fn spec_length_squared(self) -> i64 {
        self.spec_dot(self)
    }

    pub open spec fn spec_length(self) -> i64 {
        fxsqrt(self.spec_length_squared() as int) as i64
    }

    pub open spec fn spec_near_zero(self) -> bool {
        self.x == 0 && self.y == 0 && self.z == 0
    }

    pub open spec fn spec_unit_vector(self) -> Vec3 {
        if self.spec_length() == 0 {
            self
        } else {
            self.spec_div_scalar(self.spec_length())
        }
    }

    pub open spec fn spec_reflect(self, n: Vec3) -> Vec3 {
        let d = self.spec_dot(n);
        self.spec_sub(n.spec_scale(fxadd(d as int, d as int) as i64))
    }

    pub open spec fn spec_refract(self, n: Vec3, etai_over_etat: i64) -> Vec3 {
        let cos_theta = fxmin(self.spec_neg().spec_dot(n) as int, FX_ONE as int) as i64;
        let r_out_perp = self.spec_add(n.spec_scale(cos_theta)).spec_scale(etai_over_etat);
        let r_out_parallel = n.spec_scale(
            -fxsqrt(fxabs(fxsub(FX_ONE as int, r_out_perp.spec_length_squared() as int))) as i64,
        );
        r_out_perp.spec_add(r_out_parallel)
    }

    pub fn new(e0: i64, e1: i64, e2: i64) -> (r: Vec3)
        ensures
            r == (Vec3 { x: e0, y: e1, z: e2 }),
    {
        Vec3 { x: e0, y: e1, z: e2 }
    }

    pub fn x(&self) -> (r: i64)
        ensures
            r == self.x,
    {
        self.x
    }

    pub fn y(&self) -> (r: i64)
        ensures
            r == self.y,
    {
        self.y
    }

    pub fn z(&self) -> (r: i64)
        ensures
            r == self.z,
    {
        self.z
    }

    pub fn add(&self, o: &Vec3) -> (r: Vec3)
        requires
            self.wf(),
            o.wf(),
        ensures
            r == self.spec_add(*o),
            r.wf(),
    {
        Vec3 { x: fx_add(self.x, o.x), y: fx_add(self.y, o.y), z: fx_add(self.z, o.z) }
    }

    pub fn sub(&self, o: &Vec3) -> (r: Vec3)
        requires
            self.wf(),
            o.wf(),
        ensures
            r == self.spec_sub(*o),
            r.wf(),
    {
        Vec3 { x: fx_sub(self.x, o.x), y: fx_sub(self.y, o.y), z: fx_sub(self.z, o.z) }
    }

    pub fn neg(&self) -> (r: Vec3)
        requires
            self.wf(),
        ensures
            r == self.spec_neg(),
            r.wf(),
    {
        Vec3 { x: -self.x, y: -self.y, z: -self.z }
    }

    pub fn mul(&self, o: &Vec3) -> (r: Vec3)
        requires
            self.wf(),
            o.wf(),
        ensures
            r == self.spec_mul(*o),
            r.wf(),
    {
        Vec3 { x: fx_mul(self.x, o.x), y: fx_mul(self.y, o.y), z: fx_mul(self.z, o.z) }
    }

    pub fn div(&self, o: &Vec3) -> (r: Vec3)
        requires
            self.wf(),
            o.wf(),
            o.x != 0,
            o.y != 0,
            o.z != 0,
        ensures
            r == self.spec_div(*o),
            r.wf(),
    {
        Vec3 { x: fx_div(self.x, o.x), y: fx_div(self.y, o.y), z: fx_div(self.z, o.z) }
    }

    pub fn scale(&self, s: i64) -> (r: Vec3)
        requires
            self.wf(),
            fx_wf(s),
        ensures
            r == self.spec_scale(s),
            r.wf(),
    {
        Vec3 { x: fx_mul(self.x, s), y: fx_mul(self.y, s), z: fx_mul(self.z, s) }
    }

    pub fn div_scalar(&self, s: i64) -> (r: Vec3)
        requires
            self.wf(),
            fx_wf(s),
            s != 0,
        ensures
            r == self.spec_div_scalar(s),
            r.wf(),
    {
        Vec3 { x: fx_div(self.x, s), y: fx_div(self.y, s), z: fx_div(self.z, s) }
    }

    pub fn dot(&self, o: &Vec3) -> (r: i64)
        requires
            self.wf(),
            o.wf(),
        ensures
            r == self.spec_dot(*o),
            fx_wf(r),
    {
        fx_add(fx_add(fx_mul(self.x, o.x), fx_mul(self.y, o.y)), fx_mul(self.z, o.z))
    }

    pub fn cross(&self, o: &Vec3) -> (r: Vec3)
        requires
            self.wf(),
            o.wf(),
        ensures
            r == self.spec_cross(*o),
            r.wf(),
    {
        Vec3 {
            x: fx_sub(fx_mul(self.y, o.z), fx_mul(self.z, o.y)),
            y: fx_sub(fx_mul(self.z, o.x), fx_mul(self.x, o.z)),
            z: fx_sub(fx_mul(self.x, o.y), fx_mul(self.y, o.x)),
        }
    }

    pub fn length_squared(&self) -> (r: i64)
        requires
            self.wf(),
        ensures
            r == self.spec_length_squared(),
            fx_wf(r),
            r >= 0,
    {
        proof {
            Self::lemma_length_squared_nonneg(*self);
        }
        self.dot(self)
    }

    /// A sum of fixed-point squares is nonnegative.
    pub proof fn lemma_length_squared_nonneg(v: Vec3)
        ensures
            v.spec_length_squared() >= 0,
    {
        lemma_fxmul_square_nonneg(v.x as int);
        lemma_fxmul_square_nonneg(v.y as int);
        lemma_fxmul_square_nonneg(v.z as int);
    }

    pub fn length(&self) -> (r: i64)
        requires
            self.wf(),
        ensures
            r == self.spec_length(),
            fx_wf(r),
            r >= 0,
    {
        let lsq = self.length_squared();
        fx_sqrt(lsq)
    }

    pub fn near_zero(&self) -> (r: bool)
        ensures
            r == self.spec_near_zero(),
    {
        self.x == 0 && self.y == 0 && self.z == 0
    }

    pub fn unit_vector(&self) -> (r: Vec3)
        requires
            self.wf(),
        ensures
            r == self.spec_unit_vector(),
            r.wf(),
    {
        let len = self.length();
        if len == 0 {
            *self
        } else {
            self.div_scalar(len)
        }
    }

    pub fn reflect(&self, n: &Vec3) -> (r: Vec3)
        requires
            self.wf(),
            n.wf(),
        ensures
            r == self.spec_reflect(*n),
            r.wf(),
    {
        let d = self.dot(n);
        self.sub(&n.scale(fx_add(d, d)))
    }

    pub fn refract(&self, n: &Vec3, etai_over_etat: i64) -> (r: Vec3)
        requires
            self.wf(),
            n.wf(),
            fx_wf(etai_over_etat),
        ensures
            r == self.spec_refract(*n, etai_over_etat),
            r.wf(),
    {
        let cos_theta = fx_min(self.neg().dot(n), FX_ONE);
        let r_out_perp = self.add(&n.scale(cos_theta)).scale(etai_over_etat);
        let lsq = r_out_perp.length_squared();
        proof {
            Vec3::lemma_length_squared_nonneg(r_out_perp);
        }
        let r_out_parallel = n.scale(-fx_sqrt(fx_abs(fx_sub(FX_ONE, lsq))));
        r_out_perp.add(&r_out_parallel)
    }


    pub open spec fn spec_min(self, o: Vec3) -> Vec3 {
        Vec3 {
            x: fxmin(self.x as int, o.x as int) as i64,
            y: fxmin(self.y as int, o.y as int) as i64,
            z: fxmin(self.z as int, o.z as int) as i64,
        }
    }

    pub open spec fn spec_max(self, o: Vec3) -> Vec3 {
        Vec3 {
            x: fxmax(self.x as int, o.x as int) as i64,
            y: fxmax(self.y as int, o.y as int) as i64,
            z: fxmax(self.z as int, o.z as int) as i64,
        }
    }

    /// Componentwise minimum.
    pub fn vmin(&self, o: &Vec3) -> (r: Vec3)
        ensures
            r == self.spec_min(*o),
    {
        Vec3 {
            x: fx_min(self.x, o.x),
            y: fx_min(self.y, o.y),
            z: fx_min(self.z, o.z),
        }
    }

    /// Componentwise maximum.
    pub fn vmax(&self, o: &Vec3) -> (r: Vec3)
        ensures
            r == self.spec_max(*o),
    {
        Vec3 {
            x: fx_max(self.x, o.x),
            y: fx_max(self.y, o.y),
            z: fx_max(self.z, o.z),
        }
    }

    /// One range draw, as a mathematical function of the random state:
    /// three unit draws, one per component, each scaled into `[min, max]`.
    /// The second component is the state left behind.
    pub open spec fn spec_range_draw(min: i64, max: i64, seed: u64) -> (Vec3, u64) {
        let s0 = rng_step(seed);
        let s1 = rng_step(s0);
        let s2 = rng_step(s1);
        let d = fxsub(max as int, min as int) as i64;
        (
            Vec3 {
                x: fxadd(min as int, fxmul(rng_unit(s0) as int, d as int)) as i64,
                y: fxadd(min as int, fxmul(rng_unit(s1) as int, d as int)) as i64,
                z: fxadd(min as int, fxmul(rng_unit(s2) as int, d as int)) as i64,
            },
            s2,
        )
    }

    /// The bounded rejection sampler, as a mathematical function of the
    /// random state: draw a point in the cube until one falls strictly
    /// inside the unit sphere, giving up on the origin after the last try.
    pub open spec fn spec_sphere_draw(seed: u64, tries: nat) -> (Vec3, u64)
        decreases tries,
    {
        if tries == 0 {
            (Vec3 { x: 0, y: 0, z: 0 }, seed)
        } else {
            let pair = Self::spec_range_draw((-FX_ONE) as i64, FX_ONE, seed);
            if pair.0.spec_length_squared() < FX_ONE {
                pair
            } else {
                Self::spec_sphere_draw(pair.1, (tries - 1) as nat)
            }
        }
    }

    /// The number of cube draws the sphere sampler is willing to make.
    pub open spec fn sphere_draw_tries() -> nat {
        64
    }

    /// Three fresh unit-interval draws, one per component.
    pub fn random(rng: &mut Rng) -> (r: Vec3)
        ensures
            r.wf(),
            0 <= r.x < FX_ONE,
            0 <= r.y < FX_ONE,
            0 <= r.z < FX_ONE,
    {
        let e0 = rng.next_unit();
        let e1 = rng.next_unit();
        let e2 = rng.next_unit();
        Vec3 { x: e0, y: e1, z: e2 }
    }

    /// A draw with every component uniform in `[min, max]`.
    pub fn random_by_range(min: i64, max: i64, rng: &mut Rng) -> (r: Vec3)
        requires
            fx_wf(min),
            fx_wf(max),
            min <= max,
        ensures
            r.wf(),
            min <= r.x <= max,
            min <= r.y <= max,
            min <= r.z <= max,
            (r, final(rng).state) == Self::spec_range_draw(min, max, old(rng).state),
    {
        let d = fx_sub(max, min);
        let u0 = rng.next_unit();
        let u1 = rng.next_unit();
        let u2 = rng.next_unit();
        proof {
            lemma_fxmul_unit_bound(u0 as int, d as int);
            lemma_fxmul_unit_bound(u1 as int, d as int);
            lemma_fxmul_unit_bound(u2 as int, d as int);
        }
        Vec3 {
            x: fx_add(min, fx_mul(u0, d)),
            y: fx_add(min, fx_mul(u1, d)),
            z: fx_add(min, fx_mul(u2, d)),
        }
    }

    /// Rejection-sample a point strictly inside the unit sphere. The attempt
    /// count is bounded; if every draw lands outside (vanishingly unlikely),
    /// the origin is returned, which also lies inside.
    pub fn random_in_unit_sphere(rng: &mut Rng) -> (r: Vec3)
        ensures
            r.wf(),
            r.spec_length_squared() < FX_ONE,
            (r, final(rng).state) == Self::spec_sphere_draw(
                old(rng).state,
                Self::sphere_draw_tries(),
            ),
    {
        let mut i: u32 = 0;
        while i < 64
            invariant
                0 <= i <= 64,
                Self::spec_sphere_draw(old(rng).state, Self::sphere_draw_tries())
                    == Self::spec_sphere_draw(rng.state, (64 - i) as nat),
            decreases 64 - i,
        {
            let p = Self::random_by_range(-FX_ONE, FX_ONE, rng);
            if p.length_squared() < FX_ONE {
                return p;
            }
            i = i + 1;
        }
        proof {
            Self::lemma_length_squared_nonneg(Self::spec_zero());
        }
        Vec3 { x: 0, y: 0, z: 0 }
    }

    /// A direction sampled inside the unit sphere, then normalized.
    pub fn random_unit_vector(rng: &mut Rng) -> (r: Vec3)
        ensures
            r.wf(),
            ({
                let pair = Self::spec_sphere_draw(old(rng).state, Self::sphere_draw_tries());
                r == pair.0.spec_unit_vector() && final(rng).state == pair.1
            }),
    {
        let p = Self::random_in_unit_sphere(rng);
        p.unit_vector()
    }

    /// Rejection-sample a point inside the unit disk in the xy-plane, with
    /// the same bounded-attempt fallback as the sphere sampler.
    pub fn random_unit_disk(rng: &mut Rng) -> (r: Vec3)
        ensures
            r.wf(),
            r.spec_length_squared() < FX_ONE,
            r.z == 0,
    {
        let mut i: u32 = 0;
        while i < 64
            invariant
                true,
            decreases 64 - i,
        {
            let d = fx_add(FX_ONE, FX_ONE);
            let u0 = rng.next_unit();
            let u1 = rng.next_unit();
            proof {
                lemma_fxmul_unit_bound(u0 as int, d as int);
                lemma_fxmul_unit_bound(u1 as int, d as int);
            }
            let p = Vec3 {
                x: fx_add(-FX_ONE, fx_mul(u0, d)),
                y: fx_add(-FX_ONE, fx_mul(u1, d)),
                z: 0,
            };
            if p.length_squared() < FX_ONE {
                return p;
            }
            i = i + 1;
        }
        proof {
            Self::lemma_length_squared_nonneg(Self::spec_zero());
        }
        Vec3 { x: 0, y: 0, z: 0 }
    }
}

impl Default for Vec3 {
    /// The origin.
    fn default() -> (r: Vec3)
        ensures
            r == Vec3::spec_zero(),
    {
        Vec3 { x: 0, y: 0, z: 0 }
    }
}

} // verus!
