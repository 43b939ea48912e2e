//! Perlin noise: a table of random gradient vectors addressed through three
//! shuffled permutation tables, interpolated trilinearly with a smoothstep.
//!
//! The tables are drawn from the explicit random source at construction;
//! evaluation is then deterministic. The contracts pin the table shapes and
//! the range bounds that make every lookup safe; the interpolated value
//! itself is an approximation with no exact statement to hold it to.

use vstd::prelude::*;

verus! {

use crate::fixed::{
    fx_wf, fx_add, fx_sub, fx_mul, fx_mod, fx_abs, FX_ONE, };
use crate::rng::Rng;
use crate::vec3::Vec3;

/// The number of gradient vectors and permutation entries.
pub const POINT_COUNT: usize = 256;

pub struct Perlin {
    pub ranvec: Vec<Vec3>,
    pub perm_x: Vec<i64>,
    pub perm_y: Vec<i64>,
    pub perm_z: Vec<i64>,
}

/// A permutation table has full length and every entry addresses a gradient.
pub open spec fn perm_wf(p: Seq<i64>) -> bool {
    p.len() == POINT_COUNT && (forall|i: int| 0 <= i < p.len() ==> 0 <= #[trigger] p[i] < 256)
}

impl Perlin {
    pub open spec fn wf(self) -> bool {
        &&& self.ranvec@.len() == POINT_COUNT
        &&& (forall|i: int| 0 <= i < self.ranvec@.len() ==> (#[trigger] self.ranvec@[i]).wf())
        &&& perm_wf(self.perm_x@)
        &&& perm_wf(self.perm_y@)
        &&& perm_wf(self.perm_z@)
    }

    /// A fresh identity table shuffled by repeated random swaps.
    fn perlin_generate_perm(rng: &mut Rng) -> (p: Vec<i64>)
        ensures
            perm_wf(p@),
    {
        let mut p: Vec<i64> = Vec::new();
        let mut i: usize = 0;
        while i < POINT_COUNT
            invariant
                p@.len() == i,
                i <= POINT_COUNT,
                forall|j: int| 0 <= j < p@.len() ==> 0 <= #[trigger] p@[j] < 256,
            decreases POINT_COUNT - i,
        {
            p.push(i as i64);
            i = i + 1;
        }
        let mut k: usize = POINT_COUNT - 1;
        while k >= 1
            invariant
                p@.len() == POINT_COUNT,
                k < POINT_COUNT,
                forall|j: int| 0 <= j < p@.len() ==> 0 <= #[trigger] p@[j] < 256,
            decreases k,
        {
            let target = rng.next_below((k as u64) + 1) as usize;
            let tmp = p[k];
            let other = p[target];
            p[k] = other;
            p[target] = tmp;
            k = k - 1;
        }
        p
    }

    pub fn new(rng: &mut Rng) -> (r: Perlin)
        ensures
            r.wf(),
    {
        let mut ranvec: Vec<Vec3> = Vec::new();
        let mut i: usize = 0;
        while i < POINT_COUNT
            invariant
                ranvec@.len() == i,
                i <= POINT_COUNT,
                forall|j: int| 0 <= j < ranvec@.len() ==> (#[trigger] ranvec@[j]).wf(),
            decreases POINT_COUNT - i,
        {
            let v = Vec3::random_by_range(-FX_ONE, FX_ONE, rng);
            ranvec.push(v.unit_vector());
            i = i + 1;
        }
        let perm_x = Self::perlin_generate_perm(rng);
        let perm_y = Self::perlin_generate_perm(rng);
        let perm_z = Self::perlin_generate_perm(rng);
        Perlin { ranvec, perm_x, perm_y, perm_z }
    }

    /// The gradient cell coordinate (modulo the table size) and intra-cell
    /// fraction of one axis.
    fn floor_frac(x: i64) -> (r: (i64, i64))
        requires
            fx_wf(x),
        ensures
            0 <= r.1 < FX_ONE,
            0 <= r.0 < 256,
    {
        let frac = fx_mod(x, FX_ONE);
        let m = fx_mod(x, 256 * FX_ONE);
        let cell = ((m as u64) / (FX_ONE as u64)) as i64;
        proof {
            let mi = m as int;
            let s = FX_ONE as int;
            vstd::arithmetic::div_mod::lemma_fundamental_div_mod(mi, s);
            assert(mi / s < 256) by (nonlinear_arith)
                requires
                    mi == s * (mi / s) + mi % s,
                    0 <= mi % s < s,
                    mi < 256 * s,
                    s > 0,
            ;
            vstd::arithmetic::div_mod::lemma_div_pos_is_pos(mi, s);
        }
        (cell, frac)
    }

    /// Smoothstep weight `t * t * (3 - 2t)`.
    fn smooth(t: i64) -> (r: i64)
        requires
            0 <= t <= FX_ONE,
        ensures
            fx_wf(r),
    {
        let t2 = fx_mul(t, t);
        fx_mul(t2, fx_sub(3 * FX_ONE, fx_add(t, t)))
    }

    /// Noise at a point: gradients at the eight surrounding lattice corners,
    /// blended with smoothstep weights. Deterministic in the tables; bounded
    /// by well-formedness.
    pub fn noise(&self, p: &Vec3) -> (r: i64)
        requires
            self.wf(),
            p.wf(),
        ensures
            fx_wf(r),
    {
        let iu = Self::floor_frac(p.x);
        let jv = Self::floor_frac(p.y);
        let kw = Self::floor_frac(p.z);
        let i = iu.0;
        let u = iu.1;
        let j = jv.0;
        let v = jv.1;
        let k = kw.0;
        let w = kw.1;
        let uu = Self::smooth(u);
        let vv = Self::smooth(v);
        let ww = Self::smooth(w);
        let mut accum: i64 = 0;
        let mut di: usize = 0;
        while di < 2
            invariant
                self.wf(),
                fx_wf(accum),
                0 <= i < 256,
                0 <= j < 256,
                0 <= k < 256,
                fx_wf(u),
                fx_wf(v),
                fx_wf(w),
                fx_wf(uu),
                fx_wf(vv),
                fx_wf(ww),
                p.wf(),
            decreases 2 - di,
        {
            let mut dj: usize = 0;
            while dj < 2
                invariant
                    self.wf(),
                    fx_wf(accum),
                    0 <= i < 256,
                    0 <= j < 256,
                    0 <= k < 256,
                    fx_wf(u),
                    fx_wf(v),
                    fx_wf(w),
                    fx_wf(uu),
                    fx_wf(vv),
                    fx_wf(ww),
                    di < 2,
                    p.wf(),
                decreases 2 - dj,
            {
                let mut dk: usize = 0;
                while dk < 2
                    invariant
                        self.wf(),
                        fx_wf(accum),
                        0 <= i < 256,
                        0 <= j < 256,
                        0 <= k < 256,
                        fx_wf(u),
                        fx_wf(v),
                        fx_wf(w),
                        fx_wf(uu),
                        fx_wf(vv),
                        fx_wf(ww),
                        di < 2,
                        dj < 2,
                        p.wf(),
                    decreases 2 - dk,
                {
                    let ix = ((i as usize) + di) % 256;
                    let iy = ((j as usize) + dj) % 256;
                    let iz = ((k as usize) + dk) % 256;
                    let px = self.perm_x[ix];
                    let py = self.perm_y[iy];
                    let pz = self.perm_z[iz];
                    let idx = ((px as usize) ^ (py as usize)) ^ (pz as usize);
                    proof {
                        assert(((px as usize) ^ (py as usize)) < 256 && (((px as usize) ^ (
                        py as usize)) ^ (pz as usize)) < 256) by (bit_vector)
                            requires
                                (px as usize) < 256,
                                (py as usize) < 256,
                                (pz as usize) < 256,
                        ;
                    }
                    let g = self.ranvec[idx];
                    let wx = if di == 1 {
                        fx_sub(u, FX_ONE)
                    } else {
                        u
                    };
                    let wy = if dj == 1 {
                        fx_sub(v, FX_ONE)
                    } else {
                        v
                    };
                    let wz = if dk == 1 {
                        fx_sub(w, FX_ONE)
                    } else {
                        w
                    };
                    let weight_v = Vec3::new(wx, wy, wz);
                    let fu = if di == 1 {
                        uu
                    } else {
                        fx_sub(FX_ONE, uu)
                    };
                    let fv = if dj == 1 {
                        vv
                    } else {
                        fx_sub(FX_ONE, vv)
                    };
                    let fw = if dk == 1 {
                        ww
                    } else {
                        fx_sub(FX_ONE, ww)
                    };
                    let part = fx_mul(fx_mul(fx_mul(fu, fv), fw), g.dot(&weight_v));
                    accum = fx_add(accum, part);
                    dk = dk + 1;
                }
                dj = dj + 1;
            }
            di = di + 1;
        }
        accum
    }

    /// Turbulence: a sum of noise octaves at doubling frequency and halving
    /// weight, taken by magnitude.
    pub fn turb(&self, p: &Vec3, depth: u32) -> (r: i64)
        requires
            self.wf(),
            p.wf(),
        ensures
            fx_wf(r),
            r >= 0,
    {
        let mut accum: i64 = 0;
        let mut temp_p = *p;
        let mut weight: i64 = FX_ONE;
        let mut n: u32 = 0;
        while n < depth
            invariant
                self.wf(),
                fx_wf(accum),
                temp_p.wf(),
                fx_wf(weight),
            decreases depth - n,
        {
            let noise = self.noise(&temp_p);
            accum = fx_add(accum, fx_mul(weight, noise));
            weight = fx_mul(weight, 32768);
            temp_p = temp_p.scale(2 * FX_ONE);
            n = n + 1;
        }
        fx_abs(accum)
    }
}

} // verus!
