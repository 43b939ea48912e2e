//! The camera: screen-space coordinates to world-space rays, with
//! depth-of-field jitter from the lens disk and a random timestamp within
//! the shutter interval.

use vstd::prelude::*;

verus! {

use crate::fixed::{
    fx_wf, fxmul, fxdiv, fx_add, fx_sub, fx_mul, fx_div, lemma_fxmul_unit_bound,
    FX_ONE, FX_MAX,
};
use crate::ray::Ray;
use crate::rng::Rng;
use crate::trig::{spec_sin_deg, spec_cos_deg, fx_sin_deg, fx_cos_deg};
use crate::vec3::Vec3;

pub struct Camera {
    pub origin: Vec3,
    pub lower_left_corner: Vec3,
    pub horizontal: Vec3,
    pub vertical: Vec3,
    pub u: Vec3,
    pub v: Vec3,
    pub w: Vec3,
    pub lens_radius: i64,
    pub time0: i64,
    pub time1: i64,
}

/// The tangent of half the vertical field of view, from the quadrant-exact
/// sine and cosine; a straight-on half angle of a quarter turn (a degenerate
/// field of view) saturates instead of faulting.
pub open spec fn spec_half_tan(vfov: i64) -> i64 {
    let half = fxdiv(vfov as int, 2 * FX_ONE as int) as i64;
    let s = spec_sin_deg(half as int);
    let c = spec_cos_deg(half as int);
    if c == 0 {
        FX_MAX
    } else {
        fxdiv(s as int, c as int) as i64
    }
}

impl Camera {
    pub open spec fn wf(self) -> bool {
        &&& self.origin.wf()
        &&& self.lower_left_corner.wf()
        &&& self.horizontal.wf()
        &&& self.vertical.wf()
        &&& self.u.wf()
        &&& self.v.wf()
        &&& self.w.wf()
        &&& fx_wf(self.lens_radius)
        &&& fx_wf(self.time0)
        &&& fx_wf(self.time1)
        &&& self.time0 <= self.time1
    }

    /// Fix the viewing frame: an orthonormal-intent basis from the look
    /// direction and the up vector, a focus-plane viewport scaled by the
    /// field of view and aspect ratio, and the shutter interval.
    pub fn new(
        lookfrom: &Vec3,
        lookat: &Vec3,
        vup: &Vec3,
        vfov: i64,
        aspect_ratio: i64,
        aperture: i64,
        focus_dist: i64,
        _time0: i64,
        _time1: i64,
    ) -> (cam: Camera)
        requires
            lookfrom.wf(),
            lookat.wf(),
            vup.wf(),
            fx_wf(vfov),
            fx_wf(aspect_ratio),
            fx_wf(aperture),
            fx_wf(focus_dist),
            fx_wf(_time0),
            fx_wf(_time1),
            _time0 <= _time1,
        ensures
            cam.wf(),
            cam.origin == *lookfrom,
            cam.time0 == _time0,
            cam.time1 == _time1,
            cam.lens_radius == fxdiv(aperture as int, 2 * FX_ONE as int),
            cam.w == lookfrom.spec_sub(*lookat).spec_unit_vector(),
            cam.u == vup.spec_cross(cam.w).spec_unit_vector(),
            cam.v == cam.w.spec_cross(cam.u),
            cam.horizontal == cam.u.spec_scale(
                fxmul(
                    focus_dist as int,
                    fxmul(
                        aspect_ratio as int,
                        fxmul(2 * FX_ONE as int, spec_half_tan(vfov) as int),
                    ),
                ) as i64,
            ),
            cam.vertical == cam.v.spec_scale(
                fxmul(
                    focus_dist as int,
                    fxmul(2 * FX_ONE as int, spec_half_tan(vfov) as int),
                ) as i64,
            ),
            cam.lower_left_corner == lookfrom.spec_sub(
                cam.horizontal.spec_div_scalar((2 * FX_ONE) as i64),
            ).spec_sub(cam.vertical.spec_div_scalar((2 * FX_ONE) as i64)).spec_sub(
                cam.w.spec_scale(focus_dist),
            ),
    {
        let half = fx_div(vfov, 2 * FX_ONE);
        let s = fx_sin_deg(half);
        let c = fx_cos_deg(half);
        let h = if c == 0 {
            FX_MAX
        } else {
            fx_div(s, c)
        };
        let viewport_height = fx_mul(2 * FX_ONE, h);
        let viewport_width = fx_mul(aspect_ratio, viewport_height);
        let w = lookfrom.sub(lookat).unit_vector();
        let u = vup.cross(&w).unit_vector();
        let v = w.cross(&u);
        let origin = *lookfrom;
        let horizontal = u.scale(fx_mul(focus_dist, viewport_width));
        let vertical = v.scale(fx_mul(focus_dist, viewport_height));
        let lower_left_corner = origin.sub(&horizontal.div_scalar(2 * FX_ONE)).sub(
            &vertical.div_scalar(2 * FX_ONE),
        ).sub(&w.scale(focus_dist));
        let lens_radius = fx_div(aperture, 2 * FX_ONE);
        Camera {
            origin,
            lower_left_corner,
            horizontal,
            vertical,
            u,
            v,
            w,
            lens_radius,
            time0: _time0,
            time1: _time1,
        }
    }

    /// The ray through screen coordinates `(s, t)`: jittered on the lens
    /// disk, cast at a random time within the shutter interval.
    pub fn get_ray(&self, s: i64, t: i64, rng: &mut Rng) -> (r: Ray)
        requires
            self.wf(),
            fx_wf(s),
            fx_wf(t),
        ensures
            r.wf(),
            self.time0 <= r.tm <= self.time1,
            exists|rd: Vec3|
                rd.wf() && rd.spec_length_squared() < FX_ONE && rd.z == 0 && {
                    let offset = self.u.spec_scale(fxmul(rd.x as int, self.lens_radius as int) as i64)
                        .spec_add(
                        self.v.spec_scale(fxmul(rd.y as int, self.lens_radius as int) as i64),
                    );
                    #[trigger] r.origin == self.origin.spec_add(offset) && r.dir
                        == self.lower_left_corner.spec_add(self.horizontal.spec_scale(s)).spec_add(
                        self.vertical.spec_scale(t),
                    ).spec_sub(self.origin).spec_sub(offset)
                },
    {
        let rd0 = Vec3::random_unit_disk(rng);
        let rdx = fx_mul(rd0.x, self.lens_radius);
        let rdy = fx_mul(rd0.y, self.lens_radius);
        let offset = self.u.scale(rdx).add(&self.v.scale(rdy));
        let dt = fx_sub(self.time1, self.time0);
        let u01 = rng.next_unit();
        proof {
            lemma_fxmul_unit_bound(u01 as int, dt as int);
        }
        let time = fx_add(self.time0, fx_mul(u01, dt));
        let origin = self.origin.add(&offset);
        let dir = self.lower_left_corner.add(&self.horizontal.scale(s)).add(
            &self.vertical.scale(t),
        ).sub(&self.origin).sub(&offset);
        let r = Ray::new(&origin, &dir, time);
        proof {
            assert(rd0.wf() && rd0.spec_length_squared() < FX_ONE && rd0.z == 0 && r.origin
                == self.origin.spec_add(
                self.u.spec_scale(fxmul(rd0.x as int, self.lens_radius as int) as i64).spec_add(
                    self.v.spec_scale(fxmul(rd0.y as int, self.lens_radius as int) as i64),
                ),
            ));
        }
        r
    }
}

} // verus!
