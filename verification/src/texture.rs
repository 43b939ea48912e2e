//! Textures: a color field over a hit's surface or volume coordinates.
//!
//! Solid colors, the three-dimensional checker and image sampling have exact
//! spec mirrors (`pinned` textures); the Perlin-noise texture depends on its
//! gradient tables only through an approximation, so its contract is a
//! well-formedness bound.

use vstd::prelude::*;

verus! {

use crate::fixed::{
    fx_wf, fxsub, fxmul, fxclamp, fx_add, fx_sub, fx_mul, fx_clamp, FX_ONE,
    };
use crate::perlin::Perlin;
use crate::trig::{spec_sin, fx_sin};
use crate::vec3::Vec3;

pub struct SolidColor {
    pub color_value: Vec3,
}

pub struct CheckerTexture {
    pub odd: Box<Texture>,
    pub even: Box<Texture>,
}

pub struct NoiseTexture {
    pub noise: Perlin,
    pub scale: i64,
}

/// Decoded image data: tightly packed rows of three bytes per pixel.
pub struct ImageTexture {
    pub data: Vec<u8>,
    pub width: usize,
    pub height: usize,
    pub bytes_per_scanline: usize,
}

pub enum Texture {
    SolidColor(SolidColor),
    CheckerTexture(CheckerTexture),
    NoiseTexture(NoiseTexture),
    ImageTexture(ImageTexture),
}

impl SolidColor {
    pub fn new(color: &Vec3) -> (r: SolidColor)
        ensures
            r.color_value == *color,
    {
        SolidColor { color_value: *color }
    }

    pub fn new_with_values(red: i64, green: i64, blue: i64) -> (r: SolidColor)
        ensures
            r.color_value == (Vec3 { x: red, y: green, z: blue }),
    {
        SolidColor::new(&Vec3::new(red, green, blue))
    }
}

impl CheckerTexture {
    pub fn new(_even: Texture, _odd: Texture) -> (r: CheckerTexture)
        ensures
            *r.odd == _odd,
            *r.even == _even,
    {
        CheckerTexture { odd: Box::new(_odd), even: Box::new(_even) }
    }

    pub fn new_with_color(c1: &Vec3, c2: &Vec3) -> (r: CheckerTexture)
        ensures
            *r.odd == Texture::SolidColor(SolidColor { color_value: *c2 }),
            *r.even == Texture::SolidColor(SolidColor { color_value: *c1 }),
    {
        CheckerTexture {
            odd: Box::new(Texture::SolidColor(SolidColor::new(c2))),
            even: Box::new(Texture::SolidColor(SolidColor::new(c1))),
        }
    }
}

impl NoiseTexture {
    pub fn new(sc: i64, noise: Perlin) -> (r: NoiseTexture)
        ensures
            r.scale == sc,
            r.noise == noise,
    {
        NoiseTexture { scale: sc, noise }
    }
}

impl ImageTexture {
    /// Wrap already-decoded pixel rows. An empty image is the defined
    /// "no data" state, rendered as solid cyan.
    pub fn new(data: Vec<u8>, width: usize, height: usize) -> (r: ImageTexture)
        requires
            data@.len() == 3 * width * height,
            width < 10000,
            height < 10000,
        ensures
            r.data == data,
            r.width == width,
            r.height == height,
            r.bytes_per_scanline == 3 * width,
    {
        let bytes_per_scanline = 3 * width;
        ImageTexture { data, width, height, bytes_per_scanline }
    }

    pub open spec fn wf(self) -> bool {
        self.data@.len() == 3 * self.width * self.height && self.bytes_per_scanline == 3
            * self.width && self.width < 10000 && self.height < 10000
    }

    /// Clamp the coordinates into the unit square, map them to a pixel, and
    /// scale each byte into `[0, 1]`; cyan when no data is present.
    pub open spec fn spec_value(self, u: i64, v: i64) -> Vec3 {
        if self.data@.len() == 0 {
            Vec3 { x: 0, y: FX_ONE, z: FX_ONE }
        } else {
            let cu = fxclamp(u as int, 0, FX_ONE as int);
            let cv = fxsub(FX_ONE as int, fxclamp(v as int, 0, FX_ONE as int));
            let i0 = fxmul(cu, self.width as int) / (FX_ONE as int);
            let j0 = fxmul(cv, self.height as int) / (FX_ONE as int);
            let i = if i0 >= self.width {
                self.width as int - 1
            } else {
                i0
            };
            let j = if j0 >= self.height {
                self.height as int - 1
            } else {
                j0
            };
            let pos = j * self.bytes_per_scanline + i * 3;
            Vec3 {
                x: (self.data@[pos] as int * 257) as i64,
                y: (self.data@[pos + 1] as int * 257) as i64,
                z: (self.data@[pos + 2] as int * 257) as i64,
            }
        }
    }
}

impl Texture {
    pub open spec fn wf(self) -> bool
        decreases self,
    {
        match self {
            Texture::SolidColor(s) => s.color_value.wf(),
            Texture::CheckerTexture(c) => c.odd.wf() && c.even.wf(),
            Texture::NoiseTexture(n) => n.noise.wf() && fx_wf(n.scale),
            Texture::ImageTexture(im) => im.wf(),
        }
    }

    /// Whether evaluation has an exact mirror: everything but noise.
    pub open spec fn pinned(self) -> bool
        decreases self,
    {
        match self {
            Texture::SolidColor(_) => true,
            Texture::CheckerTexture(c) => c.odd.pinned() && c.even.pinned(),
            Texture::NoiseTexture(_) => false,
            Texture::ImageTexture(_) => true,
        }
    }

    /// The color field, as a mathematical function of the coordinates. The
    /// noise texture is not pinned and maps to black here.
    pub open spec fn spec_value(self, u: i64, v: i64, p: Vec3) -> Vec3
        decreases self,
    {
        match self {
            Texture::SolidColor(s) => s.color_value,
            Texture::CheckerTexture(c) => {
                let sines = fxmul(
                    fxmul(
                        spec_sin(fxmul(10 * FX_ONE as int, p.x as int)),
                        spec_sin(fxmul(10 * FX_ONE as int, p.y as int)),
                    ),
                    spec_sin(fxmul(10 * FX_ONE as int, p.z as int)),
                );
                if sines < 0 {
                    c.odd.spec_value(u, v, p)
                } else {
                    c.even.spec_value(u, v, p)
                }
            },
            Texture::NoiseTexture(_) => Vec3::spec_zero(),
            Texture::ImageTexture(im) => im.spec_value(u, v),
        }
    }

    /// Evaluate the color field; exact against `spec_value` for pinned
    /// textures, well-formed always.
    pub fn value(&self, u: i64, v: i64, p: &Vec3) -> (res: Vec3)
        requires
            self.wf(),
            fx_wf(u),
            fx_wf(v),
            p.wf(),
        ensures
            self.pinned() ==> res == self.spec_value(u, v, *p),
            res.wf(),
        decreases *self,
    {
        match self {
            Texture::SolidColor(s) => s.color_value,
            Texture::CheckerTexture(c) => {
                let sx = fx_sin(fx_mul(10 * FX_ONE, p.x));
                let sy = fx_sin(fx_mul(10 * FX_ONE, p.y));
                let sz = fx_sin(fx_mul(10 * FX_ONE, p.z));
                let sines = fx_mul(fx_mul(sx, sy), sz);
                if sines < 0 {
                    c.odd.value(u, v, p)
                } else {
                    c.even.value(u, v, p)
                }
            },
            Texture::NoiseTexture(n) => {
                let turb = n.noise.turb(&p.scale(n.scale), 7);
                let phase = fx_add(fx_mul(n.scale, p.z), fx_mul(10 * FX_ONE, turb));
                let s = fx_sin(phase);
                let half = fx_mul(fx_add(FX_ONE, s), 32768);
                Vec3::new(half, half, half)
            },
            Texture::ImageTexture(im) => {
                if im.data.len() == 0 {
                    return Vec3::new(0, FX_ONE, FX_ONE);
                }
                proof {
                    assert(im.width > 0 && im.height > 0) by (nonlinear_arith)
                        requires
                            3 * (im.width as int) * (im.height as int) > 0,
                    ;
                }
                let cu = fx_clamp(u, 0, FX_ONE);
                let cv = fx_sub(FX_ONE, fx_clamp(v, 0, FX_ONE));
                proof {
                    crate::fixed::lemma_fxmul_unit_bound(cu as int, im.width as int);
                    crate::fixed::lemma_fxmul_unit_bound(cv as int, im.height as int);
                }
                let iw = fx_mul(cu, im.width as i64);
                let jh = fx_mul(cv, im.height as i64);
                let i0 = ((iw as u64) / (FX_ONE as u64)) as usize;
                let j0 = ((jh as u64) / (FX_ONE as u64)) as usize;
                let i = if i0 >= im.width {
                    im.width - 1
                } else {
                    i0
                };
                let j = if j0 >= im.height {
                    im.height - 1
                } else {
                    j0
                };
                proof {
                    lemma_pixel_index(im.width as int, im.height as int, i as int, j as int);
                }
                let pos = j * im.bytes_per_scanline + i * 3;
                let b0 = im.data[pos];
                let b1 = im.data[pos + 1];
                let b2 = im.data[pos + 2];
                Vec3::new((b0 as i64) * 257, (b1 as i64) * 257, (b2 as i64) * 257)
            },
        }
    }
}

/// A pixel inside the image addresses three bytes inside the data.
proof fn lemma_pixel_index(w: int, h: int, i: int, j: int)
    requires
        0 <= i < w,
        0 <= j < h,
        w < 10000,
        h < 10000,
    ensures
        0 <= j * (3 * w) + i * 3,
        j * (3 * w) + i * 3 + 2 < 3 * w * h,
{
    assert(j * (3 * w) + i * 3 + 2 < 3 * w * h && 0 <= j * (3 * w) + i * 3) by (nonlinear_arith)
        requires
            0 <= i < w,
            0 <= j < h,
    ;
}

} // verus!
