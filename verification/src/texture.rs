//! Textures: albedo as a function of surface coordinates and position.

use crate::fixed::{div_trunc, fmul, fmul_spec, lemma_tdiv_monotone, lemma_tdiv_multiple,
    spec_clamp, tdiv, SCALE};
use crate::trig::{sin_fx, spec_sin};
use crate::vec3::{v_fits, vec3i, Vec3};
use std::rc::Rc;
use vstd::prelude::*;

verus! {

pub enum Texture {
    SolidColor(SolidColor),
    Checker(Checker),
    Image(Image),
}

pub struct SolidColor {
    pub color: Vec3,
}

pub struct Checker {
    pub odd: Rc<Texture>,
    pub even: Rc<Texture>,
}

/// A decoded raster image: `data` holds `height` scanlines of `line_size`
/// bytes, each pixel starting at a multiple of `bytes_per_pixel` with red,
/// green and blue first.
pub struct Image {
    pub data: Vec<u8>,
    pub width: usize,
    pub height: usize,
    pub line_size: usize,
    pub bytes_per_pixel: usize,
}

/// A color: every component within `[0, 1]`.
pub open spec fn color_wf(c: Vec3) -> bool {
    &&& 0 <= c.x <= SCALE
    &&& 0 <= c.y <= SCALE
    &&& 0 <= c.z <= SCALE
}

pub open spec fn image_wf(img: Image) -> bool {
    &&& 1 <= img.width <= 0x10_0000
    &&& 1 <= img.height <= 0x10_0000
    &&& 3 <= img.bytes_per_pixel <= 16
    &&& img.width * img.bytes_per_pixel <= img.line_size <= 0x1000_0000
    &&& img.data.len() == img.height * img.line_size
}

pub open spec fn tex_wf(t: Texture) -> bool
    decreases t,
{
    match t {
        Texture::SolidColor(sc) => color_wf(sc.color),
        Texture::Checker(c) => tex_wf(*c.odd) && tex_wf(*c.even),
        Texture::Image(img) => image_wf(img),
    }
}

/// The image lookup: clamp the coordinates, flip `v`, index the pixel, and
/// scale each byte into `[0, 1]`.
pub open spec fn spec_image_value(img: Image, u: int, v: int) -> Vec3 {
    let uc = spec_clamp(u, 0, SCALE as int);
    let vc = (SCALE as int) - spec_clamp(v, 0, SCALE as int);
    let i0 = tdiv(uc * img.width, SCALE as int);
    let j0 = tdiv(vc * img.height, SCALE as int);
    let i = if i0 > img.width - 1 {
        img.width - 1
    } else {
        i0
    };
    let j = if j0 > img.height - 1 {
        img.height - 1
    } else {
        j0
    };
    let idx = j * img.line_size + i * img.bytes_per_pixel;
    vec3i(
        tdiv((img.data[idx] as int) * (SCALE as int), 255),
        tdiv((img.data[idx + 1] as int) * (SCALE as int), 255),
        tdiv((img.data[idx + 2] as int) * (SCALE as int), 255),
    )
}

/// What a texture answers at surface coordinates `(u, v)` and position `p`.
pub open spec fn spec_texture_value(t: Texture, u: int, v: int, p: Vec3) -> Vec3
    decreases t,
{
    match t {
        Texture::SolidColor(sc) => sc.color,
        Texture::Checker(c) => {
            let sines = fmul_spec(
                fmul_spec(spec_sin(10 * p.x), spec_sin(10 * p.y)),
                spec_sin(10 * p.z),
            );
            if sines < 0 {
                spec_texture_value(*c.odd, u, v, p)
            } else {
                spec_texture_value(*c.even, u, v, p)
            }
        },
        Texture::Image(img) => spec_image_value(img, u, v),
    }
}

impl SolidColor {
    pub fn new(r: i64, g: i64, b: i64) -> (res: SolidColor)
        ensures
            res.color == (Vec3 { x: r, y: g, z: b }),
    {
        SolidColor { color: Vec3 { x: r, y: g, z: b } }
    }

    pub fn from_color(color: Vec3) -> (res: SolidColor)
        ensures
            res.color == color,
    {
        SolidColor { color }
    }
}

impl Checker {
    pub fn new(odd: Rc<Texture>, even: Rc<Texture>) -> (res: Checker)
        ensures
            res.odd == odd,
            res.even == even,
    {
        Checker { odd, even }
    }
}

impl Image {
    /// Wrap a decoded pixel buffer, rejecting dimensions that do not
    /// describe it; a failed decode must not reach the sampling hot path.
    pub fn new(
        data: Vec<u8>,
        width: usize,
        height: usize,
        line_size: usize,
        bytes_per_pixel: usize,
    ) -> (res: Option<Image>)
        ensures
            match res {
                Some(img) => {
                    &&& image_wf(img)
                    &&& img.data == data
                    &&& img.width == width
                    &&& img.height == height
                    &&& img.line_size == line_size
                    &&& img.bytes_per_pixel == bytes_per_pixel
                },
                None => !image_wf(
                    Image { data, width, height, line_size, bytes_per_pixel },
                ),
            },
    {
        if 1 <= width && width <= 0x10_0000 && 1 <= height && height <= 0x10_0000 && 3
            <= bytes_per_pixel && bytes_per_pixel <= 16 && line_size <= 0x1000_0000 && width
            <= line_size / bytes_per_pixel && data.len() / height == line_size && data.len()
            % height == 0 {
            proof {
                vstd::arithmetic::div_mod::lemma_fundamental_div_mod(
                    data.len() as int,
                    height as int,
                );
                assert(width * bytes_per_pixel <= (line_size / bytes_per_pixel)
                    * bytes_per_pixel <= line_size) by (nonlinear_arith)
                    requires
                        width <= line_size / bytes_per_pixel,
                        bytes_per_pixel >= 1,
                        line_size >= 0,
                ;
            }
            Some(Image { data, width, height, line_size, bytes_per_pixel })
        } else {
            proof {
                if image_wf(Image { data, width, height, line_size, bytes_per_pixel }) {
                    lemma_image_wf_shape(
                        Image { data, width, height, line_size, bytes_per_pixel },
                    );
                }
            }
            None
        }
    }
}

/// The well-formedness conditions written with division, as the constructor
/// tests them.
proof fn lemma_image_wf_shape(img: Image)
    requires
        image_wf(img),
    ensures
        img.width <= img.line_size / img.bytes_per_pixel,
        img.data.len() / img.height == img.line_size,
        img.data.len() % img.height == 0,
        img.line_size <= 0x1000_0000,
{
    assert(img.width <= img.line_size / img.bytes_per_pixel) by {
        crate::fixed::lemma_mul_le(img.width as int, img.line_size as int,
            img.bytes_per_pixel as int);
        assert(img.width * img.bytes_per_pixel == (img.width as int)
            * (img.bytes_per_pixel as int));
    }
    assert(img.data.len() / img.height == img.line_size && img.data.len() % img.height == 0) by {
        assert(img.data.len() as int == (img.line_size as int) * (img.height as int) + 0)
            by (nonlinear_arith)
            requires
                img.data.len() == img.height * img.line_size,
        ;
        vstd::arithmetic::div_mod::lemma_fundamental_div_mod_converse(
            img.data.len() as int,
            img.height as int,
            img.line_size as int,
            0,
        );
    }
}

impl Texture {
    /// Sample the texture; see `spec_texture_value`.
    pub fn value(&self, u: i64, v: i64, p: &Vec3) -> (r: Vec3)
        requires
            tex_wf(*self),
            v_fits(*p),
        ensures
            r == spec_texture_value(*self, u as int, v as int, *p),
            color_wf(r),
        decreases *self,
    {
        match self {
            Texture::SolidColor(sc) => sc.color,
            Texture::Checker(c) => {
                proof {
                    crate::vec3::lemma_mul_bound(10, p.x as int, 10, 0x4000_0000);
                    crate::vec3::lemma_mul_bound(10, p.y as int, 10, 0x4000_0000);
                    crate::vec3::lemma_mul_bound(10, p.z as int, 10, 0x4000_0000);
                }
                let sx = sin_fx(10 * p.x);
                let sy = sin_fx(10 * p.y);
                let sz = sin_fx(10 * p.z);
                proof {
                    crate::vec3::lemma_fmul_bound(sx as int, sy as int, 65536, 65536);
                    crate::vec3::lemma_fmul_bound(
                        fmul_spec(sx as int, sy as int),
                        sz as int,
                        65536,
                        65536,
                    );
                }
                let sines = fmul(fmul(sx, sy), sz);
                if sines < 0 {
                    c.odd.value(u, v, p)
                } else {
                    c.even.value(u, v, p)
                }
            },
            Texture::Image(img) => image_value(img, u, v),
        }
    }
}

/// The image texture lookup.
fn image_value(img: &Image, u: i64, v: i64) -> (r: Vec3)
    requires
        image_wf(*img),
    ensures
        r == spec_image_value(*img, u as int, v as int),
        color_wf(r),
{
    let uc = crate::fixed::clamp(u, 0, SCALE);
    let vc = SCALE - crate::fixed::clamp(v, 0, SCALE);
    proof {
        lemma_scaled_index(uc as int, img.width as int);
        lemma_scaled_index(vc as int, img.height as int);
    }
    let i0 = div_trunc((uc as i128) * (img.width as i128), SCALE as i128) as usize;
    let j0 = div_trunc((vc as i128) * (img.height as i128), SCALE as i128) as usize;
    let i = if i0 > img.width - 1 {
        img.width - 1
    } else {
        i0
    };
    let j = if j0 > img.height - 1 {
        img.height - 1
    } else {
        j0
    };
    proof {
        lemma_pixel_index(*img, i as int, j as int);
    }
    let idx = j * img.line_size + i * img.bytes_per_pixel;
    let r0 = img.data[idx];
    let g0 = img.data[idx + 1];
    let b0 = img.data[idx + 2];
    proof {
        lemma_byte_scale(r0 as int);
        lemma_byte_scale(g0 as int);
        lemma_byte_scale(b0 as int);
    }
    Vec3 {
        x: div_trunc((r0 as i128) * (SCALE as i128), 255) as i64,
        y: div_trunc((g0 as i128) * (SCALE as i128), 255) as i64,
        z: div_trunc((b0 as i128) * (SCALE as i128), 255) as i64,
    }
}

/// `0 <= c <= SCALE` keeps the scaled index within `[0, n]`.
proof fn lemma_scaled_index(c: int, n: int)
    requires
        0 <= c <= SCALE as int,
        1 <= n,
    ensures
        0 <= tdiv(c * n, SCALE as int) <= n,
{
    assert(0 <= c * n <= 65536 * n) by (nonlinear_arith)
        requires
            0 <= c <= 65536,
            1 <= n,
    ;
    lemma_tdiv_monotone(0, c * n, 65536);
    lemma_tdiv_monotone(c * n, 65536int * n, 65536);
    lemma_tdiv_multiple(n, 65536);
    assert(65536 * n == n * 65536);
}

/// Clamped pixel coordinates index inside the buffer with room for three
/// bytes.
proof fn lemma_pixel_index(img: Image, i: int, j: int)
    requires
        image_wf(img),
        0 <= i <= img.width - 1,
        0 <= j <= img.height - 1,
    ensures
        j * img.line_size + i * img.bytes_per_pixel + 2 < img.data.len(),
        j * img.line_size + i * img.bytes_per_pixel <= 0x1_0000_0000_0000,
{
    let w = img.width as int;
    let h = img.height as int;
    let ls = img.line_size as int;
    let bpp = img.bytes_per_pixel as int;
    assert(j * ls <= (h - 1) * ls && (h - 1) * ls == h * ls - ls) by (nonlinear_arith)
        requires
            0 <= j <= h - 1,
            ls >= 0,
    ;
    assert(i * bpp <= (w - 1) * bpp && (w - 1) * bpp == w * bpp - bpp) by (nonlinear_arith)
        requires
            0 <= i <= w - 1,
            bpp >= 0,
    ;
    assert(img.data.len() == h * ls) by (nonlinear_arith)
        requires
            img.data.len() == img.height * img.line_size,
            h == img.height as int,
            ls == img.line_size as int,
    ;
    assert(h * ls <= 0x10_0000 * 0x1000_0000 && w * bpp <= ls) by (nonlinear_arith)
        requires
            1 <= h <= 0x10_0000,
            0 <= ls <= 0x1000_0000,
            w * bpp <= ls,
    ;
}

/// A byte scaled by `SCALE / 255` is a color component.
proof fn lemma_byte_scale(b: int)
    requires
        0 <= b <= 255,
    ensures
        0 <= tdiv(b * (SCALE as int), 255) <= SCALE as int,
{
    assert(0 <= b * 65536 <= 255 * 65536) by (nonlinear_arith)
        requires
            0 <= b <= 255,
    ;
    lemma_tdiv_monotone(0, b * 65536, 255);
    lemma_tdiv_monotone(b * 65536, 255int * 65536, 255);
    lemma_tdiv_multiple(65536, 255);
}

} // verus!
