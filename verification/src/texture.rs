//! Textures: constant colors, a three-dimensional checker lattice, and
//! nearest-pixel lookup in a decoded bitmap.

use vstd::prelude::*;
use crate::fixed::{clip, fx_div_sat, sdiv, tdiv, CMAX, SCALE};
use crate::vec3::{bounded, Color, Vec3};

verus! {

/// A texture coordinate, both components fixed-point values in `[0, 1]`.
#[derive(Debug, Clone, Copy, PartialEq, Eq, Structural)]
pub struct TexCoord {
    pub u: i64,
    pub v: i64,
}

impl TexCoord {
    pub fn new(u: i64, v: i64) -> (r: Self)
        ensures
            r == (TexCoord { u, v }),
    {
        TexCoord { u, v }
    }
}

/// A decoded bitmap: `height` rows of `width` 8-bit RGB triples, row-major.
pub struct ImageGrid {
    pub width: usize,
    pub height: usize,
    pub data: Vec<u8>,
}

pub open spec fn grid_wf(g: ImageGrid) -> bool {
    &&& 1 <= g.width <= 16384
    &&& 1 <= g.height <= 16384
    &&& g.data.len() == 3 * g.width * g.height
}

impl ImageGrid {
    /// Wrap a decoded pixel grid; rejects dimensions that do not match the
    /// data or exceed the supported size.
    pub fn new(width: usize, height: usize, data: Vec<u8>) -> (r: Option<ImageGrid>)
        ensures
            match r {
                Some(g) => g.width == width && g.height == height && g.data == data
                    && grid_wf(g),
                None => !(1 <= width <= 16384 && 1 <= height <= 16384
                    && data.len() == 3 * width * height),
            },
    {
        if width < 1 || width > 16384 || height < 1 || height > 16384 {
            return None;
        }
        proof {
            crate::fixed::lemma_mul_bound(width as int, height as int, 16384, 16384);
        }
        let wh = width * height;
        proof {
            assert(3 * width as int * height as int == 3 * (width as int * height as int))
                by (nonlinear_arith);
        }
        if data.len() == 3 * wh {
            Some(ImageGrid { width, height, data })
        } else {
            None
        }
    }
}

pub struct SolidColor {
    pub color: Color,
}

pub struct CheckerTexture {
    pub inv_scale: i64,
    pub even_texture: Box<Texture>,
    pub odd_texture: Box<Texture>,
}

pub struct ImageTexture {
    pub image: ImageGrid,
}

/// The closed set of texture kinds.
pub enum Texture {
    Solid(SolidColor),
    Checker(CheckerTexture),
    Image(ImageTexture),
}

/// Texture well-formedness: colors and scales in range, bitmaps consistent.
pub open spec fn tex_wf(t: Texture) -> bool
    decreases t,
{
    match t {
        Texture::Solid(s) => bounded(s.color, CMAX as int),
        Texture::Checker(c) => {
            &&& -CMAX <= c.inv_scale <= CMAX
            &&& tex_wf(*c.even_texture)
            &&& tex_wf(*c.odd_texture)
        },
        Texture::Image(i) => grid_wf(i.image),
    }
}

/// The checker lattice parity at `p`: the sum of the floors of the three
/// scaled coordinates, even or odd.
pub open spec fn checker_is_even(inv_scale: int, p: Vec3) -> bool {
    let cell = (inv_scale * p.x) / (SCALE as int * SCALE as int)
        + (inv_scale * p.y) / (SCALE as int * SCALE as int)
        + (inv_scale * p.z) / (SCALE as int * SCALE as int);
    cell % 2 == 0
}

/// The color a texture yields at a surface coordinate and world point.
pub open spec fn spec_sample(t: Texture, uv: TexCoord, p: Vec3) -> Color
    decreases t,
{
    match t {
        Texture::Solid(s) => s.color,
        Texture::Checker(c) => if checker_is_even(c.inv_scale as int, p) {
            spec_sample(*c.even_texture, uv, p)
        } else {
            spec_sample(*c.odd_texture, uv, p)
        },
        Texture::Image(i) => spec_image_sample(i.image, uv),
    }
}

/// Nearest-pixel bitmap lookup: `u` selects the column, `1 - v` the row
/// (bitmap rows run top to bottom), channels scaled back to `[0, 1]`.
pub open spec fn spec_image_sample(g: ImageGrid, uv: TexCoord) -> Color {
    let u = if uv.u < 0 { 0 } else if uv.u > SCALE { SCALE as int } else { uv.u as int };
    let v = SCALE - (if uv.v < 0 { 0 } else if uv.v > SCALE { SCALE as int } else { uv.v as int });
    let i0 = tdiv(u * g.width, SCALE as int);
    let j0 = tdiv(v * g.height, SCALE as int);
    let i = if i0 >= g.width { g.width - 1 } else { i0 };
    let j = if j0 >= g.height { g.height - 1 } else { j0 };
    let base = 3 * (j * g.width + i);
    Vec3 {
        x: tdiv(g.data@[base] * SCALE, 255) as i64,
        y: tdiv(g.data@[base + 1] * SCALE, 255) as i64,
        z: tdiv(g.data@[base + 2] * SCALE, 255) as i64,
    }
}

/// A unit-scale checker instance, pinned on the ground: the cell centered at
/// one half on every axis is even, stepping one cell along x flips the
/// parity, and so does crossing zero (floors are sign-correct).
pub proof fn lemma_checker_unit_cells()
    ensures
        checker_is_even(SCALE as int, Vec3 { x: 32768i64, y: 32768i64, z: 32768i64 }),
        !checker_is_even(SCALE as int, Vec3 { x: 98304i64, y: 32768i64, z: 32768i64 }),
        !checker_is_even(SCALE as int, Vec3 { x: (-32768) as i64, y: 32768i64, z: 32768i64 }),
{
    assert(65536int * 32768int == 2147483648
        && 65536int * 98304int == 6442450944
        && 65536int * (-32768int) == -2147483648
        && SCALE as int * SCALE as int == 4294967296) by (nonlinear_arith);
    assert(2147483648int / 4294967296int == 0) by (nonlinear_arith);
    assert(6442450944int / 4294967296int == 1) by (nonlinear_arith);
    assert((-2147483648int) / 4294967296int == -1) by (nonlinear_arith);
}

impl CheckerTexture {
    /// A checker of two textures; cells have the given fixed-point scale.
    pub fn new(scale: i64, even_texture: Box<Texture>, odd_texture: Box<Texture>) -> (r: Self)
        requires
            scale != 0,
        ensures
            r.inv_scale == clip(crate::fixed::sdiv(SCALE as int, scale as int), CMAX as int),
            r.even_texture == even_texture,
            r.odd_texture == odd_texture,
            tex_wf(*even_texture) && tex_wf(*odd_texture) ==> tex_wf(Texture::Checker(r)),
    {
        CheckerTexture { inv_scale: fx_div_sat(SCALE, scale, CMAX), even_texture, odd_texture }
    }

    /// A checker of two solid colors.
    pub fn from_colors(scale: i64, even_color: Color, odd_color: Color) -> (r: Self)
        requires
            scale != 0,
        ensures
            r.inv_scale == clip(crate::fixed::sdiv(SCALE as int, scale as int), CMAX as int),
            r.even_texture == Box::new(Texture::Solid(SolidColor { color: even_color })),
            r.odd_texture == Box::new(Texture::Solid(SolidColor { color: odd_color })),
            bounded(even_color, CMAX as int) && bounded(odd_color, CMAX as int)
                ==> tex_wf(Texture::Checker(r)),
    {
        let r = CheckerTexture {
            inv_scale: fx_div_sat(SCALE, scale, CMAX),
            even_texture: Box::new(Texture::Solid(SolidColor { color: even_color })),
            odd_texture: Box::new(Texture::Solid(SolidColor { color: odd_color })),
        };
        proof {
            assert(tex_wf(Texture::Solid(SolidColor { color: even_color }))
                == bounded(even_color, CMAX as int));
            assert(tex_wf(Texture::Solid(SolidColor { color: odd_color }))
                == bounded(odd_color, CMAX as int));
        }
        r
    }
}

impl ImageTexture {
    pub fn new(image: ImageGrid) -> (r: Self)
        ensures
            r.image == image,
    {
        ImageTexture { image }
    }
}

impl Texture {
    /// Sample the texture; the result is the exact color `spec_sample` gives.
    pub fn sample(&self, uv: TexCoord, point: Vec3) -> (r: Color)
        requires
            tex_wf(*self),
            bounded(point, CMAX as int),
        ensures
            r == spec_sample(*self, uv, point),
            bounded(r, CMAX as int),
        decreases *self,
    {
        match self {
            Texture::Solid(s) => s.color,
            Texture::Checker(c) => {
                let s2: i128 = 0x100000000;
                proof {
                    crate::fixed::lemma_mul_bound(c.inv_scale as int, point.x as int,
                        CMAX as int, CMAX as int);
                    crate::fixed::lemma_mul_bound(c.inv_scale as int, point.y as int,
                        CMAX as int, CMAX as int);
                    crate::fixed::lemma_mul_bound(c.inv_scale as int, point.z as int,
                        CMAX as int, CMAX as int);
                }
                let cx = crate::fixed::fdiv_i128((c.inv_scale as i128) * (point.x as i128), s2);
                let cy = crate::fixed::fdiv_i128((c.inv_scale as i128) * (point.y as i128), s2);
                let cz = crate::fixed::fdiv_i128((c.inv_scale as i128) * (point.z as i128), s2);
                proof {
                    lemma_fdiv_bound(c.inv_scale as int * point.x as int, s2 as int,
                        CMAX as int * CMAX as int);
                    lemma_fdiv_bound(c.inv_scale as int * point.y as int, s2 as int,
                        CMAX as int * CMAX as int);
                    lemma_fdiv_bound(c.inv_scale as int * point.z as int, s2 as int,
                        CMAX as int * CMAX as int);
                }
                let cell = cx + cy + cz;
                let ce = cell + 0x40000000i128;
                let is_even = ce % 2 == 0;
                proof {
                    vstd::arithmetic::div_mod::lemma_mod_multiples_vanish(
                        0x20000000, cell as int, 2);
                    assert(is_even == (((cx + cy + cz) as int) % 2int == 0));
                }
                if is_even {
                    c.even_texture.sample(uv, point)
                } else {
                    c.odd_texture.sample(uv, point)
                }
            },
            Texture::Image(img) => {
                let g = &img.image;
                let u = if uv.u < 0 { 0 } else if uv.u > SCALE { SCALE } else { uv.u };
                let v = SCALE - (if uv.v < 0 { 0 } else if uv.v > SCALE { SCALE } else { uv.v });
                proof {
                    crate::fixed::lemma_smul_unit(g.width as int, u as int);
                    crate::fixed::lemma_smul_unit(g.height as int, (SCALE - v) as int);
                    crate::fixed::lemma_smul_unit(g.height as int, v as int);
                    assert(u as int * g.width as int == g.width as int * u as int)
                        by (nonlinear_arith);
                    assert(v as int * g.height as int == g.height as int * v as int)
                        by (nonlinear_arith);
                }
                let i0 = (crate::fixed::div_i128((u as i128) * (g.width as i128), SCALE as i128)) as usize;
                let j0 = (crate::fixed::div_i128((v as i128) * (g.height as i128), SCALE as i128)) as usize;
                let i = if i0 >= g.width { g.width - 1 } else { i0 };
                let j = if j0 >= g.height { g.height - 1 } else { j0 };
                proof {
                    crate::fixed::lemma_mul_bound(j as int, g.width as int, 16384, 16384);
                    assert(j * g.width + i < g.width * g.height) by (nonlinear_arith)
                        requires i < g.width && j < g.height
                            && g.width >= 1 && g.height >= 1;
                    assert(3 * g.width as int * g.height as int
                        == 3 * (g.width as int * g.height as int)) by (nonlinear_arith);
                }
                let base = 3 * (j * g.width + i);
                let r = g.data[base];
                let gg = g.data[base + 1];
                let b = g.data[base + 2];
                Vec3 {
                    x: (((r as i128) * (SCALE as i128)) / 255) as i64,
                    y: (((gg as i128) * (SCALE as i128)) / 255) as i64,
                    z: (((b as i128) * (SCALE as i128)) / 255) as i64,
                }
            },
        }
    }
}

/// A floor quotient's magnitude is at most the dividend bound when the
/// divisor is at least one.
proof fn lemma_fdiv_bound(a: int, b: int, m: int)
    requires
        b > 0,
        0 <= m,
        -m <= a <= m,
    ensures
        -m - 1 <= a / b <= m,
{
    vstd::arithmetic::div_mod::lemma_fundamental_div_mod(a, b);
    vstd::arithmetic::div_mod::lemma_mod_bound(a, b);
    assert(-m - 1 <= a / b <= m) by (nonlinear_arith)
        requires b > 0 && -m <= a <= m
            && a == b * (a / b) + a % b && 0 <= a % b < b;
}

} // verus!
