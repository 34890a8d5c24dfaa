use crate::fixed::{clamp_luma, clamp_luma_exec, round_div, round_div_exec, LUMA_MAX};
use vstd::prelude::*;

verus! {

/// A sampled pixel colour.
#[derive(Clone, Copy, PartialEq, Eq, Structural, Debug)]
pub struct Rgb {
    pub r: u8,
    pub g: u8,
    pub b: u8,
}

/// The contrast value at which the contrast factor has no value.
pub const SINGULAR_CONTRAST: i32 = 259;

/// Weighted luminance `0.299 R + 0.587 G + 0.114 B`, in thousandths.
pub open spec fn luma_spec(c: Rgb) -> int {
    299 * c.r + 587 * c.g + 114 * c.b
}

/// Brightness, contrast and inversion as applied to each sampled luminance.
#[derive(Clone, Copy, PartialEq, Eq, Structural, Debug)]
pub struct Tone {
    pub invert: bool,
    pub contrast: i32,
    pub brightness: i32,
}

impl Tone {
    pub open spec fn wf(self) -> bool {
        self.contrast != SINGULAR_CONTRAST
    }
}

/// Numerator and denominator of the contrast factor
/// `259 (c + 255) / (255 (259 - c))`.
pub open spec fn contrast_num(c: int) -> int {
    259 * (c + 255)
}

pub open spec fn contrast_den(c: int) -> int {
    255 * (259 - c)
}

/// `clamp(factor (l - 128) + 128 + brightness, 0, 255)` in thousandths, the
/// product rounded to the nearest thousandth.
pub open spec fn adjust_spec(l: int, contrast: int, brightness: int) -> int {
    clamp_luma(
        round_div(contrast_num(contrast) * (l - 128000), contrast_den(contrast)) + 128000 + 1000
            * brightness,
    )
}

/// Inversion (when asked) followed by the contrast and brightness adjustment.
pub open spec fn tone_spec(t: Tone, l: int) -> int {
    adjust_spec(
        if t.invert {
            LUMA_MAX - l
        } else {
            l
        },
        t.contrast as int,
        t.brightness as int,
    )
}

pub fn luma(c: Rgb) -> (r: u32)
    ensures
        r == luma_spec(c),
        r <= LUMA_MAX,
{
    299 * (c.r as u32) + 587 * (c.g as u32) + 114 * (c.b as u32)
}

pub fn adjust(l: u32, contrast: i32, brightness: i32) -> (r: u32)
    requires
        l <= LUMA_MAX,
        contrast != SINGULAR_CONTRAST,
    ensures
        r == adjust_spec(l as int, contrast as int, brightness as int),
        r <= LUMA_MAX,
{
    let c = contrast as i128;
    let mut num: i128 = 259 * (c + 255);
    let mut den: i128 = 255 * (259 - c);
    let diff: i128 = l as i128 - 128000;
    assert(-0x1_0000_0000_0000_0000 <= num * diff <= 0x1_0000_0000_0000_0000) by (nonlinear_arith)
        requires
            -0x100_0000_0000 <= num <= 0x100_0000_0000,
            -128000 <= diff <= 128000,
    ;
    let mut prod: i128 = num * diff;
    if den < 0 {
        den = -den;
        prod = -prod;
    }
    let rounded = round_div_exec(prod, den);
    proof {
        let d0 = contrast_den(contrast as int);
        let n0 = contrast_num(contrast as int) * (l - 128000);
        assert(round_div(n0, d0) == rounded);
    }
    clamp_luma_exec(rounded + 128000 + 1000 * (brightness as i128))
}

pub fn tone_luma(t: Tone, l: u32) -> (r: u32)
    requires
        t.wf(),
        l <= LUMA_MAX,
    ensures
        r == tone_spec(t, l as int),
        r <= LUMA_MAX,
{
    let v = if t.invert {
        LUMA_MAX - l
    } else {
        l
    };
    adjust(v, t.contrast, t.brightness)
}

/// With contrast 0, brightness 0 and no inversion, every luminance in range is
/// left as it is.
pub proof fn lemma_neutral_tone_is_identity(l: int)
    requires
        0 <= l <= LUMA_MAX,
    ensures
        tone_spec(Tone { invert: false, contrast: 0, brightness: 0 }, l) == l,
{
    let k: int = 66045int;
    let m = l - 128000;
    assert(2 * (k * m) + k == m * (2 * k) + k) by (nonlinear_arith);
    vstd::arithmetic::div_mod::lemma_fundamental_div_mod_converse(2 * (k * m) + k, 2 * k, m, k);
}

} // verus!

verus! {

/// Byte offset of the pixel that cell `(x, y)` samples: the nearest-neighbour
/// source `(floor(x / gw * fw), floor(y / gh * fh))`.
pub open spec fn source_offset(fw: int, fh: int, gw: int, gh: int, x: int, y: int) -> int {
    ((y * fh / gh) * fw + x * fw / gw) * 4
}

/// The pixel that cell `(x, y)` samples, or `None` where its bytes lie beyond
/// the buffer.
pub open spec fn sampled_pixel(
    pixels: Seq<u8>,
    fw: int,
    fh: int,
    gw: int,
    gh: int,
    x: int,
    y: int,
) -> Option<Rgb> {
    let o = source_offset(fw, fh, gw, gh, x, y);
    if o + 2 < pixels.len() {
        Some(Rgb { r: pixels[o], g: pixels[o + 1], b: pixels[o + 2] })
    } else {
        None
    }
}

/// Luminance of a cell after the tone stage; 0 for a cell with no pixel.
pub open spec fn cell_luma(t: Tone, p: Option<Rgb>) -> int {
    match p {
        Some(c) => tone_spec(t, luma_spec(c)),
        None => 0,
    }
}

/// Colour of a cell; black for a cell with no pixel.
pub open spec fn cell_color(p: Option<Rgb>) -> Rgb {
    match p {
        Some(c) => c,
        None => Rgb { r: 0, g: 0, b: 0 },
    }
}

proof fn lemma_scaled_below(a: int, n: int, m: int)
    requires
        0 <= a < m,
        n > 0,
    ensures
        0 <= a * n / m < n,
{
    assert(0 <= a * n < m * n) by (nonlinear_arith)
        requires
            0 <= a < m,
            n > 0,
    ;
    vstd::arithmetic::div_mod::lemma_div_is_ordered(0, a * n, m);
    vstd::arithmetic::div_mod::lemma_fundamental_div_mod(a * n, m);
    vstd::arithmetic::div_mod::lemma_mod_bound(a * n, m);
    let q = a * n / m;
    assert(q < n) by (nonlinear_arith)
        requires
            a * n == m * q + (a * n) % m,
            0 <= (a * n) % m,
            a * n < m * n,
            m > 0,
    ;
}

/// Samples the frame down to a `gw` by `gh` grid: the toned luminance and the
/// colour of each cell, row-major.
pub fn sample_frame(
    frame_width: u32,
    frame_height: u32,
    pixels: &Vec<u8>,
    gw: usize,
    gh: usize,
    tone: Tone,
) -> (r: (Vec<u32>, Vec<Rgb>))
    requires
        frame_width > 0,
        frame_height > 0,
        gw > 0,
        gh > 0,
        gw * gh <= usize::MAX,
        tone.wf(),
    ensures
        r.0.len() == gw * gh,
        r.1.len() == gw * gh,
        forall|i: int|
            0 <= i < gw * gh ==> {
                let p = #[trigger] sampled_pixel(
                    pixels@,
                    frame_width as int,
                    frame_height as int,
                    gw as int,
                    gh as int,
                    i % (gw as int),
                    i / (gw as int),
                );
                &&& r.0@[i] == cell_luma(tone, p)
                &&& r.1@[i] == cell_color(p)
            },
        forall|i: int| 0 <= i < r.0.len() ==> r.0@[i] <= LUMA_MAX,
{
    let n = gw * gh;
    let mut lum: Vec<u32> = Vec::with_capacity(n);
    let mut col: Vec<Rgb> = Vec::with_capacity(n);
    let mut i: usize = 0;
    while i < n
        invariant
            frame_width > 0,
            frame_height > 0,
            n == gw * gh,
            gw > 0,
            gh > 0,
            tone.wf(),
            i <= n,
            lum.len() == i,
            col.len() == i,
            forall|j: int|
                0 <= j < i ==> {
                    let p = #[trigger] sampled_pixel(
                        pixels@,
                        frame_width as int,
                        frame_height as int,
                        gw as int,
                        gh as int,
                        j % (gw as int),
                        j / (gw as int),
                    );
                    &&& lum@[j] == cell_luma(tone, p)
                    &&& col@[j] == cell_color(p)
                },
            forall|j: int| 0 <= j < lum.len() ==> lum@[j] <= LUMA_MAX,
        decreases n - i,
    {
        let x = i % gw;
        let y = i / gw;
        proof {
            crate::grid::lemma_cell_coords(gw as int, gh as int, i as int);
            lemma_scaled_below(x as int, frame_width as int, gw as int);
            lemma_scaled_below(y as int, frame_height as int, gh as int);
            assert(x * frame_width <= 0xffff_ffff_ffff_ffff * 0xffff_ffff) by (nonlinear_arith)
                requires
                    0 <= x <= 0xffff_ffff_ffff_ffff,
                    frame_width <= 0xffff_ffff,
            ;
            assert(y * frame_height <= 0xffff_ffff_ffff_ffff * 0xffff_ffff) by (nonlinear_arith)
                requires
                    0 <= y <= 0xffff_ffff_ffff_ffff,
                    frame_height <= 0xffff_ffff,
            ;
        }
        let sx = (x as u128) * (frame_width as u128) / (gw as u128);
        let sy = (y as u128) * (frame_height as u128) / (gh as u128);
        proof {
            assert(sy * frame_width <= 0xffff_ffff * 0xffff_ffff) by (nonlinear_arith)
                requires
                    0 <= sy <= 0xffff_ffff,
                    frame_width <= 0xffff_ffff,
            ;
        }
        let off: u128 = (sy * (frame_width as u128) + sx) * 4;
        let len = pixels.len();
        if off + 2 < len as u128 {
            let o = off as usize;
            let c = Rgb { r: pixels[o], g: pixels[o + 1], b: pixels[o + 2] };
            let l = tone_luma(tone, luma(c));
            lum.push(l);
            col.push(c);
        } else {
            lum.push(0);
            col.push(Rgb { r: 0, g: 0, b: 0 });
        }
        i = i + 1;
    }
    (lum, col)
}

} // verus!
