use crate::fixed::{clamp_luma, clamp_luma_exec, floor_div, lemma_div_below, LUMA_MAX};
use crate::grid::{lemma_cell_coords, lemma_cell_index_bounds};
use vstd::prelude::*;

verus! {

/// One of the 9 levels `round(v / 255 * 8) * 255 / 8`, in thousandths.
pub open spec fn quantize(v: int) -> int {
    ((8 * v + 127500) / 255000) * 31875
}

/// The residual error split into the parts sent right, below-left, below and
/// below-right: `7/16`, `3/16`, `5/16` rounded down, and what remains.
pub open spec fn error_shares(e: int) -> (int, int, int, int) {
    let right = (7 * e) / 16;
    let below_left = (3 * e) / 16;
    let below = (5 * e) / 16;
    (right, below_left, below, e - right - below_left - below)
}

/// The four propagated parts add up to the residual error, exactly.
pub proof fn lemma_error_shares_sum(e: int)
    ensures
        error_shares(e).0 + error_shares(e).1 + error_shares(e).2 + error_shares(e).3 == e,
{
}

/// Whether cell `i` quantizes and spreads its error: the first and last
/// columns and the last row are left alone.
pub open spec fn diffuses(w: int, h: int, i: int) -> bool {
    &&& 1 <= i % w < w - 1
    &&& i / w < h - 1
}

/// Quantizes cell `i` and spreads its error to the four neighbours, each
/// neighbour clamped back into range.
pub open spec fn diffuse_step(b: Seq<u32>, w: int, i: int) -> Seq<u32> {
    let v = b[i] as int;
    let e = v - quantize(v);
    let s = error_shares(e);
    b.update(i, quantize(v) as u32).update(i + 1, clamp_luma(b[i + 1] + s.0) as u32).update(
        i + w - 1,
        clamp_luma(b[i + w - 1] + s.1) as u32,
    ).update(i + w, clamp_luma(b[i + w] + s.2) as u32).update(
        i + w + 1,
        clamp_luma(b[i + w + 1] + s.3) as u32,
    )
}

/// The grid after the first `n` cells, in row-major order, have been visited.
pub open spec fn diffused_upto(b: Seq<u32>, w: int, h: int, n: nat) -> Seq<u32>
    decreases n,
{
    if n == 0 {
        b
    } else {
        let prev = diffused_upto(b, w, h, (n - 1) as nat);
        if diffuses(w, h, n - 1) {
            diffuse_step(prev, w, n - 1)
        } else {
            prev
        }
    }
}

fn quantize_exec(v: u32) -> (r: u32)
    requires
        v <= LUMA_MAX,
    ensures
        r == quantize(v as int),
        r <= LUMA_MAX,
{
    let level = (8 * (v as u64) + 127500) / 255000;
    proof {
        lemma_div_below(8 * v + 127500, 255000, 9);
    }
    (level * 31875) as u32
}

/// Error-diffusion dithering to 9 levels, in place.
pub fn apply_floyd_steinberg(buf: &mut Vec<u32>, w: usize, h: usize)
    requires
        w > 0,
        old(buf).len() == w * h,
        forall|i: int| 0 <= i < old(buf).len() ==> old(buf)@[i] <= LUMA_MAX,
    ensures
        final(buf).len() == old(buf).len(),
        final(buf)@ == diffused_upto(old(buf)@, w as int, h as int, (w * h) as nat),
        forall|i: int| 0 <= i < final(buf).len() ==> final(buf)@[i] <= LUMA_MAX,
{
    let n = buf.len();
    let ghost orig = buf@;
    let mut i: usize = 0;
    while i < n
        invariant
            w > 0,
            n == buf.len() == w * h,
            orig.len() == n,
            i <= n,
            buf@ == diffused_upto(orig, w as int, h as int, i as nat),
            forall|j: int| 0 <= j < buf.len() ==> buf@[j] <= LUMA_MAX,
        decreases n - i,
    {
        let x = i % w;
        let y = i / w;
        proof {
            lemma_cell_coords(w as int, h as int, i as int);
        }
        if 1 <= x && x + 1 < w && y + 1 < h {
            proof {
                lemma_cell_index_bounds(w as int, h as int, x + 1, y + 1);
                lemma_cell_index_bounds(w as int, h as int, x + 1, y as int);
                assert((y + 1) * w == y * w + w) by (nonlinear_arith);
            }
            let ghost before = buf@;
            let v = buf[i];
            let q = quantize_exec(v);
            let e = v as i128 - q as i128;
            let right = floor_div(7 * e, 16);
            let below_left = floor_div(3 * e, 16);
            let below = floor_div(5 * e, 16);
            let below_right = e - right - below_left - below;
            buf.set(i, q);
            let a = clamp_luma_exec(buf[i + 1] as i128 + right);
            buf.set(i + 1, a);
            let bl = clamp_luma_exec(buf[i + w - 1] as i128 + below_left);
            buf.set(i + w - 1, bl);
            let bb = clamp_luma_exec(buf[i + w] as i128 + below);
            buf.set(i + w, bb);
            let br = clamp_luma_exec(buf[i + w + 1] as i128 + below_right);
            buf.set(i + w + 1, br);
            proof {
                assert(buf@ =~= diffuse_step(before, w as int, i as int));
            }
        }
        i = i + 1;
    }
}

/// Offset in thousandths drawn from a uniform 32-bit sample: uniform over
/// `[-25, 25)` luminance units.
pub open spec fn noise_offset(sample: int) -> int {
    (sample * 50000) / 0x1_0000_0000 - 25000
}

pub fn noise_offset_exec(sample: u32) -> (r: i64)
    ensures
        r == noise_offset(sample as int),
        -25000 <= r < 25000,
{
    proof {
        lemma_div_below(sample * 50000, 0x1_0000_0000, 50000);
    }
    ((sample as u64 * 50000) / 0x1_0000_0000) as i64 - 25000
}

/// Perturbs each cell by the noise drawn from its own sample, then clamps.
pub fn apply_noise(buf: &mut Vec<u32>, samples: &Vec<u32>)
    requires
        old(buf).len() == samples.len(),
    ensures
        final(buf).len() == old(buf).len(),
        forall|i: int|
            0 <= i < final(buf).len() ==> final(buf)@[i] == clamp_luma(
                old(buf)@[i] + noise_offset(samples@[i] as int),
            ),
{
    let n = buf.len();
    let ghost orig = buf@;
    let mut i: usize = 0;
    while i < n
        invariant
            n == buf.len() == samples.len() == orig.len(),
            i <= n,
            forall|j: int|
                0 <= j < i ==> buf@[j] == clamp_luma(orig[j] + noise_offset(samples@[j] as int)),
            forall|j: int| i <= j < n ==> buf@[j] == orig[j],
        decreases n - i,
    {
        let v = clamp_luma_exec(buf[i] as i128 + noise_offset_exec(samples[i]) as i128);
        buf.set(i, v);
        i = i + 1;
    }
}

} // verus!
