use vstd::prelude::*;

verus! {

/// Base glyph cell size at zoom 1, in pixels.
pub const GLYPH_WIDTH: u64 = 7;

pub const GLYPH_HEIGHT: u64 = 12;

/// Number of cell rows: `round(frame_height / frame_width * grid_width * 0.55)`,
/// the factor making up for the tall aspect of a glyph cell.
pub open spec fn grid_height_spec(frame_width: int, frame_height: int, grid_width: int) -> int {
    (110 * frame_height * grid_width + 100 * frame_width) / (200 * frame_width)
}

/// A cell side in pixels: `round(base * zoom)`, the zoom given in hundredths.
pub open spec fn cell_side_spec(base: int, zoom_pct: int) -> int {
    (base * zoom_pct + 50) / 100
}

pub fn grid_height(frame_width: u32, frame_height: u32, grid_width: u32) -> (r: u64)
    requires
        frame_width > 0,
    ensures
        r == grid_height_spec(frame_width as int, frame_height as int, grid_width as int),
{
    let fw = frame_width as u128;
    let fh = frame_height as u128;
    let gw = grid_width as u128;
    assert(fh * gw <= 0xffff_ffff * 0xffff_ffff) by (nonlinear_arith)
        requires
            fh <= 0xffff_ffff,
            gw <= 0xffff_ffff,
    ;
    let num: u128 = 110 * (fh * gw) + 100 * fw;
    let den: u128 = 200 * fw;
    proof {
        vstd::arithmetic::div_mod::lemma_div_is_ordered_by_denominator(
            num as int,
            200,
            den as int,
        );
        assert(110 * fh * gw == 110 * (fh * gw)) by (nonlinear_arith);
    }
    (num / den) as u64
}

/// Whether the frame is tall enough for at least one row:
/// `frame_height / frame_width * grid_width * 0.55 >= 0.5`.
pub open spec fn rows_reach_one(frame_width: int, frame_height: int, grid_width: int) -> bool {
    110 * frame_height * grid_width >= 100 * frame_width
}

/// The row count is at least one whenever the exact ratio reaches one half,
/// the point from which rounding to the nearest gives a non-zero count.
pub proof fn lemma_grid_height_positive(frame_width: int, frame_height: int, grid_width: int)
    requires
        frame_width > 0,
        frame_height > 0,
        grid_width > 0,
        rows_reach_one(frame_width, frame_height, grid_width),
    ensures
        grid_height_spec(frame_width, frame_height, grid_width) >= 1,
{
    let n = 110 * frame_height * grid_width + 100 * frame_width;
    let d = 200 * frame_width;
    vstd::arithmetic::div_mod::lemma_div_is_ordered(d, n, d);
    vstd::arithmetic::div_mod::lemma_div_by_self(d);
}

pub fn cell_side(base: u64, zoom_pct: u32) -> (r: u64)
    requires
        base <= GLYPH_HEIGHT,
    ensures
        r == cell_side_spec(base as int, zoom_pct as int),
{
    assert(base * zoom_pct <= 12 * 0xffff_ffff) by (nonlinear_arith)
        requires
            base <= 12,
            zoom_pct <= 0xffff_ffff,
    ;
    (base * (zoom_pct as u64) + 50) / 100
}

} // verus!

verus! {

/// Linear index of cell `(x, y)` in a row-major grid of width `w`.
pub open spec fn cell_index(w: int, x: int, y: int) -> int {
    y * w + x
}

pub proof fn lemma_cell_index_bounds(w: int, h: int, x: int, y: int)
    requires
        0 <= x < w,
        0 <= y < h,
    ensures
        0 <= cell_index(w, x, y) < w * h,
{
    assert(0 <= y * w + x < w * h) by (nonlinear_arith)
        requires
            0 <= x < w,
            0 <= y < h,
    ;
}

pub proof fn lemma_cell_coords(w: int, h: int, i: int)
    requires
        0 <= i < w * h,
        w > 0,
    ensures
        0 <= i % w < w,
        0 <= i / w < h,
        cell_index(w, i % w, i / w) == i,
{
    vstd::arithmetic::div_mod::lemma_fundamental_div_mod(i, w);
    vstd::arithmetic::div_mod::lemma_mod_bound(i, w);
    let q = i / w;
    let r = i % w;
    assert(0 <= q < h) by (nonlinear_arith)
        requires
            i == w * q + r,
            0 <= r < w,
            0 <= i < w * h,
    ;
    assert(q * w + r == w * q + r) by (nonlinear_arith);
}

} // verus!
