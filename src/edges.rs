use crate::fixed::LUMA_MAX;
use crate::grid::{cell_index, lemma_cell_coords, lemma_cell_index_bounds};
use vstd::prelude::*;

verus! {

/// Luminance of cell `(x, y)`.
pub open spec fn at(b: Seq<u32>, w: int, x: int, y: int) -> int {
    b[cell_index(w, x, y)] as int
}

/// Horizontal Sobel response at `(x, y)`.
pub open spec fn sobel_gx(b: Seq<u32>, w: int, x: int, y: int) -> int {
    (at(b, w, x + 1, y - 1) + 2 * at(b, w, x + 1, y) + at(b, w, x + 1, y + 1)) - (at(
        b,
        w,
        x - 1,
        y - 1,
    ) + 2 * at(b, w, x - 1, y) + at(b, w, x - 1, y + 1))
}

/// Vertical Sobel response at `(x, y)`.
pub open spec fn sobel_gy(b: Seq<u32>, w: int, x: int, y: int) -> int {
    (at(b, w, x - 1, y + 1) + 2 * at(b, w, x, y + 1) + at(b, w, x + 1, y + 1)) - (at(
        b,
        w,
        x - 1,
        y - 1,
    ) + 2 * at(b, w, x, y - 1) + at(b, w, x + 1, y - 1))
}

/// Whether a gradient of squared magnitude `mag_sq` (in thousandths, squared)
/// exceeds `threshold` (in whole luminance units).
pub open spec fn exceeds(mag_sq: int, threshold: int) -> bool {
    threshold < 0 || mag_sq > (1000 * threshold) * (1000 * threshold)
}

/// Whether cell `(x, y)` is marked as an edge: an inner cell whose gradient
/// magnitude exceeds the threshold. Border cells are never marked.
pub open spec fn is_edge(b: Seq<u32>, w: int, h: int, x: int, y: int, threshold: int) -> bool {
    &&& 1 <= x < w - 1
    &&& 1 <= y < h - 1
    &&& exceeds(
        sobel_gx(b, w, x, y) * sobel_gx(b, w, x, y) + sobel_gy(b, w, x, y) * sobel_gy(b, w, x, y),
        threshold,
    )
}

fn at_exec(b: &Vec<u32>, w: usize, h: usize, x: usize, y: usize) -> (r: u32)
    requires
        b.len() == w * h,
        x < w,
        y < h,
    ensures
        r == at(b@, w as int, x as int, y as int),
{
    proof {
        lemma_cell_index_bounds(w as int, h as int, x as int, y as int);
    }
    b[y * w + x]
}

/// Marks every cell whose Sobel gradient exceeds `threshold`, row-major.
pub fn apply_sobel(b: &Vec<u32>, w: usize, h: usize, threshold: i32) -> (r: Vec<bool>)
    requires
        w > 0,
        b.len() == w * h,
        forall|i: int| 0 <= i < b.len() ==> b@[i] <= LUMA_MAX,
    ensures
        r.len() == w * h,
        forall|i: int|
            0 <= i < w * h ==> r@[i] == #[trigger] is_edge(
                b@,
                w as int,
                h as int,
                i % (w as int),
                i / (w as int),
                threshold as int,
            ),
{
    let n = b.len();
    let mut r: Vec<bool> = Vec::with_capacity(n);
    let mut i: usize = 0;
    while i < n
        invariant
            w > 0,
            n == b.len() == w * h,
            forall|j: int| 0 <= j < b.len() ==> b@[j] <= LUMA_MAX,
            i <= n,
            r.len() == i,
            forall|j: int|
                0 <= j < i ==> r@[j] == #[trigger] is_edge(
                    b@,
                    w as int,
                    h as int,
                    j % (w as int),
                    j / (w as int),
                    threshold as int,
                ),
        decreases n - i,
    {
        let x = i % w;
        let y = i / w;
        proof {
            lemma_cell_coords(w as int, h as int, i as int);
        }
        let mut edge = false;
        if 1 <= x && x + 1 < w && 1 <= y && y + 1 < h {
            let nw = at_exec(b, w, h, x - 1, y - 1) as i64;
            let nn = at_exec(b, w, h, x, y - 1) as i64;
            let ne = at_exec(b, w, h, x + 1, y - 1) as i64;
            let ww = at_exec(b, w, h, x - 1, y) as i64;
            let ee = at_exec(b, w, h, x + 1, y) as i64;
            let sw = at_exec(b, w, h, x - 1, y + 1) as i64;
            let ss = at_exec(b, w, h, x, y + 1) as i64;
            let se = at_exec(b, w, h, x + 1, y + 1) as i64;
            proof {
                lemma_cell_index_bounds(w as int, h as int, x - 1, y - 1);
                lemma_cell_index_bounds(w as int, h as int, x as int, y - 1);
                lemma_cell_index_bounds(w as int, h as int, x + 1, y - 1);
                lemma_cell_index_bounds(w as int, h as int, x - 1, y as int);
                lemma_cell_index_bounds(w as int, h as int, x + 1, y as int);
                lemma_cell_index_bounds(w as int, h as int, x - 1, y + 1);
                lemma_cell_index_bounds(w as int, h as int, x as int, y + 1);
                lemma_cell_index_bounds(w as int, h as int, x + 1, y + 1);
            }
            let gx: i64 = (ne + 2 * ee + se) - (nw + 2 * ww + sw);
            let gy: i64 = (sw + 2 * ss + se) - (nw + 2 * nn + ne);
            proof {
                assert(0 <= gx * gx <= 1_100_000 * 1_100_000) by (nonlinear_arith)
                    requires
                        -1_100_000 <= gx <= 1_100_000,
                ;
                assert(0 <= gy * gy <= 1_100_000 * 1_100_000) by (nonlinear_arith)
                    requires
                        -1_100_000 <= gy <= 1_100_000,
                ;
            }
            let gx2: i128 = (gx as i128) * (gx as i128);
            let gy2: i128 = (gy as i128) * (gy as i128);
            let t: i128 = 1000 * (threshold as i128);
            proof {
                assert(0 <= t * t <= 0x1_0000_0000_0000_0000_0000_0000) by (nonlinear_arith)
                    requires
                        -0x1000_0000_0000 <= t <= 0x1000_0000_0000,
                ;
            }
            edge = threshold < 0 || gx2 + gy2 > t * t;
        }
        r.push(edge);
        i = i + 1;
    }
    r
}

/// On a grid whose cells all hold one luminance, no cell is an edge for any
/// non-negative threshold.
pub proof fn lemma_uniform_grid_has_no_edges(b: Seq<u32>, w: int, h: int, v: u32, threshold: int)
    requires
        w > 0,
        b.len() == w * h,
        forall|i: int| 0 <= i < b.len() ==> b[i] == v,
        threshold >= 0,
    ensures
        forall|x: int, y: int| !#[trigger] is_edge(b, w, h, x, y, threshold),
{
    assert forall|x: int, y: int| !#[trigger] is_edge(b, w, h, x, y, threshold) by {
        if 1 <= x < w - 1 && 1 <= y < h - 1 {
            lemma_cell_index_bounds(w, h, x - 1, y - 1);
            lemma_cell_index_bounds(w, h, x, y - 1);
            lemma_cell_index_bounds(w, h, x + 1, y - 1);
            lemma_cell_index_bounds(w, h, x - 1, y);
            lemma_cell_index_bounds(w, h, x + 1, y);
            lemma_cell_index_bounds(w, h, x - 1, y + 1);
            lemma_cell_index_bounds(w, h, x, y + 1);
            lemma_cell_index_bounds(w, h, x + 1, y + 1);
            assert(sobel_gx(b, w, x, y) == 0);
            assert(sobel_gy(b, w, x, y) == 0);
        }
    }
}

} // verus!
