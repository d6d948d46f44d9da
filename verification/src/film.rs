//! Where the pixels of a film or a film tile are stored: pixels of an integer box are kept
//! row by row, in the order in which the box's points are visited.
use vstd::prelude::*;
use vstd::arithmetic::div_mod::*;
use vstd::arithmetic::mul::*;

use crate::geometry::bounds::{extent_fits, raster_points};
use crate::geometry::point::fits_isize;
use crate::geometry::{Bounds2i, Point2i};

verus! {

/// The number of entries in the table of filter values, per dimension.
pub const FILTER_TABLE_WIDTH: usize = 16;

/// The storage offset of the pixel `p` of the box `b`.
pub open spec fn offset_of(b: Bounds2i, p: Point2i) -> int {
    (p.x - b.p_min.x) + (p.y - b.p_min.y) * (b.p_max.x - b.p_min.x)
}

/// Whether the number of pixels of `b` is a value of `isize`.
pub open spec fn area_fits(b: Bounds2i) -> bool {
    extent_fits(b) && fits_isize((b.p_max.x - b.p_min.x) * (b.p_max.y - b.p_min.y))
}

/// The storage offset of the pixel `p`, which must lie inside the box `bounds`.
pub fn pixel_offset(bounds: &Bounds2i, p: Point2i) -> (r: usize)
    requires
        bounds.p_min.x <= p.x < bounds.p_max.x,
        bounds.p_min.y <= p.y < bounds.p_max.y,
        area_fits(*bounds),
    ensures
        r == offset_of(*bounds, p),
        r < (bounds.p_max.x - bounds.p_min.x) * (bounds.p_max.y - bounds.p_min.y),
{
    let w = bounds.p_max.x - bounds.p_min.x;
    let h = bounds.p_max.y - bounds.p_min.y;
    let col = p.x - bounds.p_min.x;
    let row = p.y - bounds.p_min.y;
    assert(row * w + col < w * h && 0 <= row * w + col) by (nonlinear_arith)
        requires
            0 <= row < h,
            0 <= col < w,
    ;
    assert(w * h == (bounds.p_max.x - bounds.p_min.x) * (bounds.p_max.y - bounds.p_min.y));
    let off = col + row * w;
    off as usize
}

/// The number of pixels of the box `bounds`; none when it is empty or inverted.
pub fn pixel_count(bounds: &Bounds2i) -> (r: usize)
    requires
        area_fits(*bounds),
    ensures
        r == (if bounds.p_max.x - bounds.p_min.x <= 0 || bounds.p_max.y - bounds.p_min.y <= 0 {
            0
        } else {
            (bounds.p_max.x - bounds.p_min.x) * (bounds.p_max.y - bounds.p_min.y)
        }),
{
    let w = bounds.p_max.x - bounds.p_min.x;
    let h = bounds.p_max.y - bounds.p_min.y;
    if w <= 0 || h <= 0 {
        return 0;
    }
    assert(w * h > 0) by (nonlinear_arith)
        requires
            w > 0,
            h > 0,
    ;
    (w * h) as usize
}

/// Law: the `k`-th point that visiting a box yields is stored at offset `k`, so storing
/// pixels in visiting order and looking them up by `pixel_offset` agree.
pub proof fn law_visit_order_is_storage_order(b: Bounds2i, k: int)
    requires
        0 <= k < raster_points(b).len(),
    ensures
        offset_of(b, raster_points(b)[k]) == k,
{
    let w = b.p_max.x - b.p_min.x;
    let h = b.p_max.y - b.p_min.y;
    assert(w > 0 && h > 0 && raster_points(b).len() == w * h);
    lemma_fundamental_div_mod(k, w);
    lemma_mod_bound(k, w);
    let q = k / w;
    assert(q < h) by (nonlinear_arith)
        requires
            k == w * q + k % w,
            0 <= k % w,
            k < w * h,
            w > 0,
    ;
    assert(k / w >= 0) by {
        lemma_div_pos_is_pos(k, w);
    }
    let p = raster_points(b)[k];
    assert(p.x == b.p_min.x + k % w);
    assert(p.y == b.p_min.y + k / w);
    lemma_mul_is_commutative(w, k / w);
}

} // verus!
