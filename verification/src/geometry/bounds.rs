//! 2D and 3D axis-aligned bounding boxes.
use vstd::prelude::*;
use vstd::arithmetic::div_mod::*;
use vstd::arithmetic::mul::*;

use super::point::{fits_isize, num_max, num_min, Point2, Point2i, Point3};
use super::vector::Vector2;
use super::Number;

verus! {

/// Generic type for any 2D bounding box.
#[derive(Copy, Clone, Debug, PartialEq)]
pub struct Bounds2<T> {
    /// point representing the minimum x,y value of the bounds.
    pub p_min: Point2<T>,
    /// point representing the maximum x,y value of the bounds.
    pub p_max: Point2<T>,
}

/// 2D bounding box type with `isize` members.
pub type Bounds2i = Bounds2<isize>;

/// Generic type for 3D bounding boxes.
#[derive(Copy, Clone, Debug, PartialEq)]
pub struct Bounds3<T> {
    /// point representing the minimum x,y,z value of the bounds.
    pub p_min: Point3<T>,
    /// point representing the maximum x,y,z value of the bounds.
    pub p_max: Point3<T>,
}

/// 3D bounding box type with `isize` members.
pub type Bounds3i = Bounds3<isize>;

impl Default for Bounds2<isize> {
    /// The empty bounds: minimum at the largest value, maximum at the smallest.
    fn default() -> (b: Self)
        ensures
            b.p_min == (Point2 { x: isize::MAX, y: isize::MAX }),
            b.p_max == (Point2 { x: isize::MIN, y: isize::MIN }),
    {
        Self {
            p_min: Point2 { x: <isize as Number>::max_value(), y: <isize as Number>::max_value() },
            p_max: Point2 { x: <isize as Number>::min_value(), y: <isize as Number>::min_value() },
        }
    }
}

/// The bounds spanned by two corner points, whatever their arrangement.
pub open spec fn spanned(p1: Point2<isize>, p2: Point2<isize>) -> Bounds2<isize> {
    Bounds2 {
        p_min: Point2 {
            x: if p1.x < p2.x { p1.x } else { p2.x },
            y: if p1.y < p2.y { p1.y } else { p2.y },
        },
        p_max: Point2 {
            x: if p1.x > p2.x { p1.x } else { p2.x },
            y: if p1.y > p2.y { p1.y } else { p2.y },
        },
    }
}

/// The box spanned by two corners does not depend on their order: its minimum corner takes
/// the smaller of the two coordinates in each dimension and its maximum corner the larger, so
/// the minimum never exceeds the maximum and both corners lie on or inside the box's edges.
pub proof fn law_spanned_orders_corners(p1: Point2<isize>, p2: Point2<isize>)
    ensures
        spanned(p1, p2) == spanned(p2, p1),
        spanned(p1, p2).p_min.x <= spanned(p1, p2).p_max.x,
        spanned(p1, p2).p_min.y <= spanned(p1, p2).p_max.y,
        spanned(p1, p2).p_min.x <= p1.x && spanned(p1, p2).p_min.x <= p2.x,
        spanned(p1, p2).p_min.y <= p1.y && spanned(p1, p2).p_min.y <= p2.y,
        spanned(p1, p2).p_max.x >= p1.x && spanned(p1, p2).p_max.x >= p2.x,
        spanned(p1, p2).p_max.y >= p1.y && spanned(p1, p2).p_max.y >= p2.y,
        spanned(p1, p2).p_min.x == p1.x || spanned(p1, p2).p_min.x == p2.x,
        spanned(p1, p2).p_min.y == p1.y || spanned(p1, p2).p_min.y == p2.y,
        spanned(p1, p2).p_max.x == p1.x || spanned(p1, p2).p_max.x == p2.x,
        spanned(p1, p2).p_max.y == p1.y || spanned(p1, p2).p_max.y == p2.y,
{
}

fn span(p1: Point2<isize>, p2: Point2<isize>) -> (b: Bounds2<isize>)
    ensures
        b == spanned(p1, p2),
{
    let p_min = Point2 {
        x: if p1.x < p2.x { p1.x } else { p2.x },
        y: if p1.y < p2.y { p1.y } else { p2.y },
    };
    let p_max = Point2 {
        x: if p1.x > p2.x { p1.x } else { p2.x },
        y: if p1.y > p2.y { p1.y } else { p2.y },
    };
    Bounds2 { p_min, p_max }
}

impl From<[[isize; 2]; 2]> for Bounds2<isize> {
    /// Create `Bounds2` from two corners given as coordinate pairs.  It also ensures min/max
    /// are correct, regardless of how they're arranged.
    fn from(ps: [[isize; 2]; 2]) -> (b: Self) {
        let p1 = Point2 { x: ps[0][0], y: ps[0][1] };
        let p2 = Point2 { x: ps[1][0], y: ps[1][1] };
        span(p1, p2)
    }
}

impl vstd::std_specs::convert::FromSpecImpl<[[isize; 2]; 2]> for Bounds2<isize> {
    open spec fn obeys_from_spec() -> bool {
        true
    }

    open spec fn from_spec(ps: [[isize; 2]; 2]) -> Self {
        spanned(Point2 { x: ps@[0]@[0], y: ps@[0]@[1] }, Point2 { x: ps@[1]@[0], y: ps@[1]@[1] })
    }
}

impl From<[Point2<isize>; 2]> for Bounds2<isize> {
    /// Create `Bounds2` from two corner points, whatever their arrangement.
    fn from(ps: [Point2<isize>; 2]) -> (b: Self) {
        span(ps[0], ps[1])
    }
}

impl vstd::std_specs::convert::FromSpecImpl<[Point2<isize>; 2]> for Bounds2<isize> {
    open spec fn obeys_from_spec() -> bool {
        true
    }

    open spec fn from_spec(ps: [Point2<isize>; 2]) -> Self {
        spanned(ps@[0], ps@[1])
    }
}

impl From<(Point2<isize>, Point2<isize>)> for Bounds2<isize> {
    /// Create `Bounds2` from a pair of corner points, whatever their arrangement.
    fn from(ps: (Point2<isize>, Point2<isize>)) -> (b: Self) {
        span(ps.0, ps.1)
    }
}

impl vstd::std_specs::convert::FromSpecImpl<(Point2<isize>, Point2<isize>)> for Bounds2<isize> {
    open spec fn obeys_from_spec() -> bool {
        true
    }

    open spec fn from_spec(ps: (Point2<isize>, Point2<isize>)) -> Self {
        spanned(ps.0, ps.1)
    }
}

/// Whether the difference of the corners of `b` fits in `isize` in both dimensions.
pub open spec fn extent_fits(b: Bounds2<isize>) -> bool {
    fits_isize(b.p_max.x - b.p_min.x) && fits_isize(b.p_max.y - b.p_min.y)
}

/// The points of an integer box in row-major order: `y` from `p_min.y` up to but not
/// including `p_max.y`, and within each row `x` from `p_min.x` up to but not including
/// `p_max.x`.
pub open spec fn raster_points(b: Bounds2<isize>) -> Seq<Point2<isize>> {
    let w = b.p_max.x - b.p_min.x;
    let h = b.p_max.y - b.p_min.y;
    if w <= 0 || h <= 0 {
        Seq::empty()
    } else {
        Seq::new(
            (w * h) as nat,
            |k: int| Point2 { x: (b.p_min.x + k % w) as isize, y: (b.p_min.y + k / w) as isize },
        )
    }
}

impl Bounds2<isize> {
    /// The vector from the minimum corner to the maximum corner.
    pub fn diagonal(&self) -> (d: Vector2<isize>)
        requires
            extent_fits(*self),
        ensures
            d.x == self.p_max.x - self.p_min.x,
            d.y == self.p_max.y - self.p_min.y,
    {
        Vector2 { x: self.p_max.x - self.p_min.x, y: self.p_max.y - self.p_min.y }
    }

    /// Computes the area covered by this bounding box.
    pub fn area(&self) -> (a: isize)
        requires
            extent_fits(*self),
            fits_isize((self.p_max.x - self.p_min.x) * (self.p_max.y - self.p_min.y)),
        ensures
            a == (self.p_max.x - self.p_min.x) * (self.p_max.y - self.p_min.y),
    {
        let d = self.diagonal();
        d.x * d.y
    }

    /// Whether `p` lies inside the box, counting the minimum edges but not the maximum ones.
    pub fn inside_exclusive(&self, p: Point2<isize>) -> (r: bool)
        ensures
            r == (self.p_min.x <= p.x < self.p_max.x && self.p_min.y <= p.y < self.p_max.y),
    {
        p.x >= self.p_min.x && p.x < self.p_max.x && p.y >= self.p_min.y && p.y < self.p_max.y
    }

    /// All points of the box in row-major order (see `raster_points`).
    pub fn iter(&self) -> (points: Vec<Point2i>)
        ensures
            points@ == raster_points(*self),
    {
        let mut points: Vec<Point2i> = Vec::new();
        if self.p_min.x >= self.p_max.x || self.p_min.y >= self.p_max.y {
            assert(points@ =~= raster_points(*self));
            return points;
        }
        let ghost w = self.p_max.x - self.p_min.x;
        let ghost h = self.p_max.y - self.p_min.y;
        let mut y = self.p_min.y;
        while y < self.p_max.y
            invariant
                w == self.p_max.x - self.p_min.x,
                h == self.p_max.y - self.p_min.y,
                w > 0,
                h > 0,
                self.p_min.y <= y <= self.p_max.y,
                points.len() == (y - self.p_min.y) * w,
                forall|k: int| 0 <= k < points.len() ==> #[trigger] points@[k] == raster_points(*self)[k],
            decreases self.p_max.y - y,
        {
            let mut x = self.p_min.x;
            while x < self.p_max.x
                invariant
                    w == self.p_max.x - self.p_min.x,
                    h == self.p_max.y - self.p_min.y,
                    w > 0,
                    h > 0,
                    self.p_min.y <= y < self.p_max.y,
                    self.p_min.x <= x <= self.p_max.x,
                    points.len() == (y - self.p_min.y) * w + (x - self.p_min.x),
                    forall|k: int| 0 <= k < points.len() ==> #[trigger] points@[k] == raster_points(*self)[k],
                decreases self.p_max.x - x,
            {
                proof {
                    let k = (y - self.p_min.y) * w + (x - self.p_min.x);
                    lemma_fundamental_div_mod_converse(k, w, y - self.p_min.y, x - self.p_min.x);
                    lemma_row_index_bound(y - self.p_min.y, h, w, x - self.p_min.x);
                    assert(raster_points(*self)[k] == Point2 { x, y });
                }
                points.push(Point2 { x, y });
                x = x + 1;
            }
            proof {
                assert((y - self.p_min.y) * w + w == (y + 1 - self.p_min.y) * w) by (nonlinear_arith);
            }
            y = y + 1;
        }
        proof {
            assert(y == self.p_max.y);
            lemma_mul_is_commutative(h, w);
            assert(points.len() == w * h);
            assert(points@ =~= raster_points(*self));
        }
        points
    }
}

proof fn lemma_row_index_bound(row: int, h: int, w: int, col: int)
    requires
        0 <= row < h,
        0 <= col < w,
    ensures
        row * w + col < w * h,
{
    assert(row * w + col < w * h) by (nonlinear_arith)
        requires 0 <= row < h, 0 <= col < w;
}

/// Whether `p` lies inside the integer box `b`, counting the minimum edges but not the
/// maximum ones (what `inside_exclusive` returns).
pub open spec fn in_box(b: Bounds2<isize>, p: Point2<isize>) -> bool {
    b.p_min.x <= p.x < b.p_max.x && b.p_min.y <= p.y < b.p_max.y
}

/// The position of point `k` of the listing of a box of width `w` lies in its row `k / w`
/// and column `k % w`.
proof fn lemma_raster_cell(k: int, w: int, h: int)
    requires
        w > 0,
        h > 0,
        0 <= k < w * h,
    ensures
        0 <= k % w < w,
        0 <= k / w < h,
        k == (k / w) * w + k % w,
{
    lemma_fundamental_div_mod(k, w);
    lemma_mul_is_commutative(w, k / w);
    lemma_mod_pos_bound(k, w);
    lemma_div_pos_is_pos(k, w);
    assert(k / w < h) by (nonlinear_arith)
        requires
            w > 0,
            k < w * h,
            k == w * (k / w) + k % w,
            0 <= k % w,
    ;
}

/// The point listing of a box: it holds as many points as the box's area, or none when the
/// box is empty; every point in it lies inside the box; every point inside the box occurs in
/// it; and it goes in row-major order (`y` ascending, then `x` ascending within a row), so
/// no point occurs twice.
pub proof fn law_raster_points(b: Bounds2<isize>)
    ensures
        raster_points(b).len() == (if b.p_max.x > b.p_min.x && b.p_max.y > b.p_min.y {
            (b.p_max.x - b.p_min.x) * (b.p_max.y - b.p_min.y)
        } else {
            0
        }),
        forall|k: int| 0 <= k < raster_points(b).len() ==> in_box(b, #[trigger] raster_points(b)[k]),
        forall|p: Point2<isize>|
            in_box(b, p) ==> exists|k: int| 0 <= k < raster_points(b).len() && #[trigger] raster_points(b)[k] == p,
        forall|i: int, j: int|
            0 <= i < j < raster_points(b).len() ==> {
                let (pi, pj) = (#[trigger] raster_points(b)[i], #[trigger] raster_points(b)[j]);
                pi.y < pj.y || (pi.y == pj.y && pi.x < pj.x)
            },
{
    let w = b.p_max.x - b.p_min.x;
    let h = b.p_max.y - b.p_min.y;
    let rp = raster_points(b);
    if w <= 0 || h <= 0 {
        assert(forall|p: Point2<isize>| !in_box(b, p));
        return;
    }
    lemma_mul_is_commutative(w, h);
    assert forall|k: int| 0 <= k < rp.len() implies in_box(b, #[trigger] rp[k]) by {
        lemma_raster_cell(k, w, h);
    }
    assert forall|p: Point2<isize>| in_box(b, p) implies exists|k: int|
        0 <= k < rp.len() && #[trigger] rp[k] == p by {
        let row = p.y - b.p_min.y;
        let col = p.x - b.p_min.x;
        let k = row * w + col;
        lemma_fundamental_div_mod_converse(k, w, row, col);
        lemma_row_index_bound(row, h, w, col);
        assert(rp[k] == p);
    }
    assert forall|i: int, j: int| 0 <= i < j < rp.len() implies {
        let (pi, pj) = (#[trigger] rp[i], #[trigger] rp[j]);
        pi.y < pj.y || (pi.y == pj.y && pi.x < pj.x)
    } by {
        lemma_raster_cell(i, w, h);
        lemma_raster_cell(j, w, h);
        lemma_div_is_ordered(i, j, w);
        if i / w == j / w {
            assert(i % w < j % w);
        }
    }
}

impl<T: Number> Bounds2<T> {
    /// Returns the intersection of of the two given bounds.  Note, the returned bounds may be
    /// invalid if the bounds do not overlap.
    pub fn intersect(b1: &Bounds2<T>, b2: &Bounds2<T>) -> (b: Self)
        ensures
            b.p_min.x == num_max(b1.p_min.x, b2.p_min.x),
            b.p_min.y == num_max(b1.p_min.y, b2.p_min.y),
            b.p_max.x == num_min(b1.p_max.x, b2.p_max.x),
            b.p_max.y == num_min(b1.p_max.y, b2.p_max.y),
    {
        Self { p_min: Point2::max(b1.p_min, b2.p_min), p_max: Point2::min(b1.p_max, b2.p_max) }
    }
}

/// Law: a point lies inside the intersection of two integer boxes exactly when it lies
/// inside both.
pub proof fn law_intersect_inside(b1: Bounds2<isize>, b2: Bounds2<isize>, b: Bounds2<isize>, p: Point2<isize>)
    requires
        b.p_min.x == num_max(b1.p_min.x, b2.p_min.x),
        b.p_min.y == num_max(b1.p_min.y, b2.p_min.y),
        b.p_max.x == num_min(b1.p_max.x, b2.p_max.x),
        b.p_max.y == num_min(b1.p_max.y, b2.p_max.y),
    ensures
        (b.p_min.x <= p.x < b.p_max.x && b.p_min.y <= p.y < b.p_max.y) <==> (
        (b1.p_min.x <= p.x < b1.p_max.x && b1.p_min.y <= p.y < b1.p_max.y) && (b2.p_min.x <= p.x
            < b2.p_max.x && b2.p_min.y <= p.y < b2.p_max.y)),
{
}

/// An iterator state over the points of an integer box.
pub struct Bounds2iIterator {
    b: Bounds2i,
    p: Point2i,
}

impl Bounds2iIterator {
    /// The box being walked.
    pub closed spec fn bounds(&self) -> Bounds2i {
        self.b
    }

    /// The current point.
    pub closed spec fn position(&self) -> Point2i {
        self.p
    }

    /// Moves one step along the current row, wrapping to the start of the next row at the end
    /// of a row, and returns the new point; `None` when a wrapped `x` equals `p_max.y`.
    pub fn next(&mut self) -> (r: Option<Point2i>)
        requires
            old(self).position().x < isize::MAX,
            old(self).position().x + 1 == old(self).bounds().p_max.x ==> old(self).position().y
                < isize::MAX,
        ensures
            final(self).bounds() == old(self).bounds(),
            old(self).position().x + 1 != old(self).bounds().p_max.x ==> final(self).position() == (Point2 {
                x: (old(self).position().x + 1) as isize,
                y: old(self).position().y,
            }),
            old(self).position().x + 1 == old(self).bounds().p_max.x ==> final(self).position() == (Point2 {
                x: old(self).bounds().p_min.x,
                y: (old(self).position().y + 1) as isize,
            }),
            r == (if old(self).position().x + 1 == old(self).bounds().p_max.x
                && old(self).bounds().p_min.x == old(self).bounds().p_max.y {
                None
            } else {
                Some(final(self).position())
            }),
    {
        self.p.x = self.p.x + 1;
        if self.p.x == self.b.p_max.x {
            self.p.x = self.b.p_min.x;
            self.p.y = self.p.y + 1;
            if self.p.x == self.b.p_max.y {
                return None;
            }
        }
        Some(self.p)
    }
}

impl Default for Bounds3<isize> {
    /// The box with both corners at the origin.
    fn default() -> (b: Self)
        ensures
            b.p_min == (Point3 { x: 0isize, y: 0isize, z: 0isize }),
            b.p_max == (Point3 { x: 0isize, y: 0isize, z: 0isize }),
    {
        Bounds3 { p_min: Point3 { x: 0, y: 0, z: 0 }, p_max: Point3 { x: 0, y: 0, z: 0 } }
    }
}

impl Bounds3<isize> {
    /// Whether `p` lies inside the box, counting the minimum faces but not the maximum ones.
    pub fn inside_exclusive(&self, p: Point3<isize>) -> (r: bool)
        ensures
            r == (self.p_min.x <= p.x < self.p_max.x && self.p_min.y <= p.y < self.p_max.y
                && self.p_min.z <= p.z < self.p_max.z),
    {
        p.x >= self.p_min.x && p.x < self.p_max.x && p.y >= self.p_min.y && p.y < self.p_max.y
            && p.z >= self.p_min.z && p.z < self.p_max.z
    }
}

} // verus!
