//! 2D and 3D points.
use vstd::prelude::*;

use super::vector::Vector2;
use super::Number;

verus! {

/// Generic type for any 2D point.
#[derive(Copy, Clone, Debug, Default, PartialEq)]
pub struct Point2<T> {
    /// The x coordinate of this point.
    pub x: T,
    /// The y coordinate of this point.
    pub y: T,
}

/// Generic type for any 3D point.
#[derive(Copy, Clone, Debug, Default, PartialEq)]
pub struct Point3<T> {
    /// The x coordinate of this point.
    pub x: T,
    /// The y coordinate of this point.
    pub y: T,
    /// The z coordinate of this point.
    pub z: T,
}

/// 2D point type with `isize` members.
pub type Point2i = Point2<isize>;

/// 3D point type with `isize` members.
pub type Point3i = Point3<isize>;

/// The smaller of two values in the order of `Number`.
pub open spec fn num_min<T: Number>(a: T, b: T) -> T {
    if a.num_lt(b) {
        a
    } else {
        b
    }
}

/// The larger of two values in the order of `Number`.
pub open spec fn num_max<T: Number>(a: T, b: T) -> T {
    if b.num_lt(a) {
        a
    } else {
        b
    }
}

/// Whether `v` is a value of `isize`.
pub open spec fn fits_isize(v: int) -> bool {
    isize::MIN <= v <= isize::MAX
}

impl<T: Number> Point2<T> {
    /// Create a new `Point2` with the min `x` and `y` values from p1 & p2.
    pub fn min(p1: Point2<T>, p2: Point2<T>) -> (p: Point2<T>)
        ensures
            p.x == num_min(p1.x, p2.x),
            p.y == num_min(p1.y, p2.y),
    {
        let x = Number::min(p1.x, p2.x);
        let y = Number::min(p1.y, p2.y);
        Point2 { x, y }
    }

    /// Create a new `Point2` with the max `x` and `y` values from p1 & p2.
    pub fn max(p1: Point2<T>, p2: Point2<T>) -> (p: Point2<T>)
        ensures
            p.x == num_max(p1.x, p2.x),
            p.y == num_max(p1.y, p2.y),
    {
        let x = Number::max(p1.x, p2.x);
        let y = Number::max(p1.y, p2.y);
        Point2 { x, y }
    }
}

impl<T: Number> Point3<T> {
    /// Create a new `Point3` with the min `x`, `y` and `z` values from p1 & p2.
    pub fn min(p1: Point3<T>, p2: Point3<T>) -> (p: Point3<T>)
        ensures
            p.x == num_min(p1.x, p2.x),
            p.y == num_min(p1.y, p2.y),
            p.z == num_min(p1.z, p2.z),
    {
        let x = Number::min(p1.x, p2.x);
        let y = Number::min(p1.y, p2.y);
        let z = Number::min(p1.z, p2.z);
        Point3 { x, y, z }
    }

    /// Create a new `Point3` with the max `x`, `y` and `z` values from p1 & p2.
    pub fn max(p1: Point3<T>, p2: Point3<T>) -> (p: Point3<T>)
        ensures
            p.x == num_max(p1.x, p2.x),
            p.y == num_max(p1.y, p2.y),
            p.z == num_max(p1.z, p2.z),
    {
        let x = Number::max(p1.x, p2.x);
        let y = Number::max(p1.y, p2.y);
        let z = Number::max(p1.z, p2.z);
        Point3 { x, y, z }
    }
}

impl<T: Number> From<[T; 2]> for Point2<T> {
    fn from(xy: [T; 2]) -> (p: Self) {
        Point2 { x: xy[0], y: xy[1] }
    }
}

impl<T: Number> vstd::std_specs::convert::FromSpecImpl<[T; 2]> for Point2<T> {
    open spec fn obeys_from_spec() -> bool {
        true
    }

    open spec fn from_spec(xy: [T; 2]) -> Self {
        Point2 { x: xy@[0], y: xy@[1] }
    }
}

impl<T: Number> From<(T, T)> for Point2<T> {
    fn from(xy: (T, T)) -> (p: Self) {
        Point2 { x: xy.0, y: xy.1 }
    }
}

impl<T: Number> vstd::std_specs::convert::FromSpecImpl<(T, T)> for Point2<T> {
    open spec fn obeys_from_spec() -> bool {
        true
    }

    open spec fn from_spec(xy: (T, T)) -> Self {
        Point2 { x: xy.0, y: xy.1 }
    }
}

impl<T: Number> From<[T; 3]> for Point3<T> {
    fn from(xyz: [T; 3]) -> (p: Self) {
        Point3 { x: xyz[0], y: xyz[1], z: xyz[2] }
    }
}

impl<T: Number> vstd::std_specs::convert::FromSpecImpl<[T; 3]> for Point3<T> {
    open spec fn obeys_from_spec() -> bool {
        true
    }

    open spec fn from_spec(xyz: [T; 3]) -> Self {
        Point3 { x: xyz@[0], y: xyz@[1], z: xyz@[2] }
    }
}

impl core::ops::Div<isize> for Point2<isize> {
    type Output = Self;

    /// Implement `/` for Point2<isize> / isize: each coordinate divided, rounding toward zero.
    fn div(self, rhs: isize) -> (p: Self) {
        Point2 { x: self.x / rhs, y: self.y / rhs }
    }
}

/// Integer division rounding toward zero, as Rust's `/` on signed integers.
pub open spec fn div_toward_zero(a: int, b: int) -> int {
    if a >= 0 {
        a / b
    } else {
        -((-a) / b)
    }
}

impl vstd::std_specs::ops::DivSpecImpl<isize> for Point2<isize> {
    open spec fn obeys_div_spec() -> bool {
        true
    }

    /// The divisor is nonzero and no quotient overflows (`isize::MIN / -1`).
    open spec fn div_req(self, rhs: isize) -> bool {
        rhs != 0 && !(rhs == -1 && (self.x == isize::MIN || self.y == isize::MIN))
    }

    open spec fn div_spec(self, rhs: isize) -> Self {
        Point2 {
            x: div_toward_zero(self.x as int, rhs as int) as isize,
            y: div_toward_zero(self.y as int, rhs as int) as isize,
        }
    }
}

impl core::ops::Mul<isize> for Point2<isize> {
    type Output = Self;

    /// Implement `*` for Point2<isize> * isize.
    fn mul(self, rhs: isize) -> (p: Self) {
        Point2 { x: self.x * rhs, y: self.y * rhs }
    }
}

impl vstd::std_specs::ops::MulSpecImpl<isize> for Point2<isize> {
    open spec fn obeys_mul_spec() -> bool {
        true
    }

    /// Both products fit in `isize`.
    open spec fn mul_req(self, rhs: isize) -> bool {
        fits_isize(self.x * rhs) && fits_isize(self.y * rhs)
    }

    open spec fn mul_spec(self, rhs: isize) -> Self {
        Point2 { x: (self.x * rhs) as isize, y: (self.y * rhs) as isize }
    }
}

impl core::ops::Sub for Point2<isize> {
    type Output = Self;

    /// Implement `-` for Point2<isize>.
    fn sub(self, rhs: Self) -> (p: Self) {
        Point2 { x: self.x - rhs.x, y: self.y - rhs.y }
    }
}

impl vstd::std_specs::ops::SubSpecImpl for Point2<isize> {
    open spec fn obeys_sub_spec() -> bool {
        true
    }

    /// Both differences fit in `isize`.
    open spec fn sub_req(self, rhs: Self) -> bool {
        fits_isize(self.x - rhs.x) && fits_isize(self.y - rhs.y)
    }

    open spec fn sub_spec(self, rhs: Self) -> Self {
        Point2 { x: (self.x - rhs.x) as isize, y: (self.y - rhs.y) as isize }
    }
}

impl core::ops::Sub<Vector2<isize>> for Point2<isize> {
    type Output = Self;

    /// Implement `-` for Point2<isize> - Vector2<isize>.
    fn sub(self, rhs: Vector2<isize>) -> (p: Self) {
        Point2 { x: self.x - rhs.x, y: self.y - rhs.y }
    }
}

impl vstd::std_specs::ops::SubSpecImpl<Vector2<isize>> for Point2<isize> {
    open spec fn obeys_sub_spec() -> bool {
        true
    }

    /// Both differences fit in `isize`.
    open spec fn sub_req(self, rhs: Vector2<isize>) -> bool {
        fits_isize(self.x - rhs.x) && fits_isize(self.y - rhs.y)
    }

    open spec fn sub_spec(self, rhs: Vector2<isize>) -> Self {
        Point2 { x: (self.x - rhs.x) as isize, y: (self.y - rhs.y) as isize }
    }
}

impl core::ops::Add for Point2<isize> {
    type Output = Self;

    /// Implement `+` for Point2<isize>.
    fn add(self, rhs: Self) -> (p: Self) {
        Point2 { x: self.x + rhs.x, y: self.y + rhs.y }
    }
}

impl vstd::std_specs::ops::AddSpecImpl for Point2<isize> {
    open spec fn obeys_add_spec() -> bool {
        true
    }

    /// Both sums fit in `isize`.
    open spec fn add_req(self, rhs: Self) -> bool {
        fits_isize(self.x + rhs.x) && fits_isize(self.y + rhs.y)
    }

    open spec fn add_spec(self, rhs: Self) -> Self {
        Point2 { x: (self.x + rhs.x) as isize, y: (self.y + rhs.y) as isize }
    }
}

impl core::ops::Add<Vector2<isize>> for Point2<isize> {
    type Output = Self;

    /// Implement `+` for Point2<isize> + Vector2<isize>.
    fn add(self, rhs: Vector2<isize>) -> (p: Self) {
        Point2 { x: self.x + rhs.x, y: self.y + rhs.y }
    }
}

impl vstd::std_specs::ops::AddSpecImpl<Vector2<isize>> for Point2<isize> {
    open spec fn obeys_add_spec() -> bool {
        true
    }

    /// Both sums fit in `isize`.
    open spec fn add_req(self, rhs: Vector2<isize>) -> bool {
        fits_isize(self.x + rhs.x) && fits_isize(self.y + rhs.y)
    }

    open spec fn add_spec(self, rhs: Vector2<isize>) -> Self {
        Point2 { x: (self.x + rhs.x) as isize, y: (self.y + rhs.y) as isize }
    }
}

} // verus!
