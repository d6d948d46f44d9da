//! 2D and 3D vectors.
use vstd::prelude::*;

use super::point::fits_isize;
use super::Number;

verus! {

/// Generic type for any 2D vector.
#[derive(Copy, Clone, Debug, Default, PartialEq)]
pub struct Vector2<T> {
    /// The x coordinate of this vector.
    pub x: T,
    /// The y coordinate of this vector.
    pub y: T,
}

/// Generic type for any 3D vector.
#[derive(Copy, Clone, Debug, Default, PartialEq)]
pub struct Vector3<T> {
    /// The x coordinate of this vector.
    pub x: T,
    /// The y coordinate of this vector.
    pub y: T,
    /// The z coordinate of this vector.
    pub z: T,
}

/// 2D vector type with `isize` members.
pub type Vector2i = Vector2<isize>;

/// 3D vector type with `isize` members.
pub type Vector3i = Vector3<isize>;

impl<T: Number> From<[T; 2]> for Vector2<T> {
    fn from(xy: [T; 2]) -> (v: Self) {
        Vector2 { x: xy[0], y: xy[1] }
    }
}

impl<T: Number> vstd::std_specs::convert::FromSpecImpl<[T; 2]> for Vector2<T> {
    open spec fn obeys_from_spec() -> bool {
        true
    }

    open spec fn from_spec(xy: [T; 2]) -> Self {
        Vector2 { x: xy@[0], y: xy@[1] }
    }
}

impl<T: Number> From<(T, T)> for Vector2<T> {
    fn from(xy: (T, T)) -> (v: Self) {
        Vector2 { x: xy.0, y: xy.1 }
    }
}

impl<T: Number> vstd::std_specs::convert::FromSpecImpl<(T, T)> for Vector2<T> {
    open spec fn obeys_from_spec() -> bool {
        true
    }

    open spec fn from_spec(xy: (T, T)) -> Self {
        Vector2 { x: xy.0, y: xy.1 }
    }
}

impl core::ops::Sub for Vector2<isize> {
    type Output = Self;

    /// Implement `-` for Vector2<isize> - Vector2<isize>.
    fn sub(self, rhs: Self) -> (v: Self) {
        Vector2 { x: self.x - rhs.x, y: self.y - rhs.y }
    }
}

impl vstd::std_specs::ops::SubSpecImpl for Vector2<isize> {
    open spec fn obeys_sub_spec() -> bool {
        true
    }

    /// Both differences fit in `isize`.
    open spec fn sub_req(self, rhs: Self) -> bool {
        fits_isize(self.x - rhs.x) && fits_isize(self.y - rhs.y)
    }

    open spec fn sub_spec(self, rhs: Self) -> Self {
        Vector2 { x: (self.x - rhs.x) as isize, y: (self.y - rhs.y) as isize }
    }
}

/// Whether any coordinate of the vector is NaN.
pub open spec fn vector3_has_nans<T: Number>(v: Vector3<T>) -> bool {
    v.x.num_is_nan() || v.y.num_is_nan() || v.z.num_is_nan()
}

impl<T: Number> Vector3<T> {
    /// Create a new `Vector3` with the given x,y,z values.
    pub fn new(x: T, y: T, z: T) -> (v: Vector3<T>)
        ensures
            v == (Vector3 { x, y, z }),
    {
        Vector3 { x, y, z }
    }

    /// Whether any coordinate is NaN.
    #[allow(dead_code)]
    fn has_nans(&self) -> (r: bool)
        ensures
            r == vector3_has_nans(*self),
    {
        self.x.is_nan() || self.y.is_nan() || self.z.is_nan()
    }
}

impl<T: Number> From<[T; 3]> for Vector3<T> {
    /// A vector from its coordinates.
    fn from(v: [T; 3]) -> (r: Self) {
        Self { x: v[0], y: v[1], z: v[2] }
    }
}

impl<T: Number> vstd::std_specs::convert::FromSpecImpl<[T; 3]> for Vector3<T> {
    open spec fn obeys_from_spec() -> bool {
        true
    }

    open spec fn from_spec(v: [T; 3]) -> Self {
        Vector3 { x: v@[0], y: v@[1], z: v@[2] }
    }
}

impl<T: Number> From<(T, T, T)> for Vector3<T> {
    fn from(xyz: (T, T, T)) -> (v: Self) {
        Vector3 { x: xyz.0, y: xyz.1, z: xyz.2 }
    }
}

impl<T: Number> vstd::std_specs::convert::FromSpecImpl<(T, T, T)> for Vector3<T> {
    open spec fn obeys_from_spec() -> bool {
        true
    }

    open spec fn from_spec(xyz: (T, T, T)) -> Self {
        Vector3 { x: xyz.0, y: xyz.1, z: xyz.2 }
    }
}

impl core::ops::Sub for Vector3<isize> {
    type Output = Self;

    /// Implement `-` for Vector3<isize> - Vector3<isize>.
    fn sub(self, rhs: Self) -> (v: Self) {
        Vector3 { x: self.x - rhs.x, y: self.y - rhs.y, z: self.z - rhs.z }
    }
}

impl vstd::std_specs::ops::SubSpecImpl for Vector3<isize> {
    open spec fn obeys_sub_spec() -> bool {
        true
    }

    /// All three differences fit in `isize`.
    open spec fn sub_req(self, rhs: Self) -> bool {
        fits_isize(self.x - rhs.x) && fits_isize(self.y - rhs.y) && fits_isize(self.z - rhs.z)
    }

    open spec fn sub_spec(self, rhs: Self) -> Self {
        Vector3 {
            x: (self.x - rhs.x) as isize,
            y: (self.y - rhs.y) as isize,
            z: (self.z - rhs.z) as isize,
        }
    }
}

/// The cross product of two integer vectors, computed exactly.
pub open spec fn cross_spec(v1: Vector3<isize>, v2: Vector3<isize>) -> (int, int, int) {
    (
        v1.y * v2.z - v1.z * v2.y,
        v1.z * v2.x - v1.x * v2.z,
        v1.x * v2.y - v1.y * v2.x,
    )
}

/// Whether every product and difference in the cross product of `v1` and `v2` fits in `isize`.
pub open spec fn cross_fits(v1: Vector3<isize>, v2: Vector3<isize>) -> bool {
    &&& fits_isize(v1.y * v2.z) && fits_isize(v1.z * v2.y)
    &&& fits_isize(v1.z * v2.x) && fits_isize(v1.x * v2.z)
    &&& fits_isize(v1.x * v2.y) && fits_isize(v1.y * v2.x)
    &&& fits_isize(cross_spec(v1, v2).0)
    &&& fits_isize(cross_spec(v1, v2).1)
    &&& fits_isize(cross_spec(v1, v2).2)
}

/// Compute cross-product of two 3D vectors.
pub fn cross(v1: Vector3<isize>, v2: Vector3<isize>) -> (v: Vector3<isize>)
    requires
        cross_fits(v1, v2),
    ensures
        v.x == cross_spec(v1, v2).0,
        v.y == cross_spec(v1, v2).1,
        v.z == cross_spec(v1, v2).2,
{
    Vector3::from([
        (v1.y * v2.z) - (v1.z * v2.y),
        (v1.z * v2.x) - (v1.x * v2.z),
        (v1.x * v2.y) - (v1.y * v2.x),
    ])
}

/// Law: the cross product is anticommutative.
pub proof fn law_cross_anticommutative(v1: Vector3<isize>, v2: Vector3<isize>)
    ensures
        cross_spec(v1, v2).0 == -cross_spec(v2, v1).0,
        cross_spec(v1, v2).1 == -cross_spec(v2, v1).1,
        cross_spec(v1, v2).2 == -cross_spec(v2, v1).2,
{
    assert(v1.y * v2.z == v2.z * v1.y) by (nonlinear_arith);
    assert(v1.z * v2.y == v2.y * v1.z) by (nonlinear_arith);
    assert(v1.z * v2.x == v2.x * v1.z) by (nonlinear_arith);
    assert(v1.x * v2.z == v2.z * v1.x) by (nonlinear_arith);
    assert(v1.x * v2.y == v2.y * v1.x) by (nonlinear_arith);
    assert(v1.y * v2.x == v2.x * v1.y) by (nonlinear_arith);
}

/// Law: the cross product is orthogonal to both of its arguments.
pub proof fn law_cross_orthogonal(v1: Vector3<isize>, v2: Vector3<isize>)
    ensures
        v1.x * cross_spec(v1, v2).0 + v1.y * cross_spec(v1, v2).1 + v1.z * cross_spec(v1, v2).2 == 0,
        v2.x * cross_spec(v1, v2).0 + v2.y * cross_spec(v1, v2).1 + v2.z * cross_spec(v1, v2).2 == 0,
{
    let (a, b, c) = (v1.x as int, v1.y as int, v1.z as int);
    let (d, e, f) = (v2.x as int, v2.y as int, v2.z as int);
    assert(a * (b * f - c * e) + b * (c * d - a * f) + c * (a * e - b * d) == 0) by (nonlinear_arith);
    assert(d * (b * f - c * e) + e * (c * d - a * f) + f * (a * e - b * d) == 0) by (nonlinear_arith);
}

} // verus!
