//! Types and utilities for dealing with 2D and 3D integer data: points, vectors,
//! normals and bounding boxes.
use vstd::prelude::*;

pub mod bounds;
pub mod normal;
pub mod point;
pub mod vector;

pub use bounds::Bounds2;
pub use bounds::Bounds2i;
pub use bounds::Bounds2iIterator;
pub use bounds::Bounds3;
pub use bounds::Bounds3i;
pub use normal::Normal3;
pub use point::Point2;
pub use point::Point2i;
pub use point::Point3;
pub use point::Point3i;
pub use vector::cross;
pub use vector::Vector2;
pub use vector::Vector2i;
pub use vector::Vector3;
pub use vector::Vector3i;

verus! {

/// Trait for the scalar types that the geometric types are built from.
pub trait Number: Sized + Copy {
    /// Whether `self` orders strictly before `other`.
    spec fn num_lt(self, other: Self) -> bool;

    /// Whether `self` is NaN (never for integers).
    spec fn num_is_nan(self) -> bool;

    /// Returns true if this value is NaN.
    fn is_nan(self) -> (r: bool)
        ensures
            r == self.num_is_nan(),
    ;

    /// Returns the smallest value this type can hold.
    fn min_value() -> Self;

    /// Returns the largest value this type can hold.
    fn max_value() -> Self;

    /// Returns the maximum of self or other.  No special care is taken for NaN and infinity.
    fn max(self, other: Self) -> (r: Self)
        ensures
            r == (if other.num_lt(self) { self } else { other }),
    ;

    /// Returns the minimum of self or other.  No special care is taken for NaN and infinity.
    fn min(self, other: Self) -> (r: Self)
        ensures
            r == (if self.num_lt(other) { self } else { other }),
    ;
}

impl Number for isize {
    open spec fn num_lt(self, other: Self) -> bool {
        self < other
    }

    open spec fn num_is_nan(self) -> bool {
        false
    }

    fn is_nan(self) -> (r: bool) {
        false
    }

    fn min_value() -> (r: Self)
        ensures
            r == isize::MIN,
    {
        isize::MIN
    }

    fn max_value() -> (r: Self)
        ensures
            r == isize::MAX,
    {
        isize::MAX
    }

    fn max(self, other: Self) -> (r: Self) {
        if self > other {
            self
        } else {
            other
        }
    }

    fn min(self, other: Self) -> (r: Self) {
        if self < other {
            self
        } else {
            other
        }
    }
}

} // verus!
