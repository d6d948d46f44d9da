//! 3D normals.
use vstd::prelude::*;

use super::Number;

verus! {

/// Generic type for any 3D normal.
#[derive(Copy, Clone, Debug, Default, PartialEq)]
pub struct Normal3<T> {
    /// The x coordinate of this normal.
    pub x: T,
    /// The y coordinate of this normal.
    pub y: T,
    /// The z coordinate of this normal.
    pub z: T,
}

impl<T: Number> From<[T; 3]> for Normal3<T> {
    fn from(xyz: [T; 3]) -> (n: Self) {
        Normal3 { x: xyz[0], y: xyz[1], z: xyz[2] }
    }
}

impl<T: Number> vstd::std_specs::convert::FromSpecImpl<[T; 3]> for Normal3<T> {
    open spec fn obeys_from_spec() -> bool {
        true
    }

    open spec fn from_spec(xyz: [T; 3]) -> Self {
        Normal3 { x: xyz@[0], y: xyz@[1], z: xyz@[2] }
    }
}

impl<T: Number> From<(T, T, T)> for Normal3<T> {
    fn from(xyz: (T, T, T)) -> (n: Self) {
        Normal3 { x: xyz.0, y: xyz.1, z: xyz.2 }
    }
}

impl<T: Number> vstd::std_specs::convert::FromSpecImpl<(T, T, T)> for Normal3<T> {
    open spec fn obeys_from_spec() -> bool {
        true
    }

    open spec fn from_spec(xyz: (T, T, T)) -> Self {
        Normal3 { x: xyz.0, y: xyz.1, z: xyz.2 }
    }
}

} // verus!
