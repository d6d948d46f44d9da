//! Textures: values that vary across the surface of an object, and the constant texture.
use vstd::prelude::*;

verus! {

/// The `Texture` trait allows for sampling a material that varies across the surface of an
/// object.
pub trait Texture<T> {
    /// `evaluate` the texture.
    fn evaluate(&self) -> T;
}

/// Implements trait [Texture] to return the given `value`.
#[derive(Clone)]
pub struct ConstantTexture<T> {
    value: T,
}

impl<T> ConstantTexture<T> {
    /// The value this texture returns everywhere.
    pub closed spec fn value(&self) -> T {
        self.value
    }

    /// Create a new `ConstantTexture` with the given constant `value`.
    pub fn new(value: T) -> (t: ConstantTexture<T>)
        ensures
            t.value() == value,
    {
        ConstantTexture { value }
    }
}

impl<T: Clone> Texture<T> for ConstantTexture<T> {
    /// Returns a clone of the constant value.
    fn evaluate(&self) -> (r: T)
        ensures
            cloned(self.value(), r),
    {
        self.value.clone()
    }
}

} // verus!
