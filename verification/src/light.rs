//! Traits and helper types to define lighting.
use vstd::prelude::*;

use crate::medium::MediumInterface;

verus! {

/// Flags for the various light types.
#[derive(Debug, Clone, Copy, PartialEq, Eq, Structural)]
pub enum LightFlags {
    /// Light uses delta sampling, type position.
    DeltaPosition,
    /// Light uses delta sampling, type direction.
    DeltaDirection,
    /// Is an area light.
    Area,
    /// Is a light at infinite distance.
    Infinite,
}

/// A light source.
pub trait Light {}

/// LightData holds data common to various `Light` implementations.
pub struct LightData {
    flags: LightFlags,
    n_samples: isize,
    medium_interface: MediumInterface,
}

impl LightData {
    /// The kind of light.
    pub closed spec fn flags(&self) -> LightFlags {
        self.flags
    }

    /// The number of samples taken of the light.
    pub closed spec fn n_samples(&self) -> isize {
        self.n_samples
    }

    /// The media on either side of the light.
    pub closed spec fn medium_interface(&self) -> MediumInterface {
        self.medium_interface
    }

    /// Construct `LightData` from given parameters.
    pub fn new(flags: LightFlags, n_samples: isize, medium_interface: MediumInterface) -> (l: LightData)
        ensures
            l.flags() == flags,
            l.n_samples() == n_samples,
            l.medium_interface() == medium_interface,
    {
        LightData { flags, n_samples, medium_interface }
    }
}

} // verus!
