//! Mediums represent volumetric scattering.
use vstd::prelude::*;
use std::sync::Arc;

verus! {

/// A participating medium.
pub trait Medium {}

/// MediumInterface defines the border between two media.
pub struct MediumInterface {
    /// The `Medium` inside the object.
    pub inside: Option<Arc<dyn Medium>>,
    /// The `Medium` outside the object.
    pub outside: Option<Arc<dyn Medium>>,
}

impl Default for MediumInterface {
    /// No medium on either side.
    fn default() -> (mi: MediumInterface)
        ensures
            mi.inside is None,
            mi.outside is None,
    {
        MediumInterface { inside: None, outside: None }
    }
}

} // verus!
