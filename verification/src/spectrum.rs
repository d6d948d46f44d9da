//! Spectral representation settings.
use vstd::prelude::*;

verus! {

/// Spectrum type, used when converting between RGB and sampled spectra.
#[derive(Debug, Clone, Copy, PartialEq, Eq, Structural)]
pub enum SpectrumType {
    /// Use reflectance coefficients
    Reflectance,
    /// Use illuminant coefficients
    Illuminant,
}

} // verus!
