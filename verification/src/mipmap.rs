//! MIP-map settings.
use vstd::prelude::*;

verus! {

/// ImageWrap describes the mipmap sampling behavior when the sample is outside the range of
/// [0, 1].
#[derive(Debug, Clone, Copy, PartialEq, Eq, Structural)]
pub enum ImageWrap {
    /// Wrap around.
    Repeat,
    /// Return black pixels.
    Black,
    /// Clamp to edge of texture.
    Clamp,
}

} // verus!
