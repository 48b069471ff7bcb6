//! The catalogue of surfaces.
//!
//! Every body of the scene is drawn with one surface. The colour a surface
//! gives to a fragment is real arithmetic and belongs to the caller; what
//! is decided here is how that colour is finished: a surface that shines by
//! itself keeps its colour as it is, every other surface has its colour
//! scaled by the light that reaches the fragment.

use vstd::prelude::*;

verus! {

/// The surfaces that the scene knows.
#[derive(Debug, Clone, Copy, PartialEq, Eq, Structural)]
pub enum ShaderType {
    /// A red desert planet with polar caps.
    Mars,
    /// A brown rocky planet.
    Mocca,
    /// The star at the centre.
    Sun,
    /// A banded gas giant.
    Saturn,
    /// The ring of the gas giant.
    SaturnRing,
}

impl ShaderType {
    /// Whether the surface shines by itself.
    pub open spec fn self_luminous(self) -> bool {
        self is Sun
    }

    /// Whether the surface's colour is scaled by the fragment's light: true
    /// of every surface but the star.
    pub fn is_lit(self) -> (lit: bool)
        ensures
            lit == !self.self_luminous(),
    {
        match self {
            ShaderType::Sun => false,
            ShaderType::Mars => true,
            ShaderType::Mocca => true,
            ShaderType::Saturn => true,
            ShaderType::SaturnRing => true,
        }
    }
}

} // verus!
