//! The sun and the moon as directional lights of the map scene; each light
//! takes the colour and direction of its own body.
use vstd::prelude::*;

verus! {

/// Which celestial body a directional light stands for.
#[derive(Debug, Clone, Copy, PartialEq, Eq, Structural)]
pub enum CelestialDirectionalLightKind {
    Sun,
    Moon,
}

/// A directional light that follows the sun or the moon.
#[derive(Debug, Clone, Copy, PartialEq, Eq, Structural)]
pub struct CelestialDirectionalLight {
    pub kind: CelestialDirectionalLightKind,
}

impl CelestialDirectionalLightKind {
    /// Of a value for the sun and one for the moon, the one for this body.
    pub fn select<T>(self, sun: T, moon: T) -> (chosen: T)
        ensures
            chosen == (match self {
                CelestialDirectionalLightKind::Sun => sun,
                CelestialDirectionalLightKind::Moon => moon,
            }),
    {
        match self {
            CelestialDirectionalLightKind::Sun => sun,
            CelestialDirectionalLightKind::Moon => moon,
        }
    }
}

} // verus!
