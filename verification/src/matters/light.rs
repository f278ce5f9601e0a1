//! Point light sources.

use vstd::prelude::*;
use crate::canvas::Color;
use crate::vector::Point;

verus! {

/// A light without size, at `position`, of color and brightness `intensity`.
#[derive(Clone, Copy, Debug)]
pub struct Light {
    pub position: Point,
    pub intensity: Color,
}

impl Light {
    pub fn new(position: Point, intensity: Color) -> (light: Light)
        ensures
            light.position == position,
            light.intensity == intensity,
    {
        Light { position, intensity }
    }
}

} // verus!
