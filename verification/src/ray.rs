//! Rays: a starting point and a direction.

use vstd::prelude::*;
use crate::vector::{Point, Vec4};

verus! {

/// A half line from `origin` along `direction`.
#[derive(Clone, Copy, Debug)]
pub struct Ray {
    pub origin: Point,
    pub direction: Vec4,
}

impl Ray {
    pub fn new(origin: Point, direction: Vec4) -> (ray: Ray)
        ensures
            ray.origin == origin,
            ray.direction == direction,
    {
        Ray { origin, direction }
    }
}

} // verus!
