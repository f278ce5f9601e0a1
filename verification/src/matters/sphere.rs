//! The unit sphere, placed in the world by its transformation.

use vstd::prelude::*;
use crate::matrix::{Matrix, identity_grid};
use crate::matters::{Intersection, hit_index, is_hit};
use crate::matters::material::Material;
use crate::scalar::Scalar;
use crate::vector::Point;

verus! {

/// A sphere of radius one about `origin` in its own space; `transformation`
/// takes that space to the world.
#[derive(Debug)]
pub struct Sphere {
    /// The center in the sphere's own space: always the origin.
    pub origin: Point,
    pub transformation: Matrix,
    pub material: Material,
}

impl Sphere {
    /// The two spheres are the same: same center, same grid of
    /// transformation, same material.
    pub open spec fn alike(&self, other: &Sphere) -> bool {
        &&& self.origin == other.origin
        &&& self.transformation@ == other.transformation@
        &&& self.material == other.material
    }

    /// The sphere at the origin that `transformation_matrix` places in the
    /// world, of the default material.
    pub fn new(transformation_matrix: Matrix) -> (sphere: Sphere)
        ensures
            sphere.origin == Point::origin_spec(),
            sphere.transformation == transformation_matrix,
            sphere.material == Material::default_spec(),
    {
        let mut sphere = Sphere::default();
        sphere.set_transformation(transformation_matrix);
        sphere
    }

    pub fn set_transformation(&mut self, transformation_matrix: Matrix)
        ensures
            final(self).transformation == transformation_matrix,
            final(self).origin == old(self).origin,
            final(self).material == old(self).material,
    {
        self.transformation = transformation_matrix;
    }

    /// Where a ray meets the sphere, from what the ray's quadratic gave.
    ///
    /// In the sphere's own space a ray meets the surface where
    /// `a t^2 + b t + c = 0`; `discriminant` is `b^2 - 4ac`, and `near` and
    /// `far` are `(-b - sqrt(discriminant)) / 2a` and
    /// `(-b + sqrt(discriminant)) / 2a`. A discriminant below zero means the
    /// ray misses. Otherwise it meets the sphere twice, at `near`, then at
    /// `far`: a ray that only touches meets it twice at the same distance.
    pub fn intersect(&self, discriminant: Scalar, near: Scalar, far: Scalar) -> (found: Vec<
        Intersection<Sphere>,
    >)
        ensures
            (Scalar { bits: 0 }).at_most(discriminant) ==> {
                &&& found@.len() == 2
                &&& found@[0].distance == near
                &&& found@[1].distance == far
                &&& found@[0].object.alike(self)
                &&& found@[1].object.alike(self)
            },
            !(Scalar { bits: 0 }).at_most(discriminant) ==> found@.len() == 0,
    {
        let mut intersections: Vec<Intersection<Sphere>> = Vec::new();
        if discriminant.ge(Scalar::from_bits(0)) {
            intersections.push(Intersection::new(near, self.clone()));
            intersections.push(Intersection::new(far, self.clone()));
        }
        intersections
    }
}

impl Sphere {
    /// The hit among `intersections`: the nearest of those that lie ahead
    /// on the ray, and of equally near ones the first. Intersections behind
    /// the ray's origin are never hit; where all lie behind, or there is
    /// none, nothing is hit.
    pub fn hits(intersections: &[Intersection<Sphere>]) -> (hit: Option<Intersection<Sphere>>)
        ensures
            match hit {
                Some(h) => exists|i: int|
                    {
                        &&& is_hit(intersections@, i)
                        &&& h.distance == intersections@[i].distance
                        &&& h.object.alike(&intersections@[i].object)
                    },
                None => forall|j: int|
                    0 <= j < intersections@.len() ==> !(#[trigger] intersections@[j]).ahead(),
            },
    {
        match hit_index(intersections) {
            Some(i) => Some(Intersection::new(intersections[i].distance, intersections[i].object.clone())),
            None => None,
        }
    }
}

impl Clone for Sphere {
    fn clone(&self) -> (sphere: Sphere)
        ensures
            sphere.alike(self),
    {
        Sphere {
            origin: self.origin,
            transformation: self.transformation.clone(),
            material: self.material,
        }
    }
}

impl Default for Sphere {
    fn default() -> (sphere: Sphere)
        ensures
            sphere.origin == Point::origin_spec(),
            sphere.transformation@ == identity_grid(),
            sphere.material == Material::default_spec(),
    {
        Sphere {
            origin: Point::origin(),
            transformation: Matrix::identity_4x4(),
            material: Material::default(),
        }
    }
}

} // verus!
