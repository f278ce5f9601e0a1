//! The scene: lights and spheres, what a ray meets among them, and which
//! points lie in shadow.

use vstd::prelude::*;
use vstd::arithmetic::power2::*;
use crate::canvas::Color;
use crate::matrix::{Matrix, identity_grid, scaling_grid};
use crate::matters::{Intersection, is_hit, is_sorting_of, sort_by_distance};
use crate::matters::light::Light;
use crate::matters::material::{Material, Reflection, DEFAULT_AMBIENT, DEFAULT_DIFFUSE, DEFAULT_SHININESS};
use crate::matters::sphere::Sphere;
use crate::scalar::Scalar;
use crate::vector::{Point, ONE};

verus! {

/// The encoding of `10.0`.
pub const TEN: u64 = 0x4024_0000_0000_0000;

/// The encoding of `-10.0`.
pub const MINUS_TEN: u64 = 0xc024_0000_0000_0000;

/// The encoding of `0.8`.
pub const EIGHT_TENTHS: u64 = 0x3fe9_9999_9999_999a;

/// The encoding of `0.6`.
pub const SIX_TENTHS: u64 = 0x3fe3_3333_3333_3333;

/// The encoding of `0.7`.
pub const SEVEN_TENTHS: u64 = 0x3fe6_6666_6666_6666;

/// The encoding of `0.2`.
pub const TWO_TENTHS: u64 = 0x3fc9_9999_9999_999a;

/// The encoding of `0.5`.
pub const HALF: u64 = 0x3fe0_0000_0000_0000;

/// The encodings above are those of the numbers that they are named for.
pub proof fn law_default_numbers()
    ensures
        (Scalar { bits: TEN }).stands_for(10, 1),
        (Scalar { bits: MINUS_TEN }).stands_for(-10, 1),
        (Scalar { bits: EIGHT_TENTHS }).stands_for(8, 10),
        (Scalar { bits: SIX_TENTHS }).stands_for(6, 10),
        (Scalar { bits: SEVEN_TENTHS }).stands_for(7, 10),
        (Scalar { bits: TWO_TENTHS }).stands_for(2, 10),
        (Scalar { bits: HALF }).stands_for(1, 2),
{
    lemma2_to64();
    lemma2_to64_rest();
    crate::scalar::lemma_stands_for(Scalar { bits: TEN }, 10, 1, 0x14_0000_0000_0000, 0x2_0000_0000_0000);
    crate::scalar::lemma_stands_for(
        Scalar { bits: MINUS_TEN },
        -10,
        1,
        -0x14_0000_0000_0000,
        0x2_0000_0000_0000,
    );
    crate::scalar::lemma_stands_for(
        Scalar { bits: EIGHT_TENTHS },
        8,
        10,
        0x19_9999_9999_999a,
        0x20_0000_0000_0000,
    );
    crate::scalar::lemma_stands_for(
        Scalar { bits: SIX_TENTHS },
        6,
        10,
        0x13_3333_3333_3333,
        0x20_0000_0000_0000,
    );
    crate::scalar::lemma_stands_for(
        Scalar { bits: SEVEN_TENTHS },
        7,
        10,
        0x16_6666_6666_6666,
        0x20_0000_0000_0000,
    );
    crate::scalar::lemma_stands_for(
        Scalar { bits: TWO_TENTHS },
        2,
        10,
        0x19_9999_9999_999a,
        0x80_0000_0000_0000,
    );
    crate::scalar::lemma_stands_for(Scalar { bits: HALF }, 1, 2, 0x10_0000_0000_0000, 0x20_0000_0000_0000);
}

/// A scene. A world may lack a light or spheres: it is then empty, and not
/// to be traced.
pub struct World {
    pub light: Option<Light>,
    pub otherlights: Option<Vec<Light>>,
    pub spheres: Option<Vec<Sphere>>,
}

/// What a ray cast from a point toward a light met on its way, and how far
/// from the point the light is.
pub struct ShadowRay {
    pub met: Vec<Intersection<Sphere>>,
    pub light_distance: Scalar,
}

/// What one light does at a surface point: what each part of the
/// reflection would be if it showed, the two cosines that decide which
/// parts show, and the ray cast from the point toward the light.
pub struct Illumination {
    pub ambient: Color,
    pub diffuse: Color,
    pub specular: Color,
    /// The cosine of the angle between the direction to the light and the normal.
    pub light_dot_normal: Scalar,
    /// The cosine of the angle between the mirrored light and the direction to the eye.
    pub reflect_dot_eye: Scalar,
    pub shadow: ShadowRay,
}

/// The lists of `found`, one after the other.
pub open spec fn joined(found: Seq<Vec<Intersection<Sphere>>>) -> Seq<Intersection<Sphere>>
    decreases found.len(),
{
    if found.len() == 0 {
        Seq::empty()
    } else {
        found[0]@ + joined(found.skip(1))
    }
}

impl ShadowRay {
    /// Something stands between the point and the light: the ray has a
    /// hit, and the hit is nearer than the light.
    pub open spec fn blocked(&self) -> bool {
        exists|i: int| is_hit(self.met@, i) && (#[trigger] self.met@[i]).distance.below(self.light_distance)
    }
}

impl ShadowRay {
    /// Whether something stands between the point and the light.
    pub fn is_blocked(&self) -> (r: bool)
        ensures
            r == self.blocked(),
    {
        match Sphere::hits(self.met.as_slice()) {
            Some(hit) => {
                let r = hit.distance.lt(self.light_distance);
                proof {
                    let i = choose|i: int| is_hit(self.met@, i) && hit.distance == self.met@[i].distance;
                    if !r {
                        assert forall|j: int| is_hit(self.met@, j) implies !(#[trigger] self.met@[j]).distance.below(
                            self.light_distance,
                        ) by {
                            crate::matters::law_hit_is_unique(self.met@, i, j);
                        }
                    }
                }
                r
            },
            None => false,
        }
    }
}

impl Illumination {
    /// The reflection that this light brings out at the point, in shadow
    /// or out of it.
    pub open spec fn shown(&self, in_shadow: bool) -> Reflection {
        Material::shown(
            self.ambient,
            self.diffuse,
            self.specular,
            self.light_dot_normal,
            self.reflect_dot_eye,
            in_shadow,
        )
    }
}

/// The point is in shadow: toward the first light or toward one of the
/// others, something is hit before the light is reached.
pub open spec fn shadowed(primary: &Illumination, others: Seq<Illumination>) -> bool {
    primary.shadow.blocked() || exists|k: int| 0 <= k < others.len() && (#[trigger] others[k]).shadow.blocked()
}

impl World {
    /// The light of the default world: white, at `(-10, 10, -10)`.
    pub open spec fn default_light() -> Light {
        Light {
            position: Point(
                Scalar { bits: MINUS_TEN },
                Scalar { bits: TEN },
                Scalar { bits: MINUS_TEN },
                Scalar { bits: ONE },
            ),
            intensity: Color::of(Scalar { bits: ONE }, Scalar { bits: ONE }, Scalar { bits: ONE }),
        }
    }

    /// The material of the outer sphere of the default world.
    pub open spec fn default_outer_material() -> Material {
        Material {
            color: Color::of(Scalar { bits: EIGHT_TENTHS }, Scalar { bits: ONE }, Scalar { bits: SIX_TENTHS }),
            ambient: Scalar { bits: DEFAULT_AMBIENT },
            diffuse: Scalar { bits: SEVEN_TENTHS },
            specular: Scalar { bits: TWO_TENTHS },
            shininess: Scalar { bits: DEFAULT_SHININESS },
        }
    }

    /// A world without light and without spheres.
    pub fn new() -> (world: World)
        ensures
            world.light is None,
            world.otherlights is None,
            world.spheres is None,
    {
        World { light: None, spheres: None, otherlights: None }
    }

    /// All that a ray meets in the world, nearest first.
    ///
    /// `found` holds, sphere by sphere, what the ray meets of each. The
    /// result holds all of it in ascending order of distance; what is
    /// equally far keeps its order.
    pub fn world_intersect(found: Vec<Vec<Intersection<Sphere>>>) -> (xs: Vec<Intersection<Sphere>>)
        requires
            forall|i: int, j: int|
                0 <= i < found@.len() && 0 <= j < found@[i]@.len() ==> !(#[trigger] found@[i]@[j]).distance.nan(),
        ensures
            is_sorting_of(xs@, joined(found@)),
            xs@.len() == joined(found@).len(),
    {
        let ghost all = joined(found@);
        let mut rest = found;
        let mut flat: Vec<Intersection<Sphere>> = Vec::new();
        while rest.len() > 0
            invariant
                flat@ + joined(rest@) == all,
                forall|j: int| 0 <= j < flat@.len() ==> !(#[trigger] flat@[j]).distance.nan(),
                forall|i: int, j: int|
                    0 <= i < rest@.len() && 0 <= j < rest@[i]@.len() ==> !(#[trigger] rest@[i]@[j]).distance.nan(),
            decreases rest@.len(),
        {
            let ghost before = rest@;
            let ghost sofar = flat@;
            let mut part = rest.remove(0);
            assert(rest@ =~= before.skip(1));
            assert(part == before[0]);
            assert(forall|j: int| 0 <= j < part@.len() ==> !(#[trigger] before[0]@[j]).distance.nan());
            assert forall|i: int, j: int|
                0 <= i < rest@.len() && 0 <= j < rest@[i]@.len() implies !(#[trigger] rest@[i]@[j]).distance.nan() by {
                assert(rest@[i] == before[i + 1]);
            }
            flat.append(&mut part);
            assert(flat@ + joined(rest@) =~= sofar + (before[0]@ + joined(before.skip(1))));
        }
        assert(flat@ =~= all);
        sort_by_distance(flat)
    }

    /// What the lights of a world bring out at a hit, light by light: first
    /// the world's own light, then the others in their order. The color of
    /// the hit is the sum of all parts of all these reflections.
    ///
    /// The world's own light shows its diffuse and specular parts only
    /// where the point is not in shadow, toward whichever light. Each of the
    /// other lights is tested by itself: it shows them unless something
    /// stands between the point and that very light.
    pub fn shade_hits_sphere(primary: &Illumination, others: &[Illumination]) -> (parts: Vec<Reflection>)
        ensures
            parts@.len() == others@.len() + 1,
            parts@[0] == primary.shown(shadowed(primary, others@)),
            forall|k: int|
                0 <= k < others@.len() ==> #[trigger] parts@[k + 1] == others@[k].shown(
                    others@[k].shadow.blocked(),
                ),
    {
        let mut in_shadow = primary.shadow.is_blocked();
        let mut k: usize = 0;
        while k < others.len()
            invariant
                k <= others@.len(),
                in_shadow == (primary.shadow.blocked() || exists|j: int|
                    0 <= j < k && (#[trigger] others@[j]).shadow.blocked()),
            decreases others@.len() - k,
        {
            if others[k].shadow.is_blocked() {
                in_shadow = true;
            }
            k += 1;
        }
        let mut parts: Vec<Reflection> = Vec::new();
        parts.push(
            Material::lighting(
                primary.ambient,
                primary.diffuse,
                primary.specular,
                primary.light_dot_normal,
                primary.reflect_dot_eye,
                in_shadow,
            ),
        );
        let mut k: usize = 0;
        while k < others.len()
            invariant
                k <= others@.len(),
                parts@.len() == k + 1,
                parts@[0] == primary.shown(shadowed(primary, others@)),
                forall|j: int|
                    0 <= j < k ==> #[trigger] parts@[j + 1] == others@[j].shown(others@[j].shadow.blocked()),
            decreases others@.len() - k,
        {
            let light = &others[k];
            let blocked = light.shadow.is_blocked();
            parts.push(
                Material::lighting(
                    light.ambient,
                    light.diffuse,
                    light.specular,
                    light.light_dot_normal,
                    light.reflect_dot_eye,
                    blocked,
                ),
            );
            k += 1;
        }
        parts
    }

    /// The color that a ray brings back: what its hit was shaded to, and
    /// black where it hit nothing.
    pub fn color_at_sphere(shaded: Option<Color>) -> (c: Color)
        ensures
            c == match shaded {
                Some(s) => s,
                None => Color::black_spec(),
            },
    {
        match shaded {
            Some(s) => s,
            None => Color::black(),
        }
    }

    /// Whether a point lies in shadow.
    ///
    /// `rays` holds, light by light, what a ray cast from the point toward
    /// that light met and how far away the light is. The point is in shadow
    /// where, toward some light, something is hit before the light is
    /// reached.
    pub fn is_shadowed(rays: &[ShadowRay]) -> (shadowed: bool)
        ensures
            shadowed == exists|k: int| 0 <= k < rays@.len() && (#[trigger] rays@[k]).blocked(),
    {
        let mut k: usize = 0;
        while k < rays.len()
            invariant
                k <= rays@.len(),
                forall|j: int| 0 <= j < k ==> !(#[trigger] rays@[j]).blocked(),
            decreases rays@.len() - k,
        {
            if rays[k].is_blocked() {
                return true;
            }
            k += 1;
        }
        false
    }
}

impl Default for World {
    /// The default world: one white light and two spheres about the
    /// origin, the inner one half the size of the outer.
    fn default() -> (world: World)
        ensures
            world.light == Some(World::default_light()),
            world.otherlights is None,
            world.spheres is Some,
            world.spheres->0@.len() == 2,
            world.spheres->0@[0].origin == Point::origin_spec(),
            world.spheres->0@[0].transformation@ == identity_grid(),
            world.spheres->0@[0].material == World::default_outer_material(),
            world.spheres->0@[1].origin == Point::origin_spec(),
            world.spheres->0@[1].transformation@ == scaling_grid(
                Scalar { bits: HALF },
                Scalar { bits: HALF },
                Scalar { bits: HALF },
            ),
            world.spheres->0@[1].material == Material::default_spec(),
    {
        let light = Light::new(
            Point::new(Scalar::from_bits(MINUS_TEN), Scalar::from_bits(TEN), Scalar::from_bits(MINUS_TEN)),
            Color::white(),
        );
        let mut spheres: Vec<Sphere> = Vec::new();
        let mut s1 = Sphere::default();
        s1.material.color = Color::new(
            Scalar::from_bits(EIGHT_TENTHS),
            Scalar::from_bits(ONE),
            Scalar::from_bits(SIX_TENTHS),
        );
        s1.material.diffuse = Scalar::from_bits(SEVEN_TENTHS);
        s1.material.specular = Scalar::from_bits(TWO_TENTHS);
        spheres.push(s1);
        let half = Scalar::from_bits(HALF);
        let s2 = Sphere::new(Matrix::scaling_mat_4x4(half, half, half));
        spheres.push(s2);
        World { light: Some(light), spheres: Some(spheres), otherlights: None }
    }
}

} // verus!
