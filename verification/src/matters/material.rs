//! Surface materials and which parts of their reflection a light brings out.

use vstd::prelude::*;
use vstd::arithmetic::power2::*;
use crate::canvas::Color;
use crate::scalar::Scalar;
use crate::vector::ONE;

verus! {

/// The encoding of `0.1`, the ambient share of a material by default.
pub const DEFAULT_AMBIENT: u64 = 0x3fb9_9999_9999_999a;

/// The encoding of `0.9`, the diffuse and the specular share of a material by default.
pub const DEFAULT_DIFFUSE: u64 = 0x3fec_cccc_cccc_cccd;

/// The encoding of `200.0`, the shininess of a material by default.
pub const DEFAULT_SHININESS: u64 = 0x4069_0000_0000_0000;

/// The encodings above are those of the numbers that they are named for.
pub proof fn law_default_shares()
    ensures
        (Scalar { bits: DEFAULT_AMBIENT }).stands_for(1, 10),
        (Scalar { bits: DEFAULT_DIFFUSE }).stands_for(9, 10),
        (Scalar { bits: DEFAULT_SHININESS }).stands_for(200, 1),
{
    lemma2_to64();
    lemma2_to64_rest();
    crate::scalar::lemma_stands_for(
        Scalar { bits: DEFAULT_AMBIENT },
        1,
        10,
        0x19_9999_9999_999a,
        0x100_0000_0000_0000,
    );
    crate::scalar::lemma_stands_for(
        Scalar { bits: DEFAULT_DIFFUSE },
        9,
        10,
        0x1c_cccc_cccc_cccd,
        0x20_0000_0000_0000,
    );
    crate::scalar::lemma_stands_for(
        Scalar { bits: DEFAULT_SHININESS },
        200,
        1,
        0x19_0000_0000_0000,
        0x2000_0000_0000,
    );
}

/// How a surface answers light.
#[derive(Clone, Copy, Debug)]
pub struct Material {
    pub color: Color,
    pub ambient: Scalar,
    pub diffuse: Scalar,
    pub specular: Scalar,
    pub shininess: Scalar,
}

/// What a light adds to the color of a surface point, part by part. The
/// color of the point under that light is the sum of the three.
#[derive(Clone, Copy, Debug)]
pub struct Reflection {
    pub ambient: Color,
    pub diffuse: Color,
    pub specular: Color,
}

impl Material {
    /// White, with shares 0.1, 0.9 and 0.9 and shininess 200.
    pub open spec fn default_spec() -> Material {
        Material {
            color: Color::of(Scalar { bits: ONE }, Scalar { bits: ONE }, Scalar { bits: ONE }),
            ambient: Scalar { bits: DEFAULT_AMBIENT },
            diffuse: Scalar { bits: DEFAULT_DIFFUSE },
            specular: Scalar { bits: DEFAULT_DIFFUSE },
            shininess: Scalar { bits: DEFAULT_SHININESS },
        }
    }

    /// No channel of the color and none of the four numbers is below zero
    /// or not a number.
    pub open spec fn valid(self) -> bool {
        let zero = Scalar { bits: 0 };
        &&& zero.at_most(self.color.red_spec())
        &&& zero.at_most(self.color.green_spec())
        &&& zero.at_most(self.color.blue_spec())
        &&& zero.at_most(self.ambient)
        &&& zero.at_most(self.diffuse)
        &&& zero.at_most(self.specular)
        &&& zero.at_most(self.shininess)
    }

    /// Whether the material is [`valid`](Material::valid).
    pub fn is_valid(&self) -> (r: bool)
        ensures
            r == self.valid(),
    {
        let zero = Scalar::from_bits(0);
        self.color.red().ge(zero) && self.color.green().ge(zero) && self.color.blue().ge(zero)
            && self.ambient.ge(zero) && self.diffuse.ge(zero) && self.specular.ge(zero)
            && self.shininess.ge(zero)
    }

    /// The light falls on the far side of the surface: the cosine of the
    /// angle between the direction to the light and the normal is below zero.
    pub open spec fn light_behind(light_dot_normal: Scalar) -> bool {
        light_dot_normal.below(Scalar { bits: 0 })
    }

    /// The light is mirrored away from the eye: the cosine of the angle
    /// between the mirrored light and the direction to the eye is zero or less.
    pub open spec fn mirrored_away(reflect_dot_eye: Scalar) -> bool {
        reflect_dot_eye.at_most(Scalar { bits: 0 })
    }

    /// The reflection that shows, out of what each part would be if it
    /// showed: the ambient part as it is, the diffuse part unless the point
    /// is in shadow or the light behind the surface, the specular part
    /// unless, besides, the light is mirrored away from the eye. A part that
    /// does not show is black.
    pub open spec fn shown(
        ambient: Color,
        diffuse: Color,
        specular: Color,
        light_dot_normal: Scalar,
        reflect_dot_eye: Scalar,
        in_shadow: bool,
    ) -> Reflection {
        Reflection {
            ambient,
            diffuse: if in_shadow || Self::light_behind(light_dot_normal) {
                Color::black_spec()
            } else {
                diffuse
            },
            specular: if in_shadow || Self::light_behind(light_dot_normal) || Self::mirrored_away(
                reflect_dot_eye,
            ) {
                Color::black_spec()
            } else {
                specular
            },
        }
    }

    /// The parts of the reflection that a light brings out at a surface
    /// point, out of what each part would be if it showed.
    ///
    /// The ambient part always shows. In shadow nothing else does. Out of
    /// shadow the diffuse part shows unless the light is behind the surface,
    /// and the specular part shows unless the light is behind the surface or
    /// mirrored away from the eye. A part that does not show is black.
    pub fn lighting(
        ambient: Color,
        diffuse: Color,
        specular: Color,
        light_dot_normal: Scalar,
        reflect_dot_eye: Scalar,
        in_shadow: bool,
    ) -> (shown: Reflection)
        ensures
            shown == Self::shown(ambient, diffuse, specular, light_dot_normal, reflect_dot_eye, in_shadow),
    {
        let zero = Scalar::from_bits(0);
        if in_shadow || light_dot_normal.lt(zero) {
            Reflection { ambient, diffuse: Color::black(), specular: Color::black() }
        } else if reflect_dot_eye.le(zero) {
            Reflection { ambient, diffuse, specular: Color::black() }
        } else {
            Reflection { ambient, diffuse, specular }
        }
    }
}

impl Default for Material {
    fn default() -> (m: Material)
        ensures
            m == Material::default_spec(),
            m.valid(),
    {
        proof {
            Color::law_color_is_its_channels(Scalar { bits: ONE }, Scalar { bits: ONE }, Scalar { bits: ONE });
        }
        Material {
            color: Color::white(),
            ambient: Scalar::from_bits(DEFAULT_AMBIENT),
            diffuse: Scalar::from_bits(DEFAULT_DIFFUSE),
            specular: Scalar::from_bits(DEFAULT_DIFFUSE),
            shininess: Scalar::from_bits(DEFAULT_SHININESS),
        }
    }
}

} // verus!
