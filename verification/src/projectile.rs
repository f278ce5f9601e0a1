//! A projectile in flight, and the picture of its path.

use vstd::prelude::*;
use crate::canvas::{Canvas, Color, painted, ppm_text};
use crate::scalar::Scalar;
use crate::vector::{Point, Vec4, ONE};

verus! {

/// A body at `position` that moves by `velocity` with every tick.
#[derive(Debug, Clone, Copy)]
pub struct Projectile {
    pub position: Point,
    pub velocity: Vec4,
}

/// What changes a projectile's velocity with every tick.
#[derive(Debug, Clone, Copy)]
pub struct Environment {
    pub gravity: Vec4,
    pub wind: Vec4,
}

/// The rows of `grid` after the pixels at the places of `path` were painted
/// `color`, one after the other.
pub open spec fn traced(grid: Seq<Seq<Color>>, path: Seq<(Scalar, Scalar)>, color: Color) -> Seq<Seq<Color>>
    decreases path.len(),
{
    if path.len() == 0 {
        grid
    } else {
        painted(traced(grid, path.drop_last(), color), path.last(), color)
    }
}

/// The grid of `width` by `height` that is black all over.
pub open spec fn blank(width: nat, height: nat) -> Seq<Seq<Color>> {
    Seq::new(height, |y: int| Seq::new(width, |x: int| Color::black_spec()))
}

impl Projectile {
    pub fn new(position: Point, velocity: Vec4) -> (p: Projectile)
        ensures
            p.position == position,
            p.velocity == velocity,
    {
        Projectile { position, velocity }
    }

    /// The projectile is above the ground: its height is more than zero.
    pub fn aloft(&self) -> (r: bool)
        ensures
            r == (Scalar { bits: 0 }).below(self.position.1),
    {
        self.position.1.gt(Scalar::from_bits(0))
    }

    /// The picture of a flight as the text of a plain PPM image, ready to
    /// be written to a file: a black canvas of `img_width` by `img_height`
    /// on which the places that the projectile passed have the color
    /// `projectile_color`.
    ///
    /// `path` holds, for every position `(x, y)` of the flight, the numbers
    /// `(x * aspect, img_height - y * aspect)`, where `aspect` is the height
    /// of the canvas over its width.
    pub fn to_ppm_file(path: &[(Scalar, Scalar)], img_width: u64, img_height: u64, projectile_color: &Color) -> (ppm:
        String)
        ensures
            ppm@ == ppm_text(
                img_width as nat,
                img_height as nat,
                traced(blank(img_width as nat, img_height as nat), path@, *projectile_color),
            ),
    {
        let mut canvas = Canvas::new(img_width, img_height);
        assert(canvas@ =~~= blank(img_width as nat, img_height as nat));
        let mut k: usize = 0;
        assert(path@.take(0) =~= Seq::empty());
        while k < path.len()
            invariant
                k <= path@.len(),
                canvas.width_spec() == img_width,
                canvas.height_spec() == img_height,
                canvas@ == traced(
                    blank(img_width as nat, img_height as nat),
                    path@.take(k as int),
                    *projectile_color,
                ),
            decreases path@.len() - k,
        {
            proof {
                assert(path@.take(k + 1).drop_last() =~= path@.take(k as int));
                assert(path@.take(k + 1).last() == path@[k as int]);
            }
            canvas.write_pixel_with_aspect_ratio(path[k], projectile_color);
            k += 1;
        }
        assert(path@.take(k as int) =~= path@);
        canvas.to_ppm()
    }
}

impl Environment {
    pub fn new(gravity: Vec4, wind: Vec4) -> (e: Environment)
        ensures
            e.gravity == gravity,
            e.wind == wind,
    {
        Environment { gravity, wind }
    }
}

/// The picture of a flight over a canvas of 900 by 550, in red, as the text
/// of a plain PPM image; `path` holds what [`Projectile::to_ppm_file`] asks for.
pub fn draw_projectile_on_ppm_file(path: &[(Scalar, Scalar)]) -> (ppm: String)
    ensures
        ppm@ == ppm_text(
            900,
            550,
            traced(blank(900, 550), path@, Color::of(Scalar { bits: ONE }, Scalar { bits: 0 }, Scalar { bits: 0 })),
        ),
{
    let red = Color::new(Scalar::from_bits(ONE), Scalar::from_bits(0), Scalar::from_bits(0));
    Projectile::to_ppm_file(path, 900, 550, &red)
}

} // verus!
