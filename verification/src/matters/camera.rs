//! The camera: a grid of pixels one unit in front of the eye.
//!
//! - `hsize` and `vsize` are the width and the height of the picture, in pixels.
//! - `field_of_view` is the angle the camera sees, in radians.
//! - `transform` places the world in front of the camera.

use vstd::prelude::*;
use crate::canvas::{Canvas, Color};
use crate::matrix::{Matrix, identity_grid};
use crate::scalar::Scalar;
use crate::vector::ONE;

verus! {

pub struct Camera {
    pub hsize: usize,
    pub vsize: usize,
    pub field_of_view: Scalar,
    pub transform: Matrix,
    pub pixel_size: Scalar,
    pub half_width: Scalar,
    pub half_height: Scalar,
}

impl Camera {
    /// Half the width and half the height of the picture plane.
    ///
    /// The longer side of the picture spans the whole field of view, so its
    /// half is `half_view`, the tangent of half that angle. The shorter
    /// side is less by the aspect ratio, width over height: `narrowed` is
    /// `half_view / aspect`, `widened` is `half_view * aspect`. A picture is
    /// at least as wide as tall where `aspect` is one or more; its half
    /// width is then `half_view` and its half height `narrowed`. Otherwise
    /// its half width is `widened` and its half height `half_view`.
    pub fn half_extents(aspect: Scalar, half_view: Scalar, narrowed: Scalar, widened: Scalar) -> (r: (
        Scalar,
        Scalar,
    ))
        ensures
            r == if (Scalar { bits: ONE }).at_most(aspect) {
                (half_view, narrowed)
            } else {
                (widened, half_view)
            },
    {
        if aspect.ge(Scalar::from_bits(ONE)) {
            (half_view, narrowed)
        } else {
            (widened, half_view)
        }
    }

    /// A camera of `hsize` by `vsize` pixels that looks at the world as it
    /// is: its transformation is the identity.
    ///
    /// `aspect` is `hsize / vsize`, `half_view` the tangent of half the
    /// field of view, `narrowed` is `half_view / aspect` and `widened` is
    /// `half_view * aspect`; see [`Camera::half_extents`]. A pixel is as
    /// wide as twice the half width over `hsize`: `pixel_if_wide` is
    /// `2 * half_view / hsize`, the size of a pixel where the half width is
    /// `half_view`, and `pixel_if_tall` is `2 * widened / hsize`, its size
    /// where the half width is `widened`.
    ///
    /// Where `aspect` is one or more, the picture is at least as wide as
    /// tall: its half width is `half_view`, its half height `narrowed`, and
    /// its pixel size `pixel_if_wide`. Otherwise its half width is
    /// `widened`, its half height `half_view`, and its pixel size
    /// `pixel_if_tall`.
    pub fn new(
        hsize: usize,
        vsize: usize,
        field_of_view: Scalar,
        aspect: Scalar,
        half_view: Scalar,
        narrowed: Scalar,
        widened: Scalar,
        pixel_if_wide: Scalar,
        pixel_if_tall: Scalar,
    ) -> (camera: Camera)
        ensures
            camera.hsize == hsize,
            camera.vsize == vsize,
            camera.field_of_view == field_of_view,
            camera.transform@ == identity_grid(),
            (camera.half_width, camera.half_height) == if (Scalar { bits: ONE }).at_most(aspect) {
                (half_view, narrowed)
            } else {
                (widened, half_view)
            },
            camera.pixel_size == if (Scalar { bits: ONE }).at_most(aspect) {
                pixel_if_wide
            } else {
                pixel_if_tall
            },
    {
        let (half_width, half_height) = Camera::half_extents(aspect, half_view, narrowed, widened);
        let pixel_size = if aspect.ge(Scalar::from_bits(ONE)) {
            pixel_if_wide
        } else {
            pixel_if_tall
        };
        Camera {
            hsize,
            vsize,
            field_of_view,
            transform: Matrix::identity_4x4(),
            pixel_size,
            half_width,
            half_height,
        }
    }

    /// The picture: a canvas of `hsize` by `vsize` on which every pixel
    /// `(x, y)` has the color that `color_at` gives for it.
    pub fn render<F: Fn(usize, usize) -> Color>(&self, color_at: F) -> (image: Canvas)
        requires
            forall|x: usize, y: usize| x < self.hsize && y < self.vsize ==> color_at.requires((x, y)),
        ensures
            image.wf(),
            image.width_spec() == self.hsize,
            image.height_spec() == self.vsize,
            forall|x: usize, y: usize|
                x < self.hsize && y < self.vsize ==> color_at.ensures((x, y), #[trigger] image@[y as int][x as int]),
    {
        let mut image = Canvas::new(self.hsize as u64, self.vsize as u64);
        let mut y: usize = 0;
        while y < self.vsize
            invariant
                y <= self.vsize,
                image.wf(),
                image.width_spec() == self.hsize,
                image.height_spec() == self.vsize,
                forall|x: usize, y: usize| x < self.hsize && y < self.vsize ==> color_at.requires((x, y)),
                forall|i: usize, j: usize|
                    i < self.hsize && j < y ==> color_at.ensures((i, j), #[trigger] image@[j as int][i as int]),
            decreases self.vsize - y,
        {
            let mut x: usize = 0;
            while x < self.hsize
                invariant
                    y < self.vsize,
                    x <= self.hsize,
                    image.wf(),
                    image.width_spec() == self.hsize,
                    image.height_spec() == self.vsize,
                    forall|x: usize, y: usize| x < self.hsize && y < self.vsize ==> color_at.requires((x, y)),
                    forall|i: usize, j: usize|
                        i < self.hsize && j < y ==> color_at.ensures((i, j), #[trigger] image@[j as int][i as int]),
                    forall|i: usize| i < x ==> color_at.ensures((i, y), #[trigger] image@[y as int][i as int]),
                decreases self.hsize - x,
            {
                let color = color_at(x, y);
                let ghost before = image@;
                assert(before[y as int].len() == self.hsize);
                image.write_pixel((x, y), &color);
                assert forall|i: usize, j: usize| i < self.hsize && j < y implies color_at.ensures(
                    (i, j),
                    #[trigger] image@[j as int][i as int],
                ) by {
                    assert(image@[j as int][i as int] == before[j as int][i as int]);
                }
                assert forall|i: usize| i < x + 1 implies color_at.ensures(
                    (i, y),
                    #[trigger] image@[y as int][i as int],
                ) by {
                    if i < x {
                        assert(image@[y as int][i as int] == before[y as int][i as int]);
                    }
                }
                x += 1;
            }
            y += 1;
        }
        image
    }
}

} // verus!
