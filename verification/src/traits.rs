//! The capability an image-consuming operation needs: dimensions and pixel
//! reads. Owning images and borrowed views both provide it, so operations
//! such as `copy_from` work uniformly over either.

use vstd::prelude::*;
use crate::grid::grid_of;
use crate::grid::grid_pixel;
use crate::types::Dimensions;
use crate::types::ImageError;
use crate::types::Pixel;

verus! {

/// Immutable image operations: anything with dimensions and readable pixels.
///
/// The model of an implementor is its pixel grid, a row-major sequence of
/// `img_width() * img_height()` pixels.
pub trait Image {
    /// The width of this image's grid, in pixels.
    spec fn img_width(&self) -> int;

    /// The height of this image's grid, in pixels.
    spec fn img_height(&self) -> int;

    /// The pixel grid, row-major: pixel `(x, y)` at position `y * width + x`.
    spec fn img_grid(&self) -> Seq<Pixel>;

    /// The implementor's internal invariant.
    spec fn img_wf(&self) -> bool;

    /// A well-formed image's grid covers exactly its dimensions.
    proof fn lemma_grid_shape(&self)
        requires
            self.img_wf(),
        ensures
            self.img_width() >= 0,
            self.img_height() >= 0,
            self.img_grid().len() == self.img_width() * self.img_height(),
    ;

    /// This image's width and height.
    fn dimensions(&self) -> (d: Dimensions)
        requires
            self.img_wf(),
        ensures
            d.width as int == self.img_width(),
            d.height as int == self.img_height(),
    ;

    /// The pixel at `(x, y)`, or `OutOfBounds` exactly when the coordinates
    /// exceed this image's own extent.
    fn get_pixel(&self, x: u32, y: u32) -> (r: Result<Pixel, ImageError>)
        requires
            self.img_wf(),
        ensures
            x < self.img_width() && y < self.img_height()
                ==> r == Ok::<Pixel, ImageError>(
                    grid_pixel(self.img_grid(), self.img_width(), x as int, y as int)),
            !(x < self.img_width() && y < self.img_height())
                ==> r == Err::<Pixel, ImageError>(ImageError::OutOfBounds),
    ;

    /// This image's pixels, materialized into a fresh contiguous row-major
    /// buffer of `width * height * 4` bytes.
    fn pixels(&self) -> (buf: Vec<u8>)
        requires
            self.img_wf(),
        ensures
            buf@.len() == 4 * self.img_width() * self.img_height(),
            grid_of(buf@, self.img_width(), self.img_height()) == self.img_grid(),
    ;
}

/// Mutable image operations: rewriting an image's own buffer in place, and
/// filling it wholesale from another image.
pub trait ImageMut: Image {
    /// Blurs this image in place: three box-blur passes whose widths derive
    /// from `amount`, read as the standard deviation of the Gaussian they
    /// approximate; each pass reads only its pre-pass buffer.
    fn blur(&mut self, amount: u32)
        requires
            old(self).img_wf(),
        ensures
            final(self).img_wf(),
            final(self).img_width() == old(self).img_width(),
            final(self).img_height() == old(self).img_height(),
            final(self).img_grid() == crate::blur::gaussian_grid(
                old(self).img_grid(), old(self).img_width(), old(self).img_height(),
                amount as int),
    ;

    /// Flips this image in place, under the mapping the two flags select;
    /// with neither flag set it is a true no-op.
    fn flip(&mut self, horiz: bool, vert: bool)
        requires
            old(self).img_wf(),
        ensures
            final(self).img_wf(),
            final(self).img_width() == old(self).img_width(),
            final(self).img_height() == old(self).img_height(),
            final(self).img_grid() == crate::grid::flipped_grid(
                old(self).img_grid(), old(self).img_width(), old(self).img_height(),
                horiz, vert),
    ;

    /// Turns this image greyscale in place; numerically identical to the
    /// out-of-place conversion.
    fn greyscale_mut(&mut self)
        requires
            old(self).img_wf(),
        ensures
            final(self).img_wf(),
            final(self).img_width() == old(self).img_width(),
            final(self).img_height() == old(self).img_height(),
            final(self).img_grid() == crate::grid::grey_grid(old(self).img_grid()),
    ;

    /// Replaces this image wholesale — dimensions and buffer — from any
    /// readable image; the dimensions need not match beforehand.
    fn copy_from<S: Image>(&mut self, source: &S)
        requires
            source.img_wf(),
        ensures
            final(self).img_wf(),
            final(self).img_width() == source.img_width(),
            final(self).img_height() == source.img_height(),
            final(self).img_grid() == source.img_grid(),
    ;

    /// Blurs another image's content into this one: a wholesale copy
    /// followed by the in-place blur.
    fn blur_from<S: Image>(&mut self, amount: u32, source: &S)
        requires
            source.img_wf(),
        ensures
            final(self).img_wf(),
            final(self).img_width() == source.img_width(),
            final(self).img_height() == source.img_height(),
            final(self).img_grid() == crate::blur::gaussian_grid(
                source.img_grid(), source.img_width(), source.img_height(), amount as int),
    {
        self.copy_from(source);
        self.blur(amount);
    }

    /// Flips another image's content into this one: a wholesale copy
    /// followed by the in-place flip.
    fn flip_from<S: Image>(&mut self, horiz: bool, vert: bool, source: &S)
        requires
            source.img_wf(),
        ensures
            final(self).img_wf(),
            final(self).img_width() == source.img_width(),
            final(self).img_height() == source.img_height(),
            final(self).img_grid() == crate::grid::flipped_grid(
                source.img_grid(), source.img_width(), source.img_height(), horiz, vert),
    {
        self.copy_from(source);
        self.flip(horiz, vert);
    }
}

} // verus!
