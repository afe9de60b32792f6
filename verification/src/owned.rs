//! The owning image: sole owner of a contiguous row-major RGBA byte buffer.
//! It is the only entity the library mutates in place.

use vstd::prelude::*;
use crate::grid::byte_index;
use crate::grid::crop_clamp_len;
use crate::grid::crop_clamp_offset;
use crate::grid::subgrid;
use crate::grid::grid_of;
use crate::grid::grid_pixel;
use crate::grid::lemma_position_of_coords;
use crate::grid::nth_pixel;
use crate::slice::ImageSlice;
use crate::slice::ImageSliceMut;
use crate::slice::SliceSpec;
use crate::traits::Image;
use crate::traits::ImageMut;
use crate::types::Dimensions;
use crate::types::ImageError;
use crate::types::Pixel;

verus! {

/// An image that owns its pixel buffer.
///
/// Invariant: the buffer holds exactly `width * height` pixels, four bytes
/// each, row-major.
pub struct OwnedImage {
    dims: Dimensions,
    pixels: Vec<u8>,
}

impl OwnedImage {
    /// The width in pixels.
    pub closed spec fn width(&self) -> int {
        self.dims.width as int
    }

    /// The height in pixels.
    pub closed spec fn height(&self) -> int {
        self.dims.height as int
    }

    /// The raw bytes of the buffer.
    pub closed spec fn buf(&self) -> Seq<u8> {
        self.pixels@
    }

    /// The invariant: buffer length matches the dimensions exactly.
    pub closed spec fn wf(&self) -> bool {
        self.buf().len() == 4 * self.width() * self.height()
    }

    /// The pixel grid this image holds.
    pub open spec fn grid(&self) -> Seq<Pixel> {
        grid_of(self.buf(), self.width(), self.height())
    }

    /// Constructs an image from explicit dimensions and a raw byte buffer.
    /// Succeeds exactly when the buffer's length is `width * height * 4`;
    /// any other length is rejected with `InvalidBuffer`.
    pub fn new(dims: Dimensions, pixels: Vec<u8>) -> (r: Result<OwnedImage, ImageError>)
        ensures
            pixels@.len() == 4 * dims.width * dims.height ==> (r matches Ok(img)
                && img.wf()
                && img.width() == dims.width
                && img.height() == dims.height
                && img.buf() == pixels@),
            pixels@.len() != 4 * dims.width * dims.height
                ==> r == Err::<OwnedImage, ImageError>(ImageError::InvalidBuffer),
    {
        proof {
            assert((4 * (dims.width as int)) * (dims.height as int) < 0x40000000000000000)
                by (nonlinear_arith)
                requires dims.width < 0x100000000, dims.height < 0x100000000;
        }
        let expected: u128 = 4 * (dims.width as u128) * (dims.height as u128);
        if (pixels.len() as u128) == expected {
            Ok(OwnedImage { dims, pixels })
        } else {
            Err(ImageError::InvalidBuffer)
        }
    }

    /// Constructs an image from a decoded frame: the codec collaborator
    /// hands over dimensions and raw RGBA bytes, which are validated here.
    pub fn import(dims: Dimensions, pixels: Vec<u8>) -> (r: Result<OwnedImage, ImageError>)
        ensures
            pixels@.len() == 4 * dims.width * dims.height ==> (r matches Ok(img)
                && img.wf()
                && img.width() == dims.width
                && img.height() == dims.height
                && img.buf() == pixels@),
            pixels@.len() != 4 * dims.width * dims.height
                ==> r == Err::<OwnedImage, ImageError>(ImageError::InvalidBuffer),
    {
        OwnedImage::new(dims, pixels)
    }

    /// Builds an image from parts the caller has already checked.
    pub(crate) fn from_raw(dims: Dimensions, pixels: Vec<u8>) -> (r: OwnedImage)
        requires
            pixels@.len() == 4 * dims.width * dims.height,
        ensures
            r.wf(),
            r.width() == dims.width,
            r.height() == dims.height,
            r.buf() == pixels@,
    {
        OwnedImage { dims, pixels }
    }

    /// Borrows the raw backing bytes.
    pub fn get_pixels(&self) -> (r: &Vec<u8>)
        ensures
            r@ == self.buf(),
    {
        &self.pixels
    }

    /// Reads a pixel whose coordinates are known to be inside the image.
    pub(crate) fn read_pixel(&self, x: u32, y: u32) -> (p: Pixel)
        requires
            self.wf(),
            x < self.width(),
            y < self.height(),
        ensures
            p == grid_pixel(self.grid(), self.width(), x as int, y as int),
    {
        let w = self.dims.width;
        let h = self.dims.height;
        let len = self.pixels.len();
        proof {
            lemma_position_of_coords(w as int, h as int, x as int, y as int);
            assert(4 * (w as int) * (h as int) == 4 * ((w as int) * (h as int)))
                by (nonlinear_arith);
            assert(4 * ((y as int) * (w as int) + (x as int)) + 3 < len);
        }
        let p: usize = (y as usize) * (w as usize) + (x as usize);
        let idx: usize = 4 * p;
        Pixel {
            r: self.pixels[idx],
            g: self.pixels[idx + 1],
            b: self.pixels[idx + 2],
            alpha: self.pixels[idx + 3],
        }
    }

    /// Overwrites the pixel at `(x, y)`, or fails fast with `OutOfBounds`
    /// leaving the image untouched.
    pub fn set_pixel(&mut self, x: u32, y: u32, pix: Pixel) -> (r: Result<(), ImageError>)
        requires
            old(self).wf(),
        ensures
            final(self).wf(),
            final(self).width() == old(self).width(),
            final(self).height() == old(self).height(),
            x < old(self).width() && y < old(self).height() ==> (r matches Ok(())
                && final(self).grid()
                    == old(self).grid().update(y * old(self).width() + x, pix)),
            !(x < old(self).width() && y < old(self).height())
                ==> r == Err::<(), ImageError>(ImageError::OutOfBounds)
                    && *final(self) == *old(self),
    {
        let w = self.dims.width;
        let h = self.dims.height;
        if x >= w || y >= h {
            return Err(ImageError::OutOfBounds);
        }
        let len = self.pixels.len();
        proof {
            lemma_position_of_coords(w as int, h as int, x as int, y as int);
            assert(4 * (w as int) * (h as int) == 4 * ((w as int) * (h as int)))
                by (nonlinear_arith);
            assert(4 * ((y as int) * (w as int) + (x as int)) + 3 < len);
        }
        let p: usize = (y as usize) * (w as usize) + (x as usize);
        let idx: usize = 4 * p;
        self.pixels[idx] = pix.r;
        self.pixels[idx + 1] = pix.g;
        self.pixels[idx + 2] = pix.b;
        self.pixels[idx + 3] = pix.alpha;
        proof {
            let wi = w as int;
            let hi = h as int;
            let pi = p as int;
            let target = old(self).grid().update(pi, pix);
            assert forall|q: int| 0 <= q < wi * hi implies
                nth_pixel(self.pixels@, q) == target[q]
            by {
                if q != pi {
                    assert(byte_index(q) + 3 < byte_index(pi)
                        || byte_index(pi) + 3 < byte_index(q));
                }
            }
            assert(self.grid() =~= target);
        }
        Ok(())
    }
}

impl OwnedImage {
    /// A new image that is this one flipped: horizontally, vertically, or
    /// both, as the flags select. The source is left unmodified.
    pub fn flipped(&self, horiz: bool, vert: bool) -> (r: OwnedImage)
        requires
            self.wf(),
        ensures
            r.wf(),
            r.width() == self.width(),
            r.height() == self.height(),
            r.grid() == crate::grid::flipped_grid(
                self.grid(), self.width(), self.height(), horiz, vert),
    {
        crate::transform::flipped_of(self, horiz, vert)
    }

    /// A new image that is this one blurred: three box-blur passes whose
    /// widths derive from `amount`, read as the standard deviation of the
    /// Gaussian they approximate. The source is left unmodified.
    pub fn blurred(&self, amount: u32) -> (r: OwnedImage)
        requires
            self.wf(),
        ensures
            r.wf(),
            r.width() == self.width(),
            r.height() == self.height(),
            r.grid() == crate::blur::gaussian_grid(
                self.grid(), self.width(), self.height(), amount as int),
    {
        let (r0, r1, r2) = crate::blur::blur_kernel_radii(amount);
        let pass1 = crate::blur::box_blur_pass(self, r0);
        let pass2 = crate::blur::box_blur_pass(&pass1, r1);
        crate::blur::box_blur_pass(&pass2, r2)
    }

    /// A new image that is this one in greyscale: every pixel's colour
    /// channels replaced by its luma, alpha untouched. The source is left
    /// unmodified.
    pub fn greyscale(&self) -> (r: OwnedImage)
        requires
            self.wf(),
        ensures
            r.wf(),
            r.width() == self.width(),
            r.height() == self.height(),
            r.grid() == crate::grid::grey_grid(self.grid()),
    {
        crate::transform::greyed_of(self)
    }

    /// Borrows a read-only sub-image. The window is clamped to the image's
    /// extent — a request exceeding the bounds silently shrinks, cropping
    /// never fails.
    pub fn crop<'a>(&'a self, x: u32, y: u32, dims: Dimensions) -> (s: ImageSlice<'a>)
        requires
            self.wf(),
        ensures
            s.wf(),
            s.backing() == self.buf(),
            s.back_w() == self.width(),
            s.back_h() == self.height(),
            s.off_x() == crop_clamp_offset(x as int, self.width()),
            s.off_y() == crop_clamp_offset(y as int, self.height()),
            s.width() == crop_clamp_len(dims.width as int, self.width(), s.off_x()),
            s.height() == crop_clamp_len(dims.height as int, self.height(), s.off_y()),
            s.grid() == subgrid(self.grid(), self.width(),
                s.off_x(), s.off_y(), s.width(), s.height()),
    {
        let d = self.dimensions();
        ImageSlice::new(self.get_pixels(), SliceSpec {
            offset: (x, y),
            size: (d.width, d.height),
            dims,
        })
    }

    /// Borrows a sub-image under an exclusive borrow of this image, with
    /// the same clamping as `crop`; while the window lives nothing else can
    /// read or mutate the owner.
    ///
    /// Nothing can write through the window, so the image is in fact
    /// unchanged once the borrow ends; that fact lies beyond what this
    /// contract can state of an escaping borrow, so a caller that wants to
    /// keep using the owner afterwards should prefer `crop`.
    pub fn crop_mut<'a>(&'a mut self, x: u32, y: u32, dims: Dimensions) -> (s: ImageSliceMut<'a>)
        requires
            old(self).wf(),
        ensures
            s.wf(),
            s.backing() == old(self).buf(),
            s.back_w() == old(self).width(),
            s.back_h() == old(self).height(),
            s.off_x() == crop_clamp_offset(x as int, old(self).width()),
            s.off_y() == crop_clamp_offset(y as int, old(self).height()),
            s.width() == crop_clamp_len(dims.width as int, old(self).width(), s.off_x()),
            s.height() == crop_clamp_len(dims.height as int, old(self).height(), s.off_y()),
            s.grid() == subgrid(old(self).grid(), old(self).width(),
                s.off_x(), s.off_y(), s.width(), s.height()),
    {
        let this: &'a OwnedImage = self;
        let d = this.dimensions();
        ImageSliceMut::new(this.get_pixels(), SliceSpec {
            offset: (x, y),
            size: (d.width, d.height),
            dims,
        })
    }
}

/// Which cells a horizontal in-place flip has already swapped, when the
/// sweep stands at row `j`, column `i`: a cell left of the midline is done
/// once the sweep has passed it, a cell right of the midline once its
/// mirror has been; an exact-middle column is never touched.
spec fn hflip_done(w: int, x: int, y: int, j: int, i: int) -> bool {
    if 2 * x + 1 < w {
        y < j || (y == j && x < i)
    } else if 2 * (w - 1 - x) + 1 < w {
        y < j || (y == j && w - 1 - x < i)
    } else {
        false
    }
}

/// The same bookkeeping for a vertical in-place flip, sweeping the top
/// half of the rows.
spec fn vflip_done(h: int, x: int, y: int, j: int, i: int) -> bool {
    if 2 * y + 1 < h {
        y < j || (y == j && x < i)
    } else if 2 * (h - 1 - y) + 1 < h {
        h - 1 - y < j || (h - 1 - y == j && x < i)
    } else {
        false
    }
}

/// The same bookkeeping for the two-flag in-place flip, whose sweep pairs
/// `(x, y)` with `(w-1-x, h-1-y)` for columns left of the midline.
spec fn hvflip_done(w: int, h: int, x: int, y: int, j: int, i: int) -> bool {
    if 2 * x + 1 < w {
        y < j || (y == j && x < i)
    } else if 2 * (w - 1 - x) + 1 < w {
        h - 1 - y < j || (h - 1 - y == j && w - 1 - x < i)
    } else {
        false
    }
}

impl OwnedImage {
    /// Exchanges two pixels in place.
    fn swap_pixels(&mut self, x1: u32, y1: u32, x2: u32, y2: u32)
        requires
            old(self).wf(),
            x1 < old(self).width(),
            y1 < old(self).height(),
            x2 < old(self).width(),
            y2 < old(self).height(),
        ensures
            final(self).wf(),
            final(self).width() == old(self).width(),
            final(self).height() == old(self).height(),
            final(self).grid() == old(self).grid()
                .update(y1 * old(self).width() + x1,
                    old(self).grid()[y2 * old(self).width() + x2])
                .update(y2 * old(self).width() + x2,
                    old(self).grid()[y1 * old(self).width() + x1]),
    {
        proof {
            lemma_position_of_coords(
                old(self).width(), old(self).height(), x1 as int, y1 as int);
            lemma_position_of_coords(
                old(self).width(), old(self).height(), x2 as int, y2 as int);
        }
        let a = self.read_pixel(x1, y1);
        let b = self.read_pixel(x2, y2);
        let r1 = self.set_pixel(x1, y1, b);
        let r2 = self.set_pixel(x2, y2, a);
        proof {
            assert(r1 is Ok);
            assert(r2 is Ok);
        }
    }
}

impl ImageMut for OwnedImage {
    /// Blurs this image in place: the same three passes as `blurred`, each
    /// materialized into a fresh buffer before it replaces this one.
    fn blur(&mut self, amount: u32) {
        let (r0, r1, r2) = crate::blur::blur_kernel_radii(amount);
        crate::blur::box_blur(self, r0);
        crate::blur::box_blur(self, r1);
        crate::blur::box_blur(self, r2);
    }

    /// Flips this image in place by swapping each pixel with its mapped
    /// partner, saving one of the pair so no swap destroys a value its
    /// partner still needs; with neither flag set it is a true no-op.
    fn flip(&mut self, horiz: bool, vert: bool) {
        let d = self.dimensions();
        let w = d.width;
        let h = d.height;
        proof {
            self.lemma_grid_shape();
        }
        let ghost wi = w as int;
        let ghost hi = h as int;
        let ghost g0 = self.grid();
        let ghost target = crate::grid::flipped_grid(g0, wi, hi, horiz, vert);
        if !horiz && !vert {
            proof {
                assert forall|q: int| 0 <= q < g0.len() implies target[q] == g0[q] by {
                    assert(wi > 0) by (nonlinear_arith)
                        requires wi >= 0, hi >= 0, 0 <= q < wi * hi;
                    crate::grid::lemma_coords_of_position(wi, hi, q);
                }
                assert(self.grid() =~= target);
            }
            return;
        }
        if horiz && vert {
            proof {
                assert forall|q: int| 0 <= q < wi * hi implies self.grid()[q]
                    == (if hvflip_done(wi, hi, q % wi, q / wi, 0, 0) {
                        target[q]
                    } else {
                        g0[q]
                    })
                by {
                    assert(wi > 0) by (nonlinear_arith)
                        requires wi >= 0, hi >= 0, 0 <= q < wi * hi;
                    crate::grid::lemma_coords_of_position(wi, hi, q);
                }
            }
            let mut j: u32 = 0;
            while j < h
                invariant
                    self.wf(),
                    wi == self.width(),
                    hi == self.height(),
                    w == wi,
                    h == hi,
                    g0.len() == wi * hi,
                    target == crate::grid::flipped_grid(g0, wi, hi, true, true),
                    horiz && vert,
                    0 <= j <= h,
                    forall|q: int| 0 <= q < wi * hi ==> self.grid()[q]
                        == (if hvflip_done(wi, hi, q % wi, q / wi, j as int, 0) {
                            target[q]
                        } else {
                            g0[q]
                        }),
                decreases h - j,
            {
                let mut i: u32 = 0;
                while i < w / 2
                    invariant
                        self.wf(),
                        wi == self.width(),
                        hi == self.height(),
                        w == wi,
                        h == hi,
                        g0.len() == wi * hi,
                        target == crate::grid::flipped_grid(g0, wi, hi, true, true),
                        horiz && vert,
                        0 <= j < h,
                        0 <= i <= w / 2,
                        forall|q: int| 0 <= q < wi * hi ==> self.grid()[q]
                            == (if hvflip_done(wi, hi, q % wi, q / wi, j as int, i as int) {
                                target[q]
                            } else {
                                g0[q]
                            }),
                    decreases w / 2 - i,
                {
                    proof {
                        lemma_position_of_coords(wi, hi, i as int, j as int);
                        lemma_position_of_coords(wi, hi, wi - 1 - i, hi - 1 - j);
                    }
                    let ghost pre = self.grid();
                    self.swap_pixels(i, j, w - 1 - i, h - 1 - j);
                    proof {
                        assert forall|q: int| 0 <= q < wi * hi implies self.grid()[q]
                            == (if hvflip_done(wi, hi, q % wi, q / wi, j as int, i as int + 1) {
                                target[q]
                            } else {
                                g0[q]
                            })
                        by {
                            assert(wi > 0) by (nonlinear_arith)
                                requires wi >= 0, hi >= 0, 0 <= q < wi * hi;
                            crate::grid::lemma_coords_of_position(wi, hi, q);
                        }
                    }
                    i = i + 1;
                }
                j = j + 1;
                proof {
                    assert forall|q: int| 0 <= q < wi * hi implies self.grid()[q]
                        == (if hvflip_done(wi, hi, q % wi, q / wi, j as int, 0) {
                            target[q]
                        } else {
                            g0[q]
                        })
                    by {
                        assert(wi > 0) by (nonlinear_arith)
                            requires wi >= 0, hi >= 0, 0 <= q < wi * hi;
                        crate::grid::lemma_coords_of_position(wi, hi, q);
                    }
                }
            }
            if w % 2 == 1 {
                let mid = w / 2;
            proof {
                    assert forall|q: int| 0 <= q < wi * hi implies self.grid()[q]
                        == (if 2 * (q % wi) + 1 < wi || 2 * (wi - 1 - q % wi) + 1 < wi
                                || (2 * (q / wi) + 1 < hi && q / wi < 0)
                                || (2 * (hi - 1 - q / wi) + 1 < hi && hi - 1 - q / wi < 0) {
                            target[q]
                        } else {
                            g0[q]
                        })
                    by {
                        assert(wi > 0) by (nonlinear_arith)
                            requires wi >= 0, hi >= 0, 0 <= q < wi * hi;
                        crate::grid::lemma_coords_of_position(wi, hi, q);
                    }
                }
                let mut j2: u32 = 0;
                while j2 < h / 2
                    invariant
                        self.wf(),
                        wi == self.width(),
                        hi == self.height(),
                        w == wi,
                        h == hi,
                        g0.len() == wi * hi,
                        target == crate::grid::flipped_grid(g0, wi, hi, true, true),
                        horiz && vert,
                        mid == wi / 2,
                        2 * (mid as int) + 1 == wi,
                        0 <= j2 <= h / 2,
                        forall|q: int| 0 <= q < wi * hi ==> self.grid()[q]
                            == (if 2 * (q % wi) + 1 < wi || 2 * (wi - 1 - q % wi) + 1 < wi
                                    || (2 * (q / wi) + 1 < hi && q / wi < j2 as int)
                                    || (2 * (hi - 1 - q / wi) + 1 < hi
                                        && hi - 1 - q / wi < j2 as int) {
                                target[q]
                            } else {
                                g0[q]
                            }),
                    decreases h / 2 - j2,
                {
                    proof {
                        lemma_position_of_coords(wi, hi, mid as int, j2 as int);
                        lemma_position_of_coords(wi, hi, mid as int, hi - 1 - j2);
                    }
                    self.swap_pixels(mid, j2, mid, h - 1 - j2);
                    proof {
                        assert forall|q: int| 0 <= q < wi * hi implies self.grid()[q]
                            == (if 2 * (q % wi) + 1 < wi || 2 * (wi - 1 - q % wi) + 1 < wi
                                    || (2 * (q / wi) + 1 < hi && q / wi < j2 as int + 1)
                                    || (2 * (hi - 1 - q / wi) + 1 < hi
                                        && hi - 1 - q / wi < j2 as int + 1) {
                                target[q]
                            } else {
                                g0[q]
                            })
                        by {
                            assert(wi > 0) by (nonlinear_arith)
                                requires wi >= 0, hi >= 0, 0 <= q < wi * hi;
                            crate::grid::lemma_coords_of_position(wi, hi, q);
                        }
                    }
                    j2 = j2 + 1;
                }
            }
            proof {
                assert forall|q: int| 0 <= q < wi * hi implies self.grid()[q] == target[q] by {
                    crate::grid::lemma_coords_of_position(wi, hi, q);
                }
                assert(self.grid() =~= target);
            }
            return;
        }
        if horiz {
            proof {
                assert forall|q: int| 0 <= q < wi * hi implies self.grid()[q]
                    == (if hflip_done(wi, q % wi, q / wi, 0, 0) {
                        target[q]
                    } else {
                        g0[q]
                    })
                by {
                    assert(wi > 0) by (nonlinear_arith)
                        requires wi >= 0, hi >= 0, 0 <= q < wi * hi;
                    crate::grid::lemma_coords_of_position(wi, hi, q);
                }
            }
            let mut j: u32 = 0;
            while j < h
                invariant
                    self.wf(),
                    wi == self.width(),
                    hi == self.height(),
                    w == wi,
                    h == hi,
                    g0.len() == wi * hi,
                    target == crate::grid::flipped_grid(g0, wi, hi, true, false),
                    horiz && !vert,
                    0 <= j <= h,
                    forall|q: int| 0 <= q < wi * hi ==> self.grid()[q]
                        == (if hflip_done(wi, q % wi, q / wi, j as int, 0) {
                            target[q]
                        } else {
                            g0[q]
                        }),
                decreases h - j,
            {
                let mut i: u32 = 0;
                while i < w / 2
                    invariant
                        self.wf(),
                        wi == self.width(),
                        hi == self.height(),
                        w == wi,
                        h == hi,
                        g0.len() == wi * hi,
                        target == crate::grid::flipped_grid(g0, wi, hi, true, false),
                        horiz && !vert,
                        0 <= j < h,
                        0 <= i <= w / 2,
                        forall|q: int| 0 <= q < wi * hi ==> self.grid()[q]
                            == (if hflip_done(wi, q % wi, q / wi, j as int, i as int) {
                                target[q]
                            } else {
                                g0[q]
                            }),
                    decreases w / 2 - i,
                {
                    proof {
                        lemma_position_of_coords(wi, hi, i as int, j as int);
                        lemma_position_of_coords(wi, hi, wi - 1 - i, j as int);
                    }
                    self.swap_pixels(i, j, w - 1 - i, j);
                    proof {
                        assert forall|q: int| 0 <= q < wi * hi implies self.grid()[q]
                            == (if hflip_done(wi, q % wi, q / wi, j as int, i as int + 1) {
                                target[q]
                            } else {
                                g0[q]
                            })
                        by {
                            assert(wi > 0) by (nonlinear_arith)
                                requires wi >= 0, hi >= 0, 0 <= q < wi * hi;
                            crate::grid::lemma_coords_of_position(wi, hi, q);
                        }
                    }
                    i = i + 1;
                }
                j = j + 1;
                proof {
                    assert forall|q: int| 0 <= q < wi * hi implies self.grid()[q]
                        == (if hflip_done(wi, q % wi, q / wi, j as int, 0) {
                            target[q]
                        } else {
                            g0[q]
                        })
                    by {
                        assert(wi > 0) by (nonlinear_arith)
                            requires wi >= 0, hi >= 0, 0 <= q < wi * hi;
                        crate::grid::lemma_coords_of_position(wi, hi, q);
                    }
                }
            }
            proof {
                assert forall|q: int| 0 <= q < wi * hi implies self.grid()[q] == target[q] by {
                    crate::grid::lemma_coords_of_position(wi, hi, q);
                }
                assert(self.grid() =~= target);
            }
            return;
        }
        proof {
            assert forall|q: int| 0 <= q < wi * hi implies self.grid()[q]
                == (if vflip_done(hi, q % wi, q / wi, 0, 0) {
                    target[q]
                } else {
                    g0[q]
                })
            by {
                assert(wi > 0) by (nonlinear_arith)
                    requires wi >= 0, hi >= 0, 0 <= q < wi * hi;
                crate::grid::lemma_coords_of_position(wi, hi, q);
            }
        }
        let mut j: u32 = 0;
        while j < h / 2
            invariant
                self.wf(),
                wi == self.width(),
                hi == self.height(),
                w == wi,
                h == hi,
                g0.len() == wi * hi,
                target == crate::grid::flipped_grid(g0, wi, hi, false, true),
                !horiz && vert,
                0 <= j <= h / 2,
                forall|q: int| 0 <= q < wi * hi ==> self.grid()[q]
                    == (if vflip_done(hi, q % wi, q / wi, j as int, 0) {
                        target[q]
                    } else {
                        g0[q]
                    }),
            decreases h / 2 - j,
        {
            let mut i: u32 = 0;
            while i < w
                invariant
                    self.wf(),
                    wi == self.width(),
                    hi == self.height(),
                    w == wi,
                    h == hi,
                    g0.len() == wi * hi,
                    target == crate::grid::flipped_grid(g0, wi, hi, false, true),
                    !horiz && vert,
                    0 <= j < h / 2,
                    0 <= i <= w,
                    forall|q: int| 0 <= q < wi * hi ==> self.grid()[q]
                        == (if vflip_done(hi, q % wi, q / wi, j as int, i as int) {
                            target[q]
                        } else {
                            g0[q]
                        }),
                decreases w - i,
            {
                proof {
                    lemma_position_of_coords(wi, hi, i as int, j as int);
                    lemma_position_of_coords(wi, hi, i as int, hi - 1 - j);
                }
                self.swap_pixels(i, j, i, h - 1 - j);
                proof {
                    assert forall|q: int| 0 <= q < wi * hi implies self.grid()[q]
                        == (if vflip_done(hi, q % wi, q / wi, j as int, i as int + 1) {
                            target[q]
                        } else {
                            g0[q]
                        })
                    by {
                        assert(wi > 0) by (nonlinear_arith)
                            requires wi >= 0, hi >= 0, 0 <= q < wi * hi;
                        crate::grid::lemma_coords_of_position(wi, hi, q);
                    }
                }
                i = i + 1;
            }
            j = j + 1;
            proof {
                assert forall|q: int| 0 <= q < wi * hi implies self.grid()[q]
                    == (if vflip_done(hi, q % wi, q / wi, j as int, 0) {
                        target[q]
                    } else {
                        g0[q]
                    })
                by {
                    assert(wi > 0) by (nonlinear_arith)
                        requires wi >= 0, hi >= 0, 0 <= q < wi * hi;
                    crate::grid::lemma_coords_of_position(wi, hi, q);
                }
            }
        }
        proof {
            assert forall|q: int| 0 <= q < wi * hi implies self.grid()[q] == target[q] by {
                assert(wi > 0) by (nonlinear_arith)
                    requires wi >= 0, hi >= 0, 0 <= q < wi * hi;
                crate::grid::lemma_coords_of_position(wi, hi, q);
            }
            assert(self.grid() =~= target);
        }
    }

    /// Turns this image greyscale in place, pixel by pixel; numerically
    /// identical to `greyscale`.
    fn greyscale_mut(&mut self) {
        let d = self.dimensions();
        let w = d.width;
        let h = d.height;
        proof {
            self.lemma_grid_shape();
        }
        let ghost g0 = self.grid();
        let ghost target = crate::grid::grey_grid(g0);
        let mut j: u32 = 0;
        while j < h
            invariant
                self.wf(),
                w == self.width(),
                h == self.height(),
                g0.len() == w * h,
                target == crate::grid::grey_grid(g0),
                0 <= j <= h,
                forall|q: int| 0 <= q < w * h ==> self.grid()[q]
                    == (if q < j * w { target[q] } else { g0[q] }),
            decreases h - j,
        {
            let mut i: u32 = 0;
            while i < w
                invariant
                    self.wf(),
                    w == self.width(),
                    h == self.height(),
                    g0.len() == w * h,
                    target == crate::grid::grey_grid(g0),
                    0 <= j < h,
                    0 <= i <= w,
                    forall|q: int| 0 <= q < w * h ==> self.grid()[q]
                        == (if q < j * w + i { target[q] } else { g0[q] }),
                decreases w - i,
            {
                proof {
                    lemma_position_of_coords(w as int, h as int, i as int, j as int);
                }
                let px = self.read_pixel(i, j);
                let grey = crate::transform::to_grey(px);
                let r = self.set_pixel(i, j, grey);
                proof {
                    assert(r is Ok);
                }
                i = i + 1;
            }
            j = j + 1;
            proof {
                assert((j - 1) * (w as int) + (w as int) == j * (w as int))
                    by (nonlinear_arith);
            }
        }
        proof {
            assert(self.grid() =~= target);
        }
    }

    /// Replaces this image wholesale — dimensions and buffer — from any
    /// readable image; the dimensions need not match beforehand.
    fn copy_from<S: Image>(&mut self, source: &S) {
        proof {
            source.lemma_grid_shape();
        }
        let d = source.dimensions();
        let buf = source.pixels();
        self.dims = d;
        self.pixels = buf;
    }
}

impl Image for OwnedImage {
    open spec fn img_width(&self) -> int {
        self.width()
    }

    open spec fn img_height(&self) -> int {
        self.height()
    }

    open spec fn img_grid(&self) -> Seq<Pixel> {
        self.grid()
    }

    open spec fn img_wf(&self) -> bool {
        self.wf()
    }

    proof fn lemma_grid_shape(&self) {
    }

    fn dimensions(&self) -> (d: Dimensions) {
        self.dims
    }

    fn get_pixel(&self, x: u32, y: u32) -> (r: Result<Pixel, ImageError>) {
        if x >= self.dims.width || y >= self.dims.height {
            return Err(ImageError::OutOfBounds);
        }
        Ok(self.read_pixel(x, y))
    }

    fn pixels(&self) -> (buf: Vec<u8>) {
        self.pixels.clone()
    }
}

/// Constructs an image from a decoded frame's dimensions and raw RGBA
/// bytes, validating that the buffer length matches.
pub fn import(dims: Dimensions, pixels: Vec<u8>) -> (r: Result<OwnedImage, ImageError>)
    ensures
        pixels@.len() == 4 * dims.width * dims.height ==> (r matches Ok(img)
            && img.wf()
            && img.width() == dims.width
            && img.height() == dims.height
            && img.buf() == pixels@),
        pixels@.len() != 4 * dims.width * dims.height
            ==> r == Err::<OwnedImage, ImageError>(ImageError::InvalidBuffer),
{
    OwnedImage::import(dims, pixels)
}

} // verus!
