//! Zero-copy views: a borrowed rectangular window into another image's
//! buffer. A view stores its offset and its own dimensions in pixel units
//! and the backing image's full dimensions; the backing width — never the
//! view's own — is the row stride when an address is computed, and the
//! channel factor of four enters only at that final computation.

use vstd::prelude::*;
use crate::grid::crop_clamp_len;
use crate::grid::crop_clamp_offset;
use crate::grid::grid_of;
use crate::grid::grid_pixel;
use crate::grid::lemma_position_of_coords;
use crate::grid::lemma_subgrid_compose;
use crate::grid::subgrid;
use crate::owned::OwnedImage;
use crate::traits::Image;
use crate::types::Dimensions;
use crate::types::ImageError;
use crate::types::Pixel;

verus! {

/// Where a view sits inside its backing image: offset of its top-left
/// pixel, the backing image's full dimensions, and the view's own
/// dimensions — all in pixel units.
pub struct SliceSpec {
    /// x and y of the view's top-left pixel within the backing image.
    pub offset: (u32, u32),
    /// Full width and height of the backing image.
    pub size: (u32, u32),
    /// The view's own width and height.
    pub dims: Dimensions,
}

/// A read-only borrowed window into another image's buffer.
pub struct ImageSlice<'a> {
    pixels: &'a Vec<u8>,
    region: SliceSpec,
}

/// A window created from an exclusive borrow of the owning image: while it
/// lives, no other view of — and no mutation through — that image can.
pub struct ImageSliceMut<'a> {
    view: ImageSlice<'a>,
}

impl<'a> ImageSlice<'a> {
    /// The view's own width, in pixels.
    pub closed spec fn width(&self) -> int {
        self.region.dims.width as int
    }

    /// The view's own height, in pixels.
    pub closed spec fn height(&self) -> int {
        self.region.dims.height as int
    }

    /// x of the view's top-left pixel within the backing image.
    pub closed spec fn off_x(&self) -> int {
        self.region.offset.0 as int
    }

    /// y of the view's top-left pixel within the backing image.
    pub closed spec fn off_y(&self) -> int {
        self.region.offset.1 as int
    }

    /// The backing image's full width: the row stride.
    pub closed spec fn back_w(&self) -> int {
        self.region.size.0 as int
    }

    /// The backing image's full height.
    pub closed spec fn back_h(&self) -> int {
        self.region.size.1 as int
    }

    /// The borrowed backing bytes.
    pub closed spec fn backing(&self) -> Seq<u8> {
        self.pixels@
    }

    /// The invariant: the window lies inside the backing image, whose
    /// buffer matches its dimensions.
    pub closed spec fn wf(&self) -> bool {
        &&& self.off_x() + self.width() <= self.back_w()
        &&& self.off_y() + self.height() <= self.back_h()
        &&& self.backing().len() == 4 * self.back_w() * self.back_h()
    }

    /// The window's own pixel grid.
    pub open spec fn grid(&self) -> Seq<Pixel> {
        subgrid(
            grid_of(self.backing(), self.back_w(), self.back_h()),
            self.back_w(), self.off_x(), self.off_y(), self.width(), self.height(),
        )
    }

    /// Builds a view over a borrowed buffer. A window that would reach past
    /// the backing image is clamped to fit; this never fails.
    pub fn new(pixels: &'a Vec<u8>, region: SliceSpec) -> (s: Self)
        requires
            pixels@.len() == 4 * region.size.0 * region.size.1,
        ensures
            s.wf(),
            s.backing() == pixels@,
            s.back_w() == region.size.0,
            s.back_h() == region.size.1,
            s.off_x() == crop_clamp_offset(region.offset.0 as int, region.size.0 as int),
            s.off_y() == crop_clamp_offset(region.offset.1 as int, region.size.1 as int),
            s.width() == crop_clamp_len(region.dims.width as int, region.size.0 as int, s.off_x()),
            s.height() == crop_clamp_len(region.dims.height as int, region.size.1 as int, s.off_y()),
    {
        let (bw, bh) = region.size;
        let ox = if region.offset.0 < bw { region.offset.0 } else { bw };
        let oy = if region.offset.1 < bh { region.offset.1 } else { bh };
        let w = if region.dims.width < bw - ox { region.dims.width } else { bw - ox };
        let h = if region.dims.height < bh - oy { region.dims.height } else { bh - oy };
        ImageSlice {
            pixels,
            region: SliceSpec {
                offset: (ox, oy),
                size: (bw, bh),
                dims: Dimensions { width: w, height: h },
            },
        }
    }

    /// Reads a pixel whose coordinates are known to be inside the view.
    pub(crate) fn read_pixel(&self, x: u32, y: u32) -> (p: Pixel)
        requires
            self.wf(),
            x < self.width(),
            y < self.height(),
        ensures
            p == grid_pixel(self.grid(), self.width(), x as int, y as int),
    {
        let (bw, bh) = self.region.size;
        let sx = self.region.offset.0 + x;
        let sy = self.region.offset.1 + y;
        let len = self.pixels.len();
        proof {
            lemma_position_of_coords(bw as int, bh as int, sx as int, sy as int);
            assert(4 * (bw as int) * (bh as int) == 4 * ((bw as int) * (bh as int)))
                by (nonlinear_arith);
            assert(4 * ((sy as int) * (bw as int) + (sx as int)) + 3 < len);
            lemma_position_of_coords(self.width(), self.height(), x as int, y as int);
        }
        let p: usize = (sy as usize) * (bw as usize) + (sx as usize);
        let idx: usize = 4 * p;
        Pixel {
            r: self.pixels[idx],
            g: self.pixels[idx + 1],
            b: self.pixels[idx + 2],
            alpha: self.pixels[idx + 3],
        }
    }

    /// Materializes the window into a fresh contiguous buffer of its own
    /// dimensions, walking each row at the backing image's stride.
    pub fn transform_pixel_index(&self) -> (out: Vec<u8>)
        requires
            self.wf(),
        ensures
            out@.len() == 4 * self.width() * self.height(),
            grid_of(out@, self.width(), self.height()) == self.grid(),
    {
        let w = self.region.dims.width;
        let h = self.region.dims.height;
        let ghost g = self.grid();
        proof {
            assert(g.len() == (w as int) * (h as int)) by (nonlinear_arith)
                requires
                    g.len() == ((w as int) * (h as int)) as nat,
                    w >= 0,
                    h >= 0;
        }
        let mut out: Vec<u8> = Vec::new();
        let mut j: u32 = 0;
        while j < h
            invariant
                self.wf(),
                w == self.width(),
                h == self.height(),
                g == self.grid(),
                g.len() == w * h,
                0 <= j <= h,
                out@.len() == 4 * (j * w),
                forall|p: int| 0 <= p < j * w ==> crate::grid::nth_pixel(out@, p) == g[p],
            decreases h - j,
        {
            let mut i: u32 = 0;
            while i < w
                invariant
                    self.wf(),
                    w == self.width(),
                    h == self.height(),
                    g == self.grid(),
                    g.len() == w * h,
                    0 <= j < h,
                    0 <= i <= w,
                    out@.len() == 4 * (j * w + i),
                    forall|p: int| 0 <= p < j * w + i
                        ==> crate::grid::nth_pixel(out@, p) == g[p],
                decreases w - i,
            {
                let px = self.read_pixel(i, j);
                let ghost p = j * w + i;
                proof {
                    lemma_position_of_coords(w as int, h as int, i as int, j as int);
                    crate::transform::lemma_grid_extend(out@, p as int, px);
                }
                crate::transform::push_pixel(&mut out, px);
                i = i + 1;
            }
            j = j + 1;
            proof {
                assert((j - 1) * (w as int) + (w as int) == j * (w as int))
                    by (nonlinear_arith);
            }
        }
        proof {
            assert((h * w) as int == (w as int) * (h as int)) by (nonlinear_arith);
            assert(4 * (w as int) * (h as int) == 4 * ((w as int) * (h as int)))
                by (nonlinear_arith);
            assert(grid_of(out@, w as int, h as int) =~= g);
        }
        out
    }

    /// Borrows a sub-window of this view. Clamped against the view's own
    /// dimensions exactly as cropping an owning image clamps; never fails.
    pub fn crop(&self, x: u32, y: u32, dims: Dimensions) -> (s: ImageSlice<'a>)
        requires
            self.wf(),
        ensures
            s.wf(),
            s.backing() == self.backing(),
            s.off_x() == self.off_x() + crop_clamp_offset(x as int, self.width()),
            s.off_y() == self.off_y() + crop_clamp_offset(y as int, self.height()),
            s.width() == crop_clamp_len(dims.width as int, self.width(),
                crop_clamp_offset(x as int, self.width())),
            s.height() == crop_clamp_len(dims.height as int, self.height(),
                crop_clamp_offset(y as int, self.height())),
            s.grid() == subgrid(self.grid(), self.width(),
                crop_clamp_offset(x as int, self.width()),
                crop_clamp_offset(y as int, self.height()),
                s.width(), s.height()),
    {
        let sw = self.region.dims.width;
        let sh = self.region.dims.height;
        let cx = if x < sw { x } else { sw };
        let cy = if y < sh { y } else { sh };
        let w = if dims.width < sw - cx { dims.width } else { sw - cx };
        let h = if dims.height < sh - cy { dims.height } else { sh - cy };
        let s = ImageSlice {
            pixels: self.pixels,
            region: SliceSpec {
                offset: (self.region.offset.0 + cx, self.region.offset.1 + cy),
                size: self.region.size,
                dims: Dimensions { width: w, height: h },
            },
        };
        proof {
            lemma_subgrid_compose(
                grid_of(self.backing(), self.back_w(), self.back_h()),
                self.back_w(), self.off_x(), self.off_y(), self.width(), self.height(),
                cx as int, cy as int, w as int, h as int,
            );
        }
        s
    }

    /// A new owning image that is this window flipped.
    pub fn flipped(&self, horiz: bool, vert: bool) -> (r: OwnedImage)
        requires
            self.wf(),
        ensures
            r.wf(),
            r.width() == self.width(),
            r.height() == self.height(),
            r.grid() == crate::grid::flipped_grid(
                self.grid(), self.width(), self.height(), horiz, vert),
    {
        crate::transform::flipped_of(self, horiz, vert)
    }

    /// A new owning image that is this window in greyscale.
    pub fn greyscale(&self) -> (r: OwnedImage)
        requires
            self.wf(),
        ensures
            r.wf(),
            r.width() == self.width(),
            r.height() == self.height(),
            r.grid() == crate::grid::grey_grid(self.grid()),
    {
        crate::transform::greyed_of(self)
    }

    /// A new owning image that is this window blurred: the window is
    /// materialized, then blurred by the three derived box-blur passes.
    pub fn blurred(&self, amount: u32) -> (r: OwnedImage)
        requires
            self.wf(),
        ensures
            r.wf(),
            r.width() == self.width(),
            r.height() == self.height(),
            r.grid() == crate::blur::gaussian_grid(
                self.grid(), self.width(), self.height(), amount as int),
    {
        let d = self.dimensions();
        let owned = OwnedImage::from_raw(d, self.transform_pixel_index());
        owned.blurred(amount)
    }
}

impl<'a> Image for ImageSlice<'a> {
    open spec fn img_width(&self) -> int {
        self.width()
    }

    open spec fn img_height(&self) -> int {
        self.height()
    }

    open spec fn img_grid(&self) -> Seq<Pixel> {
        self.grid()
    }

    open spec fn img_wf(&self) -> bool {
        self.wf()
    }

    proof fn lemma_grid_shape(&self) {
        assert(self.width() * self.height() >= 0) by (nonlinear_arith)
            requires self.width() >= 0, self.height() >= 0;
    }

    fn dimensions(&self) -> (d: Dimensions) {
        self.region.dims
    }

    fn get_pixel(&self, x: u32, y: u32) -> (r: Result<Pixel, ImageError>) {
        if x >= self.region.dims.width || y >= self.region.dims.height {
            return Err(ImageError::OutOfBounds);
        }
        proof {
            lemma_position_of_coords(self.width(), self.height(), x as int, y as int);
        }
        Ok(self.read_pixel(x, y))
    }

    fn pixels(&self) -> (buf: Vec<u8>) {
        self.transform_pixel_index()
    }
}

impl<'a> ImageSliceMut<'a> {
    /// The view's own width, in pixels.
    pub closed spec fn width(&self) -> int {
        self.view.width()
    }

    /// The view's own height, in pixels.
    pub closed spec fn height(&self) -> int {
        self.view.height()
    }

    /// x of the view's top-left pixel within the backing image.
    pub closed spec fn off_x(&self) -> int {
        self.view.off_x()
    }

    /// y of the view's top-left pixel within the backing image.
    pub closed spec fn off_y(&self) -> int {
        self.view.off_y()
    }

    /// The backing image's full width: the row stride.
    pub closed spec fn back_w(&self) -> int {
        self.view.back_w()
    }

    /// The backing image's full height.
    pub closed spec fn back_h(&self) -> int {
        self.view.back_h()
    }

    /// The borrowed backing bytes.
    pub closed spec fn backing(&self) -> Seq<u8> {
        self.view.backing()
    }

    /// The invariant: the window lies inside the backing image, whose
    /// buffer matches its dimensions.
    pub closed spec fn wf(&self) -> bool {
        self.view.wf()
    }

    /// The window's own pixel grid.
    pub closed spec fn grid(&self) -> Seq<Pixel> {
        self.view.grid()
    }

    /// Builds a view over a borrowed buffer, clamped to fit; never fails.
    /// `OwnedImage::crop_mut` is the usual way to obtain one, under an
    /// exclusive borrow of the owner.
    pub fn new(pixels: &'a Vec<u8>, region: SliceSpec) -> (s: Self)
        requires
            pixels@.len() == 4 * region.size.0 * region.size.1,
        ensures
            s.wf(),
            s.backing() == pixels@,
            s.back_w() == region.size.0,
            s.back_h() == region.size.1,
            s.off_x() == crop_clamp_offset(region.offset.0 as int, region.size.0 as int),
            s.off_y() == crop_clamp_offset(region.offset.1 as int, region.size.1 as int),
            s.width() == crop_clamp_len(region.dims.width as int, region.size.0 as int, s.off_x()),
            s.height() == crop_clamp_len(region.dims.height as int, region.size.1 as int, s.off_y()),
            s.grid() == subgrid(
                grid_of(pixels@, region.size.0 as int, region.size.1 as int),
                region.size.0 as int, s.off_x(), s.off_y(), s.width(), s.height()),
    {
        ImageSliceMut { view: ImageSlice::new(pixels, region) }
    }

    /// Materializes the window into a fresh contiguous buffer of its own
    /// dimensions.
    pub fn transform_pixel_index(&self) -> (out: Vec<u8>)
        requires
            self.wf(),
        ensures
            out@.len() == 4 * self.width() * self.height(),
            grid_of(out@, self.width(), self.height()) == self.grid(),
    {
        self.view.transform_pixel_index()
    }

    /// Borrows a read-only sub-window of this view, clamped to fit.
    pub fn crop(&self, x: u32, y: u32, dims: Dimensions) -> (s: ImageSlice<'a>)
        requires
            self.wf(),
        ensures
            s.wf(),
            s.backing() == self.backing(),
            s.width() == crop_clamp_len(dims.width as int, self.width(),
                crop_clamp_offset(x as int, self.width())),
            s.height() == crop_clamp_len(dims.height as int, self.height(),
                crop_clamp_offset(y as int, self.height())),
            s.grid() == subgrid(self.grid(), self.width(),
                crop_clamp_offset(x as int, self.width()),
                crop_clamp_offset(y as int, self.height()),
                s.width(), s.height()),
    {
        self.view.crop(x, y, dims)
    }

    /// A new owning image that is this window flipped.
    pub fn flipped(&self, horiz: bool, vert: bool) -> (r: OwnedImage)
        requires
            self.wf(),
        ensures
            r.wf(),
            r.width() == self.width(),
            r.height() == self.height(),
            r.grid() == crate::grid::flipped_grid(
                self.grid(), self.width(), self.height(), horiz, vert),
    {
        crate::transform::flipped_of(self, horiz, vert)
    }

    /// A new owning image that is this window in greyscale.
    pub fn greyscale(&self) -> (r: OwnedImage)
        requires
            self.wf(),
        ensures
            r.wf(),
            r.width() == self.width(),
            r.height() == self.height(),
            r.grid() == crate::grid::grey_grid(self.grid()),
    {
        crate::transform::greyed_of(self)
    }

    /// A new owning image that is this window blurred.
    pub fn blurred(&self, amount: u32) -> (r: OwnedImage)
        requires
            self.wf(),
        ensures
            r.wf(),
            r.width() == self.width(),
            r.height() == self.height(),
            r.grid() == crate::blur::gaussian_grid(
                self.grid(), self.width(), self.height(), amount as int),
    {
        self.view.blurred(amount)
    }
}

impl<'a> Image for ImageSliceMut<'a> {
    open spec fn img_width(&self) -> int {
        self.width()
    }

    open spec fn img_height(&self) -> int {
        self.height()
    }

    open spec fn img_grid(&self) -> Seq<Pixel> {
        self.grid()
    }

    open spec fn img_wf(&self) -> bool {
        self.wf()
    }

    proof fn lemma_grid_shape(&self) {
        assert(self.width() * self.height() >= 0) by (nonlinear_arith)
            requires self.width() >= 0, self.height() >= 0;
    }

    fn dimensions(&self) -> (d: Dimensions) {
        self.view.dimensions()
    }

    fn get_pixel(&self, x: u32, y: u32) -> (r: Result<Pixel, ImageError>) {
        self.view.get_pixel(x, y)
    }

    fn pixels(&self) -> (buf: Vec<u8>) {
        self.view.transform_pixel_index()
    }
}

} // verus!
