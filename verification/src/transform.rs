//! Out-of-place transformations, generic over anything readable as an image:
//! flipping and greyscale conversion. Both are pure gathers — every
//! destination pixel is computed from the source alone — so they work the
//! same on owning images and on borrowed views.

use vstd::prelude::*;
use crate::grid::flip_src_x;
use crate::grid::flip_src_y;
use crate::grid::flipped_grid;
use crate::grid::grey_grid;
use crate::grid::grey_pixel;
use crate::grid::grid_pixel;
use crate::grid::lemma_luma_bounds;
use crate::grid::lemma_position_of_coords;
use crate::grid::nth_pixel;
use crate::owned::OwnedImage;
use crate::traits::Image;
use crate::types::Dimensions;
use crate::types::Pixel;

verus! {

/// Appends one pixel's four channel bytes to a buffer under construction.
pub(crate) fn push_pixel(out: &mut Vec<u8>, p: Pixel)
    ensures
        final(out)@ == old(out)@ + seq![p.r, p.g, p.b, p.alpha],
{
    out.push(p.r);
    out.push(p.g);
    out.push(p.b);
    out.push(p.alpha);
    proof {
        assert(out@ =~= old(out)@ + seq![p.r, p.g, p.b, p.alpha]);
    }
}

/// A buffer extended by one pixel models one more grid position.
pub(crate) proof fn lemma_grid_extend(buf: Seq<u8>, p: int, px: Pixel)
    requires
        buf.len() == 4 * p,
        0 <= p,
    ensures
        forall|q: int| 0 <= q < p ==>
            nth_pixel(buf + seq![px.r, px.g, px.b, px.alpha], q) == nth_pixel(buf, q),
        nth_pixel(buf + seq![px.r, px.g, px.b, px.alpha], p) == px,
{
}

/// A fresh image that is the source flipped. Each destination pixel `(i, j)`
/// is the source pixel under the mapping the two flags select.
pub fn flipped_of<S: Image>(source: &S, horiz: bool, vert: bool) -> (r: OwnedImage)
    requires
        source.img_wf(),
    ensures
        r.wf(),
        r.width() == source.img_width(),
        r.height() == source.img_height(),
        r.grid() == flipped_grid(
            source.img_grid(), source.img_width(), source.img_height(), horiz, vert),
{
    let dims = source.dimensions();
    let w = dims.width;
    let h = dims.height;
    proof {
        source.lemma_grid_shape();
    }
    let ghost g = source.img_grid();
    let ghost target = flipped_grid(g, w as int, h as int, horiz, vert);
    let mut out: Vec<u8> = Vec::new();
    let mut j: u32 = 0;
    while j < h
        invariant
            source.img_wf(),
            w == source.img_width(),
            h == source.img_height(),
            g == source.img_grid(),
            g.len() == w * h,
            target == flipped_grid(g, w as int, h as int, horiz, vert),
            0 <= j <= h,
            out@.len() == 4 * (j * w),
            forall|p: int| 0 <= p < j * w ==> nth_pixel(out@, p) == target[p],
        decreases h - j,
    {
        let mut i: u32 = 0;
        while i < w
            invariant
                source.img_wf(),
                w == source.img_width(),
                h == source.img_height(),
                g == source.img_grid(),
                g.len() == w * h,
                target == flipped_grid(g, w as int, h as int, horiz, vert),
                0 <= j < h,
                0 <= i <= w,
                out@.len() == 4 * (j * w + i),
                forall|p: int| 0 <= p < j * w + i ==> nth_pixel(out@, p) == target[p],
            decreases w - i,
        {
            let sx = if horiz { w - 1 - i } else { i };
            let sy = if vert { h - 1 - j } else { j };
            let px = match source.get_pixel(sx, sy) {
                Ok(px) => px,
                Err(_) => {
                    proof {
                        assert(false);
                    }
                    Pixel { r: 0, g: 0, b: 0, alpha: 0 }
                },
            };
            let ghost p = j * w + i;
            proof {
                lemma_position_of_coords(w as int, h as int, i as int, j as int);
                assert(target[p as int] == grid_pixel(g, w as int,
                    flip_src_x(w as int, horiz, i as int),
                    flip_src_y(h as int, vert, j as int)));
                assert(px == target[p as int]);
                lemma_grid_extend(out@, p as int, px);
            }
            push_pixel(&mut out, px);
            i = i + 1;
        }
        j = j + 1;
        proof {
            assert((j - 1) * (w as int) + (w as int) == j * (w as int)) by (nonlinear_arith);
        }
    }
    proof {
        assert((h * w) as int == (w as int) * (h as int)) by (nonlinear_arith);
        assert(4 * (w as int) * (h as int) == 4 * ((w as int) * (h as int)))
            by (nonlinear_arith);
    }
    let r = OwnedImage::from_raw(Dimensions { width: w, height: h }, out);
    proof {
        assert(r.grid() =~= target);
    }
    r
}

/// A fresh image that is the source in greyscale: every pixel's colour
/// channels replaced by its luma, alpha kept.
pub fn greyed_of<S: Image>(source: &S) -> (r: OwnedImage)
    requires
        source.img_wf(),
    ensures
        r.wf(),
        r.width() == source.img_width(),
        r.height() == source.img_height(),
        r.grid() == grey_grid(source.img_grid()),
{
    let dims = source.dimensions();
    let w = dims.width;
    let h = dims.height;
    proof {
        source.lemma_grid_shape();
    }
    let ghost g = source.img_grid();
    let ghost target = grey_grid(g);
    let mut out: Vec<u8> = Vec::new();
    let mut j: u32 = 0;
    while j < h
        invariant
            source.img_wf(),
            w == source.img_width(),
            h == source.img_height(),
            g == source.img_grid(),
            g.len() == w * h,
            target == grey_grid(g),
            0 <= j <= h,
            out@.len() == 4 * (j * w),
            forall|p: int| 0 <= p < j * w ==> nth_pixel(out@, p) == target[p],
        decreases h - j,
    {
        let mut i: u32 = 0;
        while i < w
            invariant
                source.img_wf(),
                w == source.img_width(),
                h == source.img_height(),
                g == source.img_grid(),
                g.len() == w * h,
                target == grey_grid(g),
                0 <= j < h,
                0 <= i <= w,
                out@.len() == 4 * (j * w + i),
                forall|p: int| 0 <= p < j * w + i ==> nth_pixel(out@, p) == target[p],
            decreases w - i,
        {
            let px = match source.get_pixel(i, j) {
                Ok(px) => px,
                Err(_) => {
                    proof {
                        assert(false);
                    }
                    Pixel { r: 0, g: 0, b: 0, alpha: 0 }
                },
            };
            let grey = to_grey(px);
            let ghost p = j * w + i;
            proof {
                lemma_position_of_coords(w as int, h as int, i as int, j as int);
                assert(grey == target[p as int]);
                lemma_grid_extend(out@, p as int, grey);
            }
            push_pixel(&mut out, grey);
            i = i + 1;
        }
        j = j + 1;
        proof {
            assert((j - 1) * (w as int) + (w as int) == j * (w as int)) by (nonlinear_arith);
        }
    }
    proof {
        assert((h * w) as int == (w as int) * (h as int)) by (nonlinear_arith);
        assert(4 * (w as int) * (h as int) == 4 * ((w as int) * (h as int)))
            by (nonlinear_arith);
    }
    let r = OwnedImage::from_raw(Dimensions { width: w, height: h }, out);
    proof {
        assert(r.grid() =~= target);
    }
    r
}

/// Turns one pixel grey: the rounded ITU-weighted luma in all three colour
/// channels, alpha untouched.
pub fn to_grey(px: Pixel) -> (r: Pixel)
    ensures
        r == grey_pixel(px),
{
    let sum: u32 = 299 * (px.r as u32) + 587 * (px.g as u32) + 114 * (px.b as u32) + 500;
    let avg: u32 = sum / 1000;
    proof {
        lemma_luma_bounds(px);
    }
    Pixel { r: avg as u8, g: avg as u8, b: avg as u8, alpha: px.alpha }
}

} // verus!
