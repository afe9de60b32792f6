//! The mathematical model of a pixel buffer.
//!
//! A buffer is a sequence of bytes, row-major, four bytes per pixel; its
//! model is a sequence of [`Pixel`]s of length `width * height`, where the
//! pixel at `(x, y)` sits at position `y * width + x`. The spec functions
//! here define that model and the grids produced by the transformations;
//! the lemmas tie row-major positions to coordinates.

use vstd::prelude::*;
use crate::types::Pixel;

verus! {

/// The byte position where pixel number `p` starts.
pub open spec fn byte_index(p: int) -> int {
    4 * p
}

/// The pixel stored at position `p` of a raw byte buffer.
pub open spec fn nth_pixel(buf: Seq<u8>, p: int) -> Pixel {
    Pixel {
        r: buf[byte_index(p)],
        g: buf[byte_index(p) + 1],
        b: buf[byte_index(p) + 2],
        alpha: buf[byte_index(p) + 3],
    }
}

/// The pixel grid a raw byte buffer of `w * h` pixels encodes.
pub open spec fn grid_of(buf: Seq<u8>, w: int, h: int) -> Seq<Pixel> {
    Seq::new((w * h) as nat, |p: int| nth_pixel(buf, p))
}

/// The pixel at `(x, y)` of a grid of width `w`.
pub open spec fn grid_pixel(g: Seq<Pixel>, w: int, x: int, y: int) -> Pixel {
    g[y * w + x]
}

/// Position of the row-major index and coordinates: a position `p` within a
/// `w`-wide, `h`-high grid decomposes uniquely into `x = p % w`, `y = p / w`.
pub proof fn lemma_coords_of_position(w: int, h: int, p: int)
    requires
        0 < w,
        0 <= p < w * h,
    ensures
        0 <= p % w < w,
        0 <= p / w < h,
        p == (p / w) * w + (p % w),
{
    vstd::arithmetic::div_mod::lemma_fundamental_div_mod(p, w);
    vstd::arithmetic::div_mod::lemma_mod_bound(p, w);
    assert(p == (p / w) * w + (p % w)) by (nonlinear_arith)
        requires p == w * (p / w) + p % w;
    assert(0 <= p / w < h) by (nonlinear_arith)
        requires 0 < w, 0 <= p < w * h, p == w * (p / w) + p % w, 0 <= p % w < w;
}

/// The converse: coordinates `(x, y)` give a position in range whose
/// quotient and remainder are `y` and `x` again.
pub proof fn lemma_position_of_coords(w: int, h: int, x: int, y: int)
    requires
        0 <= x < w,
        0 <= y < h,
    ensures
        0 <= y * w + x < w * h,
        (y * w + x) / w == y,
        (y * w + x) % w == x,
{
    assert(0 <= y * w + x < w * h) by (nonlinear_arith)
        requires 0 <= x < w, 0 <= y < h;
    vstd::arithmetic::div_mod::lemma_fundamental_div_mod_converse(y * w + x, w, y, x);
}

/// Where a flipped image reads its pixel from, horizontally: mirrored when
/// the flag is set, unchanged otherwise.
pub open spec fn flip_src_x(w: int, horiz: bool, x: int) -> int {
    if horiz { w - 1 - x } else { x }
}

/// Where a flipped image reads its pixel from, vertically.
pub open spec fn flip_src_y(h: int, vert: bool, y: int) -> int {
    if vert { h - 1 - y } else { y }
}

/// The grid of a flipped image: each destination pixel is the source pixel
/// under the selected coordinate mapping.
pub open spec fn flipped_grid(g: Seq<Pixel>, w: int, h: int, horiz: bool, vert: bool) -> Seq<Pixel> {
    Seq::new(g.len(), |p: int|
        grid_pixel(g, w, flip_src_x(w, horiz, p % w), flip_src_y(h, vert, p / w)))
}

/// The luma of a pixel: the fixed ITU-style weighting
/// `round(0.299 r + 0.587 g + 0.114 b)`, computed exactly in integers.
pub open spec fn luma(p: Pixel) -> int {
    (299 * p.r + 587 * p.g + 114 * p.b + 500) / 1000
}

/// A pixel turned grey: all three colour channels replaced by the luma,
/// alpha untouched.
pub open spec fn grey_pixel(p: Pixel) -> Pixel {
    Pixel { r: luma(p) as u8, g: luma(p) as u8, b: luma(p) as u8, alpha: p.alpha }
}

/// The grid of a greyscaled image.
pub open spec fn grey_grid(g: Seq<Pixel>) -> Seq<Pixel> {
    Seq::new(g.len(), |p: int| grey_pixel(g[p]))
}

/// The luma never leaves the channel range.
pub proof fn lemma_luma_bounds(p: Pixel)
    ensures
        0 <= luma(p) <= 255,
{
    assert(299 * p.r + 587 * p.g + 114 * p.b + 500 <= 255500);
    assert((299 * p.r + 587 * p.g + 114 * p.b + 500) / 1000 <= 255);
}

/// Flipping is an involution: applying the same flip twice returns the
/// original pixel grid, whichever combination of flags was chosen.
pub proof fn lemma_flipped_involutive(g: Seq<Pixel>, w: int, h: int, horiz: bool, vert: bool)
    requires
        w >= 0,
        h >= 0,
        g.len() == w * h,
    ensures
        flipped_grid(flipped_grid(g, w, h, horiz, vert), w, h, horiz, vert) == g,
{
    let f1 = flipped_grid(g, w, h, horiz, vert);
    let f2 = flipped_grid(f1, w, h, horiz, vert);
    assert forall|p: int| 0 <= p < g.len() implies f2[p] == g[p] by {
        assert(w > 0) by (nonlinear_arith)
            requires w >= 0, h >= 0, 0 <= p < w * h;
        let x = p % w;
        let y = p / w;
        lemma_coords_of_position(w, h, p);
        let fx = flip_src_x(w, horiz, x);
        let fy = flip_src_y(h, vert, y);
        lemma_position_of_coords(w, h, fx, fy);
        assert(f1[fy * w + fx] == grid_pixel(g, w, flip_src_x(w, horiz, fx),
            flip_src_y(h, vert, fy)));
        assert(flip_src_x(w, horiz, fx) == x);
        assert(flip_src_y(h, vert, fy) == y);
    }
    assert(f2 =~= g);
}

/// Every pixel of a greyscaled grid has equal colour channels, and keeps
/// the alpha of the pixel it came from.
pub proof fn lemma_grey_channels(g: Seq<Pixel>, p: int)
    requires
        0 <= p < g.len(),
    ensures
        grey_grid(g)[p].r == grey_grid(g)[p].g,
        grey_grid(g)[p].g == grey_grid(g)[p].b,
        grey_grid(g)[p].alpha == g[p].alpha,
{
}

/// A rectangular window of a grid: the sub-grid of width `sw` and height
/// `sh` whose top-left pixel is at `(offx, offy)` of a `w`-wide grid.
pub open spec fn subgrid(g: Seq<Pixel>, w: int, offx: int, offy: int, sw: int, sh: int) -> Seq<Pixel> {
    Seq::new((sw * sh) as nat, |p: int|
        grid_pixel(g, w, offx + p % sw, offy + p / sw))
}

/// A crop at offset `(0, 0)` whose requested size covers the whole image
/// views the original pixel-for-pixel: the clamped offsets stay zero, the
/// clamped lengths stay the full extent, and the window's grid is the
/// original grid.
pub proof fn lemma_subgrid_identity(g: Seq<Pixel>, w: int, h: int)
    requires
        w >= 0,
        h >= 0,
        g.len() == w * h,
    ensures
        crop_clamp_offset(0, w) == 0,
        crop_clamp_offset(0, h) == 0,
        crop_clamp_len(w, w, 0) == w,
        crop_clamp_len(h, h, 0) == h,
        subgrid(g, w, 0, 0, w, h) == g,
{
    let s = subgrid(g, w, 0, 0, w, h);
    assert forall|p: int| 0 <= p < g.len() implies s[p] == g[p] by {
        assert(w > 0) by (nonlinear_arith)
            requires w >= 0, h >= 0, 0 <= p < w * h;
        lemma_coords_of_position(w, h, p);
    }
    assert(s =~= g);
}

/// Cropping a view crops the backing grid with the offsets summed: a window
/// of a window is a window.
pub proof fn lemma_subgrid_compose(
    g: Seq<Pixel>, w: int, ox: int, oy: int, sw: int, sh: int,
    cx: int, cy: int, cw: int, ch: int,
)
    requires
        0 <= cx && 0 <= cy && 0 <= cw && 0 <= ch,
        cx + cw <= sw,
        cy + ch <= sh,
    ensures
        subgrid(subgrid(g, w, ox, oy, sw, sh), sw, cx, cy, cw, ch)
            == subgrid(g, w, ox + cx, oy + cy, cw, ch),
{
    let inner = subgrid(g, w, ox, oy, sw, sh);
    let lhs = subgrid(inner, sw, cx, cy, cw, ch);
    let rhs = subgrid(g, w, ox + cx, oy + cy, cw, ch);
    assert forall|p: int| 0 <= p < cw * ch implies lhs[p] == rhs[p] by {
        assert(cw > 0) by (nonlinear_arith)
            requires cw >= 0, ch >= 0, 0 <= p < cw * ch;
        lemma_coords_of_position(cw, ch, p);
        let x = p % cw;
        let y = p / cw;
        lemma_position_of_coords(sw, sh, cx + x, cy + y);
        assert(inner[(cy + y) * sw + (cx + x)]
            == grid_pixel(g, w, ox + cx + x, oy + cy + y));
    }
    assert(lhs =~= rhs);
}

/// How cropping clamps: the offset never passes the image's edge, the
/// length never passes what remains; a request that would cross the right
/// edge is cut to exactly the distance from the (clamped) offset to it.
pub proof fn lemma_crop_clamps(limit: int, req_off: int, req_len: int)
    requires
        0 <= limit,
        0 <= req_off,
        0 <= req_len,
    ensures
        0 <= crop_clamp_offset(req_off, limit) <= limit,
        crop_clamp_offset(req_off, limit) <= req_off,
        crop_clamp_len(req_len, limit, crop_clamp_offset(req_off, limit)) <= req_len,
        crop_clamp_len(req_len, limit, crop_clamp_offset(req_off, limit)) <= limit,
        crop_clamp_offset(req_off, limit)
            + crop_clamp_len(req_len, limit, crop_clamp_offset(req_off, limit)) <= limit,
        req_off <= limit && req_off + req_len > limit
            ==> crop_clamp_len(req_len, limit, crop_clamp_offset(req_off, limit))
                == limit - req_off,
{
}

/// Cropping clamps the requested offset to the image's extent.
pub open spec fn crop_clamp_offset(requested: int, limit: int) -> int {
    if requested < limit { requested } else { limit }
}

/// Cropping clamps the requested length to what remains after the offset.
pub open spec fn crop_clamp_len(requested: int, limit: int, offset: int) -> int {
    if requested < limit - offset { requested } else { limit - offset }
}

} // verus!
