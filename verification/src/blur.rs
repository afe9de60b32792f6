//! The box-blur engine: one edge-clamped averaging pass over a pixel grid,
//! and the kernel-size derivation that composes three passes into an
//! approximation of a Gaussian blur of integer standard deviation `sigma`.
//!
//! The derivation follows the classic construction: the ideal box width is
//! `sqrt(12 sigma^2 / 3 + 1)`; the first `m` passes use its floor `wl`, the
//! rest use `wl + 2`, where `m` is the ceiling of
//! `(12 sigma^2 - 3 wl^2 - 12 wl - 9) / (-4 wl - 4)`. All of it is exact
//! integer arithmetic.

use vstd::prelude::*;
use vstd::arithmetic::div_mod::lemma_div_by_multiple;
use vstd::arithmetic::div_mod::lemma_div_is_ordered;
use vstd::arithmetic::div_mod::lemma_div_multiples_vanish;
use vstd::arithmetic::div_mod::lemma_fundamental_div_mod;
use vstd::arithmetic::div_mod::lemma_fundamental_div_mod_converse;
use crate::grid::grid_pixel;
use crate::grid::lemma_position_of_coords;
use crate::owned::OwnedImage;
use crate::traits::Image;
use crate::types::Pixel;

verus! {

/// One of a pixel's three colour channels.
pub open spec fn chan(p: Pixel, c: int) -> u8 {
    if c == 0 {
        p.r
    } else if c == 1 {
        p.g
    } else {
        p.b
    }
}

/// Clamps a coordinate to `[0, hi)`: out-of-range neighbours are replicated
/// from the nearest edge pixel, never wrapped or zero-padded.
pub open spec fn clamp_coord(v: int, hi: int) -> int {
    if v < 0 {
        0
    } else if v >= hi {
        hi - 1
    } else {
        v
    }
}

/// Sum of channel `c` over the first `n` of the `2r + 1` clamped neighbour
/// columns `x - r, ..., x + r`, in the (clamped) row `yy`.
pub open spec fn row_csum(g: Seq<Pixel>, w: int, h: int, c: int, yy: int, x: int, r: int, n: nat) -> int
    decreases n,
{
    if n == 0 {
        0
    } else {
        row_csum(g, w, h, c, yy, x, r, (n - 1) as nat)
            + chan(g[clamp_coord(yy, h) * w + clamp_coord(x - r + n - 1, w)], c)
    }
}

/// Sum of channel `c` over the first `m` rows `y - r, ..., y + r` of the
/// full `(2r + 1) x (2r + 1)` clamped neighbourhood of `(x, y)`.
pub open spec fn box_csum(g: Seq<Pixel>, w: int, h: int, c: int, x: int, y: int, r: int, m: nat) -> int
    decreases m,
{
    if m == 0 {
        0
    } else {
        box_csum(g, w, h, c, x, y, r, (m - 1) as nat)
            + row_csum(g, w, h, c, y - r + m - 1, x, r, (2 * r + 1) as nat)
    }
}

/// The fixed divisor of one pass: the neighbourhood area `(2r + 1)^2`.
pub open spec fn blur_area(r: int) -> int {
    (2 * r + 1) * (2 * r + 1)
}

/// One blurred pixel: each colour channel averaged (truncating division)
/// over the clamped neighbourhood independently; alpha never averaged, but
/// copied from this pixel's value before the pass began.
pub open spec fn blurred_pixel(g: Seq<Pixel>, w: int, h: int, r: int, x: int, y: int) -> Pixel {
    Pixel {
        r: (box_csum(g, w, h, 0, x, y, r, (2 * r + 1) as nat) / blur_area(r)) as u8,
        g: (box_csum(g, w, h, 1, x, y, r, (2 * r + 1) as nat) / blur_area(r)) as u8,
        b: (box_csum(g, w, h, 2, x, y, r, (2 * r + 1) as nat) / blur_area(r)) as u8,
        alpha: grid_pixel(g, w, x, y).alpha,
    }
}

/// One full box-blur pass of radius `r`: every pixel read from the pre-pass
/// grid, never from partially written output.
pub open spec fn blur_pass(g: Seq<Pixel>, w: int, h: int, r: int) -> Seq<Pixel> {
    Seq::new(g.len(), |p: int| blurred_pixel(g, w, h, r, p % w, p / w))
}

/// The integer square root: the greatest `r` with `r * r <= n`.
pub open spec fn isqrt_spec(n: int) -> int
    decreases n,
{
    if n <= 0 {
        0
    } else {
        let r = isqrt_spec(n - 1);
        if (r + 1) * (r + 1) <= n {
            r + 1
        } else {
            r
        }
    }
}

/// The ceiling of `a / b` for positive `b`, over flooring division.
pub open spec fn ceil_div(a: int, b: int) -> int
    recommends
        b > 0,
{
    -((-a) / b)
}

/// The floor `wl` of the ideal box width `sqrt(12 sigma^2 / 3 + 1)`.
pub open spec fn blur_wl(sigma: int) -> int {
    isqrt_spec(4 * sigma * sigma + 1)
}

/// How many of the three passes use width `wl` rather than `wl + 2`: the
/// ceiling of `(12 sigma^2 - 3 wl^2 - 12 wl - 9) / (-4 wl - 4)`, with the
/// fraction rewritten over the positive denominator `4 wl + 4`.
pub open spec fn blur_m(sigma: int) -> int {
    ceil_div(
        3 * blur_wl(sigma) * blur_wl(sigma) + 12 * blur_wl(sigma) + 9 - 12 * sigma * sigma,
        4 * blur_wl(sigma) + 4,
    )
}

/// The box width of pass `i`: `wl` for the first `m` passes, `wl + 2` after.
pub open spec fn blur_size(sigma: int, i: int) -> int {
    if i < blur_m(sigma) {
        blur_wl(sigma)
    } else {
        blur_wl(sigma) + 2
    }
}

/// The radius of pass `i`: `(size - 1) / 2`, truncating.
pub open spec fn blur_radius(sigma: int, i: int) -> int {
    (blur_size(sigma, i) - 1) / 2
}

/// The three composed passes that approximate a Gaussian blur of standard
/// deviation `sigma`.
pub open spec fn gaussian_grid(g: Seq<Pixel>, w: int, h: int, sigma: int) -> Seq<Pixel> {
    blur_pass(
        blur_pass(
            blur_pass(g, w, h, blur_radius(sigma, 0)),
            w, h, blur_radius(sigma, 1)),
        w, h, blur_radius(sigma, 2))
}

/// The integer square root brackets its argument.
pub proof fn lemma_isqrt_bracket(n: int)
    requires
        n >= 0,
    ensures
        isqrt_spec(n) >= 0,
        isqrt_spec(n) * isqrt_spec(n) <= n,
        n < (isqrt_spec(n) + 1) * (isqrt_spec(n) + 1),
    decreases n,
{
    if n == 0 {
        assert(isqrt_spec(0) == 0);
    } else {
        lemma_isqrt_bracket(n - 1);
        let r0 = isqrt_spec(n - 1);
        if (r0 + 1) * (r0 + 1) <= n {
            assert(isqrt_spec(n) == r0 + 1);
            assert(n < (r0 + 1 + 1) * (r0 + 1 + 1)) by (nonlinear_arith)
                requires
                    n - 1 < (r0 + 1) * (r0 + 1),
                    (r0 + 1) * (r0 + 1) <= n,
                    r0 >= 0;
        } else {
            assert(isqrt_spec(n) == r0);
            assert(r0 * r0 <= n);
            assert(n < (r0 + 1) * (r0 + 1));
        }
    }
}

/// Any bracketing root is the integer square root.
pub proof fn lemma_isqrt_unique(n: int, r: int)
    requires
        n >= 0,
        r >= 0,
        r * r <= n,
        n < (r + 1) * (r + 1),
    ensures
        r == isqrt_spec(n),
{
    lemma_isqrt_bracket(n);
    let s = isqrt_spec(n);
    assert(r == s) by (nonlinear_arith)
        requires
            r * r <= n,
            n < (r + 1) * (r + 1),
            s * s <= n,
            n < (s + 1) * (s + 1),
            r >= 0,
            s >= 0;
}

/// Computes the integer square root by bisection.
fn isqrt(n: u128) -> (r: u128)
    requires
        n < 0x40000000000000000,
    ensures
        r == isqrt_spec(n as int),
{
    let mut lo: u128 = 0;
    let mut hi: u128 = 0x200000000;
    proof {
        assert((0x200000000 as int) * (0x200000000 as int) == 0x40000000000000000)
            by (nonlinear_arith);
    }
    while lo + 1 < hi
        invariant
            0 <= lo < hi <= 0x200000000,
            lo * lo <= n,
            n < hi * hi,
        decreases hi - lo,
    {
        let mid = lo + (hi - lo) / 2;
        proof {
            assert((mid as int) * (mid as int) <= 0x40000000000000000) by (nonlinear_arith)
                requires 0 <= mid as int <= 0x200000000;
        }
        if mid * mid <= n {
            lo = mid;
        } else {
            hi = mid;
        }
    }
    proof {
        lemma_isqrt_unique(n as int, lo as int);
    }
    lo
}

/// The ceiling of a non-negative fraction, computed by flooring division.
proof fn lemma_ceil_div_nonneg(a: int, d: int)
    requires
        a >= 0,
        d > 0,
    ensures
        ceil_div(a, d) == (a + d - 1) / d,
{
    let q = (-a) / d;
    lemma_fundamental_div_mod(-a, d);
    let rem = (-a) % d;
    assert(a + d - 1 == (-q) * d + (d - 1 - rem)) by (nonlinear_arith)
        requires -a == d * q + rem;
    lemma_fundamental_div_mod_converse(a + d - 1, d, -q, d - 1 - rem);
}

/// The ceiling of a non-positive fraction, computed by flooring division of
/// the negated numerator.
proof fn lemma_ceil_div_nonpos(a: int, d: int)
    requires
        a <= 0,
        d > 0,
    ensures
        ceil_div(a, d) == -((-a) / d),
        ceil_div(a, d) <= 0,
{
    vstd::arithmetic::div_mod::lemma_div_pos_is_pos(-a, d);
}

/// The three box widths are at most `2 sigma + 3`, so every radius is at
/// most `sigma + 1`.
pub proof fn lemma_blur_radius_bounds(sigma: int, i: int)
    requires
        sigma >= 0,
    ensures
        1 <= blur_wl(sigma) <= 2 * sigma + 1,
        0 <= blur_radius(sigma, i) <= sigma + 1,
{
    let n = 4 * sigma * sigma + 1;
    assert(n >= 1) by (nonlinear_arith) requires sigma >= 0, n == 4 * sigma * sigma + 1;
    lemma_isqrt_bracket(n);
    let wl = isqrt_spec(n);
    assert(wl >= 1) by (nonlinear_arith)
        requires wl >= 0, wl * wl <= 4 * sigma * sigma + 1, n < (wl + 1) * (wl + 1), n == 4 * sigma * sigma + 1, n >= 1;
    assert(wl <= 2 * sigma + 1) by (nonlinear_arith)
        requires
            sigma >= 0,
            wl >= 0,
            wl * wl <= 4 * sigma * sigma + 1;
    let size = blur_size(sigma, i);
    assert(size == wl || size == wl + 2);
    assert(0 <= (size - 1) / 2 <= sigma + 1) by (nonlinear_arith)
        requires 1 <= size <= 2 * sigma + 3;
}

/// On a uniform grid, one row of the clamped neighbourhood sums to the
/// common channel value times the row length.
proof fn lemma_row_csum_uniform(
    g: Seq<Pixel>, w: int, h: int, c: int, yy: int, x: int, r: int, n: nat, px: Pixel,
)
    requires
        w > 0,
        h > 0,
        g.len() == w * h,
        forall|p: int| 0 <= p < g.len() ==> g[p] == px,
    ensures
        row_csum(g, w, h, c, yy, x, r, n) == chan(px, c) * n,
    decreases n,
{
    if n == 0 {
        assert(row_csum(g, w, h, c, yy, x, r, n) == 0);
        assert(chan(px, c) * n == 0) by (nonlinear_arith) requires n == 0;
    } else {
        lemma_row_csum_uniform(g, w, h, c, yy, x, r, (n - 1) as nat, px);
        lemma_position_of_coords(w, h, clamp_coord(x - r + n - 1, w), clamp_coord(yy, h));
        let idx = clamp_coord(yy, h) * w + clamp_coord(x - r + n - 1, w);
        assert(0 <= idx < g.len());
        assert(g[idx] == px);
        assert(row_csum(g, w, h, c, yy, x, r, n)
            == row_csum(g, w, h, c, yy, x, r, (n - 1) as nat) + chan(g[idx], c));
        assert(chan(px, c) * (n as int) == chan(px, c) * (n - 1) + chan(px, c))
            by (nonlinear_arith);
    }
}

/// On a uniform grid, the whole clamped neighbourhood sums to the common
/// channel value times its area.
proof fn lemma_box_csum_uniform(
    g: Seq<Pixel>, w: int, h: int, c: int, x: int, y: int, r: int, m: nat, px: Pixel,
)
    requires
        w > 0,
        h > 0,
        r >= 0,
        g.len() == w * h,
        forall|p: int| 0 <= p < g.len() ==> g[p] == px,
    ensures
        box_csum(g, w, h, c, x, y, r, m) == chan(px, c) * ((2 * r + 1) * m),
    decreases m,
{
    if m == 0 {
        assert(box_csum(g, w, h, c, x, y, r, m) == 0);
        assert(chan(px, c) * ((2 * r + 1) * m) == 0) by (nonlinear_arith) requires m == 0;
    } else {
        lemma_box_csum_uniform(g, w, h, c, x, y, r, (m - 1) as nat, px);
        lemma_row_csum_uniform(g, w, h, c, y - r + m - 1, x, r, (2 * r + 1) as nat, px);
        assert(box_csum(g, w, h, c, x, y, r, m)
            == box_csum(g, w, h, c, x, y, r, (m - 1) as nat)
                + row_csum(g, w, h, c, y - r + m - 1, x, r, (2 * r + 1) as nat));
        assert(chan(px, c) * ((2 * r + 1) * (m as int))
            == chan(px, c) * ((2 * r + 1) * (m - 1)) + chan(px, c) * (2 * r + 1))
            by (nonlinear_arith);
    }
}

/// A box-blur pass of any radius leaves a uniform-colour image untouched:
/// every pixel keeps that colour, and its original alpha, edges included —
/// the clamped boundary does not perturb a constant image.
pub proof fn lemma_blur_pass_uniform(g: Seq<Pixel>, w: int, h: int, r: int, px: Pixel)
    requires
        w >= 0,
        h >= 0,
        r >= 0,
        g.len() == w * h,
        forall|p: int| 0 <= p < g.len() ==> g[p] == px,
    ensures
        blur_pass(g, w, h, r) == g,
{
    let out = blur_pass(g, w, h, r);
    assert forall|p: int| 0 <= p < g.len() implies out[p] == g[p] by {
        assert(w > 0 && h > 0) by (nonlinear_arith)
            requires w >= 0, h >= 0, 0 <= p < w * h;
        crate::grid::lemma_coords_of_position(w, h, p);
        let x = p % w;
        let y = p / w;
        let m = (2 * r + 1) as nat;
        lemma_box_csum_uniform(g, w, h, 0, x, y, r, m, px);
        lemma_box_csum_uniform(g, w, h, 1, x, y, r, m, px);
        lemma_box_csum_uniform(g, w, h, 2, x, y, r, m, px);
        let area = blur_area(r);
        assert(area >= 1) by (nonlinear_arith) requires r >= 0, area == (2 * r + 1) * (2 * r + 1);
        assert(box_csum(g, w, h, 0, x, y, r, m) == (px.r as int) * area);
        assert(box_csum(g, w, h, 1, x, y, r, m) == (px.g as int) * area);
        assert(box_csum(g, w, h, 2, x, y, r, m) == (px.b as int) * area);
        lemma_div_by_multiple(px.r as int, area);
        lemma_div_by_multiple(px.g as int, area);
        lemma_div_by_multiple(px.b as int, area);
        assert(box_csum(g, w, h, 0, x, y, r, m) / area == px.r as int);
        assert(box_csum(g, w, h, 1, x, y, r, m) / area == px.g as int);
        assert(box_csum(g, w, h, 2, x, y, r, m) / area == px.b as int);
        lemma_position_of_coords(w, h, x, y);
        assert(grid_pixel(g, w, x, y) == px);
        assert(out[p] == blurred_pixel(g, w, h, r, x, y));
    }
    assert(out =~= g);
}

/// The three composed passes also leave a uniform-colour image untouched.
pub proof fn lemma_gaussian_uniform(g: Seq<Pixel>, w: int, h: int, sigma: int, px: Pixel)
    requires
        w >= 0,
        h >= 0,
        sigma >= 0,
        g.len() == w * h,
        forall|p: int| 0 <= p < g.len() ==> g[p] == px,
    ensures
        gaussian_grid(g, w, h, sigma) == g,
{
    lemma_blur_radius_bounds(sigma, 0);
    lemma_blur_radius_bounds(sigma, 1);
    lemma_blur_radius_bounds(sigma, 2);
    lemma_blur_pass_uniform(g, w, h, blur_radius(sigma, 0), px);
    lemma_blur_pass_uniform(g, w, h, blur_radius(sigma, 1), px);
    lemma_blur_pass_uniform(g, w, h, blur_radius(sigma, 2), px);
}

/// Computes the three pass radii for standard deviation `amount`.
pub fn blur_kernel_radii(amount: u32) -> (r: (u64, u64, u64))
    ensures
        r.0 == blur_radius(amount as int, 0),
        r.1 == blur_radius(amount as int, 1),
        r.2 == blur_radius(amount as int, 2),
        r.0 <= 0x100000000,
        r.1 <= 0x100000000,
        r.2 <= 0x100000000,
{
    let sigma: u128 = amount as u128;
    let ghost si = sigma as int;
    proof {
        assert(4 * si * si + 1 < 0x40000000000000000) by (nonlinear_arith)
            requires 0 <= si < 0x100000000;
        lemma_blur_radius_bounds(si, 0);
        lemma_blur_radius_bounds(si, 1);
        lemma_blur_radius_bounds(si, 2);
        assert(12 * si * si < 0x100000000000000000) by (nonlinear_arith)
            requires 0 <= si < 0x100000000;
    }
    let n: u128 = 4 * sigma * sigma + 1;
    let wl: u128 = isqrt(n);
    proof {
        assert(wl == blur_wl(si));
        assert((3 * (wl as int)) * (wl as int) < 0x100000000000000000) by (nonlinear_arith)
            requires 0 <= wl as int <= 0x200000000;
    }
    let wu: u128 = wl + 2;
    let d: u128 = 4 * wl + 4;
    let lhs: u128 = 3 * wl * wl + 12 * wl + 9;
    let rhs: u128 = 12 * sigma * sigma;
    let ghost a = lhs as int - rhs as int;
    let m_pos: bool = lhs >= rhs;
    let m: u128 = if lhs >= rhs { (lhs - rhs + d - 1) / d } else { 0 };
    proof {
        if m_pos {
            lemma_ceil_div_nonneg(a, d as int);
            assert(m == blur_m(si));
        } else {
            lemma_ceil_div_nonpos(a, d as int);
            assert(blur_m(si) <= 0);
        }
    }
    let s0: u128 = if m_pos && 0 < m { wl } else { wu };
    let s1: u128 = if m_pos && 1 < m { wl } else { wu };
    let s2: u128 = if m_pos && 2 < m { wl } else { wu };
    proof {
        assert(s0 == blur_size(si, 0));
        assert(s1 == blur_size(si, 1));
        assert(s2 == blur_size(si, 2));
    }
    let r0: u64 = ((s0 - 1) / 2) as u64;
    let r1: u64 = ((s1 - 1) / 2) as u64;
    let r2: u64 = ((s2 - 1) / 2) as u64;
    (r0, r1, r2)
}

/// One box-blur pass of the given radius over a whole image, reading every
/// pixel from the source and writing a fresh output buffer: the output
/// never observes its own partially written pixels.
pub fn box_blur_pass(src: &OwnedImage, radius: u64) -> (out: OwnedImage)
    requires
        src.wf(),
        radius <= 0x100000000,
    ensures
        out.wf(),
        out.width() == src.width(),
        out.height() == src.height(),
        out.grid() == blur_pass(src.grid(), src.width(), src.height(), radius as int),
{
    let dims = src.dimensions();
    let w = dims.width;
    let h = dims.height;
    proof {
        src.lemma_grid_shape();
    }
    let ghost g = src.grid();
    let ghost wi = w as int;
    let ghost hi = h as int;
    let ghost ri = radius as int;
    let ghost target = blur_pass(g, wi, hi, ri);
    let count: u64 = 2 * radius + 1;
    proof {
        assert((count as int) * (count as int) <= 0x200000001 * 0x200000001)
            by (nonlinear_arith)
            requires 0 <= count as int <= 0x200000001;
    }
    let area: u128 = (count as u128) * (count as u128);
    let mut out: Vec<u8> = Vec::new();
    let mut j: u32 = 0;
    while j < h
        invariant
            src.wf(),
            wi == src.width(),
            hi == src.height(),
            w == wi,
            h == hi,
            g == src.grid(),
            g.len() == wi * hi,
            ri == radius,
            radius <= 0x100000000,
            count == 2 * ri + 1,
            area == blur_area(ri),
            area == (count as int) * (count as int),
            area <= 0x200000001 * 0x200000001,
            target == blur_pass(g, wi, hi, ri),
            0 <= j <= h,
            out@.len() == 4 * (j * w),
            forall|p: int| 0 <= p < j * w ==> crate::grid::nth_pixel(out@, p) == target[p],
        decreases h - j,
    {
        let mut i: u32 = 0;
        while i < w
            invariant
                src.wf(),
                wi == src.width(),
                hi == src.height(),
                w == wi,
                h == hi,
                g == src.grid(),
                g.len() == wi * hi,
                ri == radius,
                radius <= 0x100000000,
                count == 2 * ri + 1,
                area == blur_area(ri),
                area == (count as int) * (count as int),
                area <= 0x200000001 * 0x200000001,
                target == blur_pass(g, wi, hi, ri),
                0 <= j < h,
                0 <= i <= w,
                out@.len() == 4 * (j * w + i),
                forall|p: int| 0 <= p < j * w + i
                    ==> crate::grid::nth_pixel(out@, p) == target[p],
            decreases w - i,
        {
            let ghost xi = i as int;
            let ghost yi = j as int;
            let mut rt: u128 = 0;
            let mut gt: u128 = 0;
            let mut bt: u128 = 0;
            let mut dy: u64 = 0;
            while dy < count
                invariant
                    src.wf(),
                    wi == src.width(),
                    hi == src.height(),
                    w == wi,
                    h == hi,
                    g == src.grid(),
                    g.len() == wi * hi,
                    ri == radius,
                    count == 2 * ri + 1,
                    count <= 0x200000001,
                    xi == i < w,
                    yi == j < h,
                    0 <= dy <= count,
                    rt == box_csum(g, wi, hi, 0, xi, yi, ri, dy as nat),
                    gt == box_csum(g, wi, hi, 1, xi, yi, ri, dy as nat),
                    bt == box_csum(g, wi, hi, 2, xi, yi, ri, dy as nat),
                    rt <= 0xff * ((count as int) * (dy as int)),
                    gt <= 0xff * ((count as int) * (dy as int)),
                    bt <= 0xff * ((count as int) * (dy as int)),
                decreases count - dy,
            {
                let yy: i128 = j as i128 - radius as i128 + dy as i128;
                let sy: u32 = if yy < 0 {
                    0
                } else if yy >= h as i128 {
                    h - 1
                } else {
                    yy as u32
                };
                proof {
                    assert(sy == clamp_coord(yi - ri + dy, hi));
                    assert((count as int) * (dy as int) + (count as int)
                        == (count as int) * ((dy + 1) as int)) by (nonlinear_arith);
                    assert((count as int) * (dy as int) <= 0x200000001 * 0x200000001)
                        by (nonlinear_arith)
                        requires 0 <= dy as int <= count as int <= 0x200000001;
                }
                let ghost rt0 = rt;
                let ghost gt0 = gt;
                let ghost bt0 = bt;
                let mut dx: u64 = 0;
                while dx < count
                    invariant
                        src.wf(),
                        wi == src.width(),
                        hi == src.height(),
                        w == wi,
                        h == hi,
                        g == src.grid(),
                        g.len() == wi * hi,
                        ri == radius,
                        count == 2 * ri + 1,
                        count <= 0x200000001,
                        xi == i < w,
                        yi == j < h,
                        0 <= dy < count,
                        0 <= dx <= count,
                        sy == clamp_coord(yi - ri + dy, hi),
                        rt0 == box_csum(g, wi, hi, 0, xi, yi, ri, dy as nat),
                        gt0 == box_csum(g, wi, hi, 1, xi, yi, ri, dy as nat),
                        bt0 == box_csum(g, wi, hi, 2, xi, yi, ri, dy as nat),
                        rt0 <= 0xff * ((count as int) * (dy as int)),
                        gt0 <= 0xff * ((count as int) * (dy as int)),
                        bt0 <= 0xff * ((count as int) * (dy as int)),
                        (count as int) * (dy as int) <= 0x200000001 * 0x200000001,
                        rt == rt0 + row_csum(g, wi, hi, 0, yi - ri + dy, xi, ri, dx as nat),
                        gt == gt0 + row_csum(g, wi, hi, 1, yi - ri + dy, xi, ri, dx as nat),
                        bt == bt0 + row_csum(g, wi, hi, 2, yi - ri + dy, xi, ri, dx as nat),
                        rt <= rt0 + 0xff * (dx as int),
                        gt <= gt0 + 0xff * (dx as int),
                        bt <= bt0 + 0xff * (dx as int),
                    decreases count - dx,
                {
                    let xx: i128 = i as i128 - radius as i128 + dx as i128;
                    let sx: u32 = if xx < 0 {
                        0
                    } else if xx >= w as i128 {
                        w - 1
                    } else {
                        xx as u32
                    };
                    let px = src.read_pixel(sx, sy);
                    proof {
                        assert(sx == clamp_coord(xi - ri + dx, wi));
                        crate::grid::lemma_position_of_coords(wi, hi, sx as int, sy as int);
                        assert(px == g[(sy as int) * wi + (sx as int)]);
                        assert(row_csum(g, wi, hi, 0, yi - ri + dy, xi, ri, (dx + 1) as nat)
                            == row_csum(g, wi, hi, 0, yi - ri + dy, xi, ri, dx as nat)
                                + chan(g[clamp_coord(yi - ri + dy, hi) * wi
                                    + clamp_coord(xi - ri + dx, wi)], 0));
                        assert(row_csum(g, wi, hi, 1, yi - ri + dy, xi, ri, (dx + 1) as nat)
                            == row_csum(g, wi, hi, 1, yi - ri + dy, xi, ri, dx as nat)
                                + chan(g[clamp_coord(yi - ri + dy, hi) * wi
                                    + clamp_coord(xi - ri + dx, wi)], 1));
                        assert(row_csum(g, wi, hi, 2, yi - ri + dy, xi, ri, (dx + 1) as nat)
                            == row_csum(g, wi, hi, 2, yi - ri + dy, xi, ri, dx as nat)
                                + chan(g[clamp_coord(yi - ri + dy, hi) * wi
                                    + clamp_coord(xi - ri + dx, wi)], 2));
                    }
                    rt = rt + px.r as u128;
                    gt = gt + px.g as u128;
                    bt = bt + px.b as u128;
                    dx = dx + 1;
                }
                proof {
                    assert(box_csum(g, wi, hi, 0, xi, yi, ri, (dy + 1) as nat)
                        == box_csum(g, wi, hi, 0, xi, yi, ri, dy as nat)
                            + row_csum(g, wi, hi, 0, yi - ri + dy, xi, ri, (2 * ri + 1) as nat));
                    assert(box_csum(g, wi, hi, 1, xi, yi, ri, (dy + 1) as nat)
                        == box_csum(g, wi, hi, 1, xi, yi, ri, dy as nat)
                            + row_csum(g, wi, hi, 1, yi - ri + dy, xi, ri, (2 * ri + 1) as nat));
                    assert(box_csum(g, wi, hi, 2, xi, yi, ri, (dy + 1) as nat)
                        == box_csum(g, wi, hi, 2, xi, yi, ri, dy as nat)
                            + row_csum(g, wi, hi, 2, yi - ri + dy, xi, ri, (2 * ri + 1) as nat));
                }
                dy = dy + 1;
            }
            proof {
                assert(area >= 1) by (nonlinear_arith)
                    requires area == (count as int) * (count as int), count as int >= 1;
            }
            let qr: u128 = rt / area;
            let qg: u128 = gt / area;
            let qb: u128 = bt / area;
            proof {
                lemma_div_is_ordered(rt as int, 0xff * (area as int), area as int);
                lemma_div_is_ordered(gt as int, 0xff * (area as int), area as int);
                lemma_div_is_ordered(bt as int, 0xff * (area as int), area as int);
                lemma_div_multiples_vanish(0xff, area as int);
            }
            let alpha_px = src.read_pixel(i, j);
            let npx = Pixel { r: qr as u8, g: qg as u8, b: qb as u8, alpha: alpha_px.alpha };
            let ghost p = j * w + i;
            proof {
                lemma_position_of_coords(wi, hi, xi, yi);
                assert(npx == blurred_pixel(g, wi, hi, ri, xi, yi));
                assert(target[p as int] == blurred_pixel(g, wi, hi, ri, xi, yi));
                crate::transform::lemma_grid_extend(out@, p as int, npx);
            }
            crate::transform::push_pixel(&mut out, npx);
            i = i + 1;
        }
        j = j + 1;
        proof {
            assert((j - 1) * (w as int) + (w as int) == j * (w as int)) by (nonlinear_arith);
        }
    }
    proof {
        assert((h * w) as int == (w as int) * (h as int)) by (nonlinear_arith);
        assert(4 * (w as int) * (h as int) == 4 * ((w as int) * (h as int)))
            by (nonlinear_arith);
    }
    let r = crate::owned::OwnedImage::from_raw(crate::types::Dimensions { width: w, height: h }, out);
    proof {
        assert(r.grid() =~= target);
    }
    r
}

/// Replaces an image with one box-blur pass of the given radius over it.
/// The pass reads only the pre-pass buffer: the output is materialized
/// separately before it replaces the image.
pub fn box_blur(image: &mut OwnedImage, radius: u64)
    requires
        old(image).wf(),
        radius <= 0x100000000,
    ensures
        final(image).wf(),
        final(image).width() == old(image).width(),
        final(image).height() == old(image).height(),
        final(image).grid() == blur_pass(
            old(image).grid(), old(image).width(), old(image).height(), radius as int),
{
    let out = box_blur_pass(image, radius);
    *image = out;
}

} // verus!
