//! The viewport: the visible rectangle of the complex plane, its pixel
//! resolution, and the point-anchored zoom.
//!
//! The linear pixel-to-plane mapping is `plane_x(x) = x_start + (x * extent)
//! / width` on raw fixed-point values. `zoom` rebuilds the bounds from the
//! plane point under the focal pixel, so that point stays under the same
//! pixel exactly, and the new extents are exactly the old ones divided by
//! the zoom factor (truncating fixed-point division).

use vstd::prelude::*;
use crate::fixed::{scaled_frac, div_fp, SCALE, COORD_LIMIT, SPAN_LIMIT};

verus! {

/// Largest raw scale factor (pixels per plane unit) a viewport may carry (2^52).
pub const PPU_LIMIT: i64 = 4503599627370496;

/// Largest screen dimension, in pixels (2^20).
pub const DIM_LIMIT: u32 = 1048576;

/// The visible plane rectangle, the scale it was built with, and the pixel
/// resolution derived at construction.
#[derive(Clone, Copy, PartialEq, Eq, Structural, Debug)]
pub struct ScreenInfo {
    pub x_start: i64,
    pub x_stop: i64,
    pub y_start: i64,
    pub y_stop: i64,
    pub pixels_per_cm: i64,
    pub screen_width: u32,
    pub screen_height: u32,
}

/// Rounded-to-nearest pixel count covered by extent `e` at scale `ppu`
/// (both raw fixed-point, so the product carries two scale factors).
pub open spec fn derived_dim(ppu: int, e: int) -> int {
    (ppu * e + 0x8000000000000000) / 0x10000000000000000
}

/// Inputs from which a viewport may be built: ordered bounds within the
/// coordinate limits and a positive scale.
pub open spec fn valid_bounds(
    x_start: int,
    x_stop: int,
    y_start: int,
    y_stop: int,
    ppu: int,
) -> bool {
    &&& -COORD_LIMIT <= x_start < x_stop <= COORD_LIMIT
    &&& -COORD_LIMIT <= y_start < y_stop <= COORD_LIMIT
    &&& 1 <= ppu <= PPU_LIMIT
}

/// Maps a pixel offset `x` out of `d` onto the extent `e`; exactly the
/// spec value `scaled_frac(x, d, e)`.
pub(crate) fn frac_offset(x: u32, d: u32, e: i64) -> (r: i64)
    requires
        1 <= d,
        x < 2 * d,
        1 <= e <= SPAN_LIMIT,
    ensures
        r == scaled_frac(x as int, d as int, e as int),
        0 <= r < 2 * e,
        x < d ==> 0 <= r <= e,
{
    proof {
        assert(0 <= (x as int) * (e as int) <= 0x4000000000000000000000) by (nonlinear_arith)
            requires
                0 <= x < 0x200000000,
                1 <= e <= 0x8000000000,
        ;
        assert((x as int) * (e as int) < (d as int) * (2 * (e as int))) by (nonlinear_arith)
            requires
                x < 2 * d,
                1 <= d,
                1 <= e,
        ;
        if x < d {
            assert((x as int) * (e as int) <= (d as int) * (e as int)) by (nonlinear_arith)
                requires
                    x < d,
                    1 <= e,
            ;
            vstd::arithmetic::div_mod::lemma_multiply_divide_le(
                (x as int) * (e as int),
                d as int,
                e as int,
            );
        }
        vstd::arithmetic::div_mod::lemma_multiply_divide_lt(
            (x as int) * (e as int),
            d as int,
            2 * (e as int),
        );
        vstd::arithmetic::div_mod::lemma_div_pos_is_pos((x as int) * (e as int), d as int);
    }
    let p: u128 = (x as u128) * (e as u128);
    let q: u128 = p / (d as u128);
    q as i64
}

/// Rounded pixel count for one axis.
fn round_dim(ppu: i64, e: i64) -> (r: u32)
    requires
        1 <= ppu <= PPU_LIMIT,
        1 <= e <= SPAN_LIMIT,
    ensures
        r == derived_dim(ppu as int, e as int),
{
    proof {
        assert((ppu as int) * (e as int) <= 0x80000000000000000000000) by (nonlinear_arith)
            requires
                1 <= ppu <= PPU_LIMIT,
                1 <= e <= SPAN_LIMIT,
        ;
        assert((ppu as int) * (e as int) >= 0) by (nonlinear_arith)
            requires
                1 <= ppu,
                1 <= e,
        ;
        vstd::arithmetic::div_mod::lemma_div_pos_is_pos(
            (ppu as int) * (e as int) + 0x8000000000000000,
            0x10000000000000000,
        );
        assert(0x10000000000000000int * 0x10000000 == 0x100000000000000000000000)
            by (nonlinear_arith);
        vstd::arithmetic::div_mod::lemma_multiply_divide_le(
            (ppu as int) * (e as int) + 0x8000000000000000,
            0x10000000000000000,
            0x10000000,
        );
    }
    let p: u128 = (ppu as u128) * (e as u128);
    let q: u128 = (p + 0x8000000000000000) / 0x10000000000000000;
    q as u32
}

impl ScreenInfo {
    /// The viewport's structural invariant.
    pub open spec fn wf(self) -> bool {
        &&& -COORD_LIMIT <= self.x_start < self.x_stop <= COORD_LIMIT
        &&& -COORD_LIMIT <= self.y_start < self.y_stop <= COORD_LIMIT
        &&& 1 <= self.pixels_per_cm <= PPU_LIMIT
        &&& 1 <= self.screen_width <= DIM_LIMIT
        &&& 1 <= self.screen_height <= DIM_LIMIT
    }

    /// Horizontal plane extent, raw.
    pub open spec fn ext_x(self) -> int {
        self.x_stop - self.x_start
    }

    /// Vertical plane extent, raw.
    pub open spec fn ext_y(self) -> int {
        self.y_stop - self.y_start
    }

    /// Plane coordinate under pixel column `x`.
    pub open spec fn plane_x(self, x: int) -> int {
        self.x_start + scaled_frac(x, self.screen_width as int, self.ext_x())
    }

    /// Plane coordinate under pixel row `y`.
    pub open spec fn plane_y(self, y: int) -> int {
        self.y_start + scaled_frac(y, self.screen_height as int, self.ext_y())
    }

    /// Builds a viewport from plane bounds and a scale, deriving the pixel
    /// resolution by rounding `scale * extent`. Returns `None` exactly when
    /// the bounds are unordered or out of range, or when the derived
    /// resolution of either axis would leave `[1, DIM_LIMIT]`.
    pub fn new(x_start: i64, x_stop: i64, y_start: i64, y_stop: i64, pixels_per_cm: i64) -> (r:
        Option<ScreenInfo>)
        ensures
            r is Some <==> {
                &&& valid_bounds(
                    x_start as int,
                    x_stop as int,
                    y_start as int,
                    y_stop as int,
                    pixels_per_cm as int,
                )
                &&& 1 <= derived_dim(pixels_per_cm as int, x_stop - x_start) <= DIM_LIMIT
                &&& 1 <= derived_dim(pixels_per_cm as int, y_stop - y_start) <= DIM_LIMIT
            },
            r is Some ==> {
                &&& r->Some_0.x_start == x_start
                &&& r->Some_0.x_stop == x_stop
                &&& r->Some_0.y_start == y_start
                &&& r->Some_0.y_stop == y_stop
                &&& r->Some_0.pixels_per_cm == pixels_per_cm
                &&& r->Some_0.screen_width == derived_dim(pixels_per_cm as int, x_stop - x_start)
                &&& r->Some_0.screen_height == derived_dim(pixels_per_cm as int, y_stop - y_start)
                &&& r->Some_0.wf()
            },
    {
        if !(-COORD_LIMIT <= x_start && x_start < x_stop && x_stop <= COORD_LIMIT) {
            return None;
        }
        if !(-COORD_LIMIT <= y_start && y_start < y_stop && y_stop <= COORD_LIMIT) {
            return None;
        }
        if !(1 <= pixels_per_cm && pixels_per_cm <= PPU_LIMIT) {
            return None;
        }
        let screen_width = round_dim(pixels_per_cm, x_stop - x_start);
        let screen_height = round_dim(pixels_per_cm, y_stop - y_start);
        if screen_width < 1 || screen_width > DIM_LIMIT {
            return None;
        }
        if screen_height < 1 || screen_height > DIM_LIMIT {
            return None;
        }
        Some(ScreenInfo { x_start, x_stop, y_start, y_stop, pixels_per_cm, screen_width, screen_height })
    }

    /// Re-derives the resolution from the current bounds and scale.
    pub fn derive_resolution(&self) -> (r: (u32, u32))
        requires
            self.wf(),
        ensures
            r.0 == derived_dim(self.pixels_per_cm as int, self.ext_x()),
            r.1 == derived_dim(self.pixels_per_cm as int, self.ext_y()),
    {
        (
            round_dim(self.pixels_per_cm, self.x_stop - self.x_start),
            round_dim(self.pixels_per_cm, self.y_stop - self.y_start),
        )
    }

    /// When a zoom by `factor` about `(mx, my)` keeps all coordinates within
    /// the machine limits of the representation.
    pub open spec fn can_zoom(self, factor: int, mx: int, my: int) -> bool {
        &&& 1 <= factor
        &&& 0 <= mx < self.screen_width
        &&& 0 <= my < self.screen_height
        &&& 1 <= div_fp(self.ext_x(), factor)
        &&& 1 <= div_fp(self.ext_y(), factor)
        &&& -COORD_LIMIT <= self.plane_x(mx) - div_fp(self.ext_x(), factor)
        &&& self.plane_x(mx) + div_fp(self.ext_x(), factor) <= COORD_LIMIT
        &&& -COORD_LIMIT <= self.plane_y(my) - div_fp(self.ext_y(), factor)
        &&& self.plane_y(my) + div_fp(self.ext_y(), factor) <= COORD_LIMIT
    }

    /// Zooms about the plane point under screen pixel `(mouse_x, mouse_y)`:
    /// the new extents are the old ones divided by `how_many_times` (a raw
    /// fixed-point factor; above one unit zooms in, below one zooms out),
    /// and the plane point under the focal pixel is exactly unchanged. The
    /// screen resolution is left untouched.
    pub fn zoom(&mut self, how_many_times: i64, mouse_x: u32, mouse_y: u32)
        requires
            old(self).wf(),
            old(self).can_zoom(how_many_times as int, mouse_x as int, mouse_y as int),
        ensures
            final(self).wf(),
            final(self).screen_width == old(self).screen_width,
            final(self).screen_height == old(self).screen_height,
            final(self).pixels_per_cm == old(self).pixels_per_cm,
            final(self).ext_x() == div_fp(old(self).ext_x(), how_many_times as int),
            final(self).ext_y() == div_fp(old(self).ext_y(), how_many_times as int),
            final(self).plane_x(mouse_x as int) == old(self).plane_x(mouse_x as int),
            final(self).plane_y(mouse_y as int) == old(self).plane_y(mouse_y as int),
    {
        let view_width = self.x_stop - self.x_start;
        let view_height = self.y_stop - self.y_start;

        let mouse_world_x = self.x_start + frac_offset(mouse_x, self.screen_width, view_width);
        let mouse_world_y = self.y_start + frac_offset(mouse_y, self.screen_height, view_height);

        let new_width = crate::fixed::fp_div_pos(view_width, how_many_times);
        let new_height = crate::fixed::fp_div_pos(view_height, how_many_times);

        let off_x = frac_offset(mouse_x, self.screen_width, new_width);
        let off_y = frac_offset(mouse_y, self.screen_height, new_height);

        self.x_start = mouse_world_x - off_x;
        self.x_stop = mouse_world_x - off_x + new_width;
        self.y_start = mouse_world_y - off_y;
        self.y_stop = mouse_world_y - off_y + new_height;
    }

    /// Checks the zoom preconditions at run time and zooms only when they
    /// hold; reports whether it did. A rejected zoom leaves the viewport
    /// unchanged.
    pub fn try_zoom(&mut self, how_many_times: i64, mouse_x: u32, mouse_y: u32) -> (zoomed: bool)
        requires
            old(self).wf(),
        ensures
            zoomed == old(self).can_zoom(how_many_times as int, mouse_x as int, mouse_y as int),
            !zoomed ==> *final(self) == *old(self),
            zoomed ==> final(self).wf(),
            zoomed ==> final(self).screen_width == old(self).screen_width,
            zoomed ==> final(self).screen_height == old(self).screen_height,
            zoomed ==> final(self).pixels_per_cm == old(self).pixels_per_cm,
            zoomed ==> final(self).ext_x() == div_fp(old(self).ext_x(), how_many_times as int),
            zoomed ==> final(self).ext_y() == div_fp(old(self).ext_y(), how_many_times as int),
            zoomed ==> final(self).plane_x(mouse_x as int) == old(self).plane_x(mouse_x as int),
            zoomed ==> final(self).plane_y(mouse_y as int) == old(self).plane_y(mouse_y as int),
    {
        if !(how_many_times >= 1 && mouse_x < self.screen_width && mouse_y < self.screen_height) {
            return false;
        }
        let view_width = self.x_stop - self.x_start;
        let view_height = self.y_stop - self.y_start;
        let wx = self.x_start + frac_offset(mouse_x, self.screen_width, view_width);
        let wy = self.y_start + frac_offset(mouse_y, self.screen_height, view_height);

        let px: u128 = (view_width as u128) * 4294967296u128;
        let qx: u128 = px / (how_many_times as u128);
        let py: u128 = (view_height as u128) * 4294967296u128;
        let qy: u128 = py / (how_many_times as u128);
        if qx > (SPAN_LIMIT as u128) || qy > (SPAN_LIMIT as u128) {
            // The divided extent still exceeds a whole span, so adding it to a
            // plane coordinate would certainly leave the coordinate range.
            return false;
        }
        let nw = qx as i64;
        let nh = qy as i64;
        if nw < 1 || nh < 1 {
            return false;
        }
        if !(-COORD_LIMIT <= wx - nw && wx + nw <= COORD_LIMIT) {
            return false;
        }
        if !(-COORD_LIMIT <= wy - nh && wy + nh <= COORD_LIMIT) {
            return false;
        }
        self.zoom(how_many_times, mouse_x, mouse_y);
        true
    }

    /// Executable form of `plane_x`.
    pub fn plane_x_at(&self, x: u32) -> (r: i64)
        requires
            self.wf(),
            x < 2 * self.screen_width,
        ensures
            r == self.plane_x(x as int),
            -COORD_LIMIT <= r && r < COORD_LIMIT + 2 * SPAN_LIMIT,
    {
        self.x_start + frac_offset(x, self.screen_width, self.x_stop - self.x_start)
    }

    /// Executable form of `plane_y`.
    pub fn plane_y_at(&self, y: u32) -> (r: i64)
        requires
            self.wf(),
            y < 2 * self.screen_height,
        ensures
            r == self.plane_y(y as int),
            -COORD_LIMIT <= r && r < COORD_LIMIT + 2 * SPAN_LIMIT,
    {
        self.y_start + frac_offset(y, self.screen_height, self.y_stop - self.y_start)
    }
}

} // verus!
