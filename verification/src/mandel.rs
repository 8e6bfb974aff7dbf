//! The escape-time evaluator: partitions the pixel rows into bands of
//! `ceil(height / workers)` rows, samples every `accuracy`-th row and column
//! of each band, classifies each sample point, and concatenates the bands'
//! results into one frame.
//!
//! `frame_ok` pins the whole result down: its length and the exact pixel at
//! every index, as a function of the viewport and the configuration alone.

use vstd::prelude::*;
use crate::complex::{Complex, C_LIMIT};
use crate::escape::{Pixel, escape_count, belongs_to_set, lemma_escape_count_range};
use crate::viewport::{ScreenInfo, DIM_LIMIT};
use crate::fixed::COORD_LIMIT;
use vstd::arithmetic::div_mod::{
    lemma_fundamental_div_mod,
    lemma_fundamental_div_mod_converse,
    lemma_mod_division_less_than_divisor,
    lemma_div_pos_is_pos,
    lemma_multiply_divide_lt,
};
use vstd::arithmetic::mul::{lemma_mul_inequality, lemma_mul_is_commutative};

verus! {

/// Largest worker count a configuration may ask for.
pub const WORKER_LIMIT: u32 = 1024;

/// Largest number of samples one evaluation may produce (2^30).
pub const FRAME_LIMIT: u64 = 1073741824;

/// The evaluator's tunables: how many workers partition the frame, the
/// sampling stride in pixels, and the iteration cap of the recurrence.
#[derive(Clone, Copy, PartialEq, Eq, Structural, Debug)]
pub struct EvalConfig {
    pub max_threads: u32,
    pub accuracy: u32,
    pub iters: u32,
}

impl EvalConfig {
    pub open spec fn wf(self) -> bool {
        &&& 1 <= self.max_threads <= WORKER_LIMIT
        &&& 1 <= self.accuracy <= DIM_LIMIT
    }
}

/// Ceiling division for nonnegative `a` and positive `b`.
pub open spec fn ceil_div(a: int, b: int) -> int {
    (a + b - 1) / b
}

/// Rows of one worker band.
pub open spec fn rows_per_band(screen: ScreenInfo, cfg: EvalConfig) -> int {
    ceil_div(screen.screen_height as int, cfg.max_threads as int)
}

/// Sampled rows of one band.
pub open spec fn band_rows(screen: ScreenInfo, cfg: EvalConfig) -> int {
    ceil_div(rows_per_band(screen, cfg), cfg.accuracy as int)
}

/// Sampled columns of one band (the full frame width).
pub open spec fn band_cols(screen: ScreenInfo, cfg: EvalConfig) -> int {
    ceil_div(screen.screen_width as int, cfg.accuracy as int)
}

/// Samples of one band.
pub open spec fn band_len(screen: ScreenInfo, cfg: EvalConfig) -> int {
    band_rows(screen, cfg) * band_cols(screen, cfg)
}

/// Column sampled at column index `cx`.
pub open spec fn sample_x(cfg: EvalConfig, cx: int) -> int {
    cx * cfg.accuracy
}

/// Row sampled at row index `r` of band `b`.
pub open spec fn sample_y(screen: ScreenInfo, cfg: EvalConfig, b: int, r: int) -> int {
    b * rows_per_band(screen, cfg) + r * cfg.accuracy
}

/// The pixel that the evaluation owes at band `b`, row index `r`, column
/// index `cx`: the sampled screen position and the escape count of the
/// plane point under it.
pub open spec fn pix_at(screen: ScreenInfo, cfg: EvalConfig, b: int, r: int, cx: int) -> Pixel {
    Pixel {
        x: sample_x(cfg, cx) as u32,
        y: sample_y(screen, cfg, b, r) as u32,
        escapes: escape_count(
            screen.plane_x(sample_x(cfg, cx)),
            screen.plane_y(sample_y(screen, cfg, b, r)),
            cfg.iters as nat,
        ) as u32,
    }
}

/// When an evaluation is possible: a well-formed viewport and configuration,
/// no more workers than pixel rows, and a frame that fits in memory.
pub open spec fn eval_pre(screen: ScreenInfo, cfg: EvalConfig) -> bool {
    &&& screen.wf()
    &&& cfg.wf()
    &&& cfg.max_threads <= screen.screen_height
    &&& cfg.max_threads * band_len(screen, cfg) <= FRAME_LIMIT
}

/// The result one band owes: one pixel per sampled (row, column) pair of
/// the band, in row-major order.
pub open spec fn band_ok(screen: ScreenInfo, cfg: EvalConfig, b: int, s: Seq<Pixel>) -> bool {
    &&& s.len() == band_len(screen, cfg)
    &&& forall|r: int, cx: int|
        0 <= r < band_rows(screen, cfg) && 0 <= cx < band_cols(screen, cfg) ==> s[r * band_cols(
            screen,
            cfg,
        ) + cx] == #[trigger] pix_at(screen, cfg, b, r, cx)
}

/// The result a whole evaluation owes: every band's pixels in band order.
pub open spec fn frame_ok(screen: ScreenInfo, cfg: EvalConfig, s: Seq<Pixel>) -> bool {
    &&& s.len() == cfg.max_threads * band_len(screen, cfg)
    &&& forall|b: int, r: int, cx: int|
        0 <= b < cfg.max_threads && 0 <= r < band_rows(screen, cfg) && 0 <= cx < band_cols(
            screen,
            cfg,
        ) ==> s[(b * band_rows(screen, cfg) + r) * band_cols(screen, cfg) + cx] == #[trigger] pix_at(
            screen,
            cfg,
            b,
            r,
            cx,
        )
}

/// `b * ceil_div(a, b)` covers `a` but overshoots by less than `b`.
pub proof fn lemma_ceil_div_bounds(a: int, b: int)
    requires
        0 <= a,
        1 <= b,
    ensures
        a <= b * ceil_div(a, b) <= a + b - 1,
        0 <= ceil_div(a, b),
        1 <= a ==> 1 <= ceil_div(a, b),
{
    lemma_fundamental_div_mod(a + b - 1, b);
    lemma_mod_division_less_than_divisor(a + b - 1, b);
    lemma_div_pos_is_pos(a + b - 1, b);
    if a >= 1 && ceil_div(a, b) < 1 {
        assert(b * ceil_div(a, b) <= 0) by (nonlinear_arith)
            requires
                1 <= b,
                ceil_div(a, b) <= 0,
        ;
    }
}

/// A row-major index lies below the rectangle's size.
proof fn lemma_row_major_lt(r: int, cx: int, nr: int, nc: int)
    by (nonlinear_arith)
    requires
        0 <= r < nr,
        0 <= cx < nc,
    ensures
        0 <= r * nc + cx < nr * nc,
        r * nc + cx < (r + 1) * nc <= nr * nc,
{
}

/// Row-major composition of (band, row, column) lands inside the frame, at
/// the band's offset.
proof fn lemma_grid_index_range(b: int, r: int, cx: int, nb: int, nr: int, nc: int)
    by (nonlinear_arith)
    requires
        0 <= b < nb,
        0 <= r < nr,
        0 <= cx < nc,
    ensures
        0 <= (b * nr + r) * nc + cx,
        (b * nr + r) * nc + cx < nb * (nr * nc),
        (b * nr + r) * nc + cx == b * (nr * nc) + (r * nc + cx),
{
}

/// Every frame index splits uniquely into (band, row, column).
proof fn lemma_grid_index_decompose(k: int, nb: int, nr: int, nc: int) -> (t: (int, int, int))
    requires
        1 <= nb,
        1 <= nr,
        1 <= nc,
        0 <= k < nb * (nr * nc),
    ensures
        0 <= t.0 < nb,
        0 <= t.1 < nr,
        0 <= t.2 < nc,
        k == (t.0 * nr + t.1) * nc + t.2,
{
    let cx = k % nc;
    let q = k / nc;
    let b = q / nr;
    let r = q % nr;
    lemma_fundamental_div_mod(k, nc);
    lemma_mod_division_less_than_divisor(k, nc);
    lemma_fundamental_div_mod(q, nr);
    lemma_mod_division_less_than_divisor(q, nr);
    lemma_div_pos_is_pos(k, nc);
    lemma_div_pos_is_pos(q, nr);
    assert(k < nc * (nb * nr)) by (nonlinear_arith)
        requires
            k < nb * (nr * nc),
    ;
    lemma_multiply_divide_lt(k, nc, nb * nr);
    assert(q < nr * nb) by (nonlinear_arith)
        requires
            q < nb * nr,
    ;
    lemma_multiply_divide_lt(q, nr, nb);
    assert(k == (b * nr + r) * nc + cx) by (nonlinear_arith)
        requires
            k == nc * q + cx,
            q == nr * b + r,
    ;
    (b, r, cx)
}

/// Evaluates one worker band: samples every `accuracy`-th row of the band
/// and every `accuracy`-th column of the frame, and classifies each point.
#[verifier::loop_isolation(false)]
pub fn mandelbrod_band(screen: &ScreenInfo, cfg: &EvalConfig, band: u32) -> (data: Vec<Pixel>)
    requires
        eval_pre(*screen, *cfg),
        band < cfg.max_threads,
    ensures
        band_ok(*screen, *cfg, band as int, data@),
{
    let h = screen.screen_height;
    let w = screen.screen_width;
    let workers = cfg.max_threads;
    let acc = cfg.accuracy;
    let rpt: u32 = (h + workers - 1) / workers;
    let n_rows: u32 = (rpt + acc - 1) / acc;
    let n_cols: u32 = (w + acc - 1) / acc;
    proof {
        lemma_ceil_div_bounds(h as int, workers as int);
        lemma_ceil_div_bounds(rpt as int, acc as int);
        lemma_ceil_div_bounds(w as int, acc as int);
        assert(rpt as int == rows_per_band(*screen, *cfg));
        assert(n_rows as int == band_rows(*screen, *cfg));
        assert(n_cols as int == band_cols(*screen, *cfg));
    }
    let mut data: Vec<Pixel> = Vec::new();
    let mut r: u32 = 0;
    while r < n_rows
        invariant
            0 <= r <= n_rows,
            data@.len() == r * n_cols,
            forall|r2: int, cx2: int|
                0 <= r2 < r && 0 <= cx2 < n_cols ==> data@[r2 * n_cols + cx2] == #[trigger] pix_at(
                    *screen,
                    *cfg,
                    band as int,
                    r2,
                    cx2,
                ),
        decreases n_rows - r,
    {
        proof {
            lemma_mul_inequality(r as int, n_rows as int - 1, acc as int);
            lemma_mul_inequality(band as int, workers as int - 1, rpt as int);
            assert((n_rows - 1) * (acc as int) == (n_rows as int) * (acc as int) - acc)
                by (nonlinear_arith);
            assert((workers - 1) * (rpt as int) == (workers as int) * (rpt as int) - rpt)
                by (nonlinear_arith);
            lemma_mul_is_commutative(n_rows as int, acc as int);
            lemma_mul_is_commutative(workers as int, rpt as int);
        }
        let y: u32 = band * rpt + r * acc;
        let c_im = screen.plane_y_at(y);
        let ghost row_len: int = data@.len() as int;
        let mut cx: u32 = 0;
        while cx < n_cols
            invariant
                0 <= cx <= n_cols,
                data@.len() == r * n_cols + cx,
                y as int == sample_y(*screen, *cfg, band as int, r as int),
                y < 2 * h,
                c_im == screen.plane_y(y as int),
                -C_LIMIT <= c_im <= C_LIMIT,
                forall|r2: int, cx2: int|
                    0 <= r2 < r && 0 <= cx2 < n_cols ==> data@[r2 * n_cols + cx2]
                        == #[trigger] pix_at(*screen, *cfg, band as int, r2, cx2),
                forall|cx2: int|
                    0 <= cx2 < cx ==> data@[r * n_cols + cx2] == #[trigger] pix_at(
                        *screen,
                        *cfg,
                        band as int,
                        r as int,
                        cx2,
                    ),
            decreases n_cols - cx,
        {
            proof {
                lemma_mul_inequality(cx as int, n_cols as int - 1, acc as int);
                assert((n_cols - 1) * (acc as int) == (n_cols as int) * (acc as int) - acc)
                    by (nonlinear_arith);
                lemma_mul_is_commutative(n_cols as int, acc as int);
            }
            let x: u32 = cx * acc;
            let c_re = screen.plane_x_at(x);
            let mut p = Pixel { x, y, escapes: 0 };
            belongs_to_set(Complex { real: c_re, imag: c_im }, &mut p, cfg.iters);
            proof {
                lemma_escape_count_range(c_re as int, c_im as int, cfg.iters as nat);
                assert(p == pix_at(*screen, *cfg, band as int, r as int, cx as int));
            }
            data.push(p);
            proof {
                assert forall|r2: int, cx2: int|
                    0 <= r2 < r && 0 <= cx2 < n_cols implies data@[r2 * n_cols + cx2]
                    == #[trigger] pix_at(*screen, *cfg, band as int, r2, cx2) by {
                    lemma_row_major_lt(r2, cx2, r as int, n_cols as int);
                }
            }
            cx = cx + 1;
        }
        proof {
            assert((r as int) * (n_cols as int) + n_cols == (r as int + 1) * (n_cols as int))
                by (nonlinear_arith);
            assert forall|r2: int, cx2: int|
                0 <= r2 < r + 1 && 0 <= cx2 < n_cols implies data@[r2 * n_cols + cx2]
                == #[trigger] pix_at(*screen, *cfg, band as int, r2, cx2) by {
                lemma_row_major_lt(r2, cx2, r as int + 1, n_cols as int);
            }
        }
        r = r + 1;
    }
    data
}

/// Evaluates the whole frame: every band in band order. The result is the
/// unique sequence that `frame_ok` describes.
#[verifier::loop_isolation(false)]
pub fn mandelbrod(screen: &ScreenInfo, cfg: &EvalConfig) -> (canvas: Vec<Pixel>)
    requires
        eval_pre(*screen, *cfg),
    ensures
        frame_ok(*screen, *cfg, canvas@),
{
    let mut canvas: Vec<Pixel> = Vec::new();
    let mut band: u32 = 0;
    while band < cfg.max_threads
        invariant
            0 <= band <= cfg.max_threads,
            canvas@.len() == band * band_len(*screen, *cfg),
            forall|b: int, r: int, cx: int|
                0 <= b < band && 0 <= r < band_rows(*screen, *cfg) && 0 <= cx < band_cols(
                    *screen,
                    *cfg,
                ) ==> canvas@[(b * band_rows(*screen, *cfg) + r) * band_cols(*screen, *cfg) + cx]
                    == #[trigger] pix_at(*screen, *cfg, b, r, cx),
        decreases cfg.max_threads - band,
    {
        let ghost nr = band_rows(*screen, *cfg);
        let ghost nc = band_cols(*screen, *cfg);
        let ghost prev = canvas@;
        let mut part = mandelbrod_band(screen, cfg, band);
        canvas.append(&mut part);
        proof {
            lemma_ceil_div_bounds(screen.screen_height as int, cfg.max_threads as int);
            lemma_ceil_div_bounds(rows_per_band(*screen, *cfg), cfg.accuracy as int);
            lemma_ceil_div_bounds(screen.screen_width as int, cfg.accuracy as int);
            assert forall|b: int, r: int, cx: int|
                0 <= b < band + 1 && 0 <= r < nr && 0 <= cx < nc implies canvas@[(b * nr + r) * nc
                + cx] == pix_at(*screen, *cfg, b, r, cx) by {
                lemma_grid_index_range(b, r, cx, band as int + 1, nr, nc);
                if b < band {
                    lemma_grid_index_range(b, r, cx, band as int, nr, nc);
                } else {
                    assert((b * nr + r) * nc + cx == band * (nr * nc) + (r * nc + cx));
                    lemma_grid_index_range(0, r, cx, 1, nr, nc);
                }
            }
            assert((band as int) * band_len(*screen, *cfg) + band_len(*screen, *cfg) == (band as int
                + 1) * band_len(*screen, *cfg)) by (nonlinear_arith);
        }
        band = band + 1;
    }
    canvas
}

/// Facts shared by the frame lemmas: the grid dimensions are positive and
/// the sampled coordinates stay inside the frame (columns) and the band
/// (row offsets).
proof fn lemma_grid_dims(screen: ScreenInfo, cfg: EvalConfig)
    requires
        eval_pre(screen, cfg),
    ensures
        1 <= rows_per_band(screen, cfg),
        1 <= band_rows(screen, cfg),
        1 <= band_cols(screen, cfg),
        cfg.max_threads * rows_per_band(screen, cfg) <= screen.screen_height + cfg.max_threads - 1,
        screen.screen_height <= cfg.max_threads * rows_per_band(screen, cfg),
        (band_rows(screen, cfg) - 1) * cfg.accuracy < rows_per_band(screen, cfg),
        (band_cols(screen, cfg) - 1) * cfg.accuracy < screen.screen_width,
{
    lemma_ceil_div_bounds(screen.screen_height as int, cfg.max_threads as int);
    lemma_ceil_div_bounds(rows_per_band(screen, cfg), cfg.accuracy as int);
    lemma_ceil_div_bounds(screen.screen_width as int, cfg.accuracy as int);
    assert((band_rows(screen, cfg) - 1) * cfg.accuracy < rows_per_band(screen, cfg))
        by (nonlinear_arith)
        requires
            (cfg.accuracy as int) * band_rows(screen, cfg) <= rows_per_band(screen, cfg)
                + cfg.accuracy - 1,
    ;
    assert((band_cols(screen, cfg) - 1) * cfg.accuracy < screen.screen_width) by (nonlinear_arith)
        requires
            (cfg.accuracy as int) * band_cols(screen, cfg) <= screen.screen_width + cfg.accuracy
                - 1,
    ;
}

/// The sampled coordinates of `pix_at(b, r, cx)`, as plain integers in range.
proof fn lemma_pix_coords(screen: ScreenInfo, cfg: EvalConfig, b: int, r: int, cx: int)
    requires
        eval_pre(screen, cfg),
        0 <= b < cfg.max_threads,
        0 <= r < band_rows(screen, cfg),
        0 <= cx < band_cols(screen, cfg),
    ensures
        pix_at(screen, cfg, b, r, cx).x as int == sample_x(cfg, cx),
        pix_at(screen, cfg, b, r, cx).y as int == sample_y(screen, cfg, b, r),
        0 <= sample_x(cfg, cx) < screen.screen_width,
        b * rows_per_band(screen, cfg) <= sample_y(screen, cfg, b, r),
        sample_y(screen, cfg, b, r) < (b + 1) * rows_per_band(screen, cfg),
        0 <= r * cfg.accuracy < rows_per_band(screen, cfg),
        sample_y(screen, cfg, b, r) < 2 * screen.screen_height,
{
    lemma_grid_dims(screen, cfg);
    let rpt = rows_per_band(screen, cfg);
    let acc = cfg.accuracy as int;
    lemma_mul_inequality(cx, band_cols(screen, cfg) - 1, acc);
    lemma_mul_inequality(r, band_rows(screen, cfg) - 1, acc);
    assert(0 <= cx * acc && 0 <= r * acc) by (nonlinear_arith)
        requires
            0 <= cx,
            0 <= r,
            0 <= acc,
    ;
    assert(r * acc <= (band_rows(screen, cfg) - 1) * acc);
    assert(b * rpt + rpt == (b + 1) * rpt) by (nonlinear_arith);
    lemma_mul_inequality(b + 1, cfg.max_threads as int, rpt);
    assert(0 <= b * rpt) by (nonlinear_arith)
        requires
            0 <= b,
            0 <= rpt,
    ;
}

/// There is a pixel at screen position `(x, y)` somewhere in `s`.
pub open spec fn has_pixel_at(s: Seq<Pixel>, x: int, y: int) -> bool {
    exists|k: int| 0 <= k < s.len() && (#[trigger] s[k]).x as int == x && s[k].y as int == y
}

/// Every pixel of a frame result has an escape count of 0 (the in-set
/// sentinel) or one in `[1, iteration cap)`.
pub proof fn lemma_frame_escapes_range(screen: ScreenInfo, cfg: EvalConfig, s: Seq<Pixel>)
    requires
        eval_pre(screen, cfg),
        frame_ok(screen, cfg, s),
    ensures
        forall|k: int|
            0 <= k < s.len() ==> (#[trigger] s[k]).escapes == 0 || 1 <= s[k].escapes < cfg.iters,
{
    lemma_grid_dims(screen, cfg);
    let nb = cfg.max_threads as int;
    let nr = band_rows(screen, cfg);
    let nc = band_cols(screen, cfg);
    assert forall|k: int|
        0 <= k < s.len() implies (#[trigger] s[k]).escapes == 0 || 1 <= s[k].escapes
        < cfg.iters by {
        let t = lemma_grid_index_decompose(k, nb, nr, nc);
        assert(s[k] == pix_at(screen, cfg, t.0, t.1, t.2));
        lemma_escape_count_range(
            screen.plane_x(sample_x(cfg, t.2)),
            screen.plane_y(sample_y(screen, cfg, t.0, t.1)),
            cfg.iters as nat,
        );
    }
}

/// No two entries of a frame result carry the same screen position.
pub proof fn lemma_frame_positions_unique(screen: ScreenInfo, cfg: EvalConfig, s: Seq<Pixel>)
    requires
        eval_pre(screen, cfg),
        frame_ok(screen, cfg, s),
    ensures
        forall|k1: int, k2: int|
            0 <= k1 < s.len() && 0 <= k2 < s.len() && (#[trigger] s[k1]).x == (#[trigger] s[k2]).x
                && s[k1].y == s[k2].y ==> k1 == k2,
{
    lemma_grid_dims(screen, cfg);
    let nb = cfg.max_threads as int;
    let nr = band_rows(screen, cfg);
    let nc = band_cols(screen, cfg);
    let rpt = rows_per_band(screen, cfg);
    let acc = cfg.accuracy as int;
    assert forall|k1: int, k2: int|
        0 <= k1 < s.len() && 0 <= k2 < s.len() && (#[trigger] s[k1]).x == (#[trigger] s[k2]).x
        && s[k1].y == s[k2].y implies k1 == k2 by {
        let t1 = lemma_grid_index_decompose(k1, nb, nr, nc);
        let t2 = lemma_grid_index_decompose(k2, nb, nr, nc);
        assert(s[k1] == pix_at(screen, cfg, t1.0, t1.1, t1.2));
        assert(s[k2] == pix_at(screen, cfg, t2.0, t2.1, t2.2));
        lemma_pix_coords(screen, cfg, t1.0, t1.1, t1.2);
        lemma_pix_coords(screen, cfg, t2.0, t2.1, t2.2);
        assert(sample_x(cfg, t1.2) == sample_x(cfg, t2.2));
        vstd::arithmetic::mul::lemma_mul_is_commutative(t1.2, acc);
        vstd::arithmetic::mul::lemma_mul_is_commutative(t2.2, acc);
        vstd::arithmetic::mul::lemma_mul_equality_converse(acc, t1.2, t2.2);
        let y = sample_y(screen, cfg, t1.0, t1.1);
        lemma_fundamental_div_mod_converse(y, rpt, t1.0, t1.1 * acc);
        lemma_fundamental_div_mod_converse(y, rpt, t2.0, t2.1 * acc);
        vstd::arithmetic::mul::lemma_mul_is_commutative(t1.1, acc);
        vstd::arithmetic::mul::lemma_mul_is_commutative(t2.1, acc);
        vstd::arithmetic::mul::lemma_mul_equality_converse(acc, t1.1, t2.1);
    }
}

/// With stride 1, the frame holds a pixel for every screen position of the
/// full grid.
pub proof fn lemma_frame_covers_all(screen: ScreenInfo, cfg: EvalConfig, s: Seq<Pixel>)
    requires
        eval_pre(screen, cfg),
        frame_ok(screen, cfg, s),
        cfg.accuracy == 1,
    ensures
        forall|x: int, y: int|
            0 <= x < screen.screen_width && 0 <= y < screen.screen_height ==> #[trigger
            ] has_pixel_at(s, x, y),
{
    lemma_grid_dims(screen, cfg);
    let nb = cfg.max_threads as int;
    let nr = band_rows(screen, cfg);
    let nc = band_cols(screen, cfg);
    let rpt = rows_per_band(screen, cfg);
    assert(nr == rpt && nc == screen.screen_width);
    assert forall|x: int, y: int|
        0 <= x < screen.screen_width && 0 <= y < screen.screen_height implies has_pixel_at(
        s,
        x,
        y,
    ) by {
        let b = y / rpt;
        let r = y % rpt;
        lemma_fundamental_div_mod(y, rpt);
        lemma_mod_division_less_than_divisor(y, rpt);
        lemma_div_pos_is_pos(y, rpt);
        assert(y < rpt * nb) by (nonlinear_arith)
            requires
                y < nb * rpt,
        ;
        lemma_multiply_divide_lt(y, rpt, nb);
        let k = (b * nr + r) * nc + x;
        lemma_grid_index_range(b, r, x, nb, nr, nc);
        assert(s[k] == pix_at(screen, cfg, b, r, x));
        lemma_pix_coords(screen, cfg, b, r, x);
        vstd::arithmetic::mul::lemma_mul_is_commutative(b, rpt);
        assert(sample_x(cfg, x) == x);
        assert(sample_y(screen, cfg, b, r) == y);
        assert(0 <= k < s.len() && s[k].x as int == x && s[k].y as int == y);
    }
}

/// Determinism: any two sequences that meet the frame contract for the same
/// viewport and configuration are equal.
pub proof fn lemma_frame_deterministic(
    screen: ScreenInfo,
    cfg: EvalConfig,
    s1: Seq<Pixel>,
    s2: Seq<Pixel>,
)
    requires
        eval_pre(screen, cfg),
        frame_ok(screen, cfg, s1),
        frame_ok(screen, cfg, s2),
    ensures
        s1 == s2,
{
    lemma_grid_dims(screen, cfg);
    let nb = cfg.max_threads as int;
    let nr = band_rows(screen, cfg);
    let nc = band_cols(screen, cfg);
    assert forall|k: int| 0 <= k < s1.len() implies s1[k] == s2[k] by {
        let t = lemma_grid_index_decompose(k, nb, nr, nc);
        assert(s1[k] == pix_at(screen, cfg, t.0, t.1, t.2));
        assert(s2[k] == pix_at(screen, cfg, t.0, t.1, t.2));
    }
    assert(s1 =~= s2);
}

/// The pixel `p` lies on band `b`'s sample grid: its column is a multiple
/// of the stride and its row offset from the band's first row is too.
pub open spec fn on_band_grid(screen: ScreenInfo, cfg: EvalConfig, b: int, p: Pixel) -> bool {
    &&& 0 <= b < cfg.max_threads
    &&& (p.x as int) % (cfg.accuracy as int) == 0
    &&& b * rows_per_band(screen, cfg) <= (p.y as int)
    &&& (p.y as int) < (b + 1) * rows_per_band(screen, cfg)
    &&& (p.y as int - b * rows_per_band(screen, cfg)) % (cfg.accuracy as int) == 0
}

/// The pixel lies on some worker band's sample grid.
pub open spec fn on_some_band_grid(screen: ScreenInfo, cfg: EvalConfig, p: Pixel) -> bool {
    exists|b: int| #[trigger] on_band_grid(screen, cfg, b, p)
}

/// Stride property: the frame's length is exactly the worker count times
/// the sampled rows and columns per band, and every pixel lies on its
/// band's sample grid.
pub proof fn lemma_frame_stride(screen: ScreenInfo, cfg: EvalConfig, s: Seq<Pixel>)
    requires
        eval_pre(screen, cfg),
        frame_ok(screen, cfg, s),
    ensures
        s.len() == cfg.max_threads * (band_rows(screen, cfg) * band_cols(screen, cfg)),
        forall|k: int| 0 <= k < s.len() ==> #[trigger] on_some_band_grid(screen, cfg, s[k]),
{
    lemma_grid_dims(screen, cfg);
    let nb = cfg.max_threads as int;
    let nr = band_rows(screen, cfg);
    let nc = band_cols(screen, cfg);
    let rpt = rows_per_band(screen, cfg);
    let acc = cfg.accuracy as int;
    assert forall|k: int| 0 <= k < s.len() implies #[trigger] on_some_band_grid(
        screen,
        cfg,
        s[k],
    ) by {
        let t = lemma_grid_index_decompose(k, nb, nr, nc);
        assert(s[k] == pix_at(screen, cfg, t.0, t.1, t.2));
        lemma_pix_coords(screen, cfg, t.0, t.1, t.2);
        vstd::arithmetic::div_mod::lemma_mod_multiples_basic(t.2, acc);
        vstd::arithmetic::div_mod::lemma_mod_multiples_basic(t.1, acc);
        assert(on_band_grid(screen, cfg, t.0, s[k]));
    }
}

/// When the bands tile the frame exactly (the band height is a multiple of
/// the stride, and the bands add up to the screen height), the frame's
/// cardinality is exactly `ceil(height / stride) * ceil(width / stride)`.
pub proof fn lemma_frame_cardinality_aligned(screen: ScreenInfo, cfg: EvalConfig, s: Seq<Pixel>)
    requires
        eval_pre(screen, cfg),
        frame_ok(screen, cfg, s),
        rows_per_band(screen, cfg) % (cfg.accuracy as int) == 0,
        screen.screen_height == cfg.max_threads * rows_per_band(screen, cfg),
    ensures
        s.len() == ceil_div(screen.screen_height as int, cfg.accuracy as int) * ceil_div(
            screen.screen_width as int,
            cfg.accuracy as int,
        ),
{
    lemma_grid_dims(screen, cfg);
    let nb = cfg.max_threads as int;
    let rpt = rows_per_band(screen, cfg);
    let acc = cfg.accuracy as int;
    let h = screen.screen_height as int;
    let m = rpt / acc;
    lemma_fundamental_div_mod(rpt, acc);
    assert(rpt == m * acc) by (nonlinear_arith)
        requires
            rpt == acc * m,
    ;
    lemma_fundamental_div_mod_converse(rpt + acc - 1, acc, m, acc - 1);
    assert(band_rows(screen, cfg) == m);
    assert(h == (nb * m) * acc) by (nonlinear_arith)
        requires
            h == nb * rpt,
            rpt == m * acc,
    ;
    lemma_fundamental_div_mod_converse(h + acc - 1, acc, nb * m, acc - 1);
    assert(ceil_div(h, acc) == nb * m);
    assert(nb * (m * band_cols(screen, cfg)) == (nb * m) * band_cols(screen, cfg))
        by (nonlinear_arith);
}

/// Partition completeness: row `y` lies in band `y / rows_per_band`.
pub open spec fn row_in_band(screen: ScreenInfo, cfg: EvalConfig, b: int, y: int) -> bool {
    b * rows_per_band(screen, cfg) <= y < (b + 1) * rows_per_band(screen, cfg)
}

/// Row `y` lies in some worker's band.
pub open spec fn in_some_band(screen: ScreenInfo, cfg: EvalConfig, y: int) -> bool {
    exists|b: int| 0 <= b < cfg.max_threads && #[trigger] row_in_band(screen, cfg, b, y)
}

/// Partition completeness: the union of the worker bands, each of
/// `ceil(height / workers)` rows, covers every row of the frame.
pub proof fn lemma_bands_cover(screen: ScreenInfo, cfg: EvalConfig)
    requires
        eval_pre(screen, cfg),
    ensures
        forall|y: int|
            0 <= y < screen.screen_height ==> #[trigger] in_some_band(screen, cfg, y),
{
    lemma_grid_dims(screen, cfg);
    let nb = cfg.max_threads as int;
    let rpt = rows_per_band(screen, cfg);
    assert forall|y: int| 0 <= y < screen.screen_height implies in_some_band(screen, cfg, y) by {
        let b = y / rpt;
        lemma_fundamental_div_mod(y, rpt);
        lemma_mod_division_less_than_divisor(y, rpt);
        lemma_div_pos_is_pos(y, rpt);
        assert(y < rpt * nb) by (nonlinear_arith)
            requires
                y < nb * rpt,
        ;
        lemma_multiply_divide_lt(y, rpt, nb);
        vstd::arithmetic::mul::lemma_mul_is_commutative(b, rpt);
        assert(b * rpt + rpt == (b + 1) * rpt) by (nonlinear_arith);
        assert(row_in_band(screen, cfg, b, y));
    }
}

/// Checks `eval_pre` at run time, so a caller outside the proof can guard
/// its `mandelbrod` calls.
pub fn can_evaluate(screen: &ScreenInfo, cfg: &EvalConfig) -> (r: bool)
    ensures
        r == eval_pre(*screen, *cfg),
{
    if !(-COORD_LIMIT <= screen.x_start && screen.x_start < screen.x_stop && screen.x_stop
        <= COORD_LIMIT) {
        return false;
    }
    if !(-COORD_LIMIT <= screen.y_start && screen.y_start < screen.y_stop && screen.y_stop
        <= COORD_LIMIT) {
        return false;
    }
    if !(1 <= screen.pixels_per_cm && screen.pixels_per_cm <= crate::viewport::PPU_LIMIT) {
        return false;
    }
    if !(1 <= screen.screen_width && screen.screen_width <= DIM_LIMIT) {
        return false;
    }
    if !(1 <= screen.screen_height && screen.screen_height <= DIM_LIMIT) {
        return false;
    }
    if !(1 <= cfg.max_threads && cfg.max_threads <= WORKER_LIMIT) {
        return false;
    }
    if !(1 <= cfg.accuracy && cfg.accuracy <= DIM_LIMIT) {
        return false;
    }
    if !(cfg.max_threads <= screen.screen_height) {
        return false;
    }
    let rpt: u32 = (screen.screen_height + cfg.max_threads - 1) / cfg.max_threads;
    let n_rows: u32 = (rpt + cfg.accuracy - 1) / cfg.accuracy;
    let n_cols: u32 = (screen.screen_width + cfg.accuracy - 1) / cfg.accuracy;
    proof {
        lemma_ceil_div_bounds(screen.screen_height as int, cfg.max_threads as int);
        lemma_ceil_div_bounds(rpt as int, cfg.accuracy as int);
        lemma_ceil_div_bounds(screen.screen_width as int, cfg.accuracy as int);
        assert(rpt <= screen.screen_height) by (nonlinear_arith)
            requires
                (cfg.max_threads as int) * (rpt as int) <= screen.screen_height + cfg.max_threads
                    - 1,
                1 <= cfg.max_threads,
                1 <= screen.screen_height,
                0 <= rpt,
        ;
        assert(n_rows <= rpt) by (nonlinear_arith)
            requires
                (cfg.accuracy as int) * (n_rows as int) <= rpt + cfg.accuracy - 1,
                1 <= cfg.accuracy,
                1 <= rpt,
                0 <= n_rows,
        ;
        assert(n_cols <= screen.screen_width) by (nonlinear_arith)
            requires
                (cfg.accuracy as int) * (n_cols as int) <= screen.screen_width + cfg.accuracy - 1,
                1 <= cfg.accuracy,
                1 <= screen.screen_width,
                0 <= n_cols,
        ;
        assert(0 <= (n_rows as int) * (n_cols as int) <= 0x10000000000) by (nonlinear_arith)
            requires
                0 <= n_rows <= 0x100000,
                0 <= n_cols <= 0x100000,
        ;
        assert((cfg.max_threads as int) * ((n_rows as int) * (n_cols as int))
            <= 0x100000000000000) by (nonlinear_arith)
            requires
                0 <= n_rows <= 0x100000,
                0 <= n_cols <= 0x100000,
                0 <= cfg.max_threads <= 0x10000,
        ;
    }
    let total: u64 = (cfg.max_threads as u64) * ((n_rows as u64) * (n_cols as u64));
    total <= FRAME_LIMIT
}

} // verus!
