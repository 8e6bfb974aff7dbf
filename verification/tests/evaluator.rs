use mandelbrod::{belongs_to_set, can_evaluate, mandelbrod, mandelbrod_band, Complex, EvalConfig,
    Pixel, ScreenInfo, SCALE};

fn grid_viewport() -> ScreenInfo {
    // Bounds [-2, 2] x [-2, 2] at 2 pixels per unit: an 8 x 8 grid.
    ScreenInfo::new(-2 * SCALE, 2 * SCALE, -2 * SCALE, 2 * SCALE, 2 * SCALE).unwrap()
}

#[test]
fn origin_never_escapes() {
    let mut p = Pixel { x: 0, y: 0, escapes: 7 };
    belongs_to_set(Complex { real: 0, imag: 0 }, &mut p, 100);
    assert_eq!(p.escapes, 0);
    assert_eq!((p.x, p.y), (0, 0));
}

#[test]
fn minus_one_never_escapes() {
    let mut p = Pixel { x: 3, y: 4, escapes: 7 };
    belongs_to_set(Complex { real: -SCALE, imag: 0 }, &mut p, 100);
    assert_eq!(p.escapes, 0);
}

#[test]
fn two_plus_two_i_escapes_at_two() {
    let mut p = Pixel { x: 0, y: 0, escapes: 0 };
    belongs_to_set(Complex { real: 2 * SCALE, imag: 2 * SCALE }, &mut p, 100);
    assert_eq!(p.escapes, 2);
}

#[test]
fn escape_count_is_deterministic() {
    let c = Complex { real: -SCALE / 2, imag: SCALE / 3 };
    let mut p1 = Pixel { x: 0, y: 0, escapes: 0 };
    let mut p2 = Pixel { x: 0, y: 0, escapes: 0 };
    belongs_to_set(c, &mut p1, 1000);
    belongs_to_set(c, &mut p2, 1000);
    assert_eq!(p1.escapes, p2.escapes);
}

#[test]
fn full_grid_stride_one() {
    let screen = grid_viewport();
    assert_eq!(screen.screen_width, 8);
    assert_eq!(screen.screen_height, 8);
    let cfg = EvalConfig { max_threads: 2, accuracy: 1, iters: 100 };
    assert!(can_evaluate(&screen, &cfg));
    let frame = mandelbrod(&screen, &cfg);
    assert_eq!(frame.len(), 64);
    // Every grid position appears exactly once, with an escape count in
    // [0, 100).
    for x in 0..8u32 {
        for y in 0..8u32 {
            let n = frame.iter().filter(|p| p.x == x && p.y == y).count();
            assert_eq!(n, 1);
        }
    }
    for p in &frame {
        assert!(p.escapes < 100);
    }
}

#[test]
fn evaluate_is_deterministic() {
    let screen = grid_viewport();
    let cfg = EvalConfig { max_threads: 2, accuracy: 1, iters: 100 };
    let a = mandelbrod(&screen, &cfg);
    let b = mandelbrod(&screen, &cfg);
    assert_eq!(a.len(), b.len());
    for (pa, pb) in a.iter().zip(b.iter()) {
        assert_eq!((pa.x, pa.y, pa.escapes), (pb.x, pb.y, pb.escapes));
    }
}

#[test]
fn center_of_grid_is_in_set() {
    let screen = grid_viewport();
    let cfg = EvalConfig { max_threads: 2, accuracy: 1, iters: 100 };
    let frame = mandelbrod(&screen, &cfg);
    // Pixel (4, 4) sits over the plane origin, which never escapes.
    let p = frame.iter().find(|p| p.x == 4 && p.y == 4).unwrap();
    assert_eq!(p.escapes, 0);
}

#[test]
fn corner_of_grid_escapes() {
    let screen = grid_viewport();
    let cfg = EvalConfig { max_threads: 2, accuracy: 1, iters: 100 };
    let frame = mandelbrod(&screen, &cfg);
    // Pixel (0, 0) sits over -2 - 2i, which escapes quickly.
    let p = frame.iter().find(|p| p.x == 0 && p.y == 0).unwrap();
    assert!(p.escapes >= 1 && p.escapes <= 5);
}

#[test]
fn stride_two_cardinality_and_grid() {
    let screen = grid_viewport();
    let cfg = EvalConfig { max_threads: 2, accuracy: 2, iters: 100 };
    let frame = mandelbrod(&screen, &cfg);
    // ceil(8 / 2) * ceil(8 / 2): the bands tile the height exactly here.
    assert_eq!(frame.len(), 16);
    for p in &frame {
        assert_eq!(p.x % 2, 0);
        // Bands start at rows 0 and 4, both multiples of the stride.
        assert_eq!(p.y % 2, 0);
    }
}

#[test]
fn overshooting_bands_cover_all_rows() {
    let screen = grid_viewport();
    // Three workers over 8 rows: bands of ceil(8 / 3) == 3 rows, the last
    // reaching row 8, one past the frame.
    let cfg = EvalConfig { max_threads: 3, accuracy: 1, iters: 50 };
    let frame = mandelbrod(&screen, &cfg);
    assert_eq!(frame.len(), 72);
    for y in 0..8u32 {
        assert!(frame.iter().any(|p| p.y == y));
    }
    // The overshot row is produced and is recognisable by its coordinate.
    assert!(frame.iter().any(|p| p.y >= 8));
    assert!(frame.iter().all(|p| p.y <= 8));
}

#[test]
fn bands_concatenate_to_frame() {
    let screen = grid_viewport();
    let cfg = EvalConfig { max_threads: 2, accuracy: 1, iters: 100 };
    let frame = mandelbrod(&screen, &cfg);
    let mut merged: Vec<Pixel> = Vec::new();
    for band in 0..cfg.max_threads {
        merged.extend(mandelbrod_band(&screen, &cfg, band));
    }
    assert_eq!(frame.len(), merged.len());
    for (pa, pb) in frame.iter().zip(merged.iter()) {
        assert_eq!((pa.x, pa.y, pa.escapes), (pb.x, pb.y, pb.escapes));
    }
}

#[test]
fn can_evaluate_rejects_more_workers_than_rows() {
    let screen = grid_viewport();
    let cfg = EvalConfig { max_threads: 9, accuracy: 1, iters: 100 };
    assert!(!can_evaluate(&screen, &cfg));
}

#[test]
fn can_evaluate_rejects_zero_stride() {
    let screen = grid_viewport();
    let cfg = EvalConfig { max_threads: 2, accuracy: 0, iters: 100 };
    assert!(!can_evaluate(&screen, &cfg));
}
