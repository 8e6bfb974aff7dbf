use mandelbrod::{log2_floor_of, shade_of, Complex, ScreenInfo, SCALE};

fn classic_viewport() -> ScreenInfo {
    // Bounds [-3, 2] x [-2, 2] at 200 pixels per unit: 1000 x 800.
    ScreenInfo::new(-3 * SCALE, 2 * SCALE, -2 * SCALE, 2 * SCALE, 200 * SCALE).unwrap()
}

#[test]
fn construction_derives_resolution() {
    let screen = classic_viewport();
    assert_eq!(screen.screen_width, 1000);
    assert_eq!(screen.screen_height, 800);
    assert_eq!(screen.x_start, -3 * SCALE);
    assert_eq!(screen.x_stop, 2 * SCALE);
    assert_eq!(screen.pixels_per_cm, 200 * SCALE);
    assert_eq!(screen.derive_resolution(), (1000, 800));
}

#[test]
fn construction_rejects_unordered_bounds() {
    assert!(ScreenInfo::new(2 * SCALE, -3 * SCALE, -2 * SCALE, 2 * SCALE, 200 * SCALE).is_none());
    assert!(ScreenInfo::new(SCALE, SCALE, -2 * SCALE, 2 * SCALE, 200 * SCALE).is_none());
}

#[test]
fn construction_rejects_nonpositive_scale() {
    assert!(ScreenInfo::new(-3 * SCALE, 2 * SCALE, -2 * SCALE, 2 * SCALE, 0).is_none());
    assert!(ScreenInfo::new(-3 * SCALE, 2 * SCALE, -2 * SCALE, 2 * SCALE, -SCALE).is_none());
}

#[test]
fn construction_rejects_subpixel_resolution() {
    // Scale so small that the rounded width would be 0.
    assert!(ScreenInfo::new(-SCALE, SCALE, -SCALE, SCALE, 1).is_none());
}

#[test]
fn plane_mapping_endpoints() {
    let screen = classic_viewport();
    assert_eq!(screen.plane_x_at(0), -3 * SCALE);
    assert_eq!(screen.plane_x_at(1000), 2 * SCALE);
    assert_eq!(screen.plane_x_at(500), -SCALE / 2);
    assert_eq!(screen.plane_y_at(0), -2 * SCALE);
    assert_eq!(screen.plane_y_at(800), 2 * SCALE);
}

#[test]
fn zoom_in_divides_extents() {
    let mut screen = classic_viewport();
    let factor = 5 * SCALE / 4;  // 1.25
    assert!(screen.try_zoom(factor, 500, 400));
    assert_eq!(screen.x_stop - screen.x_start, 4 * SCALE);
    assert_eq!(screen.y_stop - screen.y_start, 13743895347);
    assert_eq!(screen.screen_width, 1000);
    assert_eq!(screen.screen_height, 800);
    assert_eq!(screen.pixels_per_cm, 200 * SCALE);
}

#[test]
fn zoom_out_multiplies_extents() {
    let mut screen = classic_viewport();
    let factor = 3 * SCALE / 4;  // 0.75
    assert!(screen.try_zoom(factor, 500, 400));
    assert_eq!(screen.x_stop - screen.x_start, 28633115306);
}

#[test]
fn zoom_keeps_focal_plane_point() {
    let mut screen = classic_viewport();
    let before_x = screen.plane_x_at(137);
    let before_y = screen.plane_y_at(599);
    assert!(screen.try_zoom(5 * SCALE / 4, 137, 599));
    assert_eq!(screen.plane_x_at(137), before_x);
    assert_eq!(screen.plane_y_at(599), before_y);
    // Zooming out about the same pixel keeps it fixed too.
    assert!(screen.try_zoom(3 * SCALE / 4, 137, 599));
    assert_eq!(screen.plane_x_at(137), before_x);
    assert_eq!(screen.plane_y_at(599), before_y);
}

#[test]
fn zoom_rejects_bad_inputs() {
    let mut screen = classic_viewport();
    let before = screen;
    assert!(!screen.try_zoom(0, 500, 400));
    assert!(!screen.try_zoom(-SCALE, 500, 400));
    assert!(!screen.try_zoom(5 * SCALE / 4, 1000, 400));
    assert!(!screen.try_zoom(5 * SCALE / 4, 500, 800));
    assert_eq!(screen, before);
}

#[test]
fn complex_square_and_magnitude() {
    let mut z = Complex { real: 2 * SCALE, imag: 2 * SCALE };
    assert_eq!(z.mag(), 8 * SCALE);
    z.square();
    assert_eq!(z.real, 0);
    assert_eq!(z.imag, 8 * SCALE);
}

#[test]
fn complex_add_componentwise() {
    let a = Complex { real: SCALE, imag: -SCALE };
    let b = Complex { real: 2 * SCALE, imag: 3 * SCALE };
    let c = a.add(b);
    assert_eq!(c.real, 3 * SCALE);
    assert_eq!(c.imag, 2 * SCALE);
}

#[test]
fn log2_floor_values() {
    assert_eq!(log2_floor_of(1), 0);
    assert_eq!(log2_floor_of(2), 1);
    assert_eq!(log2_floor_of(3), 1);
    assert_eq!(log2_floor_of(1024), 10);
    assert_eq!(log2_floor_of(10000), 13);
    assert_eq!(log2_floor_of(u32::MAX), 31);
}

#[test]
fn shade_values() {
    assert_eq!(shade_of(0, 10000), 0);
    assert_eq!(shade_of(1, 10000), 0);
    assert_eq!(shade_of(2, 10000), 19);
    assert_eq!(shade_of(16, 10000), 78);
    assert_eq!(shade_of(9999, 10000), 255);
}
