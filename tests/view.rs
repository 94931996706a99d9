use mandelbrot::coord::ScreenCoord;
use mandelbrot::view::{Viewport, ITER_STEP};

#[test]
fn screen_coord_new_keeps_fields() {
    let c = ScreenCoord::new(3, -4);
    assert_eq!(c.x, 3);
    assert_eq!(c.y, -4);
    assert_eq!(c, ScreenCoord { x: 3, y: -4 });
}

#[test]
fn new_view_starts_unzoomed() {
    let v = Viewport::new(700, 750, 40);
    assert_eq!(v.width, 700);
    assert_eq!(v.height, 750);
    assert_eq!(v.max_iter, 40);
    assert_eq!(v.zoom, 0);
}

#[test]
fn middle_pixel_has_zero_offset() {
    let v = Viewport::new(700, 750, 40);
    assert_eq!(v.pixel_offset(ScreenCoord::new(350, 375)), (0, 0));
    let odd = Viewport::new(5, 7, 1);
    assert_eq!(odd.pixel_offset(ScreenCoord::new(2, 3)), (0, 0));
}

#[test]
fn offsets_flip_vertical_axis() {
    let v = Viewport::new(700, 750, 40);
    assert_eq!(v.pixel_offset(ScreenCoord::new(0, 0)), (-350, 375));
    assert_eq!(v.pixel_offset(ScreenCoord::new(699, 749)), (349, -374));
    assert_eq!(v.pixel_offset(ScreenCoord::new(400, 300)), (50, 75));
}

#[test]
fn frame_is_raster_order() {
    let v = Viewport::new(3, 2, 10);
    let f = v.frame_coords();
    let want: Vec<ScreenCoord> = vec![
        ScreenCoord::new(0, 0),
        ScreenCoord::new(0, 1),
        ScreenCoord::new(1, 0),
        ScreenCoord::new(1, 1),
        ScreenCoord::new(2, 0),
        ScreenCoord::new(2, 1),
    ];
    assert_eq!(f, want);
}

#[test]
fn frame_covers_grid_once() {
    let v = Viewport::new(70, 75, 40);
    let f = v.frame_coords();
    assert_eq!(f.len(), 70 * 75);
    let mut seen = vec![false; 70 * 75];
    for c in &f {
        assert!(c.x >= 0 && c.x < 70 && c.y >= 0 && c.y < 75);
        let i = (c.x * 75 + c.y) as usize;
        assert!(!seen[i]);
        seen[i] = true;
    }
    assert!(seen.iter().all(|s| *s));
}

#[test]
fn single_pixel_frame() {
    let v = Viewport::new(1, 1, 1);
    assert_eq!(v.frame_coords(), vec![ScreenCoord::new(0, 0)]);
}

#[test]
fn frame_repeats_without_zoom() {
    let v = Viewport::new(20, 30, 40);
    assert_eq!(v.frame_coords(), v.frame_coords());
}

#[test]
fn zoom_in_doubles_scale_and_adds_budget() {
    let mut v = Viewport::new(700, 750, 40);
    v.zoom_in();
    assert_eq!(ITER_STEP, 10);
    assert_eq!(v.max_iter, 50);
    assert_eq!(v.zoom, 1);
    assert_eq!(v.width, 700);
    assert_eq!(v.height, 750);
    v.zoom_in();
    assert_eq!(v.max_iter, 60);
    assert_eq!(v.zoom, 2);
}

#[test]
fn zoom_keeps_frame_and_middle() {
    let mut v = Viewport::new(700, 750, 40);
    let before = v.frame_coords();
    v.zoom_in();
    assert_eq!(v.frame_coords(), before);
    assert_eq!(v.pixel_offset(ScreenCoord::new(350, 375)), (0, 0));
}
