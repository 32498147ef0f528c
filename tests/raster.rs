use lector_obj::raster::{fill_triangle_z, Frame, ScreenVertex, BACKGROUND, FAR, SUBPIXEL};
use lector_obj::render::{draw_mesh, triangle_visible};

const C1: u32 = 0xff0000;
const C2: u32 = 0x00ff00;
const C3: u32 = 0x0000ff;

fn at(f: &Frame, x: usize, y: usize) -> (u32, u32) {
    let i = y * f.width() + x;
    (f.colors()[i], f.depths()[i])
}

fn sv(x: i64, y: i64, z: u32) -> ScreenVertex {
    ScreenVertex { x: (x * SUBPIXEL) as i32, y: (y * SUBPIXEL) as i32, z }
}

#[test]
fn new_frame_is_background_and_far() {
    let f = Frame::new(3, 2);
    assert_eq!((f.width(), f.height()), (3, 2));
    assert_eq!(f.colors().len(), 6);
    assert!(f.colors().iter().all(|&c| c == BACKGROUND));
    assert!(f.depths().iter().all(|&d| d == FAR));
}

#[test]
fn nearer_write_wins_farther_is_rejected() {
    let mut f = Frame::new(4, 4);
    f.put_pixel_z(1, 2, 5, C1);
    assert_eq!(at(&f, 1, 2), (C1, 5));
    f.put_pixel_z(1, 2, 3, C2);
    assert_eq!(at(&f, 1, 2), (C2, 3));
    f.put_pixel_z(1, 2, 7, C3);
    assert_eq!(at(&f, 1, 2), (C2, 3));
    f.put_pixel_z(1, 2, 3, C3);
    assert_eq!(at(&f, 1, 2), (C2, 3));
}

#[test]
fn writes_outside_the_frame_do_nothing() {
    let mut f = Frame::new(2, 2);
    f.put_pixel_z(-1, 0, 1, C1);
    f.put_pixel_z(0, -1, 1, C1);
    f.put_pixel_z(2, 0, 1, C1);
    f.put_pixel_z(0, 2, 1, C1);
    assert!(f.colors().iter().all(|&c| c == BACKGROUND));
}

#[test]
fn clear_resets_color_and_depth() {
    let mut f = Frame::new(2, 2);
    f.put_pixel_z(0, 0, 1, C1);
    f.clear(C3);
    assert!(f.colors().iter().all(|&c| c == C3));
    assert!(f.depths().iter().all(|&d| d == FAR));
}

#[test]
fn fill_writes_inside_and_leaves_outside() {
    let mut f = Frame::new(10, 10);
    fill_triangle_z(&mut f, sv(0, 0, 100), sv(0, 8, 100), sv(8, 0, 100), C1);
    assert_eq!(at(&f, 1, 1), (C1, 100));
    assert_eq!(at(&f, 0, 0), (C1, 100));
    assert_eq!(at(&f, 7, 7), (BACKGROUND, FAR));
    assert_eq!(at(&f, 9, 0), (BACKGROUND, FAR));
}

#[test]
fn fill_interpolates_depth() {
    let mut f = Frame::new(10, 10);
    // depth grows with y, from 0 on the top edge to 2048 at (0, 8)
    fill_triangle_z(&mut f, sv(0, 0, 0), sv(0, 8, 2048), sv(8, 0, 0), C1);
    assert_eq!(at(&f, 1, 1).1, 384);
    assert_eq!(at(&f, 2, 3).1, 3 * 256 + 128);
}

#[test]
fn fill_is_the_same_for_either_winding() {
    let mut a = Frame::new(10, 10);
    let mut b = Frame::new(10, 10);
    fill_triangle_z(&mut a, sv(0, 0, 9), sv(0, 8, 9), sv(8, 0, 9), C1);
    fill_triangle_z(&mut b, sv(0, 0, 9), sv(8, 0, 9), sv(0, 8, 9), C1);
    assert_eq!(a.colors(), b.colors());
    assert_eq!(a.depths(), b.depths());
}

#[test]
fn fill_respects_nearer_pixels() {
    let mut f = Frame::new(10, 10);
    f.put_pixel_z(1, 1, 50, C2);
    fill_triangle_z(&mut f, sv(0, 0, 100), sv(0, 8, 100), sv(8, 0, 100), C1);
    assert_eq!(at(&f, 1, 1), (C2, 50));
    assert_eq!(at(&f, 2, 1), (C1, 100));
}

#[test]
fn degenerate_triangle_writes_nothing() {
    let mut f = Frame::new(10, 10);
    fill_triangle_z(&mut f, sv(0, 0, 1), sv(4, 4, 1), sv(8, 8, 1), C1);
    assert!(f.colors().iter().all(|&c| c == BACKGROUND));
    assert!(f.depths().iter().all(|&d| d == FAR));
}

#[test]
fn triangle_partly_off_screen_is_clipped() {
    let mut f = Frame::new(4, 4);
    fill_triangle_z(&mut f, sv(-20, -20, 5), sv(-20, 40, 5), sv(40, -20, 5), C1);
    assert!(f.colors().iter().all(|&c| c == C1));
}

#[test]
fn visibility_decision() {
    let (p0, p1, p2) = ((0, 0), (2048, 0), (0, 2048));
    assert!(triangle_visible(p0, p1, p2, 10, 10, 10, 1));
    assert!(!triangle_visible(p0, p2, p1, 10, 10, 10, 1));
    assert!(!triangle_visible(p0, p1, p2, 1, 10, 10, 1));
    assert!(!triangle_visible(p0, p1, p2, 10, -5, 10, 1));
    assert!(!triangle_visible(p0, p1, p2, 10, 10, 1 << 40, 1));
    assert!(!triangle_visible(p0, p0, p2, 10, 10, 10, 1));
}

#[test]
fn draw_mesh_fills_visible_triangles_only() {
    let screen = vec![(0, 0), (2048, 0), (0, 2048), (2048, 2048)];
    let depths = vec![10, 10, 10, 0];
    let mut f = Frame::new(10, 10);
    let idx = |a: u32, b: u32, c: u32| vec![(a, None, None), (b, None, None), (c, None, None)];
    draw_mesh(&mut f, &idx(0, 1, 2), &screen, &depths, 1, C3, C1);
    assert_eq!(at(&f, 1, 1), (C1, 10));
    assert_eq!(at(&f, 9, 9), (C3, FAR));
    draw_mesh(&mut f, &idx(0, 2, 1), &screen, &depths, 1, C3, C1);
    assert!(f.colors().iter().all(|&c| c == C3));
    draw_mesh(&mut f, &idx(1, 3, 2), &screen, &depths, 1, C3, C1);
    assert!(f.colors().iter().all(|&c| c == C3));
}

#[test]
fn draw_mesh_keeps_nearest_of_overlapping_triangles() {
    let p = [(0, 0), (2048, 0), (0, 2048)];
    let screen = vec![p[0], p[1], p[2], p[0], p[1], p[2]];
    let depths = vec![40, 40, 40, 20, 20, 20];
    let c = |i: u32| (i, None, None);
    for order in [vec![c(0), c(1), c(2), c(3), c(4), c(5)], vec![c(3), c(4), c(5), c(0), c(1), c(2)]] {
        let mut f = Frame::new(10, 10);
        draw_mesh(&mut f, &order, &screen, &depths, 1, C3, C1);
        assert_eq!(at(&f, 1, 1), (C1, 20));
        assert_eq!(at(&f, 8, 8), (C3, FAR));
    }
}
