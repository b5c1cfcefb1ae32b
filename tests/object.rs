use std::rc::Rc;

use raster3d::camera::{project_vertex, Camera};
use raster3d::fixed::ONE;
use raster3d::math::{Quat, Vec3};
use raster3d::object::{draw_cube, Object};
use raster3d::raster::{draw_line, draw_triangle, Color, Pixel};

fn mesh() -> Vec<Vec3> {
    vec![
        Vec3::new(-ONE, -ONE, 3 * ONE),
        Vec3::new(ONE, -ONE, 3 * ONE),
        Vec3::new(0, ONE, 3 * ONE),
        // Behind the camera: skipped whole.
        Vec3::new(0, 0, -5 * ONE),
        Vec3::new(ONE, 0, 4 * ONE),
        Vec3::new(0, ONE, 4 * ONE),
        Vec3::new(2 * ONE, 2 * ONE, 5 * ONE),
        Vec3::new(-2 * ONE, 2 * ONE, 6 * ONE),
        Vec3::new(0, -2 * ONE, 7 * ONE),
    ]
}

fn black() -> Color {
    Color::new(0, 0, 0)
}

#[test]
fn identity_pose_projects_like_raw_mesh() {
    let cam = Camera::new(None, None, None, (800, 600));
    let shared = Rc::new(mesh());
    let obj = Object { pos: Vec3::new(0, 0, 0), rot: Quat::identity(), scale: ONE, mesh: Rc::clone(&shared) };
    let mut canvas: Vec<Pixel> = Vec::new();
    obj.render(&mut canvas, &cam);

    let mut want: Vec<Pixel> = Vec::new();
    for t in shared.chunks(3) {
        let p: Vec<_> = t.iter().map(|v| project_vertex(&cam, v)).collect();
        if let (Some(a), Some(b), Some(c)) = (p[0], p[1], p[2]) {
            draw_triangle(&mut want, a, b, c, black());
        }
    }
    assert_eq!(canvas, want);
    assert!(!canvas.is_empty());
}

#[test]
fn object_pose_moves_scales_and_rotates() {
    let cam = Camera::new(Some(Vec3::new(0, 0, -10 * ONE)), None, None, (800, 600));
    let shared = Rc::new(vec![Vec3::new(ONE, 0, 0), Vec3::new(0, ONE, 0), Vec3::new(0, 0, ONE)]);
    // Half a turn about z, doubled, moved up by 3.
    let obj = Object { pos: Vec3::new(0, 3 * ONE, 0), rot: Quat::new(0, 0, ONE, 0), scale: 2 * ONE, mesh: shared };
    let mut canvas: Vec<Pixel> = Vec::new();
    obj.render(&mut canvas, &cam);

    let placed = [Vec3::new(-2 * ONE, 3 * ONE, 0), Vec3::new(0, ONE, 0), Vec3::new(0, 3 * ONE, 2 * ONE)];
    let p: Vec<_> = placed.iter().map(|v| project_vertex(&cam, v).unwrap()).collect();
    let mut want: Vec<Pixel> = Vec::new();
    draw_triangle(&mut want, p[0], p[1], p[2], black());
    assert_eq!(canvas, want);
}

#[test]
fn empty_mesh_draws_nothing() {
    let cam = Camera::new(None, None, None, (800, 600));
    let obj = Object { pos: Vec3::new(0, 0, 0), rot: Quat::identity(), scale: ONE, mesh: Rc::new(Vec::new()) };
    let mut canvas: Vec<Pixel> = Vec::new();
    obj.render(&mut canvas, &cam);
    assert!(canvas.is_empty());
}

#[test]
fn cube_draws_twelve_edges() {
    let cam = Camera::new(Some(Vec3::new(0, 0, -10 * ONE)), None, None, (800, 600));
    let mut canvas: Vec<Pixel> = Vec::new();
    draw_cube(&mut canvas, 1, &cam);
    let s = ONE;
    let corners = [
        Vec3::new(-s, -s, 0), Vec3::new(s, -s, 0), Vec3::new(s, s, 0), Vec3::new(-s, s, 0),
        Vec3::new(-s, -s, s), Vec3::new(s, -s, s), Vec3::new(s, s, s), Vec3::new(-s, s, s),
    ];
    let edges = [(0, 1), (1, 2), (2, 3), (3, 0), (4, 5), (5, 6), (6, 7), (7, 4), (0, 4), (1, 5), (2, 6), (3, 7)];
    let mut want: Vec<Pixel> = Vec::new();
    for (i, j) in edges {
        let a = project_vertex(&cam, &corners[i]).unwrap();
        let b = project_vertex(&cam, &corners[j]).unwrap();
        draw_line(&mut want, a, b, black());
    }
    assert_eq!(canvas, want);
    // One unit off the axis at depth 10 is 40 pixels from the center, less
    // the rounding of the fixed-point division.
    assert_eq!(project_vertex(&cam, &corners[0]).unwrap(), raster3d::raster::Point::new(359, 259));
}
