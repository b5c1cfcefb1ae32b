use raster3d::camera::{project_vertex, viewport, Action, Camera, Fov, InputEvent, Key, Viewport, MOVE_STEP};
use raster3d::fixed::ONE;
use raster3d::math::{Quat, Vec3};
use raster3d::raster::Point;

fn default_camera() -> Camera {
    Camera::new(None, None, None, (800, 600))
}

#[test]
fn viewport_wide_surface_narrows_height() {
    let vp = viewport(ONE, (800, 600), None);
    assert_eq!(vp, Viewport { width: 2 * ONE, height: 3 * ONE / 2, dist: ONE, scale: 400 * ONE });
    assert!(vp.height <= vp.width);
    assert_eq!(vp.width as i128 * 600, vp.height as i128 * 800);
}

#[test]
fn viewport_tall_and_square_surfaces() {
    let tall = viewport(ONE, (600, 800), None);
    assert_eq!(tall, Viewport { width: 3 * ONE / 2, height: 2 * ONE, dist: ONE, scale: 400 * ONE });
    let square = viewport(ONE, (500, 500), Some(2 * ONE));
    assert_eq!(square, Viewport { width: 4 * ONE, height: 4 * ONE, dist: 2 * ONE, scale: 125 * ONE });
    let flat = viewport(ONE, (640, 0), None);
    assert_eq!(flat.height, 0);
}

#[test]
fn camera_defaults() {
    let cam = default_camera();
    assert_eq!(cam.pos, Vec3::new(0, 0, 0));
    assert_eq!(cam.rot, Quat::identity());
    assert_eq!(cam.fov, Fov::new(90, ONE));
    assert_eq!(cam.viewport, viewport(ONE, (800, 600), None));
}

#[test]
fn change_fov_rejects_zero_and_straight_angles() {
    let mut cam = default_camera();
    let before = cam.viewport;
    cam.change_fov(Fov::new(0, 0));
    assert_eq!(cam.fov.degrees, 90);
    assert_eq!(cam.viewport, before);
    cam.change_fov(Fov::new(180, i64::MAX));
    assert_eq!(cam.fov.degrees, 90);
    assert_eq!(cam.viewport, before);
    // tan(30 deg) = 0.57735 in 16.16.
    cam.change_fov(Fov::new(60, 37837));
    assert_eq!(cam.fov.degrees, 60);
    assert_eq!(cam.viewport.width, 75674);
    assert_eq!(cam.viewport.height, 56755);
    assert_eq!(cam.viewport.dist, ONE);
}

#[test]
fn change_res_keeps_fov_and_distance() {
    let mut cam = default_camera();
    cam.change_res((1024, 768));
    assert_eq!(cam.res, (1024, 768));
    assert_eq!(cam.viewport, viewport(ONE, (1024, 768), Some(ONE)));
    assert_eq!(cam.fov.degrees, 90);
}

#[test]
fn near_plane_rejects_points_not_beyond_viewport() {
    let cam = default_camera();
    assert_eq!(project_vertex(&cam, &Vec3::new(0, 0, ONE / 2)), None);
    assert_eq!(project_vertex(&cam, &Vec3::new(0, 0, ONE)), None);
    assert_eq!(project_vertex(&cam, &Vec3::new(0, 0, -3 * ONE)), None);
    assert_eq!(project_vertex(&cam, &Vec3::new(0, 0, 2 * ONE)), Some(Point::new(400, 300)));
    assert_eq!(project_vertex(&cam, &Vec3::new(ONE, 0, 2 * ONE)), Some(Point::new(600, 300)));
}

#[test]
fn projection_follows_camera_position() {
    let cam = Camera::new(Some(Vec3::new(0, 0, -10 * ONE)), None, None, (800, 600));
    assert_eq!(project_vertex(&cam, &Vec3::new(0, 0, -9 * ONE)), None);
    assert_eq!(project_vertex(&cam, &Vec3::new(0, 0, 0)), Some(Point::new(400, 300)));
}

#[test]
fn keys_move_and_turn_the_camera() {
    let mut cam = default_camera();
    assert_eq!(cam.process_input(InputEvent::KeyDown(Key::W)), Action::Continue);
    assert_eq!(cam.pos, Vec3::new(0, 0, MOVE_STEP));
    cam.process_input(InputEvent::KeyDown(Key::A));
    assert_eq!(cam.pos, Vec3::new(-MOVE_STEP, 0, MOVE_STEP));
    cam.process_input(InputEvent::KeyDown(Key::S));
    cam.process_input(InputEvent::KeyDown(Key::D));
    assert_eq!(cam.pos, Vec3::new(0, 0, 0));
    cam.process_input(InputEvent::KeyDown(Key::Left));
    assert_eq!(cam.rot, Quat::new(0, 328, 0, 65536));
}

#[test]
fn quit_scroll_and_resize_events() {
    let mut cam = default_camera();
    assert_eq!(cam.process_input(InputEvent::Quit), Action::Exit);
    assert_eq!(cam.process_input(InputEvent::KeyDown(Key::Escape)), Action::Exit);
    assert_eq!(cam.process_input(InputEvent::MouseWheel(5)), Action::ChangeFov(95));
    assert_eq!(cam.process_input(InputEvent::MouseWheel(-100)), Action::Continue);
    assert_eq!(cam.process_input(InputEvent::MouseWheel(-200)), Action::Continue);
    assert_eq!(cam.process_input(InputEvent::MouseWheel(89)), Action::ChangeFov(179));
    assert_eq!(cam.process_input(InputEvent::MouseWheel(90)), Action::Continue);
    assert_eq!(cam.process_input(InputEvent::MouseWheel(-89)), Action::ChangeFov(1));
    assert_eq!(cam.process_input(InputEvent::MouseWheel(-90)), Action::Continue);
    assert_eq!(cam.fov.degrees, 90);
    assert_eq!(cam.process_input(InputEvent::Resized(1024, 768)), Action::Continue);
    assert_eq!(cam.res, (1024, 768));
    assert_eq!(cam.process_input(InputEvent::Resized(0, 0)), Action::Continue);
    assert_eq!(cam.res, (1024, 768));
    assert_eq!(cam.process_input(InputEvent::Other), Action::Continue);
}
