#![allow(dead_code)]

use glam::{Mat4, Vec3, Vec4};
use sculpt_lite::arithmetic::{Arithmetic, Operations};
use sculpt_lite::camera::{
    Camera, CameraFrame, CameraMode, FlyMovement, FlyMovementMode, ScreenRect, INITIAL_FLY_SPEED,
    MAX_FLY_SPEED, MAX_FLY_WHEEL_POINTS, MIN_FLY_SPEED, MIN_FLY_WHEEL_POINTS,
    ORBIT_RADIANS_PER_POINT,
};
use sculpt_lite::input::ScreenPoint;
use sculpt_lite::optics::{Clip, Lens, Matrix, Optics, View};
use sculpt_lite::scalar::Point;
use sculpt_lite::upload::CameraUniform;
use std::f32::consts::{FRAC_PI_2, TAU};

fn bits(value: f32) -> u32 {
    value.to_bits()
}

fn number(bits: u32) -> f32 {
    f32::from_bits(bits)
}

fn ops() -> impl Arithmetic {
    Operations {
        sum: |a: u32, b: u32| bits(number(a) + number(b)),
        difference: |a: u32, b: u32| bits(number(a) - number(b)),
        product: |a: u32, b: u32| bits(number(a) * number(b)),
        quotient: |a: u32, b: u32| bits(number(a) / number(b)),
        root: |a: u32| bits(number(a).sqrt()),
        count: |items: usize| bits(items as f32),
    }
}

fn p(x: f32, y: f32, z: f32) -> Point {
    Point { x: bits(x), y: bits(y), z: bits(z) }
}

fn vec3(point: Point) -> Vec3 {
    Vec3::new(number(point.x), number(point.y), number(point.z))
}

fn pt(vector: Vec3) -> Point {
    p(vector.x, vector.y, vector.z)
}

fn at(x: f32, y: f32) -> ScreenPoint {
    ScreenPoint { x: bits(x), y: bits(y) }
}

fn vec4(clip: Clip) -> Vec4 {
    Vec4::new(number(clip.x), number(clip.y), number(clip.z), number(clip.w))
}

fn clip(vector: Vec4) -> Clip {
    Clip { x: bits(vector.x), y: bits(vector.y), z: bits(vector.z), w: bits(vector.w) }
}

fn mat4(matrix: Matrix) -> Mat4 {
    Mat4::from_cols(vec4(matrix.x), vec4(matrix.y), vec4(matrix.z), vec4(matrix.w))
}

fn matrix(columns: Mat4) -> Matrix {
    Matrix {
        x: clip(columns.x_axis),
        y: clip(columns.y_axis),
        z: clip(columns.z_axis),
        w: clip(columns.w_axis),
    }
}

fn view_projection(view: View) -> Matrix {
    let looking = glam::camera::rh::view::look_at_mat4(vec3(view.eye), vec3(view.target), Vec3::Z);
    let projection = glam::camera::rh::proj::directx::perspective(
        number(view.field_of_view),
        number(view.aspect),
        number(view.near),
        number(view.far),
    );
    matrix(projection * looking)
}

fn lens() -> impl Optics {
    Lens {
        sine: |angle: u32| bits(number(angle).sin()),
        cosine: |angle: u32| bits(number(angle).cos()),
        tangent: |angle: u32| bits(number(angle).tan()),
        arc_sine: |value: u32| bits(number(value).asin()),
        arc_tangent: |y: u32, x: u32| bits(number(y).atan2(number(x))),
        exponential: |value: u32| bits(number(value).exp()),
        remainder: |value: u32, modulus: u32| bits(number(value).rem_euclid(number(modulus))),
        view_projection,
        inverse: |from: Matrix| matrix(mat4(from).inverse()),
        transform: |pair: (Matrix, Clip)| clip(mat4(pair.0) * vec4(pair.1)),
    }
}

fn viewport() -> ScreenRect {
    ScreenRect { min: at(100.0, 50.0), max: at(900.0, 650.0) }
}

fn center() -> ScreenPoint {
    at(500.0, 350.0)
}

fn camera() -> Camera {
    Camera::new(&ops(), &lens())
}

fn flying() -> Camera {
    let mut camera = camera();
    camera.set_mode(CameraMode::Fly, &ops(), &lens());
    camera
}

fn frame(camera: &Camera) -> CameraFrame {
    camera.frame(viewport(), &ops(), &lens()).expect("valid viewport")
}

fn movement(forward: f32, right: f32, up: f32) -> FlyMovement {
    FlyMovement { forward: bits(forward), right: bits(right), up: bits(up) }
}

fn orbit_eye(camera: &Camera) -> Vec3 {
    vec3(camera.orbit.eye(&ops(), &lens()))
}

fn orbit_right(camera: &Camera) -> Vec3 {
    vec3(camera.orbit.right(&ops(), &lens()))
}

fn orbit_up(camera: &Camera) -> Vec3 {
    vec3(camera.orbit.up(&ops(), &lens()))
}

fn flown(camera: &Camera, from: Point) -> f32 {
    vec3(camera.fly.position).distance(vec3(from))
}

#[test]
fn center_screen_ray_points_at_orbit_target() {
    let camera = camera();
    let ray = frame(&camera)
        .screen_ray(center(), &ops(), &lens())
        .expect("center is inside viewport");

    let forward = vec3(camera.orbit.forward(&ops(), &lens()));
    assert!(vec3(ray.direction).dot(forward) > 0.999_99);
    assert_eq!(ray.origin, camera.orbit.eye(&ops(), &lens()));
}

#[test]
fn screen_ray_rejects_positions_outside_viewport() {
    assert!(frame(&camera()).screen_ray(at(20.0, 20.0), &ops(), &lens()).is_none());
}

#[test]
fn a_viewport_without_area_has_no_frame() {
    let flat = ScreenRect { min: at(100.0, 50.0), max: at(100.0, 650.0) };
    assert!(camera().frame(flat, &ops(), &lens()).is_none());
}

#[test]
fn fit_centers_and_frames_bounds() {
    let mut camera = camera();
    camera.fit(p(-2.0, 1.0, -1.0), p(4.0, 5.0, 3.0), &ops(), &lens());

    assert!(vec3(camera.orbit.target).abs_diff_eq(Vec3::new(1.0, 3.0, 1.0), 1.0e-6));
    assert!(number(camera.orbit.distance) > Vec3::new(3.0, 2.0, 2.0).length());
}

#[test]
fn orbit_drag_right_decreases_yaw() {
    let mut camera = camera();
    let yaw = number(camera.orbit.yaw);

    camera.orbit(at(40.0, 0.0), &ops(), &lens());

    let expected = (yaw - 40.0 * number(ORBIT_RADIANS_PER_POINT)).rem_euclid(TAU);
    assert!((number(camera.orbit.yaw) - expected).abs() < 1.0e-6);
}

#[test]
fn orbit_drag_left_increases_yaw() {
    let mut camera = camera();
    let yaw = number(camera.orbit.yaw);

    camera.orbit(at(-40.0, 0.0), &ops(), &lens());

    let expected = yaw + 40.0 * number(ORBIT_RADIANS_PER_POINT);
    assert!((number(camera.orbit.yaw) - expected).abs() < 1.0e-6);
}

#[test]
fn horizontal_orbit_keeps_world_z_upright() {
    let mut camera = camera();
    let pitch = number(camera.orbit.pitch);

    assert!(orbit_right(&camera).dot(Vec3::Z).abs() < 1.0e-6);
    camera.orbit(at(-80.0, 0.0), &ops(), &lens());

    assert!((number(camera.orbit.pitch) - pitch).abs() < 1.0e-6);
    assert!(orbit_right(&camera).dot(Vec3::Z).abs() < 1.0e-6);
    assert!(orbit_up(&camera).dot(Vec3::Z) > 0.0);
}

#[test]
fn orbit_allows_vertical_rotation_without_crossing_poles() {
    let mut camera = camera();
    camera.orbit(at(0.0, 100_000.0), &ops(), &lens());
    assert!(number(camera.orbit.pitch) < FRAC_PI_2);
    camera.orbit(at(0.0, -200_000.0), &ops(), &lens());
    assert!(number(camera.orbit.pitch) > -FRAC_PI_2);
}

#[test]
fn horizontal_pan_makes_the_object_track_the_pointer() {
    let mut camera = camera();
    let before = vec3(camera.orbit.target);
    let right = orbit_right(&camera);
    camera.pan(at(40.0, 0.0), bits(600.0), &ops(), &lens());

    let after = vec3(camera.orbit.target);
    assert!((after - before).dot(right) < 0.0);
    assert!((after - before).dot(orbit_up(&camera)).abs() < 1.0e-6);
}

#[test]
fn zooming_in_comes_closer() {
    let mut camera = camera();
    let before = number(camera.orbit.distance);
    camera.zoom(bits(100.0), &ops(), &lens());
    let after = number(camera.orbit.distance);
    assert!((after - before * (-0.15f32).exp()).abs() < 1.0e-5);
}

#[test]
fn world_scale_matches_vertical_field_of_view() {
    let camera = camera();
    let height = 600.0;
    let visible_world_height =
        number(camera.orbit_world_units_per_point(bits(height), &ops(), &lens())) * height;
    let expected =
        2.0 * number(camera.orbit.distance) * (number(camera.fov_y_radians) * 0.5).tan();
    assert!((visible_world_height - expected).abs() < 1.0e-5);
}

#[test]
fn first_fly_entry_preserves_orbit_viewpoint() {
    let mut camera = camera();
    camera.orbit(at(75.0, -30.0), &ops(), &lens());
    let orbit_frame = frame(&camera);
    let orbit_ray = orbit_frame.screen_ray(center(), &ops(), &lens()).unwrap();

    camera.set_mode(CameraMode::Fly, &ops(), &lens());
    let fly_frame = frame(&camera);
    let fly_ray = fly_frame.screen_ray(center(), &ops(), &lens()).unwrap();

    assert!(vec3(fly_frame.eye()).abs_diff_eq(vec3(orbit_frame.eye()), 1.0e-5));
    assert!(vec3(fly_ray.direction).dot(vec3(orbit_ray.direction)) > 0.999_99);
}

#[test]
fn orbit_and_fly_viewpoints_remain_independent() {
    let mut camera = camera();
    let orbit_before = orbit_eye(&camera);
    camera.set_mode(CameraMode::Fly, &ops(), &lens());
    camera.fly_look(at(80.0, -30.0), &ops(), &lens());
    camera.fly_move(movement(1.0, 0.0, 0.0), bits(0.1), false, &ops(), &lens());
    let fly_before = camera.fly;

    camera.set_mode(CameraMode::Orbit, &ops(), &lens());
    assert!(orbit_eye(&camera).abs_diff_eq(orbit_before, 1.0e-6));
    camera.orbit(at(20.0, 10.0), &ops(), &lens());
    camera.set_mode(CameraMode::Fly, &ops(), &lens());

    assert!(vec3(camera.fly.position).abs_diff_eq(vec3(fly_before.position), 1.0e-6));
    assert_eq!(camera.fly.yaw, fly_before.yaw);
    assert_eq!(camera.fly.pitch, fly_before.pitch);
}

#[test]
fn fly_diagonal_movement_is_normalized() {
    let mut straight = flying();
    let start = straight.fly.position;
    straight.fly_move(movement(1.0, 0.0, 0.0), bits(0.1), false, &ops(), &lens());

    let mut diagonal = flying();
    let diagonal_start = diagonal.fly.position;
    diagonal.fly_move(movement(1.0, 1.0, 1.0), bits(0.1), false, &ops(), &lens());

    assert!((flown(&straight, start) - flown(&diagonal, diagonal_start)).abs() < 1.0e-6);
}

#[test]
fn fly_frame_delta_cap_limits_movement() {
    let mut normal = flying();
    let start = normal.fly.position;
    normal.fly_move(movement(1.0, 0.0, 0.0), bits(0.1), false, &ops(), &lens());

    let mut capped = flying();
    let capped_start = capped.fly.position;
    capped.fly_move(movement(1.0, 0.0, 0.0), bits(10.0), false, &ops(), &lens());

    assert!((flown(&capped, capped_start) - flown(&normal, start)).abs() < 1.0e-6);
}

#[test]
fn boosted_flight_goes_four_times_as_far() {
    let mut normal = flying();
    let start = normal.fly.position;
    normal.fly_move(movement(1.0, 0.0, 0.0), bits(0.1), false, &ops(), &lens());
    let mut boosted = flying();
    boosted.fly_move(movement(1.0, 0.0, 0.0), bits(0.1), true, &ops(), &lens());
    assert!((flown(&boosted, start) - 4.0 * flown(&normal, start)).abs() < 1.0e-5);
    assert_eq!(boosted.fly_speed(), normal.fly_speed());
}

#[test]
fn level_flight_stays_at_its_height_and_free_flight_does_not() {
    let mut level = flying();
    let start = level.fly.position;
    assert_eq!(level.fly_movement_mode(), FlyMovementMode::Level);
    level.fly_move(movement(1.0, 0.0, 0.0), bits(0.1), false, &ops(), &lens());
    assert_eq!(level.fly.position.z, start.z);

    let mut free = flying();
    free.set_fly_movement_mode(FlyMovementMode::Free);
    free.fly_move(movement(1.0, 0.0, 0.0), bits(0.1), false, &ops(), &lens());
    assert_ne!(free.fly.position.z, start.z);
}

#[test]
fn fly_speed_adjustment_stays_within_bounds() {
    let mut camera = camera();
    camera.adjust_fly_speed(bits(f32::INFINITY), &ops(), &lens());
    assert_eq!(camera.fly_speed(), INITIAL_FLY_SPEED);
    for _ in 0..20 {
        camera.adjust_fly_speed(MAX_FLY_WHEEL_POINTS, &ops(), &lens());
    }
    assert_eq!(camera.fly_speed(), MAX_FLY_SPEED);
    for _ in 0..40 {
        camera.adjust_fly_speed(MIN_FLY_WHEEL_POINTS, &ops(), &lens());
    }
    assert_eq!(camera.fly_speed(), MIN_FLY_SPEED);
}

#[test]
fn non_finite_fly_inputs_do_not_corrupt_the_viewpoint() {
    let mut camera = flying();
    let before = camera.fly;

    camera.fly_look(at(f32::NAN, 1.0), &ops(), &lens());
    let wild = movement(f32::NAN, f32::INFINITY, f32::NEG_INFINITY);
    camera.fly_move(wild, bits(0.1), false, &ops(), &lens());
    camera.fly_move(movement(1.0, 0.0, 0.0), bits(f32::NAN), false, &ops(), &lens());
    camera.adjust_fly_speed(bits(f32::NAN), &ops(), &lens());

    assert!(vec3(camera.fly.position).abs_diff_eq(vec3(before.position), 1.0e-6));
    assert_eq!(camera.fly.yaw, before.yaw);
    assert_eq!(camera.fly.pitch, before.pitch);
    assert_eq!(camera.fly.speed_radii_per_second, before.speed_radii_per_second);
    assert!(camera.frame(viewport(), &ops(), &lens()).is_some());
}

#[test]
fn fly_look_wraps_yaw_and_clamps_pitch() {
    let mut camera = flying();
    camera.fly_look(at(1_000_000.0, 1_000_000.0), &ops(), &lens());
    assert!((0.0..TAU).contains(&number(camera.fly.yaw)));
    assert!(number(camera.fly.pitch) > -FRAC_PI_2);
    camera.fly_look(at(-2_000_000.0, -2_000_000.0), &ops(), &lens());
    assert!((0.0..TAU).contains(&number(camera.fly.yaw)));
    assert!(number(camera.fly.pitch) < FRAC_PI_2);
}

#[test]
fn fly_horizontal_look_tracks_mouse_direction() {
    let mut rightward = flying();
    let right = vec3(rightward.fly.right(&ops(), &lens()));
    rightward.fly_look(at(40.0, 0.0), &ops(), &lens());
    assert!(vec3(rightward.fly.forward(&ops(), &lens())).dot(right) > 0.0);

    let mut leftward = flying();
    let right = vec3(leftward.fly.right(&ops(), &lens()));
    leftward.fly_look(at(-40.0, 0.0), &ops(), &lens());
    assert!(vec3(leftward.fly.forward(&ops(), &lens())).dot(right) < 0.0);
}

#[test]
fn fitting_resets_both_cameras_and_returns_to_orbit() {
    let mut camera = flying();
    camera.fly_move(movement(1.0, 0.0, 0.0), bits(0.1), false, &ops(), &lens());
    camera.adjust_fly_speed(bits(200.0), &ops(), &lens());

    camera.fit(pt(Vec3::splat(-2.0)), pt(Vec3::splat(2.0)), &ops(), &lens());
    assert_eq!(camera.mode(), CameraMode::Orbit);
    camera.set_mode(CameraMode::Fly, &ops(), &lens());

    assert!(vec3(camera.fly.position).abs_diff_eq(orbit_eye(&camera), 1.0e-5));
    assert_eq!(camera.fly_speed(), INITIAL_FLY_SPEED);
}

#[test]
fn fly_projection_and_center_ray_remain_finite_inside_and_outside_bounds() {
    let mut camera = camera();
    camera.fit(pt(Vec3::splat(-1.0)), pt(Vec3::splat(1.0)), &ops(), &lens());
    camera.set_mode(CameraMode::Fly, &ops(), &lens());
    for position in [Vec3::ZERO, Vec3::new(0.0, 0.0, 1.001), Vec3::splat(100.0)] {
        camera.fly.position = pt(position);
        let frame = camera.frame(viewport(), &ops(), &lens()).expect("finite fly frame");
        let ray = frame.screen_ray(center(), &ops(), &lens()).expect("finite center ray");
        assert!(frame.view_projection().is_finite());
        assert!(vec3(ray.origin).is_finite());
        assert!(vec3(ray.direction).is_finite());
    }
}

#[test]
fn camera_uniform_keeps_studio_lights_in_camera_space() {
    let mut camera = camera();
    camera.orbit.yaw = bits(1.37);
    camera.orbit.pitch = bits(-0.42);

    let wide = ScreenRect { min: at(0.0, 0.0), max: at(1600.0, 900.0) };
    let frame = camera.frame(wide, &ops(), &lens()).unwrap();
    let uniform = CameraUniform::from_frame(&frame, &ops());
    let right = vec4(uniform.camera_right).truncate();
    let up = vec4(uniform.camera_up).truncate();

    assert!(right.abs_diff_eq(orbit_right(&camera), 1.0e-6));
    assert!(up.abs_diff_eq(orbit_up(&camera), 1.0e-6));
    assert!(right.dot(up).abs() < 1.0e-6);
    assert_eq!(number(uniform.camera_right.w), 0.0);
    assert_eq!(number(uniform.camera_up.w), 0.0);
}

#[test]
fn camera_uniform_layout_matches_wgsl_uniform_alignment() {
    assert_eq!(size_of::<CameraUniform>(), 128);
}
