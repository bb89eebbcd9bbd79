use altostratus::fixed::SCALE;
use altostratus::{AltostratusError, Camera, Color, Point3D, PointCloud, Vec3};

#[test]
fn test_color_creation() {
    let color = Color::new(255, 128, 64);
    assert_eq!(color.r, 255);
    assert_eq!(color.g, 128);
    assert_eq!(color.b, 64);
}

#[test]
fn test_color_from_rgb() {
    let color = Color::from_rgb((255, 128, 64));
    assert_eq!(color.to_rgb(), (255, 128, 64));
}

#[test]
fn test_color_from_array() {
    let color = Color::from_array([255, 128, 64]);
    assert_eq!(color.to_array(), [255, 128, 64]);
}

#[test]
fn test_color_constants() {
    assert_eq!(Color::red().to_rgb(), (255, 0, 0));
    assert_eq!(Color::green().to_rgb(), (0, 255, 0));
    assert_eq!(Color::blue().to_rgb(), (0, 0, 255));
    assert_eq!(Color::white().to_rgb(), (255, 255, 255));
    assert_eq!(Color::black().to_rgb(), (0, 0, 0));
    assert_eq!(Color::gray().to_rgb(), (128, 128, 128));
}

#[test]
fn test_point3d_creation() {
    let pos = Vec3::new(1_000_000, 2_000_000, 3_000_000);
    let color = Color::red();
    let point = Point3D::new(pos, color);

    assert_eq!(point.position, pos);
    assert_eq!(point.color, color);
    assert_eq!(point.x(), 1_000_000);
    assert_eq!(point.y(), 2_000_000);
    assert_eq!(point.z(), 3_000_000);
}

#[test]
fn test_point3d_from_coords() {
    let point = Point3D::from_coords(1_000_000, 2_000_000, 3_000_000, Color::blue());
    assert_eq!(point.position, Vec3::new(1_000_000, 2_000_000, 3_000_000));
    assert_eq!(point.color, Color::blue());
}

#[test]
fn test_point3d_from_arrays() {
    let point = Point3D::from_arrays([1_000_000, 2_000_000, 3_000_000], [255, 0, 0]);
    assert_eq!(point.position, Vec3::new(1_000_000, 2_000_000, 3_000_000));
    assert_eq!(point.color, Color::red());
}

#[test]
fn test_pointcloud_creation() {
    let cloud = PointCloud::new();
    assert!(cloud.is_empty());
    assert_eq!(cloud.len(), 0);
    assert_eq!(cloud.default_color(), Color::white());
}

#[test]
fn test_pointcloud_with_default_color() {
    let cloud = PointCloud::with_default_color(Color::red());
    assert_eq!(cloud.default_color(), Color::red());
}

#[test]
fn test_pointcloud_with_capacity() {
    let cloud = PointCloud::with_capacity(100);
    assert!(cloud.is_empty());
}

#[test]
fn test_pointcloud_add_point() {
    let mut cloud = PointCloud::new();
    let point = Point3D::from_coords(1_000_000, 2_000_000, 3_000_000, Color::red());

    cloud.add_point(point);
    assert_eq!(cloud.len(), 1);
    assert!(!cloud.is_empty());
    assert_eq!(cloud.points()[0], point);
}

#[test]
fn test_pointcloud_add_point_with_color() {
    let mut cloud = PointCloud::new();
    let pos = Vec3::new(1_000_000, 2_000_000, 3_000_000);
    let color = Color::green();

    cloud.add_point_with_color(pos, color);
    assert_eq!(cloud.len(), 1);

    let added_point = cloud.points()[0];
    assert_eq!(added_point.position, pos);
    assert_eq!(added_point.color, color);
}

#[test]
fn test_pointcloud_add_point_coords() {
    let mut cloud = PointCloud::new();
    cloud.add_point_coords(1_000_000, 2_000_000, 3_000_000, Color::blue());

    assert_eq!(cloud.len(), 1);
    let point = cloud.points()[0];
    assert_eq!(point.position, Vec3::new(1_000_000, 2_000_000, 3_000_000));
    assert_eq!(point.color, Color::blue());
}

#[test]
fn test_pointcloud_add_point_default_color() {
    let mut cloud = PointCloud::with_default_color(Color::gray());
    let pos = Vec3::new(1_000_000, 2_000_000, 3_000_000);

    cloud.add_point_default_color(pos);
    assert_eq!(cloud.len(), 1);

    let point = cloud.points()[0];
    assert_eq!(point.position, pos);
    assert_eq!(point.color, Color::gray());
}

#[test]
fn test_pointcloud_add_point_coords_default() {
    let mut cloud = PointCloud::with_default_color(Color::red());
    cloud.add_point_coords_default(1_000_000, 2_000_000, 3_000_000);

    assert_eq!(cloud.len(), 1);
    let point = cloud.points()[0];
    assert_eq!(point.position, Vec3::new(1_000_000, 2_000_000, 3_000_000));
    assert_eq!(point.color, Color::red());
}

#[test]
fn test_pointcloud_add_points() {
    let mut cloud = PointCloud::new();
    let points = vec![
        Point3D::from_coords(1_000_000, 0, 0, Color::red()),
        Point3D::from_coords(0, 1_000_000, 0, Color::green()),
        Point3D::from_coords(0, 0, 1_000_000, Color::blue()),
    ];

    cloud.add_points(&points);
    assert_eq!(cloud.len(), 3);
    assert_eq!(cloud.points()[0], points[0]);
    assert_eq!(cloud.points()[1], points[1]);
    assert_eq!(cloud.points()[2], points[2]);
}

#[test]
fn test_pointcloud_clear() {
    let mut cloud = PointCloud::new();
    cloud.add_point_coords(1_000_000, 2_000_000, 3_000_000, Color::red());
    assert_eq!(cloud.len(), 1);

    cloud.clear();
    assert!(cloud.is_empty());
    assert_eq!(cloud.len(), 0);
}

#[test]
fn test_pointcloud_set_default_color() {
    let mut cloud = PointCloud::new();
    assert_eq!(cloud.default_color(), Color::white());

    cloud.set_default_color(Color::blue());
    assert_eq!(cloud.default_color(), Color::blue());
}

#[test]
fn test_pointcloud_bounding_box_empty() {
    let cloud = PointCloud::new();
    assert_eq!(cloud.bounding_box(), None);
}

#[test]
fn test_pointcloud_bounding_box_single_point() {
    let mut cloud = PointCloud::new();
    let pos = Vec3::new(1_000_000, 2_000_000, 3_000_000);
    cloud.add_point_with_color(pos, Color::red());

    let bbox = cloud.bounding_box().unwrap();
    assert_eq!(bbox.0, pos);
    assert_eq!(bbox.1, pos);
}

#[test]
fn test_pointcloud_bounding_box_multiple_points() {
    let mut cloud = PointCloud::new();
    cloud.add_point_coords(-1_000_000, -2_000_000, -3_000_000, Color::red());
    cloud.add_point_coords(1_000_000, 2_000_000, 3_000_000, Color::green());
    cloud.add_point_coords(0, 0, 0, Color::blue());

    let bbox = cloud.bounding_box().unwrap();
    assert_eq!(bbox.0, Vec3::new(-1_000_000, -2_000_000, -3_000_000));
    assert_eq!(bbox.1, Vec3::new(1_000_000, 2_000_000, 3_000_000));
}

#[test]
fn test_pointcloud_default() {
    let cloud = PointCloud::default();
    assert!(cloud.is_empty());
    assert_eq!(cloud.default_color(), Color::white());
}

#[test]
fn test_error_display() {
    let err1 = AltostratusError::EmptyPointCloud;
    assert_eq!(err1.message(), "Point cloud is empty");

    let err2 = AltostratusError::InvalidParameter("test".to_string());
    assert_eq!(err2.message(), "Invalid parameter: test");

    let err3 = AltostratusError::RenderError("render failed".to_string());
    assert_eq!(err3.message(), "Render error: render failed");
}

#[test]
fn test_camera_new() {
    let camera = Camera::new();
    assert_eq!(camera.position, Vec3::new(0, 0, 5_000_000));
    assert_eq!(camera.target, Vec3::new(0, 0, 0));
    assert_eq!(camera.up, Vec3::new(0, 1_000_000, 0));
    assert_eq!(camera.fov, 785_398);
    assert_eq!(camera.aspect_ratio, 1_000_000);
    assert_eq!(camera.near, 100_000);
    assert_eq!(camera.far, 100_000_000);
}

#[test]
fn test_camera_look_at() {
    let pos = Vec3::new(1_000_000, 2_000_000, 3_000_000);
    let target = Vec3::new(4_000_000, 5_000_000, 6_000_000);
    let camera = Camera::look_at(pos, target);

    assert_eq!(camera.position, pos);
    assert_eq!(camera.target, target);
    assert_eq!(camera.up, Vec3::new(0, 1_000_000, 0));
}

#[test]
fn test_camera_with_perspective() {
    let camera = Camera::with_perspective(60_000_000, 1_777_778);
    // 60 degrees in radian ticks, truncated.
    assert_eq!(camera.fov, 1_047_197);
    assert_eq!(camera.aspect_ratio, 1_777_778);
}

#[test]
fn test_set_position() {
    let mut camera = Camera::new();
    let new_pos = Vec3::new(1_000_000, 2_000_000, 3_000_000);
    camera.set_position(new_pos);
    assert_eq!(camera.position, new_pos);
}

#[test]
fn test_set_target() {
    let mut camera = Camera::new();
    let new_target = Vec3::new(1_000_000, 2_000_000, 3_000_000);
    camera.set_target(new_target);
    assert_eq!(camera.target, new_target);
}

#[test]
fn test_set_up() {
    let mut camera = Camera::new();
    let new_up = Vec3::new(0, 0, 1_000_000);
    camera.set_up(new_up);
    assert_eq!(camera.up, new_up);
}

#[test]
fn test_set_fov_degrees() {
    let mut camera = Camera::new();
    assert!(camera.set_fov_degrees(60_000_000).is_ok());
    assert_eq!(camera.fov, 1_047_197);

    assert!(camera.set_fov_degrees(0).is_err());
    assert!(camera.set_fov_degrees(180_000_000).is_err());
    assert!(camera.set_fov_degrees(-10_000_000).is_err());
}

#[test]
fn test_set_fov_radians() {
    let mut camera = Camera::new();
    assert!(camera.set_fov_radians(1_047_198).is_ok());
    assert_eq!(camera.fov, 1_047_198);

    assert!(camera.set_fov_radians(0).is_err());
    assert!(camera.set_fov_radians(3_141_593).is_err());
    assert!(camera.set_fov_radians(-1_000_000).is_err());
}

#[test]
fn test_set_aspect_ratio() {
    let mut camera = Camera::new();
    assert!(camera.set_aspect_ratio(1_777_778).is_ok());
    assert_eq!(camera.aspect_ratio, 1_777_778);

    assert!(camera.set_aspect_ratio(0).is_err());
    assert!(camera.set_aspect_ratio(-1_000_000).is_err());
}

#[test]
fn test_set_clipping_planes() {
    let mut camera = Camera::new();
    assert!(camera.set_clipping_planes(500_000, 200_000_000).is_ok());
    assert_eq!(camera.near, 500_000);
    assert_eq!(camera.far, 200_000_000);

    assert!(camera.set_clipping_planes(0, 100_000_000).is_err());
    assert!(camera.set_clipping_planes(-1_000_000, 100_000_000).is_err());
    assert!(camera.set_clipping_planes(10_000_000, 5_000_000).is_err());
}

#[test]
fn test_translate() {
    let mut camera = Camera::new();
    let original_pos = camera.position;
    let original_target = camera.target;
    let delta = Vec3::new(1_000_000, 2_000_000, 3_000_000);

    camera.translate(delta);
    assert_eq!(camera.position, original_pos.add(delta));
    assert_eq!(camera.target, original_target.add(delta));
}

#[test]
fn test_zoom() {
    let mut camera = Camera::look_at(Vec3::new(0, 0, 10_000_000), Vec3::new(0, 0, 0));
    let original_distance = camera.distance_to_target();

    assert!(camera.zoom(2_000_000).is_ok());
    let new_distance = camera.distance_to_target();
    assert_eq!(new_distance, original_distance / 2);

    assert!(camera.zoom(0).is_err());
    assert!(camera.zoom(-1_000_000).is_err());
}

#[test]
fn test_zoom_too_close() {
    let mut camera = Camera::look_at(Vec3::new(0, 0, 10_000), Vec3::new(0, 0, 0));
    assert!(camera.zoom(100_000_000).is_err());
}

#[test]
fn test_zoom_round_trip() {
    // Zooming in by two then out by a half lands back on the starting
    // distance, within a tick of fixed-point rounding.
    let mut camera = Camera::look_at(Vec3::new(0, 0, 8_000_000), Vec3::new(0, 0, 0));
    let original = camera.distance_to_target();
    assert!(camera.zoom(2 * SCALE).is_ok());
    assert!(camera.zoom(SCALE / 2).is_ok());
    let back = camera.distance_to_target();
    assert!((back - original).abs() <= 1);
}

#[test]
fn test_distance_to_target() {
    let camera = Camera::look_at(Vec3::new(0, 0, 5_000_000), Vec3::new(0, 0, 0));
    assert_eq!(camera.distance_to_target(), 5_000_000);
}

#[test]
fn test_fov_degrees() {
    let camera = Camera::new();
    // 785_398 radian ticks back to degree ticks: within a tick of 45.
    let deg = camera.fov_degrees();
    assert!((deg - 45_000_000).abs() <= 20);
}

#[test]
fn test_direction_vectors() {
    let camera = Camera::look_at(Vec3::new(0, 0, 5_000_000), Vec3::new(0, 0, 0));

    let forward = camera.forward();
    let right = camera.right();

    // Forward points towards negative Z, one unit long.
    assert_eq!(forward, Vec3::new(0, 0, -1_000_000));
    // Right for a Y-up camera looking down negative Z is the positive
    // X axis.
    assert_eq!(right, Vec3::new(1_000_000, 0, 0));
}

#[test]
fn test_default() {
    let camera1 = Camera::default();
    let camera2 = Camera::new();
    assert_eq!(camera1, camera2);
}

#[test]
fn test_view_matrix() {
    let camera = Camera::look_at(Vec3::new(0, 0, 5_000_000), Vec3::new(0, 0, 0));
    let m = camera.view_matrix();
    // Looking down the Z axis: forward is -Z, so the third row negates
    // it back and the translation moves the eye to the origin.
    assert_eq!(m.m22, 1_000_000);
    assert_eq!(m.m23, -5_000_000);
    assert_eq!(m.m33, 1_000_000);
}

#[test]
fn test_projection_matrix() {
    let camera = Camera::new();
    // tan of half of 45 degrees, in ticks.
    let m = camera.projection_matrix(414_214);
    assert!(m.m00 > 0);
    assert!(m.m11 > 0);
    assert!(m.m22 < 0);
    assert_eq!(m.m32, -1_000_000);
}

#[test]
fn test_view_projection_matrix() {
    let camera = Camera::new();
    let vp = camera.view_projection_matrix(414_214);
    let expected = camera.projection_matrix(414_214).mul(&camera.view_matrix());
    assert_eq!(vp, expected);
}

#[test]
fn test_move_forward() {
    let mut camera = Camera::look_at(Vec3::new(0, 0, 5_000_000), Vec3::new(0, 0, 0));
    let original_distance = camera.distance_to_target();

    camera.move_forward(1_000_000);
    let new_distance = camera.distance_to_target();

    assert!(new_distance < original_distance);
    assert_eq!(new_distance, original_distance - 1_000_000);
    assert_eq!(camera.target, Vec3::new(0, 0, 0));
}

#[test]
fn test_move_right() {
    let mut camera = Camera::look_at(Vec3::new(0, 0, 5_000_000), Vec3::new(0, 0, 0));
    let original_pos = camera.position;

    camera.move_right(1_000_000);

    assert!(camera.position.x > original_pos.x);
    assert_eq!(camera.target, Vec3::new(0, 0, 0));
}

#[test]
fn test_move_up() {
    let mut camera = Camera::new();
    let original_pos = camera.position;

    camera.move_up(1_000_000);

    assert_eq!(camera.position.y, original_pos.y + 1_000_000);
    assert_eq!(camera.target, Vec3::new(0, 0, 0));
}

#[test]
fn test_frame_bounding_box() {
    let mut camera = Camera::new();
    let min = Vec3::new(-1_000_000, -1_000_000, -1_000_000);
    let max = Vec3::new(1_000_000, 1_000_000, 1_000_000);

    // tan of half of 45 degrees, in ticks.
    assert!(camera.frame_bounding_box(min, max, 414_214).is_ok());

    assert_eq!(camera.target, Vec3::new(0, 0, 0));
    assert!(camera.distance_to_target() > 0);
}

#[test]
fn test_frame_bounding_box_invalid() {
    let mut camera = Camera::new();
    let point = Vec3::new(0, 0, 0);
    assert!(camera.frame_bounding_box(point, point, 414_214).is_err());
}

#[test]
fn test_orbit_step() {
    let camera = Camera::look_at(Vec3::new(0, 0, 5_000_000), Vec3::new(0, 0, 0));
    // A quarter-turn yaw step from angles (0, 0).
    let (theta, phi) = camera.orbit_step(0, 0, 785_398, 0).unwrap();
    assert_eq!(theta, 785_398);
    assert_eq!(phi, 0);

    // The pitch clamps a hundredth of a radian inside the poles.
    let (_, phi) = camera.orbit_step(0, 1_500_000, 0, 500_000).unwrap();
    assert_eq!(phi, 1_560_796);
}

#[test]
fn test_orbit_step_at_target() {
    let camera = Camera::look_at(Vec3::new(0, 0, 0), Vec3::new(0, 0, 0));
    assert!(camera.orbit_step(0, 0, 785_398, 0).is_err());
}

#[test]
fn test_orbit_preserves_distance() {
    // An orbit step around the target keeps the distance, within the
    // rounding of the supplied sines and cosines: place the camera from
    // spherical angles before and after a yaw-only step.
    let mut camera = Camera::look_at(Vec3::new(0, 0, 5_000_000), Vec3::new(0, 0, 0));
    let radius = camera.distance_to_target();

    let (theta, phi) = camera.orbit_step(0, 0, 785_398, 0).unwrap();
    assert_eq!(phi, 0);
    // sin/cos of the stepped yaw (pi/4) and of the unchanged pitch.
    let (st, ct) = (707_107, 707_107);
    let (sp, cp) = (0, 1_000_000);
    camera.place_spherical(radius, st, ct, sp, cp);
    let after = camera.distance_to_target();
    assert!((after - radius).abs() <= 2, "distance drifted: {} vs {}", after, radius);
    assert!(theta == 785_398);
    // The position moved off the original axis.
    assert!(camera.position.x != 0);
}
