use altostratus::fixed::SCALE;
use altostratus::graphics::{BraillePixel, Camera as ViewerCamera, Point2D, PointCloud, Rotation, Screen};
use altostratus::{Axes, AxesConfig, Color, Vec3};

#[test]
fn test_axes_config_new() {
    let config = AxesConfig::new();
    assert_eq!(config.length, 5_000_000);
    assert_eq!(config.x_color, Color::red());
    assert_eq!(config.y_color, Color::green());
    assert_eq!(config.z_color, Color::blue());
    assert!(config.show_ticks);
    assert!(config.show_arrows);
    assert!(config.show_labels);
}

#[test]
fn test_axes_config_builder() {
    let config = AxesConfig::new()
        .with_length(10_000_000)
        .with_colors(Color::white(), Color::white(), Color::white())
        .with_ticks(500_000, 200_000)
        .with_arrow_size(300_000)
        .with_features(false, true, false);

    assert_eq!(config.length, 10_000_000);
    assert_eq!(config.x_color, Color::white());
    assert_eq!(config.tick_spacing, 500_000);
    assert_eq!(config.tick_length, 200_000);
    assert_eq!(config.arrow_size, 300_000);
    assert!(!config.show_ticks);
    assert!(config.show_arrows);
    assert!(!config.show_labels);
}

#[test]
fn test_axes_config_independent_fields() {
    // Builder methods set their own field and leave the others alone.
    let base = AxesConfig::new();
    let a = base.with_length(10_000_000);
    assert_eq!(a.length, 10_000_000);
    assert_eq!(a.tick_spacing, base.tick_spacing);
    assert_eq!(a.arrow_size, base.arrow_size);
    assert_eq!(a.points_per_unit, base.points_per_unit);

    let b = base.with_resolution(20_000_000);
    assert_eq!(b.points_per_unit, 20_000_000);
    assert_eq!(b.length, base.length);

    let c = base.with_arrow_size(400_000);
    assert_eq!(c.arrow_size, 400_000);
    assert_eq!(c.tick_length, base.tick_length);
}

#[test]
fn test_axes_default() {
    let axes = Axes::default();
    assert_eq!(axes.config().length, 5_000_000);
}

#[test]
fn test_axes_generate_points() {
    let config = AxesConfig::new().with_length(2_000_000).with_features(false, false, false);

    let axes = Axes::new(config);
    let cloud = axes.generate_points();

    assert!(!cloud.is_empty());

    let mut has_red = false;
    let mut has_green = false;
    let mut has_blue = false;

    for point in cloud.points() {
        if point.color == Color::red() {
            has_red = true;
        }
        if point.color == Color::green() {
            has_green = true;
        }
        if point.color == Color::blue() {
            has_blue = true;
        }
    }

    assert!(has_red, "Should have red X-axis points");
    assert!(has_green, "Should have green Y-axis points");
    assert!(has_blue, "Should have blue Z-axis points");
}

#[test]
fn test_axes_with_ticks() {
    let config = AxesConfig::new()
        .with_length(2_000_000)
        .with_ticks(1_000_000, 100_000)
        .with_features(true, false, false);

    let axes = Axes::new(config);
    let cloud = axes.generate_points();

    assert!(cloud.len() > 60);
}

#[test]
fn test_axes_with_arrows() {
    let config = AxesConfig::new().with_length(2_000_000).with_features(false, true, false);

    let axes = Axes::new(config);
    let cloud = axes.generate_points();

    assert!(cloud.len() > 60);
}

#[test]
fn test_axes_with_labels() {
    let config = AxesConfig::new().with_length(2_000_000).with_features(false, false, true);

    let axes = Axes::new(config);
    let cloud = axes.generate_points();

    assert!(cloud.len() > 60);
}

#[test]
fn test_axes_set_config() {
    let mut axes = Axes::default();
    let new_config = AxesConfig::new().with_length(10_000_000);

    axes.set_config(new_config);
    assert_eq!(axes.config().length, 10_000_000);
}

#[test]
fn test_axes_config_default() {
    let config1 = AxesConfig::default();
    let config2 = AxesConfig::new();

    assert_eq!(config1.length, config2.length);
    assert_eq!(config1.x_color, config2.x_color);
    assert_eq!(config1.show_ticks, config2.show_ticks);
}

#[test]
fn test_get_perpendicular_dirs() {
    let axes = Axes::default();

    // Both perpendiculars are orthogonal to the axis, up to fixed-point
    // rounding of a couple of ticks.
    let dot = |a: Vec3, b: Vec3| -> i64 {
        ((a.x as i128 * b.x as i128 + a.y as i128 * b.y as i128 + a.z as i128 * b.z as i128)
            / SCALE as i128) as i64
    };

    let (perp1, perp2) = axes.get_perpendicular_dirs(Vec3::new(SCALE, 0, 0));
    assert!(dot(perp1, Vec3::new(SCALE, 0, 0)).abs() <= 2);
    assert!(dot(perp2, Vec3::new(SCALE, 0, 0)).abs() <= 2);
    assert!(dot(perp1, perp2).abs() <= 2);

    let (perp1, perp2) = axes.get_perpendicular_dirs(Vec3::new(0, SCALE, 0));
    assert!(dot(perp1, Vec3::new(0, SCALE, 0)).abs() <= 2);
    assert!(dot(perp2, Vec3::new(0, SCALE, 0)).abs() <= 2);
    assert!(dot(perp1, perp2).abs() <= 2);
}

#[test]
fn test_point2d_new() {
    let p = Point2D::new(3, -4);
    assert_eq!(p.x, 3);
    assert_eq!(p.y, -4);
}

#[test]
fn test_braille_pixel_empty() {
    let p = BraillePixel::new();
    assert_eq!(p.to_char(), '\u{2800}');
}

#[test]
fn test_braille_pixel_bits() {
    // Each sub-pixel maps to its own Braille bit.
    let mut p = BraillePixel::new();
    p.set(0, 0, true);
    assert_eq!(p.to_char(), '\u{2801}');

    let mut p = BraillePixel::new();
    p.set(3, 1, true);
    assert_eq!(p.to_char(), '\u{2880}');

    let mut p = BraillePixel::new();
    p.set(0, 0, true);
    p.set(1, 0, true);
    p.set(2, 0, true);
    p.set(0, 1, true);
    p.set(1, 1, true);
    p.set(2, 1, true);
    p.set(3, 0, true);
    p.set(3, 1, true);
    assert_eq!(p.to_char(), '\u{28FF}');
}

#[test]
fn test_screen_write_and_bounds() {
    let mut screen = Screen::new();
    screen.resize(10, 10);

    // The top and left edges are ignored, as are positions outside.
    screen.write(true, &Point2D::new(0, 5));
    screen.write(true, &Point2D::new(5, 0));
    screen.write(true, &Point2D::new(12, 5));
    screen.write(true, &Point2D::new(5, 5));

    let lines = screen.to_braille_lines();
    let mut lit = 0;
    for line in &lines {
        for c in line.chars() {
            let bits = (c as u32) - 0x2800;
            lit += bits.count_ones();
        }
    }
    assert_eq!(lit, 1);
}

#[test]
fn test_screen_clear() {
    let mut screen = Screen::new();
    screen.resize(8, 8);
    screen.write(true, &Point2D::new(3, 3));
    screen.clear();

    let lines = screen.to_braille_lines();
    for line in &lines {
        for c in line.chars() {
            assert_eq!(c, '\u{2800}');
        }
    }
}

#[test]
fn test_screen_resize_preserves() {
    let mut screen = Screen::new();
    screen.resize(8, 8);
    screen.write(true, &Point2D::new(3, 3));

    // Growing keeps the written sub-pixel; shrinking below it drops it.
    screen.resize(16, 16);
    let lines = screen.to_braille_lines();
    let lit: u32 = lines
        .iter()
        .flat_map(|l| l.chars())
        .map(|c| ((c as u32) - 0x2800).count_ones())
        .sum();
    assert_eq!(lit, 1);

    screen.resize(2, 2);
    let lines = screen.to_braille_lines();
    let lit: u32 = lines
        .iter()
        .flat_map(|l| l.chars())
        .map(|c| ((c as u32) - 0x2800).count_ones())
        .sum();
    assert_eq!(lit, 0);
}

#[test]
fn test_screen_line_diagonal() {
    let mut screen = Screen::new();
    screen.resize(10, 10);
    screen.line(&Point2D::new(1, 1), &Point2D::new(5, 5));

    // Bresenham from (1,1) to (5,5) lights the diagonal, except the
    // final endpoint which the stepper leaves unwritten.
    let lines = screen.to_braille_lines();
    let lit: u32 = lines
        .iter()
        .flat_map(|l| l.chars())
        .map(|c| ((c as u32) - 0x2800).count_ones())
        .sum();
    assert_eq!(lit, 4);
}

#[test]
fn test_braille_packing_positions() {
    let mut screen = Screen::new();
    screen.resize(4, 8);
    // One dot in the second 2x4 block, at its top-left sub-pixel.
    screen.write(true, &Point2D::new(2, 4));
    let lines = screen.to_braille_lines();
    assert_eq!(lines.len(), 2);
    assert_eq!(lines[0].chars().count(), 2);
    let second_band: Vec<char> = lines[1].chars().collect();
    assert_eq!(second_band[1], '\u{2801}');
}

#[test]
fn test_viewer_camera_transform() {
    let cam = ViewerCamera::new(Vec3::new(0, 0, 0), 0, 0, 0, 100_000, 1_700_000);
    // With all angles zero the rotation is the identity, up to the
    // fixed-point unit factors.
    let rot = Rotation {
        sin_yaw: 0,
        cos_yaw: SCALE,
        sin_pitch: 0,
        cos_pitch: SCALE,
        sin_roll: 0,
        cos_roll: SCALE,
    };
    let p = cam.world_to_camera(&Vec3::new(1_000_000, 2_000_000, 3_000_000), &rot);
    assert_eq!(p, Vec3::new(1_000_000, 2_000_000, 3_000_000));
}

#[test]
fn test_viewer_camera_plot_point_behind() {
    let mut cam = ViewerCamera::new(Vec3::new(0, 0, 0), 0, 0, 0, 100_000, 1_700_000);
    cam.screen.resize(20, 20);
    let rot = Rotation {
        sin_yaw: 0,
        cos_yaw: SCALE,
        sin_pitch: 0,
        cos_pitch: SCALE,
        sin_roll: 0,
        cos_roll: SCALE,
    };
    // A point behind the viewport plane is dropped.
    cam.plot_point(&Vec3::new(0, 0, -1_000_000), &rot, 1_142_103);
    let lit: u32 = cam
        .screen
        .to_braille_lines()
        .iter()
        .flat_map(|l| l.chars())
        .map(|c| ((c as u32) - 0x2800).count_ones())
        .sum();
    assert_eq!(lit, 0);

    // A point in front lands on the screen near its center.
    cam.plot_point(&Vec3::new(0, 0, 1_000_000), &rot, 1_142_103);
    let lit: u32 = cam
        .screen
        .to_braille_lines()
        .iter()
        .flat_map(|l| l.chars())
        .map(|c| ((c as u32) - 0x2800).count_ones())
        .sum();
    assert_eq!(lit, 1);
}

#[test]
fn test_viewer_plot_line_clipped_out() {
    let mut cam = ViewerCamera::new(Vec3::new(0, 0, 0), 0, 0, 0, 100_000, 1_700_000);
    cam.screen.resize(20, 20);
    let rot = Rotation {
        sin_yaw: 0,
        cos_yaw: SCALE,
        sin_pitch: 0,
        cos_pitch: SCALE,
        sin_roll: 0,
        cos_roll: SCALE,
    };
    // Both endpoints behind the viewport: nothing is drawn.
    cam.plot_line(&Vec3::new(0, 0, -1_000_000), &Vec3::new(0, 0, -2_000_000), &rot, 1_142_103);
    let lit: u32 = cam
        .screen
        .to_braille_lines()
        .iter()
        .flat_map(|l| l.chars())
        .map(|c| ((c as u32) - 0x2800).count_ones())
        .sum();
    assert_eq!(lit, 0);

    // A crossing segment is clipped to the plane and drawn.
    cam.plot_line(&Vec3::new(0, 0, -1_000_000), &Vec3::new(500_000, 0, 2_000_000), &rot, 1_142_103);
    let lit: u32 = cam
        .screen
        .to_braille_lines()
        .iter()
        .flat_map(|l| l.chars())
        .map(|c| ((c as u32) - 0x2800).count_ones())
        .sum();
    assert!(lit > 0);
}

#[test]
fn test_generate_axes_public() {
    let points = vec![Vec3::new(1_000_000, 0, 0), Vec3::new(0, 2_000_000, 0)];
    let axes = PointCloud::generate_axes_public(&points);
    assert_eq!(axes.len(), 3);
    // Axes run a tenth beyond the farthest point.
    assert_eq!(axes[0].axis_line.0, Vec3::new(0, 0, 0));
    assert_eq!(axes[0].axis_line.1, Vec3::new(2_200_000, 0, 0));
    assert_eq!(axes[1].axis_line.1, Vec3::new(0, 2_200_000, 0));
    assert_eq!(axes[2].axis_line.1, Vec3::new(0, 0, 2_200_000));
    // Each axis gets two arrowhead strokes from its tip.
    assert_eq!(axes[0].arrowhead_lines.len(), 2);
    assert_eq!(axes[0].arrowhead_lines[0].0, Vec3::new(2_200_000, 0, 0));
}

#[test]
fn test_generate_axes_empty() {
    let axes = PointCloud::generate_axes_public(&[]);
    assert_eq!(axes.len(), 3);
    assert_eq!(axes[0].axis_line.1, Vec3::new(1_000_000, 0, 0));
}

#[test]
fn test_viewer_cloud_bounds() {
    let cloud = PointCloud {
        points: vec![
            Vec3::new(-1_000_000, 0, 500_000),
            Vec3::new(2_000_000, -3_000_000, 0),
        ],
        axes: Vec::new(),
    };
    let (mn, mx) = cloud.get_bounds();
    assert_eq!(mn, Vec3::new(-1_000_000, -3_000_000, 0));
    assert_eq!(mx, Vec3::new(2_000_000, 0, 500_000));

    let center = cloud.get_center();
    assert_eq!(center, Vec3::new(500_000, -1_500_000, 250_000));

    // Diagonal of the box (3, 3, 0.5): floor sqrt of the squared sum.
    let diag = cloud.get_diagonal();
    assert_eq!(diag, 4_272_001);
}
