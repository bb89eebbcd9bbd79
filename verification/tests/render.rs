use altostratus::fixed::SCALE;
use altostratus::{
    AdvancedAsciiRenderer,
    AdvancedImageRenderer,
    AsciiRenderer,
    Camera,
    CharacterSet,
    Color,
    DepthBuffer,
    ImageRenderer,
    PointCloud,
    PointStyle,
    Projector,
    ScreenPoint,
    Vec3,
};

// The tangent of half of the default 45 degree field of view, in ticks.
const TAN_HALF_45: i64 = 414_214;

#[test]
fn test_screen_point_new() {
    let point = ScreenPoint::new(10_000_000, 20_000_000, 500_000);
    assert_eq!(point.x, 10_000_000);
    assert_eq!(point.y, 20_000_000);
    assert_eq!(point.depth, 500_000);
}

#[test]
fn test_screen_point_is_in_bounds() {
    let point = ScreenPoint::new(10_000_000, 20_000_000, 500_000);
    assert!(point.is_in_bounds(100, 100));
    assert!(!point.is_in_bounds(5, 100));
    assert!(!point.is_in_bounds(100, 15));

    let point_negative = ScreenPoint::new(-1_000_000, 20_000_000, 500_000);
    assert!(!point_negative.is_in_bounds(100, 100));

    let point_depth_out = ScreenPoint::new(10_000_000, 20_000_000, 1_500_000);
    assert!(!point_depth_out.is_in_bounds(100, 100));
}

#[test]
fn test_screen_point_to_pixel_coords() {
    let point = ScreenPoint::new(10_500_000, 20_700_000, 500_000);
    let coords = point.to_pixel_coords(100, 100);
    assert_eq!(coords, (10, 20));

    let point_out = ScreenPoint::new(-5_000_000, 150_000_000, 500_000);
    let coords_clamped = point_out.to_pixel_coords(100, 100);
    assert_eq!(coords_clamped, (0, 99));
}

#[test]
fn test_projector_new() {
    let projector = Projector::new(800, 600).unwrap();
    assert_eq!(projector.viewport_size(), (800, 600));

    assert!(Projector::new(0, 600).is_err());
    assert!(Projector::new(800, 0).is_err());
}

#[test]
fn test_projector_set_viewport() {
    let mut projector = Projector::new(800, 600).unwrap();
    assert!(projector.set_viewport(1024, 768).is_ok());
    assert_eq!(projector.viewport_size(), (1024, 768));

    assert!(projector.set_viewport(0, 768).is_err());
    assert!(projector.set_viewport(1024, 0).is_err());
}

#[test]
fn test_projector_project_point_simple() {
    let projector = Projector::new(100, 100).unwrap();
    let camera = Camera::look_at(Vec3::new(0, 0, 5_000_000), Vec3::new(0, 0, 0));

    // The world origin lands within a pixel of the viewport center.
    let screen_point = projector.project_point(Vec3::new(0, 0, 0), &camera, TAN_HALF_45).unwrap();
    assert!((screen_point.x - 50 * SCALE).abs() < SCALE);
    assert!((screen_point.y - 50 * SCALE).abs() < SCALE);
    assert!(screen_point.depth > 0 && screen_point.depth < SCALE);
}

#[test]
fn test_projector_project_point_behind_camera() {
    let projector = Projector::new(100, 100).unwrap();
    let camera = Camera::look_at(Vec3::new(0, 0, 5_000_000), Vec3::new(0, 0, 0));

    // A point at z = +10 sits behind a camera at z = +5 looking at the
    // origin, and is never returned.
    let screen_point = projector.project_point(Vec3::new(0, 0, 10_000_000), &camera, TAN_HALF_45);
    assert!(screen_point.is_none());
}

#[test]
fn test_projector_project_points() {
    let projector = Projector::new(100, 100).unwrap();
    let camera = Camera::look_at(Vec3::new(0, 0, 5_000_000), Vec3::new(0, 0, 0));

    let world_points = vec![
        Vec3::new(0, 0, 0),
        Vec3::new(0, 0, 10_000_000),
        Vec3::new(1_000_000, 0, 0),
    ];

    let projected = projector.project_points(&world_points, &camera, TAN_HALF_45);

    assert_eq!(projected.len(), 2);
    assert_eq!(projected[0].0, 0);
    assert_eq!(projected[1].0, 2);
}

#[test]
fn test_projector_project_point_cloud() {
    let projector = Projector::new(100, 100).unwrap();
    let camera = Camera::look_at(Vec3::new(0, 0, 5_000_000), Vec3::new(0, 0, 0));

    let mut cloud = PointCloud::new();
    cloud.add_point_coords(0, 0, 0, Color::red());
    cloud.add_point_coords(0, 0, 10_000_000, Color::green());
    cloud.add_point_coords(1_000_000, 0, 0, Color::blue());

    let projected = projector.project_point_cloud(&cloud, &camera, TAN_HALF_45);

    assert_eq!(projected.len(), 2);
    assert_eq!(projected[0].0.color, Color::red());
    assert_eq!(projected[1].0.color, Color::blue());
}

#[test]
fn test_depth_buffer_new() {
    let buffer = DepthBuffer::new(100, 100).unwrap();
    assert_eq!(buffer.dimensions(), (100, 100));

    assert!(DepthBuffer::new(0, 100).is_err());
    assert!(DepthBuffer::new(100, 0).is_err());
}

#[test]
fn test_depth_buffer_clear() {
    let mut buffer = DepthBuffer::new(10, 10).unwrap();

    assert!(buffer.test_and_update(5, 5, 500_000));
    assert_eq!(buffer.get_depth(5, 5).unwrap(), 500_000);

    buffer.clear();
    assert_eq!(buffer.get_depth(5, 5).unwrap(), SCALE);
}

#[test]
fn test_depth_buffer_resize() {
    let mut buffer = DepthBuffer::new(10, 10).unwrap();
    assert!(buffer.resize(20, 20).is_ok());
    assert_eq!(buffer.dimensions(), (20, 20));

    assert!(buffer.resize(0, 20).is_err());
}

#[test]
fn test_depth_buffer_test_and_update() {
    let mut buffer = DepthBuffer::new(10, 10).unwrap();

    assert!(buffer.test_and_update(5, 5, 500_000));
    assert_eq!(buffer.get_depth(5, 5).unwrap(), 500_000);

    assert!(buffer.test_and_update(5, 5, 300_000));
    assert_eq!(buffer.get_depth(5, 5).unwrap(), 300_000);

    assert!(!buffer.test_and_update(5, 5, 700_000));
    assert_eq!(buffer.get_depth(5, 5).unwrap(), 300_000);

    assert!(!buffer.test_and_update(15, 5, 100_000));
    assert!(!buffer.test_and_update(5, 15, 100_000));
}

#[test]
fn test_depth_buffer_decreasing_depths_always_pass() {
    // Strictly decreasing depths at one cell always pass; a repeat of
    // the same depth always fails and leaves the cell unchanged.
    let mut buffer = DepthBuffer::new(4, 4).unwrap();
    let mut depth: i64 = 900_000;
    while depth > 0 {
        assert!(buffer.test_and_update(2, 2, depth));
        assert!(!buffer.test_and_update(2, 2, depth));
        assert_eq!(buffer.get_depth(2, 2).unwrap(), depth);
        depth -= 100_000;
    }
}

#[test]
fn test_depth_buffer_get_depth() {
    let buffer = DepthBuffer::new(10, 10).unwrap();

    assert_eq!(buffer.get_depth(5, 5).unwrap(), SCALE);

    assert!(buffer.get_depth(15, 5).is_none());
    assert!(buffer.get_depth(5, 15).is_none());
}

#[test]
fn test_character_set_standard() {
    let charset = CharacterSet::Standard;
    let chars = charset.chars();
    assert_eq!(chars, " .:-=+*#%@".chars().collect::<Vec<_>>());
    assert_eq!(charset.levels(), 10);
}

#[test]
fn test_character_set_blocks() {
    let charset = CharacterSet::Blocks;
    let chars = charset.chars();
    assert_eq!(chars, " \u{2591}\u{2592}\u{2593}\u{2588}".chars().collect::<Vec<_>>());
    assert_eq!(charset.levels(), 5);
}

#[test]
fn test_character_set_custom() {
    let custom_chars = vec!['A', 'B', 'C'];
    let charset = CharacterSet::Custom(custom_chars.clone());
    assert_eq!(charset.chars(), custom_chars);
    assert_eq!(charset.levels(), 3);
}

#[test]
fn test_character_set_default() {
    let charset = CharacterSet::default();
    match charset {
        CharacterSet::Standard => (),
        _ => panic!("Default should be Standard"),
    }
}

#[test]
fn test_ascii_renderer_new() {
    let renderer = AsciiRenderer::new(80, 24).unwrap();
    assert_eq!(renderer.viewport_size(), (80, 24));
    assert_eq!(renderer.background_char(), ' ');
    assert!(!renderer.color_enabled());
    assert!(renderer.axes_config().is_none());

    assert!(AsciiRenderer::new(0, 24).is_err());
    assert!(AsciiRenderer::new(80, 0).is_err());
}

#[test]
fn test_ascii_renderer_with_color() {
    let renderer = AsciiRenderer::with_color(80, 24).unwrap();
    assert!(renderer.color_enabled());
}

#[test]
fn test_set_character_set() {
    let mut renderer = AsciiRenderer::new(80, 24).unwrap();
    renderer.set_character_set(CharacterSet::Blocks);

    match renderer.character_set() {
        CharacterSet::Blocks => (),
        _ => panic!("Character set not set correctly"),
    }
}

#[test]
fn test_set_background_char() {
    let mut renderer = AsciiRenderer::new(80, 24).unwrap();
    renderer.set_background_char('.');
    assert_eq!(renderer.background_char(), '.');
}

#[test]
fn test_set_color_enabled() {
    let mut renderer = AsciiRenderer::new(80, 24).unwrap();
    assert!(!renderer.color_enabled());

    renderer.set_color_enabled(true);
    assert!(renderer.color_enabled());

    renderer.set_color_enabled(false);
    assert!(!renderer.color_enabled());
}

#[test]
fn test_axes_configuration() {
    let mut renderer = AsciiRenderer::new(80, 24).unwrap();

    assert!(renderer.axes_config().is_none());

    renderer.enable_default_axes();
    assert!(renderer.axes_config().is_some());

    let custom_config = altostratus::AxesConfig::new().with_length(10_000_000);
    renderer.enable_axes(custom_config);
    assert!(renderer.axes_config().is_some());
    assert_eq!(renderer.axes_config().unwrap().length, 10_000_000);

    renderer.disable_axes();
    assert!(renderer.axes_config().is_none());
}

#[test]
fn test_depth_to_char() {
    let renderer = AsciiRenderer::new(10, 10).unwrap();

    let char_near = renderer.depth_to_char(0);
    let char_mid = renderer.depth_to_char(500_000);
    let char_far = renderer.depth_to_char(950_000);
    let char_very_far = renderer.depth_to_char(SCALE);

    let chars = renderer.character_set().chars();
    let visible_chars = &chars[1..];

    assert_eq!(char_near, visible_chars[visible_chars.len() - 1]);
    assert_eq!(char_mid, '=');
    assert_eq!(char_far, visible_chars[0]);
    assert_eq!(char_very_far, visible_chars[0]);

    assert_ne!(char_near, ' ');
    assert_ne!(char_mid, ' ');
    assert_ne!(char_far, ' ');
    assert_ne!(char_very_far, ' ');
}

#[test]
fn test_depth_to_char_monotonic() {
    // A larger depth never yields a denser (later-in-ramp) glyph, and
    // the mapping is flat beyond the practical far cutoff.
    let renderer = AsciiRenderer::new(10, 10).unwrap();
    let chars = renderer.character_set().chars();
    let pos = |c: char| chars.iter().position(|&x| x == c).unwrap();

    let mut d: i64 = 0;
    let mut last = pos(renderer.depth_to_char(0));
    while d <= 950_000 {
        let p = pos(renderer.depth_to_char(d));
        assert!(p <= last);
        last = p;
        d += 50_000;
    }
    assert_eq!(renderer.depth_to_char(960_000), renderer.depth_to_char(999_999));
}

#[test]
fn test_color_to_ansi() {
    let renderer = AsciiRenderer::with_color(10, 10).unwrap();

    let red_ansi = renderer.color_to_ansi(Color::red());
    assert!(red_ansi.contains("\u{1b}[38;5;"));
    assert_eq!(red_ansi, "\u{1b}[38;5;196m");

    let renderer_no_color = AsciiRenderer::new(10, 10).unwrap();
    let no_ansi = renderer_no_color.color_to_ansi(Color::red());
    assert!(no_ansi.is_empty());
}

#[test]
fn test_render_empty_point_cloud() {
    let mut renderer = AsciiRenderer::new(10, 10).unwrap();
    let empty_cloud = PointCloud::new();
    let camera = Camera::new();

    let output = renderer.render(&empty_cloud, &camera, TAN_HALF_45).unwrap();

    let lines: Vec<&str> = output.lines().collect();
    assert_eq!(lines.len(), 10);
    for line in lines {
        assert_eq!(line, "          ");
    }
}

#[test]
fn test_render_single_point() {
    let mut renderer = AsciiRenderer::new(20, 20).unwrap();
    let mut cloud = PointCloud::new();

    cloud.add_point_coords(0, 0, 0, Color::white());

    let camera = Camera::look_at(Vec3::new(0, 0, 5_000_000), Vec3::new(0, 0, 0));

    let output = renderer.render(&cloud, &camera, TAN_HALF_45).unwrap();

    assert!(
        output.chars().any(|c| c != ' ' && c != '\n'),
        "Expected at least one visible character, but got only spaces and newlines"
    );

    let lines: Vec<&str> = output.lines().collect();
    assert_eq!(lines.len(), 20);
}

#[test]
fn test_render_colored_point_uses_ansi() {
    let mut renderer = AsciiRenderer::with_color(20, 20).unwrap();
    let mut cloud = PointCloud::new();
    cloud.add_point_coords(0, 0, 0, Color::red());
    let camera = Camera::look_at(Vec3::new(0, 0, 5_000_000), Vec3::new(0, 0, 0));
    let output = renderer.render(&cloud, &camera, TAN_HALF_45).unwrap();
    assert!(output.contains("\u{1b}[38;5;196m"));
    assert!(output.contains("\u{1b}[0m"));
}

#[test]
fn test_render_with_axes() {
    let mut renderer = AsciiRenderer::new(30, 20).unwrap();
    renderer.enable_default_axes();

    let mut cloud = PointCloud::new();
    cloud.add_point_coords(0, 0, 0, Color::white());

    let camera = Camera::look_at(Vec3::new(0, 0, 5_000_000), Vec3::new(0, 0, 0));

    let output = renderer.render(&cloud, &camera, TAN_HALF_45).unwrap();

    let visible_chars = output.chars().filter(|&c| c != ' ' && c != '\n').count();
    assert!(visible_chars > 10, "Should have visible axis characters");
}

#[test]
fn test_set_viewport() {
    let mut renderer = AsciiRenderer::new(80, 24).unwrap();
    assert!(renderer.set_viewport(100, 30).is_ok());
    assert_eq!(renderer.viewport_size(), (100, 30));

    assert!(renderer.set_viewport(0, 30).is_err());
    assert!(renderer.set_viewport(100, 0).is_err());
}

#[test]
fn test_advanced_ascii_renderer_new() {
    let renderer = AdvancedAsciiRenderer::new(80, 24).unwrap();
    assert_eq!(renderer.viewport_size(), (80, 24));
}

#[test]
fn test_advanced_renderer_border() {
    let mut renderer = AdvancedAsciiRenderer::new(10, 5).unwrap();
    renderer.set_border(true, '#');

    let cloud = PointCloud::new();
    let camera = Camera::new();

    let output = renderer.render(&cloud, &camera, TAN_HALF_45).unwrap();

    assert!(output.contains('#'));

    let lines: Vec<&str> = output.lines().collect();
    assert!(lines.len() > 5);
}

#[test]
fn test_advanced_renderer_info() {
    let mut renderer = AdvancedAsciiRenderer::new(10, 5).unwrap();
    renderer.set_info(true);

    let cloud = PointCloud::new();
    let camera = Camera::new();

    let output = renderer.render(&cloud, &camera, TAN_HALF_45).unwrap();

    assert!(output.contains("Camera:"));
    assert!(output.contains("FOV:"));
    assert!(output.contains("Viewport:"));
}

#[test]
fn test_image_renderer_new() {
    let renderer = ImageRenderer::new(800, 600).unwrap();
    assert_eq!(renderer.viewport_size(), (800, 600));
    assert_eq!(renderer.background_color(), Color::black());
    assert_eq!(renderer.point_size(), 2_000_000);

    assert!(ImageRenderer::new(0, 600).is_err());
    assert!(ImageRenderer::new(800, 0).is_err());
}

#[test]
fn test_image_renderer_with_background() {
    let renderer = ImageRenderer::with_background(800, 600, Color::white()).unwrap();
    assert_eq!(renderer.background_color(), Color::white());
}

#[test]
fn test_set_background_color() {
    let mut renderer = ImageRenderer::new(800, 600).unwrap();
    renderer.set_background_color(Color::blue());
    assert_eq!(renderer.background_color(), Color::blue());
}

#[test]
fn test_set_point_size() {
    let mut renderer = ImageRenderer::new(800, 600).unwrap();
    assert!(renderer.set_point_size(5_000_000).is_ok());
    assert_eq!(renderer.point_size(), 5_000_000);

    assert!(renderer.set_point_size(0).is_err());
    assert!(renderer.set_point_size(-1_000_000).is_err());
}

#[test]
fn image_renderer_test_set_viewport() {
    let mut renderer = ImageRenderer::new(800, 600).unwrap();
    assert!(renderer.set_viewport(1024, 768).is_ok());
    assert_eq!(renderer.viewport_size(), (1024, 768));

    assert!(renderer.set_viewport(0, 768).is_err());
    assert!(renderer.set_viewport(1024, 0).is_err());
}

#[test]
fn image_renderer_test_render_empty_point_cloud() {
    let mut renderer = ImageRenderer::new(100, 100).unwrap();
    let empty_cloud = PointCloud::new();
    let camera = Camera::new();

    let image = renderer.render(&empty_cloud, &camera, TAN_HALF_45).unwrap();
    assert_eq!(image.width(), 100);
    assert_eq!(image.height(), 100);

    // The whole image is the background color.
    for y in 0..100 {
        for x in 0..100 {
            assert_eq!(image.get_pixel(x, y), Color::black());
        }
    }
}

#[test]
fn image_renderer_test_render_single_point() {
    let mut renderer = ImageRenderer::new(100, 100).unwrap();
    let mut cloud = PointCloud::new();

    cloud.add_point_coords(0, 0, 0, Color::red());

    let camera = Camera::look_at(Vec3::new(0, 0, 5_000_000), Vec3::new(0, 0, 0));

    let image = renderer.render(&cloud, &camera, TAN_HALF_45).unwrap();
    assert_eq!(image.width(), 100);
    assert_eq!(image.height(), 100);

    let mut found_red = false;
    for y in 0..100 {
        for x in 0..100 {
            if image.get_pixel(x, y) == Color::red() {
                found_red = true;
            }
        }
    }
    assert!(found_red, "Red point should be visible in the rendered image");
}

#[test]
fn test_render_multiple_points() {
    let mut renderer = ImageRenderer::new(200, 200).unwrap();
    let mut cloud = PointCloud::new();

    cloud.add_point_coords(0, 0, 0, Color::red());
    cloud.add_point_coords(1_000_000, 0, 0, Color::green());
    cloud.add_point_coords(-1_000_000, 0, 0, Color::blue());

    let camera = Camera::look_at(Vec3::new(0, 0, 5_000_000), Vec3::new(0, 0, 0));

    let image = renderer.render(&cloud, &camera, TAN_HALF_45).unwrap();

    let mut has_red = false;
    let mut has_green = false;
    let mut has_blue = false;

    for y in 0..200 {
        for x in 0..200 {
            let p = image.get_pixel(x, y);
            if p == Color::red() {
                has_red = true;
            }
            if p == Color::green() {
                has_green = true;
            }
            if p == Color::blue() {
                has_blue = true;
            }
        }
    }

    assert!(has_red, "Should have red pixels");
    assert!(has_green, "Should have green pixels");
    assert!(has_blue, "Should have blue pixels");
}

#[test]
fn test_render_points_behind_camera() {
    let mut renderer = ImageRenderer::new(100, 100).unwrap();
    let mut cloud = PointCloud::new();

    cloud.add_point_coords(0, 0, 10_000_000, Color::red());

    let camera = Camera::look_at(Vec3::new(0, 0, 5_000_000), Vec3::new(0, 0, 0));

    let image = renderer.render(&cloud, &camera, TAN_HALF_45).unwrap();

    for y in 0..100 {
        for x in 0..100 {
            assert_ne!(image.get_pixel(x, y), Color::red(), "No red pixels should be visible");
        }
    }
}

#[test]
fn test_draw_point_pixel() {
    let renderer = ImageRenderer::new(10, 10).unwrap();
    let mut image = altostratus::ImageBuffer::filled(10, 10, Color::black());

    renderer.draw_point_pixel(&mut image, 5_000_000, 5_000_000, Color::red());

    assert_eq!(image.get_pixel(5, 5), Color::red());
}

#[test]
fn test_draw_point_square() {
    let renderer = ImageRenderer::new(10, 10).unwrap();
    let mut image = altostratus::ImageBuffer::filled(10, 10, Color::black());

    renderer.draw_point_square(&mut image, 5_000_000, 5_000_000, 1_000_000, Color::green());

    assert_eq!(image.get_pixel(5, 5), Color::green());
    assert_eq!(image.get_pixel(4, 5), Color::green());
    assert_eq!(image.get_pixel(6, 5), Color::green());
    assert_eq!(image.get_pixel(5, 4), Color::green());
    assert_eq!(image.get_pixel(5, 6), Color::green());
}

#[test]
fn test_draw_point_circle() {
    let renderer = ImageRenderer::new(10, 10).unwrap();
    let mut image = altostratus::ImageBuffer::filled(10, 10, Color::black());

    renderer.draw_point(&mut image, 5_000_000, 5_000_000, 2_000_000, Color::blue());

    assert_eq!(image.get_pixel(5, 5), Color::blue());
    assert_eq!(image.get_pixel(4, 5), Color::blue());
    assert_eq!(image.get_pixel(6, 5), Color::blue());
    assert_eq!(image.get_pixel(5, 4), Color::blue());
    assert_eq!(image.get_pixel(5, 6), Color::blue());
}

#[test]
fn test_advanced_image_renderer_new() {
    let renderer = AdvancedImageRenderer::new(800, 600).unwrap();
    assert_eq!(renderer.viewport_size(), (800, 600));
    assert_eq!(renderer.point_style(), PointStyle::Circle);
    assert!(!renderer.antialiasing_enabled());
}

#[test]
fn test_advanced_renderer_set_point_style() {
    let mut renderer = AdvancedImageRenderer::new(800, 600).unwrap();
    renderer.set_point_style(PointStyle::Square);
    assert_eq!(renderer.point_style(), PointStyle::Square);
}

#[test]
fn test_advanced_renderer_set_antialiasing() {
    let mut renderer = AdvancedImageRenderer::new(800, 600).unwrap();
    renderer.set_antialiasing(true);
    assert!(renderer.antialiasing_enabled());
}

#[test]
fn test_advanced_renderer_base_access() {
    let mut renderer = AdvancedImageRenderer::new(800, 600).unwrap();

    renderer.base_mut().set_background_color(Color::red());
    assert_eq!(renderer.base().background_color(), Color::red());

    assert_eq!(renderer.base().point_size(), 2_000_000);
}

#[test]
fn test_point_style_enum() {
    assert_eq!(PointStyle::Pixel, PointStyle::Pixel);
    assert_ne!(PointStyle::Pixel, PointStyle::Square);
    assert_ne!(PointStyle::Square, PointStyle::Circle);
}
